//! The two kinds of reference a note holds: Obsidian wiki links
//! `[[target]]` / `[[target|alias]]`, and Markdown images `![alt](path)`.
//!
//! A wiki link is two `[`, then at least one character that is neither `[`
//! nor `]`, then two `]`. An image is `![`, any text without `]`, `](`, at
//! least one character other than `)`, then `)`. The text is read from left
//! to right; each reference starts at the first place where one starts, and
//! the next one is looked for after its end.

use vstd::prelude::*;
use crate::text::{chars_of, chars_start_with, find_char, find_char_from, lemma_find_char_bounds, starts_with, string_from_chars, sub_chars, trim, trim_chars};
use crate::path::{file_name, file_name_of};

verus! {

/// The values of a sequence of strings.
pub open spec fn strings_view(v: Seq<String>) -> Seq<Seq<char>> {
    v.map_values(|x: String| x@)
}

pub open spec fn is_square_bracket(c: char) -> bool {
    c == '[' || c == ']'
}

/// The first position at or after `j` that holds a square bracket (or the
/// length of `s`): where the text of a wiki link that starts at `j - 2` ends.
pub open spec fn link_text_end(s: Seq<char>, j: int) -> int
    decreases s.len() - j,
{
    if 0 <= j < s.len() && !is_square_bracket(s[j]) {
        link_text_end(s, j + 1)
    } else {
        j
    }
}

/// Whether a wiki link starts at position `i` of `s`.
pub open spec fn wiki_link_at(s: Seq<char>, i: int) -> bool {
    let e = link_text_end(s, i + 2);
    &&& 0 <= i
    &&& i + 1 < s.len()
    &&& s[i] == '['
    &&& s[i + 1] == '['
    &&& i + 2 < e
    &&& e + 1 < s.len()
    &&& s[e] == ']'
    &&& s[e + 1] == ']'
}

/// The note a wiki link's text names: what precedes its first `|` (the
/// rest is an alias), without surrounding white space.
pub open spec fn link_target(text: Seq<char>) -> Seq<char> {
    trim(text.subrange(0, find_char(text, '|', 0)))
}

/// The targets of the wiki links found in `s` from position `i` on.
pub open spec fn wiki_links_from(s: Seq<char>, i: int) -> Seq<Seq<char>>
    decreases s.len() - i,
{
    if i < 0 || i >= s.len() {
        Seq::empty()
    } else if wiki_link_at(s, i) {
        let e = link_text_end(s, i + 2);
        seq![link_target(s.subrange(i + 2, e))] + wiki_links_from(s, e + 2)
    } else {
        wiki_links_from(s, i + 1)
    }
}

/// The targets of all wiki links in a text, in order.
pub open spec fn wiki_links(s: Seq<char>) -> Seq<Seq<char>> {
    wiki_links_from(s, 0)
}

/// Whether an image reference starts at position `i` of `s`.
pub open spec fn image_ref_at(s: Seq<char>, i: int) -> bool {
    let k = find_char(s, ']', i + 2);
    let m = find_char(s, ')', k + 2);
    &&& 0 <= i
    &&& i + 1 < s.len()
    &&& s[i] == '!'
    &&& s[i + 1] == '['
    &&& k + 1 < s.len()
    &&& s[k + 1] == '('
    &&& k + 2 < m < s.len()
}

pub open spec fn http_prefix() -> Seq<char> {
    seq!['h', 't', 't', 'p', ':', '/', '/']
}

pub open spec fn https_prefix() -> Seq<char> {
    seq!['h', 't', 't', 'p', 's', ':', '/', '/']
}

/// The file an image reference names: the file name of its trimmed path,
/// or none when the path is an `http://` or `https://` address or has no
/// file name.
pub open spec fn image_name(raw: Seq<char>) -> Option<Seq<char>> {
    let t = trim(raw);
    if starts_with(t, http_prefix()) || starts_with(t, https_prefix()) {
        None
    } else {
        file_name(t)
    }
}

/// The file names of the local images referenced in `s` from position `i` on.
pub open spec fn image_refs_from(s: Seq<char>, i: int) -> Seq<Seq<char>>
    decreases s.len() - i,
{
    if i < 0 || i >= s.len() {
        Seq::empty()
    } else if image_ref_at(s, i) {
        proof {
            lemma_find_char_bounds(s, ']', i + 2);
        }
        let k = find_char(s, ']', i + 2);
        let m = find_char(s, ')', k + 2);
        match image_name(s.subrange(k + 2, m)) {
            Some(name) => seq![name] + image_refs_from(s, m + 1),
            None => image_refs_from(s, m + 1),
        }
    } else {
        image_refs_from(s, i + 1)
    }
}

/// The file names of all local images referenced in a text, in order.
pub open spec fn image_refs(s: Seq<char>) -> Seq<Seq<char>> {
    image_refs_from(s, 0)
}

/// The end of the text of a wiki link, as [`link_text_end`] states.
fn link_text_end_of(s: &Vec<char>, j: usize) -> (e: usize)
    requires
        j <= s@.len(),
    ensures
        e == link_text_end(s@, j as int),
        j <= e <= s@.len(),
{
    let mut k: usize = j;
    while k < s.len() && s[k] != '[' && s[k] != ']'
        invariant
            j <= k <= s@.len(),
            link_text_end(s@, k as int) == link_text_end(s@, j as int),
        decreases s@.len() - k,
    {
        k = k + 1;
    }
    k
}

/// The targets of the Obsidian wiki links in a note's text, in order:
/// `[[note]]` gives `note`, `[[note|alias]]` gives `note`.
pub fn extract_links(content: &str) -> (links: Vec<String>)
    ensures
        strings_view(links@) == wiki_links(content@),
{
    let s = chars_of(content);
    let n = s.len();
    let mut out: Vec<String> = Vec::new();
    let mut i: usize = 0;
    while i < n
        invariant
            n == s@.len(),
            s@ == content@,
            i <= n,
            strings_view(out@) + wiki_links_from(s@, i as int) == wiki_links(s@),
        decreases n - i,
    {
        if i + 1 < n && s[i] == '[' && s[i + 1] == '[' {
            let e = link_text_end_of(&s, i + 2);
            if e > i + 2 && e < n - 1 && s[e] == ']' && s[e + 1] == ']' {
                assert(wiki_link_at(s@, i as int));
                let text = sub_chars(&s, i + 2, e);
                let p = find_char_from(&text, '|', 0);
                proof {
                    lemma_find_char_bounds(text@, '|', 0);
                }
                let target = trim_chars(&sub_chars(&text, 0, p));
                let link = string_from_chars(&target);
                let ghost before = strings_view(out@);
                out.push(link);
                assert(strings_view(out@) =~= before.push(link@));
                assert(strings_view(out@) + wiki_links_from(s@, (e + 2) as int) =~= before
                    + wiki_links_from(s@, i as int));
                i = e + 2;
                continue;
            }
        }
        i = i + 1;
    }
    assert(wiki_links_from(s@, i as int) =~= Seq::<Seq<char>>::empty());
    assert(strings_view(out@) + Seq::<Seq<char>>::empty() =~= strings_view(out@));
    out
}

/// The file an image reference names, as [`image_name`] states.
fn image_name_of(raw: &Vec<char>) -> (r: Option<Vec<char>>)
    ensures
        match r {
            Some(v) => image_name(raw@) == Some(v@),
            None => image_name(raw@) is None,
        },
{
    let t = trim_chars(raw);
    let http: Vec<char> = vec!['h', 't', 't', 'p', ':', '/', '/'];
    let https: Vec<char> = vec!['h', 't', 't', 'p', 's', ':', '/', '/'];
    assert(http@ =~= http_prefix());
    assert(https@ =~= https_prefix());
    if chars_start_with(&t, &http) || chars_start_with(&t, &https) {
        None
    } else {
        file_name_of(&t)
    }
}

/// The file names of the local images that a note's text references, in
/// order: `![alt](dir/pic.png)` gives `pic.png`; `http://` and `https://`
/// addresses are left out.
pub fn extract_image_refs(content: &str) -> (refs: Vec<String>)
    ensures
        strings_view(refs@) == image_refs(content@),
{
    let s = chars_of(content);
    let n = s.len();
    let mut out: Vec<String> = Vec::new();
    let mut i: usize = 0;
    while i < n
        invariant
            n == s@.len(),
            s@ == content@,
            i <= n,
            strings_view(out@) + image_refs_from(s@, i as int) == image_refs(s@),
        decreases n - i,
    {
        if i + 1 < n && s[i] == '!' && s[i + 1] == '[' {
            let k = find_char_from(&s, ']', i + 2);
            proof {
                lemma_find_char_bounds(s@, ']', i + 2);
            }
            if k < n - 1 && s[k + 1] == '(' {
                let m = find_char_from(&s, ')', k + 2);
                proof {
                    lemma_find_char_bounds(s@, ')', (k + 2) as int);
                }
                if k + 2 < m && m < n {
                    assert(image_ref_at(s@, i as int));
                    let raw = sub_chars(&s, k + 2, m);
                    let ghost before = strings_view(out@);
                    match image_name_of(&raw) {
                        Some(name) => {
                            out.push(string_from_chars(&name));
                            assert(strings_view(out@) =~= before.push(name@));
                            assert(strings_view(out@) + image_refs_from(s@, (m + 1) as int)
                                =~= before + image_refs_from(s@, i as int));
                        },
                        None => {},
                    }
                    i = m + 1;
                    continue;
                }
            }
        }
        i = i + 1;
    }
    assert(image_refs_from(s@, i as int) =~= Seq::<Seq<char>>::empty());
    assert(strings_view(out@) + Seq::<Seq<char>>::empty() =~= strings_view(out@));
    out
}

} // verus!
