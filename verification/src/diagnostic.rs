//! The diagnosis of a knowledge base: which wiki links name no note, which
//! notes have neither incoming nor outgoing links, and which images no note
//! references.
//!
//! Notes are named by the stem of their file name in lower case; a link
//! `[[dir/Name]]` names the note whose key is `name`, the lower-cased text
//! after its last `/`. An image is referenced when some note holds an image
//! reference whose file name is, in lower case, that of the image.

use vstd::prelude::*;
use crate::models::{DiagnosticReport, Issue, NoteIssue, issues_view};
use crate::parser::{extract_image_refs, extract_links, image_refs, strings_view, wiki_links};
use crate::path::{file_name, file_name_of, file_stem, file_stem_of};
use crate::text::{
    chars_of, lowercase, rfind_char, rfind_char_before, string_from_chars, sub_chars,
    to_lowercase,
};

verus! {

/// A note found by a scan: its path and, when it could be read, its text.
#[derive(Debug, Clone)]
pub struct NoteSource {
    pub path: String,
    pub content: Option<String>,
}

/// The value of a [`NoteSource`].
pub struct Note {
    pub path: Seq<char>,
    pub content: Option<Seq<char>>,
}

impl View for NoteSource {
    type V = Note;

    open spec fn view(&self) -> Note {
        Note {
            path: self.path@,
            content: match self.content {
                Some(c) => Some(c@),
                None => None,
            },
        }
    }
}

/// The values of a sequence of notes.
pub open spec fn notes_view(v: Seq<NoteSource>) -> Seq<Note> {
    v.map_values(|n: NoteSource| n@)
}

/// The key by which links name a note: the stem of its file name, in lower case.
pub open spec fn stem_key(path: Seq<char>) -> Option<Seq<char>> {
    match file_stem(path) {
        Some(stem) => Some(lowercase(stem)),
        None => None,
    }
}

/// Whether some note has the key `key`.
pub open spec fn is_note_key(notes: Seq<Note>, key: Seq<char>) -> bool {
    exists|i: int| 0 <= i < notes.len() && #[trigger] stem_key(notes[i].path) == Some(key)
}

/// The targets of the wiki links of a note (none when it could not be read).
pub open spec fn note_links(n: Note) -> Seq<Seq<char>> {
    match n.content {
        Some(c) => wiki_links(c),
        None => Seq::empty(),
    }
}

/// The file names of the images a note references (none when it could not be read).
pub open spec fn note_images(n: Note) -> Seq<Seq<char>> {
    match n.content {
        Some(c) => image_refs(c),
        None => Seq::empty(),
    }
}

/// The key a link names: its text after the last `/`, in lower case.
pub open spec fn link_key(link: Seq<char>) -> Seq<char> {
    lowercase(link.subrange(rfind_char(link, '/', link.len() as int) + 1, link.len() as int))
}

/// Whether a link names a note of the knowledge base.
pub open spec fn resolves(notes: Seq<Note>, link: Seq<char>) -> bool {
    is_note_key(notes, link_key(link))
}

/// Whether link `j` of note `i` names a note.
pub open spec fn resolved_link(notes: Seq<Note>, i: int, j: int) -> bool {
    &&& 0 <= i < notes.len()
    &&& 0 <= j < note_links(notes[i]).len()
    &&& resolves(notes, note_links(notes[i])[j])
}

/// The broken links among `links`, all found in the note at `path`, in order.
pub open spec fn broken_in(notes: Seq<Note>, path: Seq<char>, links: Seq<Seq<char>>) -> Seq<Issue>
    decreases links.len(),
{
    if links.len() == 0 {
        Seq::empty()
    } else {
        let rest = broken_in(notes, path, links.drop_last());
        if resolves(notes, links.last()) {
            rest
        } else {
            rest.push(Issue::BrokenLink { file: path, link: links.last() })
        }
    }
}

/// The broken links of the first `k` notes, note by note, each in order.
pub open spec fn broken_links_upto(notes: Seq<Note>, k: int) -> Seq<Issue>
    decreases k,
{
    if k <= 0 {
        Seq::empty()
    } else {
        broken_links_upto(notes, k - 1) + broken_in(notes, notes[k - 1].path, note_links(notes[k - 1]))
    }
}

/// Every link that names no note, with the note that holds it, in the order
/// of the notes and, within a note, of its text.
pub open spec fn broken_links(notes: Seq<Note>) -> Seq<Issue> {
    broken_links_upto(notes, notes.len() as int)
}

/// Whether a note other than the one at `path` holds a link that names
/// the note key `key`.
pub open spec fn is_referenced(notes: Seq<Note>, key: Seq<char>, path: Seq<char>) -> bool {
    exists|i: int, j: int|
        #[trigger] resolved_link(notes, i, j) && link_key(note_links(notes[i])[j]) == key
            && notes[i].path != path
}

/// Whether a note other than the one at `path` has the key `key`.
pub open spec fn names_other_note(notes: Seq<Note>, key: Seq<char>, path: Seq<char>) -> bool {
    exists|m: int|
        0 <= m < notes.len() && #[trigger] stem_key(notes[m].path) == Some(key) && notes[m].path
            != path
}

/// Whether the note at `path` holds a link that names some other note.
pub open spec fn has_outgoing(notes: Seq<Note>, path: Seq<char>) -> bool {
    exists|i: int, j: int|
        #[trigger] resolved_link(notes, i, j) && notes[i].path == path && names_other_note(
            notes,
            link_key(note_links(notes[i])[j]),
            path,
        )
}

/// The key under which a note is looked up for incoming links (empty when
/// its path has no stem).
pub open spec fn orphan_key(n: Note) -> Seq<char> {
    match stem_key(n.path) {
        Some(k) => k,
        None => Seq::empty(),
    }
}

/// Whether a note has no incoming and no outgoing links: no other note
/// links to it, and it links to no other note.
pub open spec fn is_orphan(notes: Seq<Note>, n: Note) -> bool {
    !is_referenced(notes, orphan_key(n), n.path) && !has_outgoing(notes, n.path)
}

/// The orphan notes, in the order of the notes.
pub open spec fn orphan_notes(notes: Seq<Note>) -> Seq<Issue> {
    notes.filter(|n: Note| is_orphan(notes, n)).map_values(|n: Note| Issue::OrphanNote { file: n.path })
}

/// Whether some note references an image whose file name is, in lower case, `name`.
pub open spec fn is_referenced_image(notes: Seq<Note>, name: Seq<char>) -> bool {
    exists|i: int, j: int|
        0 <= i < notes.len() && 0 <= j < note_images(notes[i]).len() && #[trigger] lowercase(
            note_images(notes[i])[j],
        ) == name
}

/// The key under which an image is looked up: its file name in lower case
/// (empty when its path has no file name).
pub open spec fn asset_key(asset: Seq<char>) -> Seq<char> {
    match file_name(asset) {
        Some(name) => lowercase(name),
        None => Seq::empty(),
    }
}

/// Whether no note references an image.
pub open spec fn is_dead_asset(notes: Seq<Note>, asset: Seq<char>) -> bool {
    !is_referenced_image(notes, asset_key(asset))
}

/// The images that no note references, in the order of the images.
pub open spec fn dead_assets(notes: Seq<Note>, assets: Seq<Seq<char>>) -> Seq<Issue> {
    assets.filter(|a: Seq<char>| is_dead_asset(notes, a)).map_values(|a: Seq<char>| Issue::DeadAsset { file: a })
}

pub(crate) proof fn lemma_push_contains<A>(s: Seq<A>, x: A, k: A)
    ensures
        s.push(x).contains(k) <==> (s.contains(k) || k == x),
{
    if s.push(x).contains(k) {
        let m = choose|m: int| 0 <= m < s.push(x).len() && s.push(x)[m] == k;
        if m < s.len() {
            assert(s[m] == k);
        }
    }
    if s.contains(k) {
        let m = choose|m: int| 0 <= m < s.len() && s[m] == k;
        assert(s.push(x)[m] == k);
    }
    if k == x {
        assert(s.push(x)[s.len() as int] == k);
    }
}

/// Whether `v` holds a string with the characters of `s`.
fn contains_string(v: &Vec<String>, s: &String) -> (b: bool)
    ensures
        b == strings_view(v@).contains(s@),
{
    let mut k: usize = 0;
    while k < v.len()
        invariant
            0 <= k <= v@.len(),
            forall|m: int| 0 <= m < k ==> v@[m]@ != s@,
        decreases v@.len() - k,
    {
        if v[k] == *s {
            assert(strings_view(v@)[k as int] == s@);
            return true;
        }
        k = k + 1;
    }
    assert forall|m: int| 0 <= m < strings_view(v@).len() implies strings_view(v@)[m] != s@ by {
        assert(strings_view(v@)[m] == v@[m]@);
    }
    false
}

/// The lower-cased stem of a path, as [`stem_key`] states.
fn stem_key_of(path: &String) -> (r: Option<String>)
    ensures
        match r {
            Some(k) => stem_key(path@) == Some(k@),
            None => stem_key(path@) is None,
        },
{
    let p = chars_of(path.as_str());
    match file_stem_of(&p) {
        Some(stem) => {
            let s = string_from_chars(&stem);
            Some(to_lowercase(s.as_str()))
        },
        None => None,
    }
}

/// The key a link names, as [`link_key`] states.
fn link_key_of(link: &String) -> (k: String)
    ensures
        k@ == link_key(link@),
{
    let l = chars_of(link.as_str());
    let start = rfind_char_before(&l, '/', l.len());
    proof {
        crate::text::lemma_rfind_char_bounds(l@, '/', l@.len() as int);
    }
    let tail = string_from_chars(&sub_chars(&l, start, l.len()));
    to_lowercase(tail.as_str())
}

/// The keys of all notes.
fn note_keys(notes: &Vec<NoteSource>) -> (keys: Vec<String>)
    ensures
        forall|k: Seq<char>| strings_view(keys@).contains(k) <==> is_note_key(notes_view(notes@), k),
{
    let ghost nv = notes_view(notes@);
    let mut keys: Vec<String> = Vec::new();
    let mut i: usize = 0;
    while i < notes.len()
        invariant
            0 <= i <= notes@.len(),
            nv == notes_view(notes@),
            forall|k: Seq<char>|
                strings_view(keys@).contains(k) <==> exists|a: int|
                    0 <= a < i && #[trigger] stem_key(nv[a].path) == Some(k),
        decreases notes@.len() - i,
    {
        let ghost before = keys@;
        let key = stem_key_of(&notes[i].path);
        assert(nv[i as int] == notes@[i as int]@);
        match key {
            Some(k) => {
                keys.push(k);
                assert(strings_view(keys@) =~= strings_view(before).push(k@));
                assert forall|x: Seq<char>|
                    strings_view(keys@).contains(x) <==> exists|a: int|
                        0 <= a < i + 1 && #[trigger] stem_key(nv[a].path) == Some(x) by {
                    lemma_push_contains(strings_view(before), k@, x);
                    if x == k@ {
                        assert(stem_key(nv[i as int].path) == Some(x));
                    }
                    if exists|a: int| 0 <= a < i + 1 && #[trigger] stem_key(nv[a].path) == Some(x) {
                        let a = choose|a: int| 0 <= a < i + 1 && #[trigger] stem_key(nv[a].path) == Some(x);
                        if a < i {
                            assert(exists|a: int| 0 <= a < i && #[trigger] stem_key(nv[a].path) == Some(x));
                        }
                    }
                }
            },
            None => {
                assert forall|x: Seq<char>|
                    strings_view(keys@).contains(x) <==> exists|a: int|
                        0 <= a < i + 1 && #[trigger] stem_key(nv[a].path) == Some(x) by {
                    if exists|a: int| 0 <= a < i + 1 && #[trigger] stem_key(nv[a].path) == Some(x) {
                        let a = choose|a: int| 0 <= a < i + 1 && #[trigger] stem_key(nv[a].path) == Some(x);
                        if a < i {
                            assert(exists|a: int| 0 <= a < i && #[trigger] stem_key(nv[a].path) == Some(x));
                        }
                    }
                }
            },
        }
        i = i + 1;
    }
    keys
}

/// Whether position `(a, b)` comes before `(i, j)`: note `a` before note
/// `i`, or link (image) `b` before `j` within note `i`.
pub open spec fn before_pos(a: int, b: int, i: int, j: int) -> bool {
    a < i || (a == i && b < j)
}

/// Whether a link before position `(i, j)` names a note, has the key
/// `key` and is held by the note at `holder`.
pub open spec fn link_before(
    notes: Seq<Note>,
    i: int,
    j: int,
    key: Seq<char>,
    holder: Seq<char>,
) -> bool {
    exists|a: int, b: int|
        #[trigger] resolved_link(notes, a, b) && before_pos(a, b, i, j) && link_key(
            note_links(notes[a])[b],
        ) == key && notes[a].path == holder
}

/// Whether some link names a note, has the key `key` and is held by the
/// note at `holder`.
pub open spec fn resolved_pair(notes: Seq<Note>, key: Seq<char>, holder: Seq<char>) -> bool {
    exists|a: int, b: int|
        #[trigger] resolved_link(notes, a, b) && link_key(note_links(notes[a])[b]) == key
            && notes[a].path == holder
}

/// Whether an image reference before position `(i, j)` has, in lower
/// case, the file name `name`.
pub open spec fn image_before(notes: Seq<Note>, i: int, j: int, name: Seq<char>) -> bool {
    exists|a: int, b: int|
        0 <= a < notes.len() && 0 <= b < note_images(notes[a]).len() && before_pos(a, b, i, j)
            && #[trigger] lowercase(note_images(notes[a])[b]) == name
}

proof fn lemma_link_step(notes: Seq<Note>, i: int, j: int)
    requires
        0 <= i < notes.len(),
        0 <= j < note_links(notes[i]).len(),
    ensures
        forall|k: Seq<char>, h: Seq<char>|
            link_before(notes, i, j + 1, k, h) <==> (link_before(notes, i, j, k, h) || (
            resolved_link(notes, i, j) && link_key(note_links(notes[i])[j]) == k && notes[i].path
                == h)),
{
    assert forall|k: Seq<char>, h: Seq<char>|
        link_before(notes, i, j + 1, k, h) <==> (link_before(notes, i, j, k, h) || (
        resolved_link(notes, i, j) && link_key(note_links(notes[i])[j]) == k && notes[i].path
            == h)) by {
        if link_before(notes, i, j + 1, k, h) {
            let (a, b) = choose|a: int, b: int|
                #[trigger] resolved_link(notes, a, b) && before_pos(a, b, i, j + 1) && link_key(
                    note_links(notes[a])[b],
                ) == k && notes[a].path == h;
            if !(a == i && b == j) {
                assert(before_pos(a, b, i, j));
            }
        }
        if resolved_link(notes, i, j) && link_key(note_links(notes[i])[j]) == k && notes[i].path
            == h {
            assert(before_pos(i, j, i, j + 1));
        }
    }
}

proof fn lemma_link_next_note(notes: Seq<Note>, i: int)
    requires
        0 <= i < notes.len(),
    ensures
        forall|k: Seq<char>, h: Seq<char>|
            link_before(notes, i + 1, 0, k, h) <==> link_before(
                notes,
                i,
                note_links(notes[i]).len() as int,
                k,
                h,
            ),
        forall|n: Seq<char>|
            image_before(notes, i + 1, 0, n) <==> image_before(
                notes,
                i,
                note_images(notes[i]).len() as int,
                n,
            ),
{
    let len = note_links(notes[i]).len() as int;
    let ilen = note_images(notes[i]).len() as int;
    assert forall|k: Seq<char>, h: Seq<char>|
        link_before(notes, i + 1, 0, k, h) <==> link_before(notes, i, len, k, h) by {
        if link_before(notes, i + 1, 0, k, h) {
            let (a, b) = choose|a: int, b: int|
                #[trigger] resolved_link(notes, a, b) && before_pos(a, b, i + 1, 0) && link_key(
                    note_links(notes[a])[b],
                ) == k && notes[a].path == h;
            assert(before_pos(a, b, i, len));
        }
        if link_before(notes, i, len, k, h) {
            let (a, b) = choose|a: int, b: int|
                #[trigger] resolved_link(notes, a, b) && before_pos(a, b, i, len) && link_key(
                    note_links(notes[a])[b],
                ) == k && notes[a].path == h;
            assert(before_pos(a, b, i + 1, 0));
        }
    }
    assert forall|n: Seq<char>|
        image_before(notes, i + 1, 0, n) <==> image_before(notes, i, ilen, n) by {
        if image_before(notes, i + 1, 0, n) {
            let (a, b) = choose|a: int, b: int|
                0 <= a < notes.len() && 0 <= b < note_images(notes[a]).len() && before_pos(
                    a,
                    b,
                    i + 1,
                    0,
                ) && #[trigger] lowercase(note_images(notes[a])[b]) == n;
            assert(before_pos(a, b, i, ilen));
        }
        if image_before(notes, i, ilen, n) {
            let (a, b) = choose|a: int, b: int|
                0 <= a < notes.len() && 0 <= b < note_images(notes[a]).len() && before_pos(
                    a,
                    b,
                    i,
                    ilen,
                ) && #[trigger] lowercase(note_images(notes[a])[b]) == n;
            assert(before_pos(a, b, i + 1, 0));
        }
    }
}

proof fn lemma_image_step(notes: Seq<Note>, i: int, j: int)
    requires
        0 <= i < notes.len(),
        0 <= j < note_images(notes[i]).len(),
    ensures
        forall|n: Seq<char>|
            image_before(notes, i, j + 1, n) <==> (image_before(notes, i, j, n) || lowercase(
                note_images(notes[i])[j],
            ) == n),
{
    assert forall|n: Seq<char>|
        image_before(notes, i, j + 1, n) <==> (image_before(notes, i, j, n) || lowercase(
            note_images(notes[i])[j],
        ) == n) by {
        if image_before(notes, i, j + 1, n) {
            let (a, b) = choose|a: int, b: int|
                0 <= a < notes.len() && 0 <= b < note_images(notes[a]).len() && before_pos(
                    a,
                    b,
                    i,
                    j + 1,
                ) && #[trigger] lowercase(note_images(notes[a])[b]) == n;
            if !(a == i && b == j) {
                assert(before_pos(a, b, i, j));
            }
        }
        if lowercase(note_images(notes[i])[j]) == n {
            assert(before_pos(i, j, i, j + 1));
        }
    }
}

/// The values of a sequence of pairs of strings.
pub open spec fn pairs_view(v: Seq<(String, String)>) -> Seq<(Seq<char>, Seq<char>)> {
    v.map_values(|p: (String, String)| (p.0@, p.1@))
}

/// Goes through the links of note `i`: each link that names a note adds
/// its key, with the note's path, to `resolved`; each other link is a
/// broken link.
fn scan_note_links(
    Ghost(notes): Ghost<Seq<Note>>,
    Ghost(i): Ghost<int>,
    path: &String,
    links: &Vec<String>,
    keys: &Vec<String>,
    broken: &mut Vec<NoteIssue>,
    resolved: &mut Vec<(String, String)>,
)
    requires
        0 <= i < notes.len(),
        notes[i].path == path@,
        strings_view(links@) == note_links(notes[i]),
        forall|k: Seq<char>| strings_view(keys@).contains(k) <==> is_note_key(notes, k),
        forall|k: Seq<char>, h: Seq<char>|
            pairs_view(old(resolved)@).contains((k, h)) <==> link_before(notes, i, 0, k, h),
    ensures
        issues_view(final(broken)@) == issues_view(old(broken)@) + broken_in(
            notes,
            path@,
            note_links(notes[i]),
        ),
        forall|k: Seq<char>, h: Seq<char>|
            pairs_view(final(resolved)@).contains((k, h)) <==> link_before(notes, i + 1, 0, k, h),
{
    let ghost all = note_links(notes[i]);
    let ghost start = issues_view(broken@);
    let mut j: usize = 0;
    assert(all.take(0) =~= Seq::<Seq<char>>::empty());
    while j < links.len()
        invariant
            0 <= i < notes.len(),
            notes[i].path == path@,
            all == note_links(notes[i]),
            strings_view(links@) == all,
            0 <= j <= links@.len(),
            forall|k: Seq<char>| strings_view(keys@).contains(k) <==> is_note_key(notes, k),
            forall|k: Seq<char>, h: Seq<char>|
                pairs_view(resolved@).contains((k, h)) <==> link_before(notes, i, j as int, k, h),
            issues_view(broken@) == start + broken_in(notes, path@, all.take(j as int)),
        decreases links@.len() - j,
    {
        let link = &links[j];
        assert(link@ == all[j as int]);
        let key = link_key_of(link);
        let found = contains_string(keys, &key);
        proof {
            lemma_link_step(notes, i, j as int);
            assert(all.take(j + 1).drop_last() =~= all.take(j as int));
            assert(all.take(j + 1).last() == all[j as int]);
        }
        let ghost r0 = pairs_view(resolved@);
        let ghost b0 = issues_view(broken@);
        if found {
            assert(resolved_link(notes, i, j as int));
            resolved.push((key, path.clone()));
            assert(pairs_view(resolved@) =~= r0.push((link_key(all[j as int]), path@)));
            assert forall|k: Seq<char>, h: Seq<char>|
                pairs_view(resolved@).contains((k, h)) <==> link_before(
                    notes,
                    i,
                    j + 1,
                    k,
                    h,
                ) by {
                lemma_push_contains(r0, (link_key(all[j as int]), path@), (k, h));
                assert(r0.contains((k, h)) <==> link_before(notes, i, j as int, k, h));
                assert(link_before(notes, i, j + 1, k, h) <==> (link_before(notes, i, j as int, k, h)
                    || (resolved_link(notes, i, j as int) && link_key(note_links(notes[i])[j as int])
                    == k && notes[i].path == h)));
            }
        } else {
            assert(!resolved_link(notes, i, j as int));
            let issue = NoteIssue::BrokenLink { file: path.clone(), link: link.clone() };
            broken.push(issue);
            assert(issues_view(broken@) =~= b0.push(
                Issue::BrokenLink { file: path@, link: all[j as int] },
            ));
            assert forall|k: Seq<char>, h: Seq<char>|
                pairs_view(resolved@).contains((k, h)) <==> link_before(
                    notes,
                    i,
                    j + 1,
                    k,
                    h,
                ) by {
                assert(r0.contains((k, h)) <==> link_before(notes, i, j as int, k, h));
                assert(link_before(notes, i, j + 1, k, h) <==> (link_before(notes, i, j as int, k, h)
                    || (resolved_link(notes, i, j as int) && link_key(note_links(notes[i])[j as int])
                    == k && notes[i].path == h)));
            }
        }
        j = j + 1;
    }
    assert(all.take(j as int) =~= all);
    assert(j == all.len());
    proof {
        lemma_link_next_note(notes, i);
        assert forall|k: Seq<char>, h: Seq<char>|
            pairs_view(resolved@).contains((k, h)) <==> link_before(notes, i + 1, 0, k, h) by {
            assert(pairs_view(resolved@).contains((k, h)) <==> link_before(
                notes,
                i,
                j as int,
                k,
                h,
            ));
        }
    }
}

/// Adds the lower-cased file names of note `i`'s image references to `images`.
fn scan_note_images(
    Ghost(notes): Ghost<Seq<Note>>,
    Ghost(i): Ghost<int>,
    refs: &Vec<String>,
    images: &mut Vec<String>,
)
    requires
        0 <= i < notes.len(),
        strings_view(refs@) == note_images(notes[i]),
        forall|n: Seq<char>| strings_view(old(images)@).contains(n) <==> image_before(notes, i, 0, n),
    ensures
        forall|n: Seq<char>|
            strings_view(final(images)@).contains(n) <==> image_before(notes, i + 1, 0, n),
{
    let ghost all = note_images(notes[i]);
    let mut j: usize = 0;
    while j < refs.len()
        invariant
            0 <= i < notes.len(),
            all == note_images(notes[i]),
            strings_view(refs@) == all,
            0 <= j <= refs@.len(),
            forall|n: Seq<char>|
                strings_view(images@).contains(n) <==> image_before(notes, i, j as int, n),
        decreases refs@.len() - j,
    {
        assert(refs@[j as int]@ == all[j as int]);
        let name = to_lowercase(refs[j].as_str());
        let ghost m0 = strings_view(images@);
        images.push(name);
        assert(strings_view(images@) =~= m0.push(lowercase(all[j as int])));
        proof {
            lemma_image_step(notes, i, j as int);
        }
        assert forall|n: Seq<char>|
            strings_view(images@).contains(n) <==> image_before(notes, i, j + 1, n) by {
            lemma_push_contains(m0, lowercase(all[j as int]), n);
            assert(m0.contains(n) <==> image_before(notes, i, j as int, n));
            assert(image_before(notes, i, j + 1, n) <==> (image_before(notes, i, j as int, n)
                || lowercase(note_images(notes[i])[j as int]) == n));
        }
        j = j + 1;
    }
    proof {
        lemma_link_next_note(notes, i);
        assert forall|n: Seq<char>|
            strings_view(images@).contains(n) <==> image_before(notes, i + 1, 0, n) by {
            assert(strings_view(images@).contains(n) <==> image_before(notes, i, j as int, n));
        }
    }
}

proof fn lemma_before_all(notes: Seq<Note>)
    ensures
        forall|k: Seq<char>, h: Seq<char>|
            link_before(notes, notes.len() as int, 0, k, h) <==> resolved_pair(notes, k, h),
        forall|n: Seq<char>|
            image_before(notes, notes.len() as int, 0, n) <==> is_referenced_image(notes, n),
{
    let len = notes.len() as int;
    assert forall|k: Seq<char>, h: Seq<char>|
        link_before(notes, len, 0, k, h) <==> resolved_pair(notes, k, h) by {
        if resolved_pair(notes, k, h) {
            let (a, b) = choose|a: int, b: int|
                #[trigger] resolved_link(notes, a, b) && link_key(note_links(notes[a])[b]) == k
                    && notes[a].path == h;
            assert(before_pos(a, b, len, 0));
        }
    }
    assert forall|n: Seq<char>| image_before(notes, len, 0, n) <==> is_referenced_image(notes, n) by {
        if is_referenced_image(notes, n) {
            let (a, b) = choose|a: int, b: int|
                0 <= a < notes.len() && 0 <= b < note_images(notes[a]).len() && #[trigger] lowercase(
                    note_images(notes[a])[b],
                ) == n;
            assert(before_pos(a, b, len, 0));
        }
    }
}

/// What the links and image references of all notes give: the broken
/// links, the key of each link that names a note together with the path of
/// the note that holds it, and the lower-cased file names of referenced images.
fn collect_references(notes: &Vec<NoteSource>, keys: &Vec<String>) -> (r: (
    Vec<NoteIssue>,
    Vec<(String, String)>,
    Vec<String>,
))
    requires
        forall|k: Seq<char>| strings_view(keys@).contains(k) <==> is_note_key(notes_view(notes@), k),
    ensures
        issues_view(r.0@) == broken_links(notes_view(notes@)),
        forall|k: Seq<char>, h: Seq<char>|
            pairs_view(r.1@).contains((k, h)) <==> resolved_pair(notes_view(notes@), k, h),
        forall|n: Seq<char>|
            strings_view(r.2@).contains(n) <==> is_referenced_image(notes_view(notes@), n),
{
    let ghost nv = notes_view(notes@);
    let mut broken: Vec<NoteIssue> = Vec::new();
    let mut resolved: Vec<(String, String)> = Vec::new();
    let mut images: Vec<String> = Vec::new();
    assert(issues_view(broken@) =~= broken_links_upto(nv, 0));
    assert forall|k: Seq<char>, h: Seq<char>| !link_before(nv, 0, 0, k, h) by {
        if link_before(nv, 0, 0, k, h) {
            let (a, b) = choose|a: int, b: int|
                #[trigger] resolved_link(nv, a, b) && before_pos(a, b, 0, 0) && link_key(
                    note_links(nv[a])[b],
                ) == k && nv[a].path == h;
        }
    }
    assert forall|n: Seq<char>| !image_before(nv, 0, 0, n) by {
        if image_before(nv, 0, 0, n) {
            let (a, b) = choose|a: int, b: int|
                0 <= a < nv.len() && 0 <= b < note_images(nv[a]).len() && before_pos(a, b, 0, 0)
                    && #[trigger] lowercase(note_images(nv[a])[b]) == n;
        }
    }
    let mut i: usize = 0;
    while i < notes.len()
        invariant
            0 <= i <= notes@.len(),
            nv == notes_view(notes@),
            forall|k: Seq<char>| strings_view(keys@).contains(k) <==> is_note_key(nv, k),
            issues_view(broken@) == broken_links_upto(nv, i as int),
            forall|k: Seq<char>, h: Seq<char>|
                pairs_view(resolved@).contains((k, h)) <==> link_before(nv, i as int, 0, k, h),
            forall|n: Seq<char>|
                strings_view(images@).contains(n) <==> image_before(nv, i as int, 0, n),
        decreases notes@.len() - i,
    {
        let note = &notes[i];
        assert(nv[i as int] == note@);
        let ghost b0 = issues_view(broken@);
        match &note.content {
            Some(c) => {
                let links = extract_links(c.as_str());
                scan_note_links(
                    Ghost(nv),
                    Ghost(i as int),
                    &note.path,
                    &links,
                    keys,
                    &mut broken,
                    &mut resolved,
                );
                let refs = extract_image_refs(c.as_str());
                scan_note_images(Ghost(nv), Ghost(i as int), &refs, &mut images);
            },
            None => {
                proof {
                    lemma_link_next_note(nv, i as int);
                    assert(broken_in(nv, note.path@, note_links(nv[i as int])) =~= Seq::<Issue>::empty());
                    assert(b0 + Seq::<Issue>::empty() =~= b0);
                }
                assert forall|k: Seq<char>, h: Seq<char>|
                    pairs_view(resolved@).contains((k, h)) <==> link_before(nv, i + 1, 0, k, h) by {
                    assert(pairs_view(resolved@).contains((k, h)) <==> link_before(
                        nv,
                        i as int,
                        0,
                        k,
                        h,
                    ));
                }
                assert forall|n: Seq<char>|
                    strings_view(images@).contains(n) <==> image_before(nv, i + 1, 0, n) by {
                    assert(strings_view(images@).contains(n) <==> image_before(nv, i as int, 0, n));
                }
            },
        }
        assert(broken_links_upto(nv, i + 1) == b0 + broken_in(nv, nv[i as int].path, note_links(nv[i as int])));
        i = i + 1;
    }
    proof {
        lemma_before_all(nv);
    }
    assert forall|k: Seq<char>, h: Seq<char>|
        pairs_view(resolved@).contains((k, h)) <==> resolved_pair(nv, k, h) by {
        assert(pairs_view(resolved@).contains((k, h)) <==> link_before(nv, i as int, 0, k, h));
    }
    assert forall|n: Seq<char>| strings_view(images@).contains(n) <==> is_referenced_image(nv, n) by {
        assert(strings_view(images@).contains(n) <==> image_before(nv, i as int, 0, n));
    }
    (broken, resolved, images)
}

/// The key and path of every note that has a key.
fn note_entries(notes: &Vec<NoteSource>) -> (entries: Vec<(String, String)>)
    ensures
        forall|k: Seq<char>, p: Seq<char>|
            pairs_view(entries@).contains((k, p)) <==> exists|m: int|
                0 <= m < notes@.len() && #[trigger] stem_key(notes_view(notes@)[m].path) == Some(k)
                    && notes_view(notes@)[m].path == p,
{
    let ghost nv = notes_view(notes@);
    let mut entries: Vec<(String, String)> = Vec::new();
    let mut i: usize = 0;
    while i < notes.len()
        invariant
            0 <= i <= notes@.len(),
            nv == notes_view(notes@),
            forall|k: Seq<char>, p: Seq<char>|
                pairs_view(entries@).contains((k, p)) <==> exists|m: int|
                    0 <= m < i && #[trigger] stem_key(nv[m].path) == Some(k) && nv[m].path == p,
        decreases notes@.len() - i,
    {
        let ghost e0 = pairs_view(entries@);
        let note = &notes[i];
        assert(nv[i as int] == note@);
        match stem_key_of(&note.path) {
            Some(k) => {
                let ghost kv = k@;
                entries.push((k, note.path.clone()));
                assert(pairs_view(entries@) =~= e0.push((kv, note.path@)));
                assert forall|x: Seq<char>, p: Seq<char>|
                    pairs_view(entries@).contains((x, p)) <==> exists|m: int|
                        0 <= m < i + 1 && #[trigger] stem_key(nv[m].path) == Some(x) && nv[m].path
                            == p by {
                    lemma_push_contains(e0, (kv, note.path@), (x, p));
                    if x == kv && p == note.path@ {
                        assert(stem_key(nv[i as int].path) == Some(x) && nv[i as int].path == p);
                    }
                    if exists|m: int|
                        0 <= m < i + 1 && #[trigger] stem_key(nv[m].path) == Some(x) && nv[m].path
                            == p {
                        let m = choose|m: int|
                            0 <= m < i + 1 && #[trigger] stem_key(nv[m].path) == Some(x) && nv[m].path
                                == p;
                        if m < i {
                            assert(exists|m: int|
                                0 <= m < i && #[trigger] stem_key(nv[m].path) == Some(x) && nv[m].path
                                    == p);
                        }
                    }
                }
            },
            None => {
                assert forall|x: Seq<char>, p: Seq<char>|
                    pairs_view(entries@).contains((x, p)) <==> exists|m: int|
                        0 <= m < i + 1 && #[trigger] stem_key(nv[m].path) == Some(x) && nv[m].path
                            == p by {
                    if exists|m: int|
                        0 <= m < i + 1 && #[trigger] stem_key(nv[m].path) == Some(x) && nv[m].path
                            == p {
                        let m = choose|m: int|
                            0 <= m < i + 1 && #[trigger] stem_key(nv[m].path) == Some(x) && nv[m].path
                                == p;
                        if m < i {
                            assert(exists|m: int|
                                0 <= m < i && #[trigger] stem_key(nv[m].path) == Some(x) && nv[m].path
                                    == p);
                        }
                    }
                }
            },
        }
        i = i + 1;
    }
    entries
}

/// Whether some pair has the key `key` and a path other than `path`.
pub open spec fn pair_elsewhere(pv: Seq<(Seq<char>, Seq<char>)>, key: Seq<char>, path: Seq<char>) -> bool {
    exists|k: Seq<char>, p: Seq<char>| #[trigger] pv.contains((k, p)) && k == key && p != path
}

fn find_pair_elsewhere(pairs: &Vec<(String, String)>, key: &String, path: &String) -> (b: bool)
    ensures
        b == pair_elsewhere(pairs_view(pairs@), key@, path@),
{
    let ghost pv = pairs_view(pairs@);
    let mut k: usize = 0;
    while k < pairs.len()
        invariant
            0 <= k <= pairs@.len(),
            pv == pairs_view(pairs@),
            forall|m: int| 0 <= m < k ==> !(pv[m].0 == key@ && pv[m].1 != path@),
        decreases pairs@.len() - k,
    {
        assert(pv[k as int] == (pairs@[k as int].0@, pairs@[k as int].1@));
        if pairs[k].0 == *key && !(pairs[k].1 == *path) {
            assert(pv.contains(pv[k as int]));
            return true;
        }
        k = k + 1;
    }
    proof {
        if pair_elsewhere(pv, key@, path@) {
            let (x, p) = choose|x: Seq<char>, p: Seq<char>|
                #[trigger] pv.contains((x, p)) && x == key@ && p != path@;
            let m = choose|m: int| 0 <= m < pv.len() && pv[m] == (x, p);
            assert(!(pv[m].0 == key@ && pv[m].1 != path@));
        }
    }
    false
}

/// Whether some pair with the path `path` has a key that `entries` holds
/// with another path.
fn find_outgoing(resolved: &Vec<(String, String)>, entries: &Vec<(String, String)>, path: &String) -> (b: bool)
    ensures
        b == exists|k: Seq<char>|
            #[trigger] pairs_view(resolved@).contains((k, path@)) && pair_elsewhere(
                pairs_view(entries@),
                k,
                path@,
            ),
{
    let ghost rv = pairs_view(resolved@);
    let ghost ev = pairs_view(entries@);
    let mut k: usize = 0;
    while k < resolved.len()
        invariant
            0 <= k <= resolved@.len(),
            rv == pairs_view(resolved@),
            ev == pairs_view(entries@),
            forall|m: int| 0 <= m < k ==> !(rv[m].1 == path@ && pair_elsewhere(ev, rv[m].0, path@)),
        decreases resolved@.len() - k,
    {
        assert(rv[k as int] == (resolved@[k as int].0@, resolved@[k as int].1@));
        if resolved[k].1 == *path && find_pair_elsewhere(entries, &resolved[k].0, path) {
            assert(rv.contains(rv[k as int]));
            return true;
        }
        k = k + 1;
    }
    proof {
        if exists|x: Seq<char>| #[trigger] rv.contains((x, path@)) && pair_elsewhere(ev, x, path@) {
            let x = choose|x: Seq<char>|
                #[trigger] rv.contains((x, path@)) && pair_elsewhere(ev, x, path@);
            let m = choose|m: int| 0 <= m < rv.len() && rv[m] == (x, path@);
            assert(!(rv[m].1 == path@ && pair_elsewhere(ev, rv[m].0, path@)));
        }
    }
    false
}

proof fn lemma_orphan_parts(
    notes: Seq<Note>,
    rv: Seq<(Seq<char>, Seq<char>)>,
    ev: Seq<(Seq<char>, Seq<char>)>,
    key: Seq<char>,
    path: Seq<char>,
)
    requires
        forall|k: Seq<char>, h: Seq<char>| rv.contains((k, h)) <==> resolved_pair(notes, k, h),
        forall|k: Seq<char>, p: Seq<char>|
            ev.contains((k, p)) <==> exists|m: int|
                0 <= m < notes.len() && #[trigger] stem_key(notes[m].path) == Some(k)
                    && notes[m].path == p,
    ensures
        pair_elsewhere(rv, key, path) <==> is_referenced(notes, key, path),
        (exists|k: Seq<char>| #[trigger] rv.contains((k, path)) && pair_elsewhere(ev, k, path))
            <==> has_outgoing(notes, path),
{
    if pair_elsewhere(rv, key, path) {
        let (k, h) = choose|k: Seq<char>, h: Seq<char>| #[trigger] rv.contains((k, h)) && k == key && h != path;
        assert(resolved_pair(notes, k, h));
        let (a, b) = choose|a: int, b: int|
            #[trigger] resolved_link(notes, a, b) && link_key(note_links(notes[a])[b]) == k
                && notes[a].path == h;
        assert(resolved_link(notes, a, b));
    }
    if is_referenced(notes, key, path) {
        let (a, b) = choose|a: int, b: int|
            #[trigger] resolved_link(notes, a, b) && link_key(note_links(notes[a])[b]) == key
                && notes[a].path != path;
        assert(resolved_pair(notes, key, notes[a].path));
        assert(rv.contains((key, notes[a].path)));
    }
    assert forall|k: Seq<char>| pair_elsewhere(ev, k, path) <==> names_other_note(notes, k, path) by {
        if pair_elsewhere(ev, k, path) {
            let (x, p) = choose|x: Seq<char>, p: Seq<char>| #[trigger] ev.contains((x, p)) && x == k && p != path;
            let m = choose|m: int|
                0 <= m < notes.len() && #[trigger] stem_key(notes[m].path) == Some(x)
                    && notes[m].path == p;
            assert(stem_key(notes[m].path) == Some(k));
        }
        if names_other_note(notes, k, path) {
            let m = choose|m: int|
                0 <= m < notes.len() && #[trigger] stem_key(notes[m].path) == Some(k) && notes[m].path
                    != path;
            assert(ev.contains((k, notes[m].path)));
        }
    }
    if exists|k: Seq<char>| #[trigger] rv.contains((k, path)) && pair_elsewhere(ev, k, path) {
        let k = choose|k: Seq<char>| #[trigger] rv.contains((k, path)) && pair_elsewhere(ev, k, path);
        assert(resolved_pair(notes, k, path));
        let (a, b) = choose|a: int, b: int|
            #[trigger] resolved_link(notes, a, b) && link_key(note_links(notes[a])[b]) == k
                && notes[a].path == path;
        assert(names_other_note(notes, link_key(note_links(notes[a])[b]), path));
    }
    if has_outgoing(notes, path) {
        let (a, b) = choose|a: int, b: int|
            #[trigger] resolved_link(notes, a, b) && notes[a].path == path && names_other_note(
                notes,
                link_key(note_links(notes[a])[b]),
                path,
            );
        let k = link_key(note_links(notes[a])[b]);
        assert(resolved_pair(notes, k, path));
        assert(rv.contains((k, path)));
        assert(pair_elsewhere(ev, k, path));
    }
}

/// The orphan notes, given each link that names a note (its key and the
/// path of the note that holds it) and the key and path of each note.
fn find_orphans(
    notes: &Vec<NoteSource>,
    resolved: &Vec<(String, String)>,
    entries: &Vec<(String, String)>,
) -> (r: Vec<NoteIssue>)
    requires
        forall|k: Seq<char>, h: Seq<char>|
            pairs_view(resolved@).contains((k, h)) <==> resolved_pair(notes_view(notes@), k, h),
        forall|k: Seq<char>, p: Seq<char>|
            pairs_view(entries@).contains((k, p)) <==> exists|m: int|
                0 <= m < notes@.len() && #[trigger] stem_key(notes_view(notes@)[m].path) == Some(k)
                    && notes_view(notes@)[m].path == p,
    ensures
        issues_view(r@) == orphan_notes(notes_view(notes@)),
{
    let ghost nv = notes_view(notes@);
    let ghost pred = |n: Note| is_orphan(nv, n);
    let ghost f = |n: Note| Issue::OrphanNote { file: n.path };
    let mut out: Vec<NoteIssue> = Vec::new();
    let mut i: usize = 0;
    while i < notes.len()
        invariant
            0 <= i <= notes@.len(),
            nv == notes_view(notes@),
            pred == (|n: Note| is_orphan(nv, n)),
            f == (|n: Note| Issue::OrphanNote { file: n.path }),
            forall|k: Seq<char>, h: Seq<char>|
                pairs_view(resolved@).contains((k, h)) <==> resolved_pair(nv, k, h),
            forall|k: Seq<char>, p: Seq<char>|
                pairs_view(entries@).contains((k, p)) <==> exists|m: int|
                    0 <= m < nv.len() && #[trigger] stem_key(nv[m].path) == Some(k) && nv[m].path
                        == p,
            issues_view(out@) == nv.take(i as int).filter(pred).map_values(f),
        decreases notes@.len() - i,
    {
        let note = &notes[i];
        assert(nv[i as int] == note@);
        let key = match stem_key_of(&note.path) {
            Some(k) => k,
            None => String::new(),
        };
        assert(key@ == orphan_key(note@));
        let referenced = find_pair_elsewhere(resolved, &key, &note.path);
        let outgoing = find_outgoing(resolved, entries, &note.path);
        proof {
            lemma_orphan_parts(nv, pairs_view(resolved@), pairs_view(entries@), key@, note.path@);
        }
        let ghost before = nv.take(i as int).filter(pred);
        proof {
            assert(nv.take(i + 1).drop_last() =~= nv.take(i as int));
            reveal(Seq::filter);
        }
        if !referenced && !outgoing {
            let ghost o0 = issues_view(out@);
            out.push(NoteIssue::OrphanNote { file: note.path.clone() });
            assert(issues_view(out@) =~= o0.push(f(note@)));
            assert(nv.take(i + 1).filter(pred) == before.push(note@));
            assert(before.push(note@).map_values(f) =~= before.map_values(f).push(f(note@)));
        } else {
            assert(nv.take(i + 1).filter(pred) == before);
        }
        i = i + 1;
    }
    assert(nv.take(notes@.len() as int) =~= nv);
    out
}

/// The key of an image, as [`asset_key`] states.
fn asset_key_of(asset: &String) -> (k: String)
    ensures
        k@ == asset_key(asset@),
{
    let a = chars_of(asset.as_str());
    match file_name_of(&a) {
        Some(name) => {
            let s = string_from_chars(&name);
            to_lowercase(s.as_str())
        },
        None => String::new(),
    }
}

/// The images that no note references, given the lower-cased file names of
/// the referenced images.
fn find_dead_assets(
    Ghost(notes): Ghost<Seq<Note>>,
    assets: &Vec<String>,
    images: &Vec<String>,
) -> (r: Vec<NoteIssue>)
    requires
        forall|n: Seq<char>| strings_view(images@).contains(n) <==> is_referenced_image(notes, n),
    ensures
        issues_view(r@) == dead_assets(notes, strings_view(assets@)),
{
    let ghost av = strings_view(assets@);
    let ghost pred = |a: Seq<char>| is_dead_asset(notes, a);
    let ghost f = |a: Seq<char>| Issue::DeadAsset { file: a };
    let mut out: Vec<NoteIssue> = Vec::new();
    let mut i: usize = 0;
    while i < assets.len()
        invariant
            0 <= i <= assets@.len(),
            av == strings_view(assets@),
            pred == (|a: Seq<char>| is_dead_asset(notes, a)),
            f == (|a: Seq<char>| Issue::DeadAsset { file: a }),
            forall|n: Seq<char>| strings_view(images@).contains(n) <==> is_referenced_image(notes, n),
            issues_view(out@) == av.take(i as int).filter(pred).map_values(f),
        decreases assets@.len() - i,
    {
        let asset = &assets[i];
        assert(av[i as int] == asset@);
        let key = asset_key_of(asset);
        let referenced = contains_string(images, &key);
        let ghost before = av.take(i as int).filter(pred);
        proof {
            assert(av.take(i + 1).drop_last() =~= av.take(i as int));
            reveal(Seq::filter);
        }
        if !referenced {
            let ghost o0 = issues_view(out@);
            out.push(NoteIssue::DeadAsset { file: asset.clone() });
            assert(issues_view(out@) =~= o0.push(f(asset@)));
            assert(av.take(i + 1).filter(pred) == before.push(asset@));
            assert(before.push(asset@).map_values(f) =~= before.map_values(f).push(f(asset@)));
        } else {
            assert(av.take(i + 1).filter(pred) == before);
        }
        i = i + 1;
    }
    assert(av.take(assets@.len() as int) =~= av);
    out
}

/// The paths of a scan's result, or none when the scan failed.
pub open spec fn assets_view(assets: Result<Vec<String>, String>) -> Seq<Seq<char>> {
    match assets {
        Ok(v) => strings_view(v@),
        Err(_) => Seq::empty(),
    }
}

/// Diagnoses a knowledge base from what its scans found: the notes (with
/// their text where it could be read) and the image files. When the notes
/// could not be scanned the report is empty; when the images could not be
/// scanned there are none.
pub fn run_diagnostics(
    notes: Result<Vec<NoteSource>, String>,
    assets: Result<Vec<String>, String>,
) -> (report: DiagnosticReport)
    ensures
        match notes {
            Err(_) => report.is_empty_report(),
            Ok(ns) => {
                let nv = notes_view(ns@);
                &&& report.total_notes == ns@.len()
                &&& report.total_assets == assets_view(assets).len()
                &&& issues_view(report.broken_links@) == broken_links(nv)
                &&& issues_view(report.orphan_notes@) == orphan_notes(nv)
                &&& issues_view(report.dead_assets@) == dead_assets(nv, assets_view(assets))
            },
        },
{
    let mut report = DiagnosticReport::new();
    let note_list = match notes {
        Ok(ns) => ns,
        Err(_) => {
            return report;
        },
    };
    report.total_notes = note_list.len();
    let asset_list = match assets {
        Ok(a) => a,
        Err(_) => Vec::new(),
    };
    assert(strings_view(asset_list@) =~= assets_view(assets));
    report.total_assets = asset_list.len();
    let keys = note_keys(&note_list);
    let (broken, resolved, images) = collect_references(&note_list, &keys);
    let entries = note_entries(&note_list);
    report.broken_links = broken;
    report.orphan_notes = find_orphans(&note_list, &resolved, &entries);
    report.dead_assets = find_dead_assets(Ghost(notes_view(note_list@)), &asset_list, &images);
    report
}

} // verus!
