//! What the diagnosis and its parts do, stated over inputs and results in
//! terms independent of how the specifications are written, and proved.

use vstd::prelude::*;
use crate::text::{lowercase, rfind_char};
use crate::path::{extension, file_name, last_component};
use crate::scanner::{image_extensions, is_image, is_markdown};
use crate::diagnostic::{
    Note, asset_key, broken_links, dead_assets, is_referenced_image, link_key, note_images,
    note_links, resolves, stem_key,
};
use crate::models::Issue;
use crate::parser::{
    image_refs, is_square_bracket, link_target, link_text_end, wiki_link_at, wiki_links,
    wiki_links_from,
};
use crate::render::{Section, Piece, detail_lines, issue_lines};

verus! {

/// Whether `c` does not occur in `s`.
pub open spec fn lacks(s: Seq<char>, c: char) -> bool {
    forall|m: int| 0 <= m < s.len() ==> #[trigger] s[m] != c
}

proof fn lemma_rfind_char_at(s: Seq<char>, c: char, k: int, j: int)
    requires
        0 <= k < j <= s.len(),
        s[k] == c,
        forall|m: int| k < m < s.len() ==> #[trigger] s[m] != c,
    ensures
        rfind_char(s, c, j) == k,
    decreases j - k,
{
    if j - 1 > k {
        lemma_rfind_char_at(s, c, k, j - 1);
    }
}

proof fn lemma_rfind_char_absent(s: Seq<char>, c: char, j: int)
    requires
        0 <= j <= s.len(),
        forall|m: int| 0 <= m < j ==> #[trigger] s[m] != c,
    ensures
        rfind_char(s, c, j) == -1,
    decreases j,
{
    if j > 0 {
        lemma_rfind_char_absent(s, c, j - 1);
    }
}

/// A link names the note key of its last path segment: the lower case of
/// what follows its last `/`.
pub proof fn law_link_key_is_last_segment(dirs: Seq<char>, last: Seq<char>)
    requires
        lacks(last, '/'),
    ensures
        link_key(dirs + seq!['/'] + last) == lowercase(last),
{
    let l = dirs + seq!['/'] + last;
    assert forall|m: int| dirs.len() < m < l.len() implies #[trigger] l[m] != '/' by {
        assert(l[m] == last[m - dirs.len() - 1]);
    }
    lemma_rfind_char_at(l, '/', dirs.len() as int, l.len() as int);
    assert(l.subrange(dirs.len() as int + 1, l.len() as int) =~= last);
}

/// A link without `/` names the note key of its whole text in lower case.
pub proof fn law_link_key_without_slash(link: Seq<char>)
    requires
        lacks(link, '/'),
    ensures
        link_key(link) == lowercase(link),
{
    lemma_rfind_char_absent(link, '/', link.len() as int);
    assert(link.subrange(0, link.len() as int) =~= link);
}

/// A link whose last path segment is, in lower case, the key of some note
/// is never reported broken.
pub proof fn law_last_segment_link_not_broken(
    notes: Seq<Note>,
    i: int,
    j: int,
    dirs: Seq<char>,
    last: Seq<char>,
    m: int,
)
    requires
        0 <= i < notes.len(),
        0 <= j < note_links(notes[i]).len(),
        note_links(notes[i])[j] == dirs + seq!['/'] + last,
        lacks(last, '/'),
        0 <= m < notes.len(),
        stem_key(notes[m].path) == Some(lowercase(last)),
    ensures
        !broken_links(notes).contains(
            Issue::BrokenLink { file: notes[i].path, link: note_links(notes[i])[j] },
        ),
{
    law_link_key_is_last_segment(dirs, last);
    assert(resolves(notes, note_links(notes[i])[j]));
    crate::laws::law_broken_link_iff(notes, notes[i].path, note_links(notes[i])[j]);
}

proof fn lemma_file_name_of_child(dir: Seq<char>, name: Seq<char>)
    requires
        name.len() > 0,
        name != seq!['.'],
        name != seq!['.', '.'],
        lacks(name, '/'),
    ensures
        file_name(dir + seq!['/'] + name) == Some(name),
{
    let p = dir + seq!['/'] + name;
    assert forall|m: int| dir.len() < m < p.len() implies #[trigger] p[m] != '/' by {
        assert(p[m] == name[m - dir.len() - 1]);
    }
    lemma_rfind_char_at(p, '/', dir.len() as int, p.len() as int);
    assert(p.last() == name[name.len() - 1]);
    assert(p.subrange(dir.len() as int + 1, p.len() as int) =~= name);
    assert(last_component(p) == Some(name));
}

/// A file in any directory whose name is a non-empty text followed by
/// `.md` is a note, whatever dots the text holds.
pub proof fn law_md_file_is_markdown(dir: Seq<char>, base: Seq<char>)
    requires
        base.len() > 0,
        lacks(base, '/'),
    ensures
        is_markdown(dir + seq!['/'] + base + seq!['.', 'm', 'd']),
{
    let name = base + seq!['.', 'm', 'd'];
    assert(dir + seq!['/'] + base + seq!['.', 'm', 'd'] =~= dir + seq!['/'] + name);
    assert forall|m: int| 0 <= m < name.len() implies #[trigger] name[m] != '/' by {
        if m < base.len() {
            assert(name[m] == base[m]);
        }
    }
    assert(name.len() >= 3);
    assert(name != seq!['.']);
    assert(name != seq!['.', '.']);
    lemma_file_name_of_child(dir, name);
    lemma_rfind_char_at(name, '.', base.len() as int, name.len() as int);
    assert(name.subrange(base.len() as int + 1, name.len() as int) =~= seq!['m', 'd']);
    assert(extension(dir + seq!['/'] + name) == Some(seq!['m', 'd']));
}

/// A file in any directory whose name is a non-empty text, a dot and an
/// extension without dots that is, in lower case, png, jpg or jpeg, is an
/// image, whatever dots the text holds.
pub proof fn law_image_file_is_image(dir: Seq<char>, base: Seq<char>, ext: Seq<char>)
    requires
        base.len() > 0,
        ext.len() > 0,
        lacks(base, '/'),
        lacks(ext, '/'),
        lacks(ext, '.'),
        image_extensions().contains(lowercase(ext)),
    ensures
        is_image(dir + seq!['/'] + base + seq!['.'] + ext),
{
    let name = base + seq!['.'] + ext;
    assert(dir + seq!['/'] + base + seq!['.'] + ext =~= dir + seq!['/'] + name);
    assert forall|m: int| 0 <= m < name.len() implies #[trigger] name[m] != '/' by {
        if m < base.len() {
            assert(name[m] == base[m]);
        } else if m > base.len() {
            assert(name[m] == ext[m - base.len() - 1]);
        }
    }
    assert(name.len() >= 3);
    assert(name != seq!['.']);
    assert(name != seq!['.', '.']);
    lemma_file_name_of_child(dir, name);
    assert forall|m: int| base.len() < m < name.len() implies #[trigger] name[m] != '.' by {
        assert(name[m] == ext[m - base.len() - 1]);
    }
    lemma_rfind_char_at(name, '.', base.len() as int, name.len() as int);
    assert(name.subrange(base.len() as int + 1, name.len() as int) =~= ext);
    assert(extension(dir + seq!['/'] + name) == Some(ext));
}

/// Whether an issue is of the kind that a section shows.
pub open spec fn of_section(section: Section, issue: Issue) -> bool {
    match (section, issue) {
        (Section::Broken, Issue::BrokenLink { .. }) => true,
        (Section::Orphan, Issue::OrphanNote { .. }) => true,
        (Section::Dead, Issue::DeadAsset { .. }) => true,
        _ => false,
    }
}

/// The detail lines of a list of issues are those of its first part
/// followed by those of its second part: each issue's line stands at its
/// own place.
pub proof fn law_detail_lines_concat(section: Section, a: Seq<Issue>, b: Seq<Issue>)
    ensures
        detail_lines(section, a + b) == detail_lines(section, a) + detail_lines(section, b),
    decreases b.len(),
{
    if b.len() == 0 {
        assert(a + b =~= a);
        assert(detail_lines(section, a) + Seq::<Seq<Piece>>::empty() =~= detail_lines(section, a));
    } else {
        law_detail_lines_concat(section, a, b.drop_last());
        assert((a + b).drop_last() =~= a + b.drop_last());
        assert((a + b).last() == b.last());
        assert(detail_lines(section, a) + detail_lines(section, b.drop_last()) + issue_lines(
            section,
            b.last(),
        ) =~= detail_lines(section, a) + (detail_lines(section, b.drop_last()) + issue_lines(
            section,
            b.last(),
        )));
    }
}

/// One issue gives its own detail line, or none when it is not of the
/// section's kind.
pub proof fn law_detail_lines_single(section: Section, issue: Issue)
    ensures
        detail_lines(section, seq![issue]) == issue_lines(section, issue),
        issue_lines(section, issue).len() == (if of_section(section, issue) {
            1int
        } else {
            0int
        }),
{
    assert(seq![issue].drop_last() =~= Seq::<Issue>::empty());
    assert(seq![issue].last() == issue);
    assert(detail_lines(section, Seq::<Issue>::empty()) == Seq::<Seq<Piece>>::empty());
    assert(detail_lines(section, seq![issue]) == detail_lines(section, seq![issue].drop_last())
        + issue_lines(section, issue));
    assert(Seq::<Seq<Piece>>::empty() + issue_lines(section, issue) =~= issue_lines(
        section,
        issue,
    ));
}

/// A section shows exactly one detail line per issue of its kind.
pub proof fn law_detail_lines_count(section: Section, issues: Seq<Issue>)
    ensures
        detail_lines(section, issues).len() == issues.filter(
            |x: Issue| of_section(section, x),
        ).len(),
    decreases issues.len(),
{
    reveal(Seq::filter);
    if issues.len() > 0 {
        law_detail_lines_count(section, issues.drop_last());
        law_detail_lines_single(section, issues.last());
    }
}

/// An image is never reported dead when some readable note's text holds an
/// image reference, at any place, whose file name is, in lower case, that
/// of the image.
pub proof fn law_referenced_image_not_dead(
    notes: Seq<Note>,
    assets: Seq<Seq<char>>,
    asset: Seq<char>,
    i: int,
    text: Seq<char>,
    k: int,
)
    requires
        0 <= i < notes.len(),
        notes[i].content == Some(text),
        0 <= k < image_refs(text).len(),
        lowercase(image_refs(text)[k]) == asset_key(asset),
    ensures
        !dead_assets(notes, assets).contains(Issue::DeadAsset { file: asset }),
{
    assert(note_images(notes[i]) == image_refs(text));
    assert(is_referenced_image(notes, asset_key(asset)));
    crate::laws::law_dead_asset_iff(notes, assets, asset);
}

proof fn lemma_link_text_end_shift(p: Seq<char>, t: Seq<char>, j: int)
    requires
        0 <= j <= t.len(),
    ensures
        link_text_end(p + t, p.len() + j) == p.len() + link_text_end(t, j),
    decreases t.len() - j,
{
    if j < t.len() {
        assert((p + t)[p.len() + j] == t[j]);
        lemma_link_text_end_shift(p, t, j + 1);
    }
}

proof fn lemma_wiki_links_shift(p: Seq<char>, t: Seq<char>, j: int)
    requires
        0 <= j,
    ensures
        wiki_links_from(p + t, p.len() + j) == wiki_links_from(t, j),
    decreases t.len() - j,
{
    let s = p + t;
    let i = p.len() + j;
    if j < t.len() {
        if j + 2 <= t.len() {
            lemma_link_text_end_shift(p, t, j + 2);
            let e = link_text_end(t, j + 2);
            crate::laws::lemma_link_text_end_bounds(t, j + 2);
            if j + 1 < t.len() {
                assert(s[i] == t[j] && s[i + 1] == t[j + 1]);
            }
            if e + 1 < t.len() {
                assert(s[p.len() + e] == t[e] && s[p.len() + e + 1] == t[e + 1]);
            }
            assert(wiki_link_at(s, i) == wiki_link_at(t, j));
            if wiki_link_at(t, j) {
                assert(s.subrange(i + 2, p.len() + e) =~= t.subrange(j + 2, e));
                lemma_wiki_links_shift(p, t, e + 2);
            } else {
                lemma_wiki_links_shift(p, t, j + 1);
            }
        } else {
            assert(!wiki_link_at(t, j));
            assert(!wiki_link_at(s, i));
            lemma_wiki_links_shift(p, t, j + 1);
        }
    }
}

proof fn lemma_wiki_links_skip_plain(p: Seq<char>, t: Seq<char>, i: int)
    requires
        0 <= i <= p.len(),
        forall|m: int| 0 <= m < p.len() ==> !is_square_bracket(#[trigger] p[m]),
    ensures
        wiki_links_from(p + t, i) == wiki_links_from(p + t, p.len() as int),
    decreases p.len() - i,
{
    if i < p.len() {
        assert((p + t)[i] == p[i]);
        assert(!wiki_link_at(p + t, i));
        lemma_wiki_links_skip_plain(p, t, i + 1);
    }
}

/// Text without square brackets before a note's text changes none of its
/// links: a link is read wherever it stands, whatever precedes it.
pub proof fn law_wiki_links_after_plain_text(p: Seq<char>, t: Seq<char>)
    requires
        forall|m: int| 0 <= m < p.len() ==> !is_square_bracket(#[trigger] p[m]),
    ensures
        wiki_links(p + t) == wiki_links(t),
{
    lemma_wiki_links_skip_plain(p, t, 0);
    lemma_wiki_links_shift(p, t, 0);
}

/// Two `[`, a text of at least one character without square brackets and
/// two `]` are one link, whose target is that of the text.
pub proof fn law_single_wiki_link(x: Seq<char>)
    requires
        x.len() > 0,
        forall|m: int| 0 <= m < x.len() ==> !is_square_bracket(#[trigger] x[m]),
    ensures
        wiki_links(seq!['[', '['] + x + seq![']', ']']) == seq![link_target(x)],
{
    let s = seq!['[', '['] + x + seq![']', ']'];
    let e: int = x.len() as int + 2;
    assert forall|m: int| 2 <= m < e implies !is_square_bracket(#[trigger] s[m]) by {
        assert(s[m] == x[m - 2]);
    }
    lemma_link_text_end_from(s, 2, e);
    assert(s[e] == ']' && s[e + 1] == ']');
    assert(wiki_link_at(s, 0));
    assert(s.subrange(2, e) =~= x);
    assert(wiki_links_from(s, e + 2) =~= Seq::<Seq<char>>::empty());
    assert(seq![link_target(x)] + Seq::<Seq<char>>::empty() =~= seq![link_target(x)]);
}

proof fn lemma_link_text_end_from(s: Seq<char>, j: int, e: int)
    requires
        0 <= j <= e < s.len(),
        is_square_bracket(s[e]),
        forall|m: int| j <= m < e ==> !is_square_bracket(#[trigger] s[m]),
    ensures
        link_text_end(s, j) == e,
    decreases e - j,
{
    if j < e {
        lemma_link_text_end_from(s, j + 1, e);
    }
}

/// An image that was found and that no readable note references, at any
/// place, by its file name in lower case is reported dead.
pub proof fn law_unreferenced_image_dead(notes: Seq<Note>, assets: Seq<Seq<char>>, asset: Seq<char>)
    requires
        assets.contains(asset),
        forall|i: int, text: Seq<char>, k: int|
            #![trigger notes[i], image_refs(text)[k]]
            0 <= i < notes.len() && notes[i].content == Some(text) && 0 <= k < image_refs(
                text,
            ).len() ==> lowercase(image_refs(text)[k]) != asset_key(asset),
    ensures
        dead_assets(notes, assets).contains(Issue::DeadAsset { file: asset }),
{
    if is_referenced_image(notes, asset_key(asset)) {
        let (i, k) = choose|i: int, k: int|
            0 <= i < notes.len() && 0 <= k < note_images(notes[i]).len() && #[trigger] lowercase(
                note_images(notes[i])[k],
            ) == asset_key(asset);
        let text = notes[i].content->0;
        assert(notes[i].content == Some(text));
        assert(note_images(notes[i]) == image_refs(text));
        assert(lowercase(image_refs(text)[k]) != asset_key(asset));
    }
    crate::laws::law_dead_asset_iff(notes, assets, asset);
}

/// A link, then any text: the link's target comes first, then the links
/// of the text.
pub proof fn law_wiki_link_then_text(x: Seq<char>, t: Seq<char>)
    requires
        x.len() > 0,
        forall|m: int| 0 <= m < x.len() ==> !is_square_bracket(#[trigger] x[m]),
    ensures
        wiki_links(seq!['[', '['] + x + seq![']', ']'] + t) == seq![link_target(x)] + wiki_links(t),
{
    let head = seq!['[', '['] + x + seq![']', ']'];
    let s = head + t;
    let e: int = x.len() as int + 2;
    assert forall|m: int| 2 <= m < e implies !is_square_bracket(#[trigger] s[m]) by {
        assert(s[m] == x[m - 2]);
    }
    lemma_link_text_end_from(s, 2, e);
    assert(s[e] == ']' && s[e + 1] == ']');
    assert(wiki_link_at(s, 0));
    assert(s.subrange(2, e) =~= x);
    lemma_wiki_links_shift(head, t, 0);
    assert(head.len() == e + 2);
}

/// Text without square brackets holds no link.
pub proof fn law_plain_text_has_no_links(p: Seq<char>)
    requires
        forall|m: int| 0 <= m < p.len() ==> !is_square_bracket(#[trigger] p[m]),
    ensures
        wiki_links(p) == Seq::<Seq<char>>::empty(),
{
    law_wiki_links_after_plain_text(p, Seq::empty());
    assert(p + Seq::<char>::empty() =~= p);
}

/// A file whose name is a non-empty text, a dot and a non-empty extension
/// without dots other than `md` is not a note.
pub proof fn law_other_extension_not_markdown(dir: Seq<char>, base: Seq<char>, ext: Seq<char>)
    requires
        base.len() > 0,
        ext.len() > 0,
        lacks(base, '/'),
        lacks(ext, '/'),
        lacks(ext, '.'),
        ext != seq!['m', 'd'],
    ensures
        !is_markdown(dir + seq!['/'] + base + seq!['.'] + ext),
{
    let name = base + seq!['.'] + ext;
    assert(dir + seq!['/'] + base + seq!['.'] + ext =~= dir + seq!['/'] + name);
    assert forall|m: int| 0 <= m < name.len() implies #[trigger] name[m] != '/' by {
        if m < base.len() {
            assert(name[m] == base[m]);
        } else if m > base.len() {
            assert(name[m] == ext[m - base.len() - 1]);
        }
    }
    assert(name.len() >= 3);
    assert(name != seq!['.']);
    assert(name != seq!['.', '.']);
    lemma_file_name_of_child(dir, name);
    assert forall|m: int| base.len() < m < name.len() implies #[trigger] name[m] != '.' by {
        assert(name[m] == ext[m - base.len() - 1]);
    }
    lemma_rfind_char_at(name, '.', base.len() as int, name.len() as int);
    assert(name.subrange(base.len() as int + 1, name.len() as int) =~= ext);
    assert(extension(dir + seq!['/'] + name) == Some(ext));
}

/// A file whose name has no dot is not a note.
pub proof fn law_dotless_name_not_markdown(dir: Seq<char>, name: Seq<char>)
    requires
        name.len() > 0,
        lacks(name, '/'),
        lacks(name, '.'),
    ensures
        !is_markdown(dir + seq!['/'] + name),
{
    assert(name[0] != '.');
    assert(name != seq!['.']);
    assert(name != seq!['.', '.']);
    lemma_file_name_of_child(dir, name);
    lemma_rfind_char_absent(name, '.', name.len() as int);
}

} // verus!
