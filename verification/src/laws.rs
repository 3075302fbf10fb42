//! What holds of every diagnosis and of every parse, stated over the
//! specifications that the functions' contracts use, and proved.

use vstd::prelude::*;
use crate::models::Issue;
use crate::parser::{
    image_name, image_ref_at, image_refs, image_refs_from, is_square_bracket, link_target,
    link_text_end, wiki_link_at, wiki_links, wiki_links_from,
};
use crate::path::{file_name, last_component};
use crate::scanner::{PathKind, scan_result};
use crate::text::{
    back_white_space, find_char, is_white_space, lemma_back_white_space_bounds,
    lemma_find_char_bounds, lemma_rfind_char_bounds, lemma_skip_white_space_bounds, rfind_char,
    skip_white_space, trim,
};
use crate::diagnostic::{
    Note, lemma_push_contains, broken_in, broken_links, broken_links_upto, dead_assets, is_dead_asset, is_orphan,
    link_key, names_other_note, note_links, orphan_notes, resolved_link, resolves, stem_key,
};

verus! {

proof fn lemma_add_contains<A>(a: Seq<A>, b: Seq<A>, k: A)
    ensures
        (a + b).contains(k) <==> (a.contains(k) || b.contains(k)),
{
    if (a + b).contains(k) {
        let m = choose|m: int| 0 <= m < (a + b).len() && (a + b)[m] == k;
        if m < a.len() {
            assert(a[m] == k);
        } else {
            assert(b[m - a.len()] == k);
        }
    }
    if a.contains(k) {
        let m = choose|m: int| 0 <= m < a.len() && a[m] == k;
        assert((a + b)[m] == k);
    }
    if b.contains(k) {
        let m = choose|m: int| 0 <= m < b.len() && b[m] == k;
        assert((a + b)[a.len() + m] == k);
    }
}

proof fn lemma_filter_contains_iff<A>(s: Seq<A>, pred: spec_fn(A) -> bool, x: A)
    ensures
        s.filter(pred).contains(x) <==> (s.contains(x) && pred(x)),
    decreases s.len(),
{
    reveal(Seq::filter);
    if s.len() > 0 {
        lemma_filter_contains_iff(s.drop_last(), pred, x);
        lemma_push_contains(s.drop_last().filter(pred), s.last(), x);
        lemma_push_contains(s.drop_last(), s.last(), x);
        assert(s.drop_last().push(s.last()) =~= s);
    }
}

proof fn lemma_map_contains<A, B>(s: Seq<A>, f: spec_fn(A) -> B, y: B)
    ensures
        s.map_values(f).contains(y) <==> exists|i: int| 0 <= i < s.len() && f(#[trigger] s[i]) == y,
{
    if s.map_values(f).contains(y) {
        let m = choose|m: int| 0 <= m < s.map_values(f).len() && s.map_values(f)[m] == y;
        assert(f(s[m]) == y);
    }
    if exists|i: int| 0 <= i < s.len() && f(#[trigger] s[i]) == y {
        let i = choose|i: int| 0 <= i < s.len() && f(#[trigger] s[i]) == y;
        assert(s.map_values(f)[i] == y);
    }
}

proof fn lemma_broken_in_contains(notes: Seq<Note>, path: Seq<char>, links: Seq<Seq<char>>, x: Issue)
    ensures
        broken_in(notes, path, links).contains(x) <==> exists|j: int|
            0 <= j < links.len() && !resolves(notes, #[trigger] links[j]) && x == (Issue::BrokenLink {
                file: path,
                link: links[j],
            }),
    decreases links.len(),
{
    if links.len() > 0 {
        let rest = links.drop_last();
        lemma_broken_in_contains(notes, path, rest, x);
        lemma_push_contains(
            broken_in(notes, path, rest),
            Issue::BrokenLink { file: path, link: links.last() },
            x,
        );
        if exists|j: int|
            0 <= j < links.len() && !resolves(notes, #[trigger] links[j]) && x == (Issue::BrokenLink {
                file: path,
                link: links[j],
            }) {
            let j = choose|j: int|
                0 <= j < links.len() && !resolves(notes, #[trigger] links[j]) && x == (
                Issue::BrokenLink { file: path, link: links[j] });
            if j < links.len() - 1 {
                assert(rest[j] == links[j]);
            }
        }
        if exists|j: int|
            0 <= j < rest.len() && !resolves(notes, #[trigger] rest[j]) && x == (Issue::BrokenLink {
                file: path,
                link: rest[j],
            }) {
            let j = choose|j: int|
                0 <= j < rest.len() && !resolves(notes, #[trigger] rest[j]) && x == (
                Issue::BrokenLink { file: path, link: rest[j] });
            assert(links[j] == rest[j]);
        }
    }
}

proof fn lemma_broken_upto_contains(notes: Seq<Note>, k: int, x: Issue)
    requires
        0 <= k <= notes.len(),
    ensures
        broken_links_upto(notes, k).contains(x) <==> exists|i: int, j: int|
            0 <= i < k && 0 <= j < note_links(notes[i]).len() && !resolves(
                notes,
                #[trigger] note_links(notes[i])[j],
            ) && x == (Issue::BrokenLink { file: notes[i].path, link: note_links(notes[i])[j] }),
    decreases k,
{
    if k > 0 {
        lemma_broken_upto_contains(notes, k - 1, x);
        let last = notes[k - 1];
        lemma_broken_in_contains(notes, last.path, note_links(last), x);
        lemma_add_contains(
            broken_links_upto(notes, k - 1),
            broken_in(notes, last.path, note_links(last)),
            x,
        );
        if broken_in(notes, last.path, note_links(last)).contains(x) {
            let j = choose|j: int|
                0 <= j < note_links(last).len() && !resolves(notes, #[trigger] note_links(last)[j])
                    && x == (Issue::BrokenLink { file: last.path, link: note_links(last)[j] });
            assert(!resolves(notes, note_links(notes[k - 1])[j]));
        }
        if exists|i: int, j: int|
            0 <= i < k && 0 <= j < note_links(notes[i]).len() && !resolves(
                notes,
                #[trigger] note_links(notes[i])[j],
            ) && x == (Issue::BrokenLink { file: notes[i].path, link: note_links(notes[i])[j] }) {
            let (i, j) = choose|i: int, j: int|
                0 <= i < k && 0 <= j < note_links(notes[i]).len() && !resolves(
                    notes,
                    #[trigger] note_links(notes[i])[j],
                ) && x == (Issue::BrokenLink { file: notes[i].path, link: note_links(notes[i])[j] });
            if i == k - 1 {
                assert(!resolves(notes, note_links(last)[j]));
            }
        }
    }
}

/// A link is reported broken exactly when some note holds it and it names no
/// note of the knowledge base; the report names that note.
pub proof fn law_broken_link_iff(notes: Seq<Note>, file: Seq<char>, link: Seq<char>)
    ensures
        broken_links(notes).contains(Issue::BrokenLink { file, link }) <==> exists|i: int, j: int|
            0 <= i < notes.len() && 0 <= j < note_links(notes[i]).len() && notes[i].path == file
                && #[trigger] note_links(notes[i])[j] == link && !resolves(notes, link),
{
    lemma_broken_upto_contains(notes, notes.len() as int, Issue::BrokenLink { file, link });
}

/// Every link that names a note is never reported broken.
pub proof fn law_resolved_link_not_broken(notes: Seq<Note>, i: int, j: int)
    requires
        resolved_link(notes, i, j),
    ensures
        !broken_links(notes).contains(
            Issue::BrokenLink { file: notes[i].path, link: note_links(notes[i])[j] },
        ),
{
    law_broken_link_iff(notes, notes[i].path, note_links(notes[i])[j]);
}

/// A note is reported an orphan exactly when it has no incoming and no
/// outgoing link.
pub proof fn law_orphan_iff(notes: Seq<Note>, file: Seq<char>)
    ensures
        orphan_notes(notes).contains(Issue::OrphanNote { file }) <==> exists|i: int|
            0 <= i < notes.len() && #[trigger] notes[i].path == file && is_orphan(notes, notes[i]),
{
    let pred = |n: Note| is_orphan(notes, n);
    let f = |n: Note| Issue::OrphanNote { file: n.path };
    let kept = notes.filter(pred);
    lemma_map_contains(kept, f, Issue::OrphanNote { file });
    if orphan_notes(notes).contains(Issue::OrphanNote { file }) {
        let m = choose|m: int| 0 <= m < kept.len() && f(#[trigger] kept[m]) == Issue::OrphanNote { file };
        assert(kept.contains(kept[m]));
        lemma_filter_contains_iff(notes, pred, kept[m]);
        let i = choose|i: int| 0 <= i < notes.len() && notes[i] == kept[m];
        assert(notes[i].path == file);
    }
    if exists|i: int| 0 <= i < notes.len() && #[trigger] notes[i].path == file && is_orphan(notes, notes[i]) {
        let i = choose|i: int| 0 <= i < notes.len() && #[trigger] notes[i].path == file && is_orphan(notes, notes[i]);
        assert(notes.contains(notes[i]));
        lemma_filter_contains_iff(notes, pred, notes[i]);
        let m = choose|m: int| 0 <= m < kept.len() && kept[m] == notes[i];
        assert(f(kept[m]) == Issue::OrphanNote { file });
    }
}

/// When no two notes share a path (as in a directory walk), a note is
/// reported an orphan exactly when no other note holds a link to its key
/// and it holds no link to the key of another note.
pub proof fn law_orphan_iff_no_links(notes: Seq<Note>, i: int)
    requires
        0 <= i < notes.len(),
        forall|a: int, b: int|
            0 <= a < notes.len() && 0 <= b < notes.len() && a != b ==> #[trigger] notes[a].path
                != #[trigger] notes[b].path,
    ensures
        orphan_notes(notes).contains(Issue::OrphanNote { file: notes[i].path }) <==> (!(exists|a: int, b: int|
            a != i && #[trigger] resolved_link(notes, a, b) && link_key(note_links(notes[a])[b])
                == crate::diagnostic::orphan_key(notes[i])) && !(exists|b: int, m: int|
            #[trigger] resolved_link(notes, i, b) && 0 <= m < notes.len() && m != i
                && #[trigger] stem_key(notes[m].path) == Some(link_key(note_links(notes[i])[b])))),
{
    law_orphan_iff(notes, notes[i].path);
    let n = notes[i];
    if exists|k: int| 0 <= k < notes.len() && #[trigger] notes[k].path == n.path && is_orphan(notes, notes[k]) {
        let k = choose|k: int| 0 <= k < notes.len() && #[trigger] notes[k].path == n.path && is_orphan(notes, notes[k]);
        if k != i {
            assert(notes[k].path != notes[i].path);
        }
    }
    if exists|a: int, b: int|
        a != i && #[trigger] resolved_link(notes, a, b) && link_key(note_links(notes[a])[b])
            == crate::diagnostic::orphan_key(n) {
        let (a, b) = choose|a: int, b: int|
            a != i && #[trigger] resolved_link(notes, a, b) && link_key(note_links(notes[a])[b])
                == crate::diagnostic::orphan_key(n);
        assert(notes[a].path != notes[i].path);
        assert(crate::diagnostic::is_referenced(notes, crate::diagnostic::orphan_key(n), n.path));
    }
    if crate::diagnostic::is_referenced(notes, crate::diagnostic::orphan_key(n), n.path) {
        let (a, b) = choose|a: int, b: int|
            #[trigger] resolved_link(notes, a, b) && link_key(note_links(notes[a])[b])
                == crate::diagnostic::orphan_key(n) && notes[a].path != n.path;
        assert(a != i);
    }
    if exists|b: int, m: int|
        #[trigger] resolved_link(notes, i, b) && 0 <= m < notes.len() && m != i
            && #[trigger] stem_key(notes[m].path) == Some(link_key(note_links(notes[i])[b])) {
        let (b, m) = choose|b: int, m: int|
            #[trigger] resolved_link(notes, i, b) && 0 <= m < notes.len() && m != i
                && #[trigger] stem_key(notes[m].path) == Some(link_key(note_links(notes[i])[b]));
        assert(notes[m].path != notes[i].path);
        assert(names_other_note(notes, link_key(note_links(notes[i])[b]), n.path));
        assert(crate::diagnostic::has_outgoing(notes, n.path));
    }
    if crate::diagnostic::has_outgoing(notes, n.path) {
        let (a, b) = choose|a: int, b: int|
            #[trigger] resolved_link(notes, a, b) && notes[a].path == n.path && names_other_note(
                notes,
                link_key(note_links(notes[a])[b]),
                n.path,
            );
        if a != i {
            assert(notes[a].path != notes[i].path);
        }
        let m = choose|m: int|
            0 <= m < notes.len() && #[trigger] stem_key(notes[m].path) == Some(
                link_key(note_links(notes[a])[b]),
            ) && notes[m].path != n.path;
        assert(resolved_link(notes, i, b) && m != i);
    }
}

/// A note that holds a link naming another note is never an orphan.
pub proof fn law_linking_note_not_orphan(notes: Seq<Note>, i: int, j: int)
    requires
        resolved_link(notes, i, j),
        names_other_note(notes, link_key(note_links(notes[i])[j]), notes[i].path),
    ensures
        !orphan_notes(notes).contains(Issue::OrphanNote { file: notes[i].path }),
{
    law_orphan_iff(notes, notes[i].path);
    if exists|a: int| 0 <= a < notes.len() && #[trigger] notes[a].path == notes[i].path && is_orphan(notes, notes[a]) {
        let a = choose|a: int| 0 <= a < notes.len() && #[trigger] notes[a].path == notes[i].path && is_orphan(notes, notes[a]);
        assert(resolved_link(notes, i, j) && notes[i].path == notes[a].path);
    }
}

/// A note that another note links to is never an orphan.
pub proof fn law_linked_note_not_orphan(notes: Seq<Note>, a: int, b: int, i: int)
    requires
        resolved_link(notes, a, b),
        notes[a].path != notes[i].path,
        0 <= i < notes.len(),
        stem_key(notes[i].path) == Some(link_key(note_links(notes[a])[b])),
    ensures
        !orphan_notes(notes).contains(Issue::OrphanNote { file: notes[i].path }),
{
    law_orphan_iff(notes, notes[i].path);
    if exists|m: int| 0 <= m < notes.len() && #[trigger] notes[m].path == notes[i].path && is_orphan(notes, notes[m]) {
        let m = choose|m: int| 0 <= m < notes.len() && #[trigger] notes[m].path == notes[i].path && is_orphan(notes, notes[m]);
        assert(resolved_link(notes, a, b) && link_key(note_links(notes[a])[b]) == crate::diagnostic::orphan_key(notes[m]) && notes[a].path != notes[m].path);
    }
}

/// An image is reported dead exactly when it was found and no note
/// references its file name.
pub proof fn law_dead_asset_iff(notes: Seq<Note>, assets: Seq<Seq<char>>, file: Seq<char>)
    ensures
        dead_assets(notes, assets).contains(Issue::DeadAsset { file }) <==> (assets.contains(file)
            && is_dead_asset(notes, file)),
{
    let pred = |a: Seq<char>| is_dead_asset(notes, a);
    let f = |a: Seq<char>| Issue::DeadAsset { file: a };
    let kept = assets.filter(pred);
    lemma_map_contains(kept, f, Issue::DeadAsset { file });
    lemma_filter_contains_iff(assets, pred, file);
    if dead_assets(notes, assets).contains(Issue::DeadAsset { file }) {
        let m = choose|m: int| 0 <= m < kept.len() && f(#[trigger] kept[m]) == Issue::DeadAsset { file };
        assert(kept[m] == file);
    }
    if kept.contains(file) {
        let m = choose|m: int| 0 <= m < kept.len() && kept[m] == file;
        assert(f(kept[m]) == Issue::DeadAsset { file });
    }
}

/// No diagnosis reports more orphans than notes, or more dead images than images.
pub proof fn law_issue_counts_bounded(notes: Seq<Note>, assets: Seq<Seq<char>>)
    ensures
        orphan_notes(notes).len() <= notes.len(),
        dead_assets(notes, assets).len() <= assets.len(),
{
    notes.lemma_filter_len(|n: Note| is_orphan(notes, n));
    assets.lemma_filter_len(|a: Seq<char>| is_dead_asset(notes, a));
}

/// Whether a link target is clean: it holds no square bracket and no `|`,
/// and neither starts nor ends with white space.
pub open spec fn is_clean_target(l: Seq<char>) -> bool {
    &&& forall|m: int| 0 <= m < l.len() ==> !is_square_bracket(#[trigger] l[m]) && l[m] != '|'
    &&& l.len() > 0 ==> !is_white_space(l[0]) && !is_white_space(l[l.len() - 1])
}

proof fn lemma_trim_is_inner(t: Seq<char>) -> (a: int)
    ensures
        0 <= a,
        a + trim(t).len() <= t.len(),
        forall|m: int| 0 <= m < trim(t).len() ==> #[trigger] trim(t)[m] == t[a + m],
        trim(t).len() > 0 ==> !is_white_space(trim(t)[0]) && !is_white_space(
            trim(t)[trim(t).len() - 1],
        ),
{
    lemma_skip_white_space_bounds(t, 0);
    lemma_back_white_space_bounds(t, t.len() as int);
    let a = skip_white_space(t, 0);
    let b = back_white_space(t, t.len() as int);
    if a < b {
        a
    } else {
        0
    }
}

pub(crate) proof fn lemma_link_text_end_bounds(s: Seq<char>, j: int)
    requires
        0 <= j <= s.len(),
    ensures
        j <= link_text_end(s, j) <= s.len(),
        forall|m: int| j <= m < link_text_end(s, j) ==> !is_square_bracket(#[trigger] s[m]),
    decreases s.len() - j,
{
    if j < s.len() && !is_square_bracket(s[j]) {
        lemma_link_text_end_bounds(s, j + 1);
    }
}

proof fn lemma_link_target_clean(text: Seq<char>)
    requires
        forall|m: int| 0 <= m < text.len() ==> !is_square_bracket(#[trigger] text[m]),
    ensures
        is_clean_target(link_target(text)),
{
    lemma_find_char_bounds(text, '|', 0);
    let head = text.subrange(0, find_char(text, '|', 0));
    let a = lemma_trim_is_inner(head);
    assert forall|m: int| 0 <= m < trim(head).len() implies !is_square_bracket(
        #[trigger] trim(head)[m],
    ) && trim(head)[m] != '|' by {
        assert(trim(head)[m] == head[a + m]);
        assert(head[a + m] == text[a + m]);
    }
}

proof fn lemma_wiki_links_from_clean(s: Seq<char>, i: int, k: int)
    requires
        0 <= i,
        0 <= k < wiki_links_from(s, i).len(),
    ensures
        is_clean_target(wiki_links_from(s, i)[k]),
    decreases s.len() - i,
{
    if i < s.len() {
        if wiki_link_at(s, i) {
            let e = link_text_end(s, i + 2);
            if k == 0 {
                lemma_link_text_end_bounds(s, i + 2);
                let text = s.subrange(i + 2, e);
                assert forall|m: int| 0 <= m < text.len() implies !is_square_bracket(
                    #[trigger] text[m],
                ) by {
                    assert(text[m] == s[i + 2 + m]);
                }
                lemma_link_target_clean(text);
            } else {
                lemma_wiki_links_from_clean(s, e + 2, k - 1);
            }
        } else {
            lemma_wiki_links_from_clean(s, i + 1, k);
        }
    }
}

/// Every link target that a text yields is clean: no square bracket, no
/// `|` (the alias is gone), no white space at either end.
pub proof fn law_link_targets_clean(s: Seq<char>, k: int)
    requires
        0 <= k < wiki_links(s).len(),
    ensures
        is_clean_target(wiki_links(s)[k]),
{
    lemma_wiki_links_from_clean(s, 0, k);
}

/// Whether a name is a plain file name: not empty, not `.` or `..`, and
/// without `/`.
pub open spec fn is_plain_file_name(n: Seq<char>) -> bool {
    &&& n.len() > 0
    &&& n != seq!['.']
    &&& n != seq!['.', '.']
    &&& forall|m: int| 0 <= m < n.len() ==> #[trigger] n[m] != '/'
}

proof fn lemma_last_component_plain(p: Seq<char>)
    ensures
        last_component(p) matches Some(c) ==> {
            &&& c.len() > 0
            &&& c != seq!['.']
            &&& forall|m: int| 0 <= m < c.len() ==> #[trigger] c[m] != '/'
        },
    decreases p.len(),
{
    if p.len() > 0 {
        if p.last() == '/' {
            lemma_last_component_plain(p.drop_last());
        } else {
            lemma_rfind_char_bounds(p, '/', p.len() as int);
            let start = rfind_char(p, '/', p.len() as int) + 1;
            let piece = p.subrange(start, p.len() as int);
            if piece == seq!['.'] && 0 <= start < p.len() {
                lemma_last_component_plain(p.subrange(0, start));
            } else {
                assert(start < p.len()) by {
                    if start == p.len() {
                        assert(p[p.len() - 1] == '/');
                    }
                }
                assert forall|m: int| 0 <= m < piece.len() implies #[trigger] piece[m] != '/' by {
                    assert(piece[m] == p[start + m]);
                }
            }
        }
    }
}

proof fn lemma_image_refs_from_plain(s: Seq<char>, i: int, k: int)
    requires
        0 <= i,
        0 <= k < image_refs_from(s, i).len(),
    ensures
        is_plain_file_name(image_refs_from(s, i)[k]),
    decreases s.len() - i,
{
    if i < s.len() {
        if image_ref_at(s, i) {
            lemma_find_char_bounds(s, ']', i + 2);
            let kk = find_char(s, ']', i + 2);
            let m = find_char(s, ')', kk + 2);
            match image_name(s.subrange(kk + 2, m)) {
                Some(name) => {
                    if k == 0 {
                        let t = trim(s.subrange(kk + 2, m));
                        lemma_last_component_plain(t);
                        assert(file_name(t) == Some(name));
                    } else {
                        lemma_image_refs_from_plain(s, m + 1, k - 1);
                    }
                },
                None => {
                    lemma_image_refs_from_plain(s, m + 1, k);
                },
            }
        } else {
            lemma_image_refs_from_plain(s, i + 1, k);
        }
    }
}

proof fn lemma_last_component_avoids(p: Seq<char>, x: char)
    requires
        forall|k: int| 0 <= k < p.len() ==> #[trigger] p[k] != x,
    ensures
        last_component(p) matches Some(c) ==> forall|m: int| 0 <= m < c.len() ==> #[trigger] c[m] != x,
    decreases p.len(),
{
    if p.len() > 0 {
        if p.last() == '/' {
            assert(forall|k: int| 0 <= k < p.drop_last().len() ==> #[trigger] p.drop_last()[k] == p[k]);
            lemma_last_component_avoids(p.drop_last(), x);
        } else {
            lemma_rfind_char_bounds(p, '/', p.len() as int);
            let start = rfind_char(p, '/', p.len() as int) + 1;
            let piece = p.subrange(start, p.len() as int);
            if piece == seq!['.'] && 0 <= start < p.len() {
                let q = p.subrange(0, start);
                assert(forall|k: int| 0 <= k < q.len() ==> #[trigger] q[k] == p[k]);
                lemma_last_component_avoids(q, x);
            } else {
                assert forall|m: int| 0 <= m < piece.len() implies #[trigger] piece[m] != x by {
                    assert(piece[m] == p[start + m]);
                }
            }
        }
    }
}

/// Whether a text holds no `)`.
pub open spec fn holds_no_close_paren(n: Seq<char>) -> bool {
    forall|m: int| 0 <= m < n.len() ==> #[trigger] n[m] != ')'
}

/// The number of places in `s` from position `i` on where `![` starts.
pub open spec fn image_openings_from(s: Seq<char>, i: int) -> nat
    decreases s.len() - i,
{
    if i < 0 || i >= s.len() {
        0
    } else {
        (if i + 1 < s.len() && s[i] == '!' && s[i + 1] == '[' {
            1nat
        } else {
            0nat
        }) + image_openings_from(s, i + 1)
    }
}

proof fn lemma_openings_monotone(s: Seq<char>, a: int, b: int)
    requires
        0 <= a <= b,
    ensures
        image_openings_from(s, b) <= image_openings_from(s, a),
    decreases b - a,
{
    if a < b {
        lemma_openings_monotone(s, a + 1, b);
    }
}

proof fn lemma_image_refs_from_props(s: Seq<char>, i: int)
    requires
        0 <= i,
    ensures
        image_refs_from(s, i).len() <= image_openings_from(s, i),
        forall|k: int|
            0 <= k < image_refs_from(s, i).len() ==> holds_no_close_paren(
                #[trigger] image_refs_from(s, i)[k],
            ),
    decreases s.len() - i,
{
    if i < s.len() {
        if image_ref_at(s, i) {
            lemma_find_char_bounds(s, ']', i + 2);
            let kk = find_char(s, ']', i + 2);
            let m = find_char(s, ')', kk + 2);
            lemma_find_char_bounds(s, ')', kk + 2);
            lemma_image_refs_from_props(s, m + 1);
            lemma_openings_monotone(s, i + 1, m + 1);
            let raw = s.subrange(kk + 2, m);
            match image_name(raw) {
                Some(name) => {
                    let t = trim(raw);
                    let a = lemma_trim_is_inner(raw);
                    assert forall|q: int| 0 <= q < t.len() implies #[trigger] t[q] != ')' by {
                        assert(t[q] == raw[a + q]);
                        assert(raw[a + q] == s[kk + 2 + a + q]);
                    }
                    lemma_last_component_avoids(t, ')');
                    let rest = image_refs_from(s, m + 1);
                    assert(image_refs_from(s, i) == seq![name] + rest);
                    assert forall|k: int| 0 <= k < image_refs_from(s, i).len() implies holds_no_close_paren(
                        #[trigger] image_refs_from(s, i)[k],
                    ) by {
                        if k > 0 {
                            assert(image_refs_from(s, i)[k] == rest[k - 1]);
                        }
                    }
                },
                None => {},
            }
        } else {
            lemma_image_refs_from_props(s, i + 1);
        }
    }
}

/// No image name holds `)`, and a text yields no more image names than it
/// holds places where `![` starts.
pub proof fn law_image_refs_bounded(s: Seq<char>)
    ensures
        image_refs(s).len() <= image_openings_from(s, 0),
        forall|k: int| 0 <= k < image_refs(s).len() ==> holds_no_close_paren(#[trigger] image_refs(s)[k]),
{
    lemma_image_refs_from_props(s, 0);
}

/// Every image a text references is named by a plain file name: the
/// directories of its path are gone.
pub proof fn law_image_refs_are_file_names(s: Seq<char>, k: int)
    requires
        0 <= k < image_refs(s).len(),
    ensures
        is_plain_file_name(image_refs(s)[k]),
{
    lemma_image_refs_from_plain(s, 0, k);
}

/// A scan of a directory keeps exactly the files found that satisfy its test
/// (being a note, or being an image).
pub proof fn law_scan_keeps_exactly(
    dir: Seq<char>,
    files: Seq<Seq<char>>,
    keep: spec_fn(Seq<char>) -> bool,
    p: Seq<char>,
)
    ensures
        scan_result(dir, PathKind::Directory, files, keep) matches Ok(kept) && (kept.contains(p) <==> (
        files.contains(p) && keep(p))),
{
    lemma_filter_contains_iff(files, keep, p);
}

} // verus!
