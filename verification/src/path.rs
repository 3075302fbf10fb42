//! The parts of a Unix path that the diagnosis reads: its file name, the
//! stem of that name and its extension, as `std::path::Path` documents them.
//! A path is the text of its characters.

use vstd::prelude::*;
use crate::text::{rfind_char, lemma_rfind_char_bounds, rfind_char_before, sub_chars};

verus! {

/// The last component of a path that is neither empty nor `.`: the path is
/// split at `/`, empty pieces and `.` pieces are dropped, as
/// `Path::components` does on Unix.
pub open spec fn last_component(p: Seq<char>) -> Option<Seq<char>>
    decreases p.len(),
{
    if p.len() == 0 {
        None
    } else if p.last() == '/' {
        last_component(p.drop_last())
    } else {
        let start = rfind_char(p, '/', p.len() as int) + 1;
        if p.subrange(start, p.len() as int) == seq!['.'] && 0 <= start < p.len() {
            last_component(p.subrange(0, start))
        } else {
            Some(p.subrange(start, p.len() as int))
        }
    }
}

/// `Path::file_name`: the final component of the path, unless the path
/// ends in `..` or has no component but the root or `.`.
pub open spec fn file_name(p: Seq<char>) -> Option<Seq<char>> {
    match last_component(p) {
        Some(c) => if c == seq!['.', '.'] {
            None
        } else {
            Some(c)
        },
        None => None,
    }
}

/// The position of the dot that separates stem and extension in a file
/// name: that of its last `.`, or none (-1 or 0) when it has no `.` or its
/// only `.` is the first character.
pub open spec fn extension_dot(name: Seq<char>) -> int {
    rfind_char(name, '.', name.len() as int)
}

/// `Path::file_stem`: the file name without its extension.
pub open spec fn file_stem(p: Seq<char>) -> Option<Seq<char>> {
    match file_name(p) {
        Some(name) => if extension_dot(name) <= 0 {
            Some(name)
        } else {
            Some(name.subrange(0, extension_dot(name)))
        },
        None => None,
    }
}

/// `Path::extension`: what follows the last `.` of the file name, where
/// that `.` is not its first character.
pub open spec fn extension(p: Seq<char>) -> Option<Seq<char>> {
    match file_name(p) {
        Some(name) => if extension_dot(name) <= 0 {
            None
        } else {
            Some(name.subrange(extension_dot(name) + 1, name.len() as int))
        },
        None => None,
    }
}

/// Whether the characters are exactly `..`.
fn is_dot_dot(c: &Vec<char>) -> (b: bool)
    ensures
        b == (c@ == seq!['.', '.']),
{
    if c.len() == 2 && c[0] == '.' && c[1] == '.' {
        assert(c@ =~= seq!['.', '.']);
        true
    } else {
        false
    }
}

/// The file name of a path, as [`file_name`] states.
pub fn file_name_of(p: &Vec<char>) -> (r: Option<Vec<char>>)
    ensures
        match r {
            Some(v) => file_name(p@) == Some(v@),
            None => file_name(p@) is None,
        },
{
    let mut j: usize = p.len();
    assert(p@.subrange(0, j as int) =~= p@);
    loop
        invariant
            j <= p@.len(),
            last_component(p@.subrange(0, j as int)) == last_component(p@),
        decreases j,
    {
        let ghost q = p@.subrange(0, j as int);
        if j == 0 {
            assert(q.len() == 0);
            return None;
        }
        if p[j - 1] == '/' {
            assert(q.drop_last() =~= p@.subrange(0, j - 1));
            j = j - 1;
        } else {
            let start = rfind_char_before(p, '/', j);
            proof {
                lemma_rfind_char_bounds(p@, '/', j as int);
                assert forall|k: int| 0 <= k <= j implies rfind_char(q, '/', k) == rfind_char(p@, '/', k) by {
                    lemma_rfind_prefix(p@, j as int, k);
                }
                assert(q.subrange(start as int, q.len() as int) =~= p@.subrange(start as int, j as int));
                assert(q.subrange(0, start as int) =~= p@.subrange(0, start as int));
            }
            if j - start == 1 && p[start] == '.' {
                assert(p@.subrange(start as int, j as int) =~= seq!['.']);
                j = start;
            } else {
                let piece = sub_chars(p, start, j);
                proof {
                    if piece@ == seq!['.'] {
                        assert(piece@.len() == 1);
                        assert(piece@[0] == p@[start as int]);
                    }
                }
                if is_dot_dot(&piece) {
                    return None;
                }
                return Some(piece);
            }
        }
    }
}

/// The stem of a path's file name, as [`file_stem`] states.
pub fn file_stem_of(p: &Vec<char>) -> (r: Option<Vec<char>>)
    ensures
        match r {
            Some(v) => file_stem(p@) == Some(v@),
            None => file_stem(p@) is None,
        },
{
    match file_name_of(p) {
        None => None,
        Some(name) => {
            let d = rfind_char_before(&name, '.', name.len());
            proof {
                lemma_rfind_char_bounds(name@, '.', name@.len() as int);
            }
            if d <= 1 {
                Some(name)
            } else {
                Some(sub_chars(&name, 0, d - 1))
            }
        },
    }
}

/// The extension of a path's file name, as [`extension`] states.
pub fn extension_of(p: &Vec<char>) -> (r: Option<Vec<char>>)
    ensures
        match r {
            Some(v) => extension(p@) == Some(v@),
            None => extension(p@) is None,
        },
{
    match file_name_of(p) {
        None => None,
        Some(name) => {
            let d = rfind_char_before(&name, '.', name.len());
            proof {
                lemma_rfind_char_bounds(name@, '.', name@.len() as int);
            }
            if d <= 1 {
                None
            } else {
                Some(sub_chars(&name, d, name.len()))
            }
        },
    }
}

proof fn lemma_rfind_prefix(s: Seq<char>, j: int, k: int)
    requires
        0 <= k <= j <= s.len(),
    ensures
        rfind_char(s.subrange(0, j), '/', k) == rfind_char(s, '/', k),
    decreases k,
{
    if k > 0 {
        lemma_rfind_prefix(s, j, k - 1);
    }
}

} // verus!
