//! Which files of a knowledge base the diagnosis looks at: Markdown notes
//! (`.md`) and images (`.png`, `.jpg`, `.jpeg`, in any letter case).
//! Walking the directory tree is left to the caller, which hands over what
//! it found: whether the root exists and is a directory, and the paths of
//! the regular files below it, in the order of the walk.

use vstd::prelude::*;
use crate::text::{chars_of, lowercase, to_lowercase};
use crate::path::{extension, extension_of};
use crate::parser::strings_view;

verus! {

/// What the root path of a scan turned out to be.
#[derive(Debug, Clone, Copy, PartialEq, Eq)]
pub enum PathKind {
    Missing,
    NotDirectory,
    Directory,
}

/// Whether a path names a Markdown note: its extension is exactly `md`.
pub open spec fn is_markdown(p: Seq<char>) -> bool {
    extension(p) == Some(seq!['m', 'd'])
}

/// The image extensions, in lower case.
pub open spec fn image_extensions() -> Seq<Seq<char>> {
    seq![seq!['p', 'n', 'g'], seq!['j', 'p', 'g'], seq!['j', 'p', 'e', 'g']]
}

/// Whether a path names an image: its extension, in lower case, is one of
/// [`image_extensions`].
pub open spec fn is_image(p: Seq<char>) -> bool {
    match extension(p) {
        Some(e) => image_extensions().contains(lowercase(e)),
        None => false,
    }
}

/// The message of a scan whose root does not exist.
pub open spec fn missing_message(dir: Seq<char>) -> Seq<char> {
    "路径不存在："@ + dir
}

/// The message of a scan whose root is not a directory.
pub open spec fn not_directory_message(dir: Seq<char>) -> Seq<char> {
    "路径不是一个目录："@ + dir
}

/// What a scan gives: the error message, or the paths kept, in order.
pub open spec fn scan_result(
    dir: Seq<char>,
    kind: PathKind,
    files: Seq<Seq<char>>,
    keep: spec_fn(Seq<char>) -> bool,
) -> Result<Seq<Seq<char>>, Seq<char>> {
    match kind {
        PathKind::Missing => Err(missing_message(dir)),
        PathKind::NotDirectory => Err(not_directory_message(dir)),
        PathKind::Directory => Ok(files.filter(keep)),
    }
}

/// The value of a scan's result.
pub open spec fn scan_view(r: Result<Vec<String>, String>) -> Result<Seq<Seq<char>>, Seq<char>> {
    match r {
        Ok(v) => Ok(strings_view(v@)),
        Err(m) => Err(m@),
    }
}

fn chars_equal(a: &Vec<char>, b: &Vec<char>) -> (r: bool)
    ensures
        r == (a@ == b@),
{
    if a.len() != b.len() {
        return false;
    }
    let mut k: usize = 0;
    while k < a.len()
        invariant
            a@.len() == b@.len(),
            0 <= k <= a@.len(),
            forall|m: int| 0 <= m < k ==> a@[m] == b@[m],
        decreases a@.len() - k,
    {
        if a[k] != b[k] {
            return false;
        }
        k = k + 1;
    }
    assert(a@ =~= b@);
    true
}

/// Whether a path names a Markdown note.
pub fn is_markdown_path(path: &str) -> (b: bool)
    ensures
        b == is_markdown(path@),
{
    let p = chars_of(path);
    match extension_of(&p) {
        Some(e) => {
            let md: Vec<char> = vec!['m', 'd'];
            assert(md@ =~= seq!['m', 'd']);
            chars_equal(&e, &md)
        },
        None => false,
    }
}

/// Whether a path names an image.
pub fn is_image_path(path: &str) -> (b: bool)
    ensures
        b == is_image(path@),
{
    let p = chars_of(path);
    match extension_of(&p) {
        Some(e) => {
            let e_text = crate::text::string_from_chars(&e);
            let lower = chars_of(to_lowercase(e_text.as_str()).as_str());
            let png: Vec<char> = vec!['p', 'n', 'g'];
            let jpg: Vec<char> = vec!['j', 'p', 'g'];
            let jpeg: Vec<char> = vec!['j', 'p', 'e', 'g'];
            assert(png@ =~= seq!['p', 'n', 'g']);
            assert(jpg@ =~= seq!['j', 'p', 'g']);
            assert(jpeg@ =~= seq!['j', 'p', 'e', 'g']);
            let r = chars_equal(&lower, &png) || chars_equal(&lower, &jpg) || chars_equal(
                &lower,
                &jpeg,
            );
            proof {
                let exts = image_extensions();
                if exts.contains(lower@) {
                    let k = choose|k: int| 0 <= k < exts.len() && exts[k] == lower@;
                    assert(k == 0 || k == 1 || k == 2);
                }
                if r {
                    assert(lower@ == exts[0] || lower@ == exts[1] || lower@ == exts[2]);
                }
            }
            r
        },
        None => false,
    }
}

/// The paths of `files` that satisfy `keep`, in order.
fn keep_paths(files: &Vec<String>, markdown: bool) -> (kept: Vec<String>)
    ensures
        strings_view(kept@) == strings_view(files@).filter(
            if markdown {
                |p: Seq<char>| is_markdown(p)
            } else {
                |p: Seq<char>| is_image(p)
            },
        ),
{
    let ghost keep: spec_fn(Seq<char>) -> bool = if markdown {
        |p: Seq<char>| is_markdown(p)
    } else {
        |p: Seq<char>| is_image(p)
    };
    let ghost all = strings_view(files@);
    let mut kept: Vec<String> = Vec::new();
    let mut i: usize = 0;
    while i < files.len()
        invariant
            0 <= i <= files@.len(),
            all == strings_view(files@),
            keep == (if markdown {
                |p: Seq<char>| is_markdown(p)
            } else {
                |p: Seq<char>| is_image(p)
            }),
            strings_view(kept@) == all.take(i as int).filter(keep),
        decreases files@.len() - i,
    {
        let f = &files[i];
        let ok = if markdown {
            is_markdown_path(f.as_str())
        } else {
            is_image_path(f.as_str())
        };
        let ghost before = strings_view(kept@);
        proof {
            assert(all.take(i + 1).drop_last() =~= all.take(i as int));
            reveal(Seq::filter);
        }
        if ok {
            kept.push(f.clone());
            assert(strings_view(kept@) =~= before.push(f@));
        }
        i = i + 1;
    }
    assert(all.take(files@.len() as int) =~= all);
    kept
}

/// The Markdown notes of a knowledge base: the error message when its root
/// is missing or not a directory, else the files found that end in `.md`.
pub fn scan_directory(dir_path: &str, kind: PathKind, files: &Vec<String>) -> (r: Result<
    Vec<String>,
    String,
>)
    ensures
        scan_view(r) == scan_result(dir_path@, kind, strings_view(files@), |p: Seq<char>| is_markdown(p)),
{
    match kind {
        PathKind::Missing => {
            let mut m = String::new();
            m.append("路径不存在：");
            m.append(dir_path);
            Err(m)
        },
        PathKind::NotDirectory => {
            let mut m = String::new();
            m.append("路径不是一个目录：");
            m.append(dir_path);
            Err(m)
        },
        PathKind::Directory => Ok(keep_paths(files, true)),
    }
}

/// The images of a knowledge base: the error message when its root is
/// missing or not a directory, else the files found with an image extension.
pub fn scan_assets(dir_path: &str, kind: PathKind, files: &Vec<String>) -> (r: Result<
    Vec<String>,
    String,
>)
    ensures
        scan_view(r) == scan_result(dir_path@, kind, strings_view(files@), |p: Seq<char>| is_image(p)),
{
    match kind {
        PathKind::Missing => {
            let mut m = String::new();
            m.append("路径不存在：");
            m.append(dir_path);
            Err(m)
        },
        PathKind::NotDirectory => {
            let mut m = String::new();
            m.append("路径不是一个目录：");
            m.append(dir_path);
            Err(m)
        },
        PathKind::Directory => Ok(keep_paths(files, false)),
    }
}

} // verus!
