use notedoctor::path::{extension_of, file_name_of, file_stem_of};
use std::path::Path;

fn chars(s: &str) -> Vec<char> {
    s.chars().collect()
}

fn text(v: Option<Vec<char>>) -> Option<String> {
    v.map(|cs| cs.into_iter().collect())
}


const SAMPLES: [&str; 30] = [
    "", "/", "//", ".", "..", "./", "../", "a", "a/", "a//", "a/.", "a/./", "a/..", "a/b",
    "/a/b.md", "a/b/../c.png", "./a", ".hidden", ".hidden.md", "a.", "a.b.c", "..md", "...",
    "dir.d/file", "笔记/日记.md", "/tmp/x/./y/", "a/.b", "a b/c d.JPG", "./.", "x/y/.././",
];

#[test]
fn file_name_matches_std() {
    for p in SAMPLES {
        assert_eq!(text(file_name_of(&chars(p))), Path::new(p).file_name().map(|s| s.to_str().unwrap().to_string()), "file_name of {:?}", p);
    }
}

#[test]
fn file_stem_matches_std() {
    for p in SAMPLES {
        assert_eq!(text(file_stem_of(&chars(p))), Path::new(p).file_stem().map(|s| s.to_str().unwrap().to_string()), "file_stem of {:?}", p);
    }
}

#[test]
fn extension_matches_std() {
    for p in SAMPLES {
        assert_eq!(text(extension_of(&chars(p))), Path::new(p).extension().map(|s| s.to_str().unwrap().to_string()), "extension of {:?}", p);
    }
}

#[test]
fn file_name_examples() {
    assert_eq!(text(file_name_of(&chars("assets/cover.png"))), Some("cover.png".to_string()));
    assert_eq!(text(file_stem_of(&chars("/v/日记.md"))), Some("日记".to_string()));
    assert_eq!(text(extension_of(&chars("/v/.md"))), None);
}
