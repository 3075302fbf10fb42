use notedoctor::scanner::{is_image_path, is_markdown_path, scan_assets, scan_directory, PathKind};

fn strings(v: &[&str]) -> Vec<String> {
    v.iter().map(|s| s.to_string()).collect()
}

#[test]
fn test_scan_nonexistent_path() {
    let result = scan_directory("/tmp/notedoctor_nonexistent_dir_xyz", PathKind::Missing, &vec![]);
    assert!(result.is_err());
}

#[test]
fn test_scan_finds_md_files() {
    let tmp = "/tmp/notedoctor_test_scan";
    let md_file = format!("{}/note.md", tmp);
    let files = vec![md_file.clone(), format!("{}/ignore.txt", tmp)];
    let result = scan_directory(tmp, PathKind::Directory, &files).unwrap();
    assert_eq!(result.len(), 1);
    assert_eq!(result[0], md_file);
}

#[test]
fn test_scan_recursive() {
    let tmp = "/tmp/notedoctor_test_recursive";
    let files = strings(&[
        "/tmp/notedoctor_test_recursive/a.md",
        "/tmp/notedoctor_test_recursive/subdir/b.md",
        "/tmp/notedoctor_test_recursive/subdir/c.txt",
    ]);
    let mut result = scan_directory(tmp, PathKind::Directory, &files).unwrap();
    result.sort();
    assert_eq!(result.len(), 2);
}

#[test]
fn test_scan_assets_finds_images() {
    let tmp = "/tmp/notedoctor_test_assets";
    let files = strings(&[
        "/tmp/notedoctor_test_assets/note.md",
        "/tmp/notedoctor_test_assets/images/photo.png",
        "/tmp/notedoctor_test_assets/images/banner.jpg",
        "/tmp/notedoctor_test_assets/images/icon.jpeg",
        "/tmp/notedoctor_test_assets/images/data.csv",
    ]);
    let mut result = scan_assets(tmp, PathKind::Directory, &files).unwrap();
    result.sort();
    assert_eq!(result.len(), 3);
}

#[test]
fn scan_errors_carry_the_path() {
    assert_eq!(
        scan_directory("/x/y", PathKind::Missing, &vec![]),
        Err("路径不存在：/x/y".to_string())
    );
    assert_eq!(
        scan_assets("/x/a.md", PathKind::NotDirectory, &strings(&["/x/a.md"])),
        Err("路径不是一个目录：/x/a.md".to_string())
    );
}

#[test]
fn markdown_extension_is_exact() {
    assert!(is_markdown_path("/v/a.md"));
    assert!(is_markdown_path("/v/.hidden.md"));
    assert!(!is_markdown_path("/v/A.MD"));
    assert!(!is_markdown_path("/v/.md"));
    assert!(!is_markdown_path("/v/a.mdx"));
    assert!(!is_markdown_path("/v/md"));
}

#[test]
fn image_extension_ignores_letter_case() {
    assert!(is_image_path("/v/a.PNG"));
    assert!(is_image_path("/v/b.JpEg"));
    assert!(is_image_path("/v/c.jpg"));
    assert!(!is_image_path("/v/d.gif"));
    assert!(!is_image_path("/v/.png"));
    assert!(!is_image_path("/v/png"));
}

#[test]
fn scans_keep_the_walk_order() {
    let files = strings(&["/v/z.md", "/v/a.png", "/v/b.md", "/v/C.JPG"]);
    assert_eq!(
        scan_directory("/v", PathKind::Directory, &files).unwrap(),
        strings(&["/v/z.md", "/v/b.md"])
    );
    assert_eq!(
        scan_assets("/v", PathKind::Directory, &files).unwrap(),
        strings(&["/v/a.png", "/v/C.JPG"])
    );
}
