use notedoctor::diagnostic::{run_diagnostics, NoteSource};
use notedoctor::models::{DiagnosticReport, NoteIssue};
use notedoctor::scanner::{scan_assets, scan_directory, PathKind};
use std::path::Path;

/// Diagnoses a vault at `root` whose files are given with their text (none
/// for binary files), in the order a walk would find them.
fn diagnose_vault(root: &str, files: &[(&str, &str)]) -> DiagnosticReport {
    let paths: Vec<String> = files.iter().map(|(name, _)| format!("{}/{}", root, name)).collect();
    let md = scan_directory(root, PathKind::Directory, &paths).map(|found| {
        found
            .into_iter()
            .map(|path| {
                let content = files
                    .iter()
                    .find(|(name, _)| format!("{}/{}", root, name) == path)
                    .map(|(_, text)| text.to_string());
                NoteSource { path, content }
            })
            .collect::<Vec<_>>()
    });
    let assets = scan_assets(root, PathKind::Directory, &paths);
    run_diagnostics(md, assets)
}

fn file_name(path: &str) -> &str {
    Path::new(path).file_name().unwrap().to_str().unwrap()
}

#[test]
fn test_no_broken_links() {
    let report = diagnose_vault(
        "/tmp/nd_diag_no_broken",
        &[("A.md", "# A\n参见 [[B]]"), ("B.md", "# B\n没有链接")],
    );
    assert_eq!(report.total_notes, 2);
    assert!(report.broken_links.is_empty());
}

#[test]
fn test_detects_broken_link() {
    let report = diagnose_vault("/tmp/nd_diag_broken", &[("A.md", "# A\n参见 [[不存在的笔记]]")]);
    assert_eq!(report.broken_links.len(), 1);
    if let NoteIssue::BrokenLink { link, .. } = &report.broken_links[0] {
        assert_eq!(link, "不存在的笔记");
    } else {
        panic!("期望 BrokenLink 变体");
    }
}

#[test]
fn test_nonexistent_root() {
    let root = "/tmp/nd_nonexistent_vault_xyz";
    let report = run_diagnostics(
        scan_directory(root, PathKind::Missing, &vec![]).map(|_| Vec::new()),
        scan_assets(root, PathKind::Missing, &vec![]),
    );
    assert_eq!(report.total_notes, 0);
    assert!(report.broken_links.is_empty());
}

#[test]
fn test_detects_orphan_note() {
    let report = diagnose_vault(
        "/tmp/nd_diag_orphan",
        &[("A.md", "# A\n参见 [[B]]"), ("B.md", "# B\n没有出链"), ("C.md", "# C\n我是孤儿")],
    );
    assert_eq!(report.orphan_notes.len(), 1);
    if let NoteIssue::OrphanNote { file } = &report.orphan_notes[0] {
        assert_eq!(file_name(file), "C.md");
    } else {
        panic!("期望 OrphanNote 变体");
    }
}

#[test]
fn test_referenced_but_no_outgoing_is_not_orphan() {
    let report = diagnose_vault(
        "/tmp/nd_diag_referenced",
        &[("A.md", "# A\n参见 [[B]]"), ("B.md", "# B\n没有出链")],
    );
    assert!(report.orphan_notes.is_empty());
}

#[test]
fn test_detects_dead_asset() {
    let report = diagnose_vault(
        "/tmp/nd_diag_dead_asset",
        &[("A.md", "# A\n![封面](assets/used.png)"), ("assets/used.png", ""), ("assets/unused.png", "")],
    );
    assert_eq!(report.dead_assets.len(), 1);
    if let NoteIssue::DeadAsset { file } = &report.dead_assets[0] {
        assert_eq!(file_name(file), "unused.png");
    } else {
        panic!("期望 DeadAsset 变体");
    }
}

#[test]
fn test_no_dead_assets_when_all_referenced() {
    let report = diagnose_vault(
        "/tmp/nd_diag_no_dead_asset",
        &[("A.md", "# A\n![图](assets/photo.jpg)"), ("assets/photo.jpg", "")],
    );
    assert!(report.dead_assets.is_empty());
}

#[test]
fn test_integration_all_issue_types() {
    let report = diagnose_vault(
        "/tmp/nd_diag_integration",
        &[
            ("index.md", "# 首页\n参见 [[日记]] 以及一篇 [[不存在]] 的笔记。\n![封面](assets/cover.png)"),
            ("日记.md", "# 日记\n今天天气不错。"),
            ("孤儿.md", "# 孤儿\n我游离于知识网络之外。"),
            ("assets/cover.png", ""),
            ("assets/unused.jpg", ""),
        ],
    );

    assert_eq!(report.total_notes, 3, "应扫描到 3 个 .md 文件");
    assert_eq!(report.total_assets, 2, "应扫描到 2 个图片资产");
    assert_eq!(report.broken_links.len(), 1, "应发现 1 个死链");

    let broken_link_names: Vec<&str> = report
        .broken_links
        .iter()
        .filter_map(|i| {
            if let NoteIssue::BrokenLink { link, .. } = i {
                Some(link.as_str())
            } else {
                None
            }
        })
        .collect();
    assert_eq!(broken_link_names, vec!["不存在"], "死链目标应为「不存在」");

    assert_eq!(report.orphan_notes.len(), 1, "应发现 1 篇孤儿笔记");
    let orphan_names: Vec<&str> = report
        .orphan_notes
        .iter()
        .filter_map(|i| {
            if let NoteIssue::OrphanNote { file } = i {
                Some(file_name(file))
            } else {
                None
            }
        })
        .collect();
    assert_eq!(orphan_names, vec!["孤儿.md"], "孤儿笔记应为「孤儿.md」");

    assert_eq!(report.dead_assets.len(), 1, "应发现 1 个冗余图片");
    let dead_asset_names: Vec<&str> = report
        .dead_assets
        .iter()
        .filter_map(|i| {
            if let NoteIssue::DeadAsset { file } = i {
                Some(file_name(file))
            } else {
                None
            }
        })
        .collect();
    assert_eq!(dead_asset_names, vec!["unused.jpg"], "冗余资产应为「unused.jpg」");

    assert!(
        !orphan_names.contains(&"日记.md"),
        "「日记.md」被 index.md 引用，不应被标记为孤儿"
    );
}

#[test]
fn links_and_images_ignore_letter_case_and_directories() {
    let report = diagnose_vault(
        "/v",
        &[
            ("Notes/Alpha.md", "see [[sub/ALPHA]] and ![x](img/Photo.PNG)"),
            ("media/photo.png", ""),
        ],
    );
    assert!(report.broken_links.is_empty());
    assert_eq!(report.orphan_notes.len(), 1, "a link of a note to itself links to no other note");
    assert!(report.dead_assets.is_empty());
}

#[test]
fn broken_links_keep_note_and_link_order() {
    let report = diagnose_vault(
        "/v",
        &[("a.md", "[[x]] [[b]] [[y|alias]]"), ("b.md", "[[z]]")],
    );
    let got: Vec<(String, String)> = report
        .broken_links
        .iter()
        .map(|i| match i {
            NoteIssue::BrokenLink { file, link } => (file.clone(), link.clone()),
            _ => panic!("not a broken link"),
        })
        .collect();
    let want: Vec<(String, String)> = vec![
        ("/v/a.md".to_string(), "x".to_string()),
        ("/v/a.md".to_string(), "y".to_string()),
        ("/v/b.md".to_string(), "z".to_string()),
    ];
    assert_eq!(got, want);
    // b.md is linked to from a.md, a.md links to b.md: neither is an orphan.
    assert!(report.orphan_notes.is_empty());
}

#[test]
fn broken_links_do_not_count_as_outgoing() {
    let report = diagnose_vault("/v", &[("a.md", "[[nowhere]]")]);
    assert_eq!(report.broken_links.len(), 1);
    assert_eq!(report.orphan_notes.len(), 1);
}

#[test]
fn unreadable_note_has_no_links() {
    let notes = vec![
        NoteSource { path: "/v/a.md".to_string(), content: None },
        NoteSource { path: "/v/b.md".to_string(), content: Some("[[a]] [[gone]]".to_string()) },
    ];
    let report = run_diagnostics(Ok(notes), Ok(vec!["/v/p.png".to_string()]));
    assert_eq!(report.total_notes, 2);
    assert_eq!(report.total_assets, 1);
    assert_eq!(report.broken_links.len(), 1);
    assert!(report.orphan_notes.is_empty());
    assert_eq!(report.dead_assets.len(), 1);
    assert_eq!(report.total_issues(), 2);
}

#[test]
fn failed_asset_scan_means_no_assets() {
    let notes = vec![NoteSource { path: "/v/a.md".to_string(), content: Some("".to_string()) }];
    let report = run_diagnostics(Ok(notes), Err("路径不存在：/v".to_string()));
    assert_eq!(report.total_assets, 0);
    assert!(report.dead_assets.is_empty());
    assert_eq!(report.orphan_notes.len(), 1);
}

#[test]
fn vault_without_notes_reports_every_image_dead() {
    let report = run_diagnostics(
        Ok(vec![]),
        Ok(vec!["/v/a.png".to_string(), "/v/b.jpg".to_string()]),
    );
    assert_eq!(report.total_notes, 0);
    assert_eq!(report.dead_assets.len(), 2);
    assert_eq!(report.total_issues(), 2);
}

#[test]
fn note_linking_only_to_itself_is_orphan() {
    let report = diagnose_vault("/tmp/nd_self_link", &[("A.md", "# A\n参见 [[A]]")]);
    assert!(report.broken_links.is_empty());
    assert_eq!(report.orphan_notes.len(), 1);
    if let NoteIssue::OrphanNote { file } = &report.orphan_notes[0] {
        assert_eq!(file, "/tmp/nd_self_link/A.md");
    } else {
        panic!("expected an orphan note");
    }
}

#[test]
fn self_link_does_not_hide_other_links() {
    let report = diagnose_vault(
        "/v",
        &[("A.md", "[[a]] [[B]]"), ("B.md", "[[b]]"), ("C.md", "[[c|me]]")],
    );
    let names: Vec<&str> = report
        .orphan_notes
        .iter()
        .map(|i| match i {
            NoteIssue::OrphanNote { file } => file_name(file),
            _ => panic!("not an orphan"),
        })
        .collect();
    assert_eq!(names, vec!["C.md"]);
}

#[test]
fn link_to_a_namesake_note_counts_both_ways() {
    let report = diagnose_vault("/v", &[("a/X.md", "[[X]]"), ("b/X.md", "")]);
    assert!(report.broken_links.is_empty());
    assert!(report.orphan_notes.is_empty());
}
