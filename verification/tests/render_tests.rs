use notedoctor::models::{DiagnosticReport, NoteIssue};
use notedoctor::render::{decimal_text, display_name_of, report_lines, Segment, Tone};

fn texts(line: &[Segment]) -> String {
    line.iter().map(|s| s.text.as_str()).collect()
}

fn tones(line: &[Segment]) -> Vec<Tone> {
    line.iter().map(|s| s.tone).collect()
}

#[test]
fn decimal_text_writes_digits() {
    assert_eq!(decimal_text(0), "0");
    assert_eq!(decimal_text(7), "7");
    assert_eq!(decimal_text(10), "10");
    assert_eq!(decimal_text(1234), "1234");
    assert_eq!(decimal_text(usize::MAX), usize::MAX.to_string());
}

#[test]
fn display_name_falls_back() {
    assert_eq!(display_name_of(&"/v/sub/日记.md".to_string()), "日记.md");
    assert_eq!(display_name_of(&"/".to_string()), "未知文件");
    assert_eq!(display_name_of(&"a/..".to_string()), "未知文件");
}

#[test]
fn healthy_report_text() {
    let mut report = DiagnosticReport::new();
    report.total_notes = 3;
    let lines = report_lines(&report);
    let shown: Vec<String> = lines.iter().map(|l| texts(l)).collect();
    assert_eq!(
        shown,
        vec![
            "",
            "─── 诊断报告 ───────────────────────────",
            "✔  扫描笔记总数：3",
            "✔  扫描图片总数：0",
            "✔  发现问题总数：0",
            "",
            "✔  未发现任何死链",
            "",
            "✔  未发现任何孤儿笔记",
            "",
            "✔  未发现任何冗余图片",
            "",
            "✔  知识库状态健康！",
            "────────────────────────────────────────",
            "",
        ]
    );
    assert_eq!(tones(&lines[4]), vec![Tone::Green, Tone::Plain, Tone::YellowBold]);
    assert_eq!(tones(&lines[12]), vec![Tone::GreenBold]);
}

#[test]
fn report_with_issues_text() {
    let mut report = DiagnosticReport::new();
    report.total_notes = 3;
    report.total_assets = 2;
    report.broken_links.push(NoteIssue::BrokenLink {
        file: "/v/index.md".to_string(),
        link: "不存在".to_string(),
    });
    report.orphan_notes.push(NoteIssue::OrphanNote { file: "/v/孤儿.md".to_string() });
    report.dead_assets.push(NoteIssue::DeadAsset { file: "/v/assets/unused.jpg".to_string() });
    // An issue of the wrong kind in a list gives no line.
    report.dead_assets.push(NoteIssue::OrphanNote { file: "/v/x.md".to_string() });
    let lines = report_lines(&report);
    let shown: Vec<String> = lines.iter().map(|l| texts(l)).collect();
    assert_eq!(
        shown,
        vec![
            "",
            "─── 诊断报告 ───────────────────────────",
            "✔  扫描笔记总数：3",
            "✔  扫描图片总数：2",
            "✘  发现问题总数：4",
            "",
            "✘  死链数量：1",
            "─── 死链详情 ───────────────────────────",
            "  ✘ 在 index.md 中发现死链 [[不存在]]",
            "",
            "⚠  孤儿笔记数量：1",
            "─── 孤儿笔记详情 ────────────────────────",
            "  ⚠ 孤儿.md （无入链也无出链）",
            "",
            "ℹ  冗余图片数量：2",
            "─── 冗余图片详情 ────────────────────────",
            "  ℹ unused.jpg （未被任何笔记引用）",
            "",
            "────────────────────────────────────────",
            "",
        ]
    );
    assert_eq!(tones(&lines[4])[0], Tone::Red);
    assert_eq!(
        tones(&lines[8]),
        vec![Tone::Plain, Tone::Red, Tone::Plain, Tone::Yellow, Tone::Plain, Tone::RedBold]
    );
    assert_eq!(tones(&lines[16])[3], Tone::BlueBold);
}
