//! The text of a diagnostic report, line by line, each line a sequence of
//! segments with the tone (colour and weight) in which it is shown. The
//! caller only maps tones to terminal colours and prints.

use vstd::prelude::*;
use crate::models::{DiagnosticReport, Issue, NoteIssue, issues_view};
use crate::path::{file_name, file_name_of};
use crate::text::{chars_of, string_from_chars};

verus! {

/// How a segment is shown.
#[derive(Debug, Clone, Copy, PartialEq, Eq)]
pub enum Tone {
    Plain,
    Cyan,
    Green,
    GreenBold,
    Red,
    RedBold,
    Yellow,
    YellowBold,
    Blue,
    BlueBold,
}

/// A piece of a line, with its tone.
#[derive(Debug, Clone)]
pub struct Segment {
    pub text: String,
    pub tone: Tone,
}

/// The value of a [`Segment`].
pub struct Piece {
    pub text: Seq<char>,
    pub tone: Tone,
}

impl View for Segment {
    type V = Piece;

    open spec fn view(&self) -> Piece {
        Piece { text: self.text@, tone: self.tone }
    }
}

/// The value of a line.
pub open spec fn line_view(l: Seq<Segment>) -> Seq<Piece> {
    l.map_values(|x: Segment| x@)
}

/// The value of a sequence of lines.
pub open spec fn lines_view(ls: Seq<Vec<Segment>>) -> Seq<Seq<Piece>> {
    ls.map_values(|l: Vec<Segment>| line_view(l@))
}

pub open spec fn piece(text: Seq<char>, tone: Tone) -> Piece {
    Piece { text, tone }
}

/// The character of a decimal digit.
pub open spec fn digit_char(d: nat) -> char {
    seq!['0', '1', '2', '3', '4', '5', '6', '7', '8', '9'][d as int]
}

/// The decimal digits of a number, most significant first, without leading zeros.
pub open spec fn decimal(n: nat) -> Seq<char>
    decreases n,
{
    if n < 10 {
        seq![digit_char(n)]
    } else {
        decimal(n / 10).push(digit_char(n % 10))
    }
}

/// How a report names a file: by its file name, or 未知文件 when its path
/// has none.
pub open spec fn display_name(path: Seq<char>) -> Seq<char> {
    match file_name(path) {
        Some(n) => n,
        None => "未知文件"@,
    }
}

/// The three lists of a report.
#[derive(Debug, Clone, Copy, PartialEq, Eq)]
pub enum Section {
    Broken,
    Orphan,
    Dead,
}

/// The detail line of an issue in a section: none when the issue is not of
/// the section's kind.
pub open spec fn issue_lines(section: Section, issue: Issue) -> Seq<Seq<Piece>> {
    match (section, issue) {
        (Section::Broken, Issue::BrokenLink { file, link }) => seq![
            seq![
                piece("  "@, Tone::Plain),
                piece("✘"@, Tone::Red),
                piece(" 在 "@, Tone::Plain),
                piece(display_name(file), Tone::Yellow),
                piece(" 中发现死链 "@, Tone::Plain),
                piece("[["@ + link + "]]"@, Tone::RedBold),
            ],
        ],
        (Section::Orphan, Issue::OrphanNote { file }) => seq![
            seq![
                piece("  "@, Tone::Plain),
                piece("⚠"@, Tone::Yellow),
                piece(" "@, Tone::Plain),
                piece(display_name(file), Tone::YellowBold),
                piece(" "@, Tone::Plain),
                piece("（无入链也无出链）"@, Tone::Yellow),
            ],
        ],
        (Section::Dead, Issue::DeadAsset { file }) => seq![
            seq![
                piece("  "@, Tone::Plain),
                piece("ℹ"@, Tone::Blue),
                piece(" "@, Tone::Plain),
                piece(display_name(file), Tone::BlueBold),
                piece(" "@, Tone::Plain),
                piece("（未被任何笔记引用）"@, Tone::Blue),
            ],
        ],
        _ => Seq::empty(),
    }
}

/// The detail lines of the issues of a section, in order.
pub open spec fn detail_lines(section: Section, issues: Seq<Issue>) -> Seq<Seq<Piece>>
    decreases issues.len(),
{
    if issues.len() == 0 {
        Seq::empty()
    } else {
        detail_lines(section, issues.drop_last()) + issue_lines(section, issues.last())
    }
}

/// The line of a section that has no issue.
pub open spec fn none_found_line(section: Section) -> Seq<Piece> {
    match section {
        Section::Broken => seq![piece("✔  未发现任何死链"@, Tone::Green)],
        Section::Orphan => seq![piece("✔  未发现任何孤儿笔记"@, Tone::Green)],
        Section::Dead => seq![piece("✔  未发现任何冗余图片"@, Tone::Green)],
    }
}

/// The count line of a section that has issues.
pub open spec fn count_line(section: Section, n: nat) -> Seq<Piece> {
    match section {
        Section::Broken => seq![
            piece("✘"@, Tone::Red),
            piece("  死链数量："@, Tone::Plain),
            piece(decimal(n), Tone::RedBold),
        ],
        Section::Orphan => seq![
            piece("⚠"@, Tone::Yellow),
            piece("  孤儿笔记数量："@, Tone::Plain),
            piece(decimal(n), Tone::YellowBold),
        ],
        Section::Dead => seq![
            piece("ℹ"@, Tone::Blue),
            piece("  冗余图片数量："@, Tone::Plain),
            piece(decimal(n), Tone::BlueBold),
        ],
    }
}

/// The heading of a section's detail lines.
pub open spec fn detail_heading(section: Section) -> Seq<Piece> {
    match section {
        Section::Broken => seq![piece("─── 死链详情 ───────────────────────────"@, Tone::Red)],
        Section::Orphan => seq![piece("─── 孤儿笔记详情 ────────────────────────"@, Tone::Yellow)],
        Section::Dead => seq![piece("─── 冗余图片详情 ────────────────────────"@, Tone::Blue)],
    }
}

/// The lines of a section: the line saying none was found, or the count,
/// the heading and a line per issue; then a blank line.
pub open spec fn section_text(section: Section, issues: Seq<Issue>) -> Seq<Seq<Piece>> {
    if issues.len() == 0 {
        seq![none_found_line(section), Seq::empty()]
    } else {
        seq![count_line(section, issues.len()), detail_heading(section)] + detail_lines(
            section,
            issues,
        ) + seq![Seq::empty()]
    }
}

/// The opening lines: a blank line, the title, the number of notes, of
/// images and of issues (marked ✔ when there is none, ✘ otherwise), and a
/// blank line.
pub open spec fn summary_text(notes: nat, assets: nat, total: nat) -> Seq<Seq<Piece>> {
    seq![
        Seq::empty(),
        seq![piece("─── 诊断报告 ───────────────────────────"@, Tone::Cyan)],
        seq![
            piece("✔"@, Tone::Green),
            piece("  扫描笔记总数："@, Tone::Plain),
            piece(decimal(notes), Tone::GreenBold),
        ],
        seq![
            piece("✔"@, Tone::Green),
            piece("  扫描图片总数："@, Tone::Plain),
            piece(decimal(assets), Tone::GreenBold),
        ],
        seq![
            if total == 0 {
                piece("✔"@, Tone::Green)
            } else {
                piece("✘"@, Tone::Red)
            },
            piece("  发现问题总数："@, Tone::Plain),
            piece(decimal(total), Tone::YellowBold),
        ],
        Seq::empty(),
    ]
}

/// The closing lines: the health line when there is no issue, the rule and
/// a blank line.
pub open spec fn closing_text(total: nat) -> Seq<Seq<Piece>> {
    (if total == 0 {
        seq![seq![piece("✔  知识库状态健康！"@, Tone::GreenBold)]]
    } else {
        Seq::empty()
    }) + seq![
        seq![piece("────────────────────────────────────────"@, Tone::Cyan)],
        Seq::empty(),
    ]
}

/// The whole text of a report.
pub open spec fn report_text(r: DiagnosticReport) -> Seq<Seq<Piece>> {
    summary_text(r.total_notes as nat, r.total_assets as nat, r.spec_total_issues()) + section_text(
        Section::Broken,
        issues_view(r.broken_links@),
    ) + section_text(Section::Orphan, issues_view(r.orphan_notes@)) + section_text(
        Section::Dead,
        issues_view(r.dead_assets@),
    ) + closing_text(r.spec_total_issues())
}

fn seg(text: &str, tone: Tone) -> (s: Segment)
    ensures
        s@ == piece(text@, tone),
{
    Segment { text: text.to_owned(), tone }
}

fn seg_owned(text: String, tone: Tone) -> (s: Segment)
    ensures
        s@ == piece(text@, tone),
{
    Segment { text, tone }
}

fn digit(d: usize) -> (c: char)
    requires
        d < 10,
    ensures
        c == digit_char(d as nat),
{
    if d == 0 {
        '0'
    } else if d == 1 {
        '1'
    } else if d == 2 {
        '2'
    } else if d == 3 {
        '3'
    } else if d == 4 {
        '4'
    } else if d == 5 {
        '5'
    } else if d == 6 {
        '6'
    } else if d == 7 {
        '7'
    } else if d == 8 {
        '8'
    } else {
        '9'
    }
}

fn push_decimal(n: usize, out: &mut Vec<char>)
    ensures
        final(out)@ == old(out)@ + decimal(n as nat),
    decreases n,
{
    if n >= 10 {
        push_decimal(n / 10, out);
    }
    let ghost mid = out@;
    out.push(digit(n % 10));
    proof {
        if n >= 10 {
            assert(decimal(n as nat) == decimal((n / 10) as nat).push(digit_char((n % 10) as nat)));
            assert(out@ =~= old(out)@ + decimal(n as nat));
        } else {
            assert(out@ =~= old(out)@ + decimal(n as nat));
        }
    }
}

/// The decimal text of a number.
pub fn decimal_text(n: usize) -> (s: String)
    ensures
        s@ == decimal(n as nat),
{
    let mut cs: Vec<char> = Vec::new();
    push_decimal(n, &mut cs);
    assert(cs@ =~= decimal(n as nat));
    string_from_chars(&cs)
}

/// How a report names a file, as [`display_name`] states.
pub fn display_name_of(path: &String) -> (s: String)
    ensures
        s@ == display_name(path@),
{
    let p = chars_of(path.as_str());
    match file_name_of(&p) {
        Some(n) => string_from_chars(&n),
        None => "未知文件".to_owned(),
    }
}

fn push_line(lines: &mut Vec<Vec<Segment>>, line: Vec<Segment>)
    ensures
        lines_view(final(lines)@) == lines_view(old(lines)@).push(line_view(line@)),
{
    lines.push(line);
    assert(lines_view(lines@) =~= lines_view(old(lines)@).push(line_view(line@)));
}

fn append_lines(lines: &mut Vec<Vec<Segment>>, more: Vec<Vec<Segment>>)
    ensures
        lines_view(final(lines)@) == lines_view(old(lines)@) + lines_view(more@),
{
    let mut more = more;
    let ghost m = more@;
    lines.append(&mut more);
    assert(lines_view(lines@) =~= lines_view(old(lines)@) + lines_view(m));
}

fn line1(a: Segment) -> (l: Vec<Segment>)
    ensures
        line_view(l@) == seq![a@],
{
    let mut l: Vec<Segment> = Vec::new();
    l.push(a);
    assert(line_view(l@) =~= seq![a@]);
    l
}

fn line3(a: Segment, b: Segment, c: Segment) -> (l: Vec<Segment>)
    ensures
        line_view(l@) == seq![a@, b@, c@],
{
    let mut l: Vec<Segment> = Vec::new();
    l.push(a);
    l.push(b);
    l.push(c);
    assert(line_view(l@) =~= seq![a@, b@, c@]);
    l
}

fn line6(a: Segment, b: Segment, c: Segment, d: Segment, e: Segment, f: Segment) -> (l: Vec<
    Segment,
>)
    ensures
        line_view(l@) == seq![a@, b@, c@, d@, e@, f@],
{
    let mut l: Vec<Segment> = Vec::new();
    l.push(a);
    l.push(b);
    l.push(c);
    l.push(d);
    l.push(e);
    l.push(f);
    assert(line_view(l@) =~= seq![a@, b@, c@, d@, e@, f@]);
    l
}

/// The detail line of one issue, as [`issue_lines`] states.
fn issue_line(section: Section, issue: &NoteIssue) -> (lines: Vec<Vec<Segment>>)
    ensures
        lines_view(lines@) == issue_lines(section, issue@),
{
    let mut lines: Vec<Vec<Segment>> = Vec::new();
    match (section, issue) {
        (Section::Broken, NoteIssue::BrokenLink { file, link }) => {
            let mut shown = String::new();
            shown.append("[[");
            shown.append(link.as_str());
            shown.append("]]");
            push_line(
                &mut lines,
                line6(
                    seg("  ", Tone::Plain),
                    seg("✘", Tone::Red),
                    seg(" 在 ", Tone::Plain),
                    seg_owned(display_name_of(file), Tone::Yellow),
                    seg(" 中发现死链 ", Tone::Plain),
                    seg_owned(shown, Tone::RedBold),
                ),
            );
        },
        (Section::Orphan, NoteIssue::OrphanNote { file }) => {
            push_line(
                &mut lines,
                line6(
                    seg("  ", Tone::Plain),
                    seg("⚠", Tone::Yellow),
                    seg(" ", Tone::Plain),
                    seg_owned(display_name_of(file), Tone::YellowBold),
                    seg(" ", Tone::Plain),
                    seg("（无入链也无出链）", Tone::Yellow),
                ),
            );
        },
        (Section::Dead, NoteIssue::DeadAsset { file }) => {
            push_line(
                &mut lines,
                line6(
                    seg("  ", Tone::Plain),
                    seg("ℹ", Tone::Blue),
                    seg(" ", Tone::Plain),
                    seg_owned(display_name_of(file), Tone::BlueBold),
                    seg(" ", Tone::Plain),
                    seg("（未被任何笔记引用）", Tone::Blue),
                ),
            );
        },
        _ => {
            assert(lines_view(lines@) =~= Seq::<Seq<Piece>>::empty());
        },
    }
    lines
}

/// The detail lines of a section's issues, as [`detail_lines`] states.
fn detail_lines_of(section: Section, issues: &Vec<NoteIssue>) -> (lines: Vec<Vec<Segment>>)
    ensures
        lines_view(lines@) == detail_lines(section, issues_view(issues@)),
{
    let ghost all = issues_view(issues@);
    let mut lines: Vec<Vec<Segment>> = Vec::new();
    let mut i: usize = 0;
    assert(lines_view(lines@) =~= detail_lines(section, all.take(0)));
    while i < issues.len()
        invariant
            0 <= i <= issues@.len(),
            all == issues_view(issues@),
            lines_view(lines@) == detail_lines(section, all.take(i as int)),
        decreases issues@.len() - i,
    {
        append_lines(&mut lines, issue_line(section, &issues[i]));
        assert(all.take(i + 1).drop_last() =~= all.take(i as int));
        assert(all.take(i + 1).last() == issues@[i as int]@);
        i = i + 1;
    }
    assert(all.take(i as int) =~= all);
    lines
}

/// The lines of a section, as [`section_text`] states.
fn section_lines(section: Section, issues: &Vec<NoteIssue>) -> (lines: Vec<Vec<Segment>>)
    ensures
        lines_view(lines@) == section_text(section, issues_view(issues@)),
{
    let mut lines: Vec<Vec<Segment>> = Vec::new();
    if issues.len() == 0 {
        let text = match section {
            Section::Broken => "✔  未发现任何死链",
            Section::Orphan => "✔  未发现任何孤儿笔记",
            Section::Dead => "✔  未发现任何冗余图片",
        };
        push_line(&mut lines, line1(seg(text, Tone::Green)));
    } else {
        let n = decimal_text(issues.len());
        let count = match section {
            Section::Broken => line3(
                seg("✘", Tone::Red),
                seg("  死链数量：", Tone::Plain),
                seg_owned(n, Tone::RedBold),
            ),
            Section::Orphan => line3(
                seg("⚠", Tone::Yellow),
                seg("  孤儿笔记数量：", Tone::Plain),
                seg_owned(n, Tone::YellowBold),
            ),
            Section::Dead => line3(
                seg("ℹ", Tone::Blue),
                seg("  冗余图片数量：", Tone::Plain),
                seg_owned(n, Tone::BlueBold),
            ),
        };
        let heading = match section {
            Section::Broken => line1(seg("─── 死链详情 ───────────────────────────", Tone::Red)),
            Section::Orphan => line1(seg("─── 孤儿笔记详情 ────────────────────────", Tone::Yellow)),
            Section::Dead => line1(seg("─── 冗余图片详情 ────────────────────────", Tone::Blue)),
        };
        push_line(&mut lines, count);
        push_line(&mut lines, heading);
        append_lines(&mut lines, detail_lines_of(section, issues));
    }
    let blank: Vec<Segment> = Vec::new();
    assert(line_view(blank@) =~= Seq::<Piece>::empty());
    push_line(&mut lines, blank);
    assert(lines_view(lines@) =~= section_text(section, issues_view(issues@)));
    lines
}

/// The text of a report, line by line, as [`report_text`] states.
pub fn report_lines(report: &DiagnosticReport) -> (lines: Vec<Vec<Segment>>)
    requires
        report.spec_total_issues() <= usize::MAX,
    ensures
        lines_view(lines@) == report_text(*report),
{
    let total = report.total_issues();
    let mut lines: Vec<Vec<Segment>> = Vec::new();
    assert(line_view(Seq::<Segment>::empty()) =~= Seq::<Piece>::empty());
    push_line(&mut lines, Vec::new());
    push_line(&mut lines, line1(seg("─── 诊断报告 ───────────────────────────", Tone::Cyan)));
    push_line(
        &mut lines,
        line3(
            seg("✔", Tone::Green),
            seg("  扫描笔记总数：", Tone::Plain),
            seg_owned(decimal_text(report.total_notes), Tone::GreenBold),
        ),
    );
    push_line(
        &mut lines,
        line3(
            seg("✔", Tone::Green),
            seg("  扫描图片总数：", Tone::Plain),
            seg_owned(decimal_text(report.total_assets), Tone::GreenBold),
        ),
    );
    let mark = if total == 0 {
        seg("✔", Tone::Green)
    } else {
        seg("✘", Tone::Red)
    };
    push_line(
        &mut lines,
        line3(mark, seg("  发现问题总数：", Tone::Plain), seg_owned(decimal_text(total), Tone::YellowBold)),
    );
    push_line(&mut lines, Vec::new());
    assert(lines_view(lines@) =~= summary_text(
        report.total_notes as nat,
        report.total_assets as nat,
        report.spec_total_issues(),
    ));
    let ghost s0 = lines_view(lines@);
    append_lines(&mut lines, section_lines(Section::Broken, &report.broken_links));
    append_lines(&mut lines, section_lines(Section::Orphan, &report.orphan_notes));
    append_lines(&mut lines, section_lines(Section::Dead, &report.dead_assets));
    let ghost s1 = lines_view(lines@);
    if total == 0 {
        push_line(&mut lines, line1(seg("✔  知识库状态健康！", Tone::GreenBold)));
    }
    push_line(&mut lines, line1(seg("────────────────────────────────────────", Tone::Cyan)));
    push_line(&mut lines, Vec::new());
    assert(lines_view(lines@) =~= s1 + closing_text(report.spec_total_issues()));
    assert(lines_view(lines@) =~= report_text(*report));
    lines
}

} // verus!
