//! The issues a diagnosis finds, and the report that collects them.

use vstd::prelude::*;

verus! {

/// One problem found in the knowledge base. Paths are kept as text.
#[derive(Debug, Clone)]
pub enum NoteIssue {
    /// A `[[...]]` link in `file` whose target names no note.
    BrokenLink { file: String, link: String },
    /// A note with no incoming and no outgoing links.
    OrphanNote { file: String },
    /// An image file that no note references.
    DeadAsset { file: String },
}

/// The mathematical value of a [`NoteIssue`].
pub enum Issue {
    BrokenLink { file: Seq<char>, link: Seq<char> },
    OrphanNote { file: Seq<char> },
    DeadAsset { file: Seq<char> },
}

impl View for NoteIssue {
    type V = Issue;

    open spec fn view(&self) -> Issue {
        match self {
            NoteIssue::BrokenLink { file, link } => Issue::BrokenLink { file: file@, link: link@ },
            NoteIssue::OrphanNote { file } => Issue::OrphanNote { file: file@ },
            NoteIssue::DeadAsset { file } => Issue::DeadAsset { file: file@ },
        }
    }
}

/// The values of a sequence of issues.
pub open spec fn issues_view(v: Seq<NoteIssue>) -> Seq<Issue> {
    v.map_values(|i: NoteIssue| i@)
}

/// What one scan of a knowledge base found.
#[derive(Debug)]
pub struct DiagnosticReport {
    pub total_notes: usize,
    pub total_assets: usize,
    pub broken_links: Vec<NoteIssue>,
    pub orphan_notes: Vec<NoteIssue>,
    pub dead_assets: Vec<NoteIssue>,
}

impl DiagnosticReport {
    /// The report of a scan that found nothing.
    pub open spec fn is_empty_report(&self) -> bool {
        &&& self.total_notes == 0
        &&& self.total_assets == 0
        &&& self.broken_links@.len() == 0
        &&& self.orphan_notes@.len() == 0
        &&& self.dead_assets@.len() == 0
    }

    /// The number of issues of all three kinds.
    pub open spec fn spec_total_issues(&self) -> nat {
        self.broken_links@.len() + self.orphan_notes@.len() + self.dead_assets@.len()
    }

    pub fn new() -> (report: Self)
        ensures
            report.is_empty_report(),
    {
        DiagnosticReport {
            total_notes: 0,
            total_assets: 0,
            broken_links: Vec::new(),
            orphan_notes: Vec::new(),
            dead_assets: Vec::new(),
        }
    }

    /// The number of issues of all three kinds.
    pub fn total_issues(&self) -> (n: usize)
        requires
            self.spec_total_issues() <= usize::MAX,
        ensures
            n == self.spec_total_issues(),
    {
        self.broken_links.len() + self.orphan_notes.len() + self.dead_assets.len()
    }
}

} // verus!
