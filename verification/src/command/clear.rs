use crate::human::{decimal, human_size, push_decimal, size_text};
use crate::scan_category::ScanCate;
use crate::text::{file_name, final_segment};
use vstd::prelude::*;

verus! {

/// What `{:?}` makes of a string: the text between double quotes, with the
/// characters escaped that the standard library escapes there.
pub uninterp spec fn debug_text(text: Seq<char>) -> Seq<char>;

/// `format!("{:?}", ..)` of std on a string slice. The result depends on the
/// characters of `text` alone; the contract gives it its name and claims no
/// more of it.
#[verifier::external_body]
fn quoted(text: &str) -> (shown: String)
    ensures
        shown@ == debug_text(text@),
{
    format!("{:?}", text)
}

/// The arguments of the clearing command.
#[derive(Debug)]
pub struct Clear {
    /// The directory to scan.
    pub target: String,
    /// Remove without asking.
    pub force: bool,
    /// Run without the interactive table.
    pub ci: bool,
}

/// Where a run of the command stands.
#[derive(Debug, Clone, Copy, PartialEq, Eq, Structural)]
pub enum Stage {
    /// Nothing has happened yet.
    Idle,
    /// The scan is under way.
    Scanning,
    /// The scan is over; the interactive table is still open.
    Waiting,
    /// The removal is under way.
    Removing,
    /// The run is over.
    Finished,
}

/// What happened outside.
#[derive(Debug, Clone, Copy, PartialEq, Eq, Structural)]
pub enum RunEvent {
    /// The run was started.
    Begin,
    /// The scan came to its end.
    ScanDone,
    /// The scan failed at its root.
    ScanFailed,
    /// The interactive table was closed with this code: 0 to go on, 1 after
    /// a quit, 2 after a failure of the terminal.
    UiClosed(usize),
    /// The removal came to its end, with something removed under this many
    /// project roots.
    Removed(usize),
}

/// What is to be done outside.
#[derive(Debug, Clone, Copy, PartialEq, Eq, Structural)]
pub enum RunAction {
    /// Scan the target.
    Scan,
    /// Scan the target while the interactive table shows what is found.
    ScanBesideUi,
    /// Wait until the interactive table is closed.
    AwaitUi,
    /// Remove what is disposable under the rows found.
    Remove { force: bool },
    /// Print the summary for this count.
    Report(usize),
    /// Give up and hand on the scan's failure.
    Fail,
    /// End without removing anything.
    Stop,
    /// Nothing: the event does not belong to the stage.
    Ignore,
}

/// The code with which the interactive table says that the removal may go
/// ahead.
pub const UI_PROCEED: usize = 0;

/// The code of the interactive table after a quit.
pub const UI_QUIT: usize = 1;

/// The code of the interactive table after a failure of the terminal.
pub const UI_ABNORMAL: usize = 2;

/// The stage that follows `stage` on `event`, and what is to be done. Without
/// the interactive table the removal follows the scan at once; with it, only
/// a table closed with the code to go on lets the removal begin.
pub open spec fn run_step(ci: bool, force: bool, stage: Stage, event: RunEvent) -> (Stage, RunAction) {
    match (stage, event) {
        (Stage::Idle, RunEvent::Begin) => (
            Stage::Scanning,
            if ci {
                RunAction::Scan
            } else {
                RunAction::ScanBesideUi
            },
        ),
        (Stage::Scanning, RunEvent::ScanFailed) => (Stage::Finished, RunAction::Fail),
        (Stage::Scanning, RunEvent::ScanDone) => if ci {
            (Stage::Removing, RunAction::Remove { force })
        } else {
            (Stage::Waiting, RunAction::AwaitUi)
        },
        (Stage::Waiting, RunEvent::UiClosed(code)) => if code == UI_PROCEED {
            (Stage::Removing, RunAction::Remove { force })
        } else {
            (Stage::Finished, RunAction::Stop)
        },
        (Stage::Removing, RunEvent::Removed(count)) => (Stage::Finished, RunAction::Report(count)),
        _ => (stage, RunAction::Ignore),
    }
}

/// The line that sums up a run.
pub open spec fn summary_text(count: nat) -> Seq<char> {
    "[RM] Clear "@ + decimal(count) + " project cache."@
}

impl Clear {
    /// One step of a run: the stage that follows and what is to be done.
    pub fn run(&self, stage: Stage, event: RunEvent) -> (next: (Stage, RunAction))
        ensures
            next == run_step(self.ci, self.force, stage, event),
    {
        match (stage, event) {
            (Stage::Idle, RunEvent::Begin) => {
                if self.ci {
                    (Stage::Scanning, RunAction::Scan)
                } else {
                    (Stage::Scanning, RunAction::ScanBesideUi)
                }
            },
            (Stage::Scanning, RunEvent::ScanFailed) => (Stage::Finished, RunAction::Fail),
            (Stage::Scanning, RunEvent::ScanDone) => {
                if self.ci {
                    (Stage::Removing, RunAction::Remove { force: self.force })
                } else {
                    (Stage::Waiting, RunAction::AwaitUi)
                }
            },
            (Stage::Waiting, RunEvent::UiClosed(code)) => {
                if code == UI_PROCEED {
                    (Stage::Removing, RunAction::Remove { force: self.force })
                } else {
                    (Stage::Finished, RunAction::Stop)
                }
            },
            (Stage::Removing, RunEvent::Removed(count)) => (
                Stage::Finished,
                RunAction::Report(count),
            ),
            _ => (stage, RunAction::Ignore),
        }
    }

    /// The line that sums up a run in which something was removed under
    /// `count` project roots.
    pub fn summary(count: usize) -> (line: String)
        ensures
            line@ == summary_text(count as nat),
    {
        let mut line = String::from_str("[RM] Clear ");
        push_decimal(&mut line, count as u128);
        line.append(" project cache.");
        line
    }
}

/// One project root that the scan found.
#[derive(Debug)]
pub struct ScanRow {
    /// The project root's path.
    pub path: String,
    /// The project's name: the final segment of its path.
    pub project: String,
    /// The category that recognised the root.
    pub cate: ScanCate,
    /// The bytes under the project root.
    pub size: u64,
}

/// A row as plain values.
pub struct RowView {
    pub path: Seq<char>,
    pub project: Seq<char>,
    pub cate: ScanCate,
    pub size: u64,
}

impl View for ScanRow {
    type V = RowView;

    open spec fn view(&self) -> RowView {
        RowView { path: self.path@, project: self.project@, cate: self.cate, size: self.size }
    }
}

impl ScanRow {
    /// The row of the project root `path`, recognised by `cate`, with `size`
    /// bytes under it. The project's name is the final segment of the path.
    pub fn new(path: String, cate: ScanCate, size: u64) -> (row: Self)
        ensures
            row@ == (RowView { path: path@, project: final_segment(path@), cate, size }),
    {
        let project = file_name(path.as_str());
        ScanRow { path, project, cate, size }
    }

    /// The cells of the row as they are displayed: the project's name, the
    /// category's display name, the size in units of display, and the path
    /// between quotes.
    pub fn ref_data(&self) -> (cells: [String; 4])
        ensures
            cells@[0]@ == self.project@,
            cells@[1]@ == self.cate.ident_name(),
            cells@[2]@ == size_text(self.size as nat),
            cells@[3]@ == debug_text(self.path@),
    {
        [
            self.project.clone(),
            self.cate.ident(),
            human_size(self.size),
            quoted(self.path.as_str()),
        ]
    }

    /// The headings of the four cells.
    pub fn ref_head() -> (head: [&'static str; 4])
        ensures
            head@[0]@ == "Project"@,
            head@[1]@ == "Cate"@,
            head@[2]@ == "Size"@,
            head@[3]@ == "Path"@,
    {
        ["Project", "Cate", "Size", "Path"]
    }
}

/// The rows of a list, each as plain values.
pub open spec fn row_views(rows: Seq<ScanRow>) -> Seq<RowView> {
    Seq::new(rows.len(), |i: int| rows[i]@)
}

} // verus!
