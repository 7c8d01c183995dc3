use crate::command::clear::{row_views, RowView, ScanRow};
use crate::probe::{entry_names, entry_paths, Probe};
use crate::scan_category::{
    find_disposable, find_matching, first_disposable, first_root, has_name, holds_name, registry,
    skip_file, ScanCate,
};
use crate::text::{file_name, final_segment, same_text};
use crate::visited::{pop_fresh, skip_seen, VisitedSet};
use vstd::prelude::*;

verus! {

/// What the scan makes of one path.
#[derive(Debug, Clone, Copy, PartialEq, Eq, Structural)]
pub enum Verdict {
    /// No directory: nothing to do.
    NotDir,
    /// The directory holds the skip file: no match, no descent.
    Skipped,
    /// The directory is a project root of this category: a match, no descent.
    Matched(ScanCate),
    /// The directory is itself junk of some category: no match, no descent.
    Disposable,
    /// The directory is a version-control store: no match, no descent.
    Excluded,
    /// None of these: its entries are looked at in turn.
    Descend,
}

/// Why a scan gave no rows.
#[derive(Debug, Clone, Copy, PartialEq, Eq, Structural)]
pub enum ScanError {
    /// The path at which the scan was to start is no directory, or could not
    /// be listed.
    RootUnreadable,
    /// The bytes under a project root could not be counted.
    Size(crate::size::SizeError),
}

/// The name of the directory that is never entered.
pub open spec fn excluded_name() -> Seq<char> {
    ".git"@
}

/// What the scan makes of `path`, given what a look at it gave. The skip file
/// is tested first, then the categories in registry order for a project
/// root, then for junk, then the excluded name.
pub open spec fn verdict_of(path: Seq<char>, probe: Probe) -> Verdict {
    let names = entry_names(probe.entries());
    if !probe.is_dir() {
        Verdict::NotDir
    } else if has_name(names, skip_file()) {
        Verdict::Skipped
    } else if first_root(registry(), names, 0) is Some {
        Verdict::Matched(first_root(registry(), names, 0)->0)
    } else if first_disposable(registry(), path, 0) is Some {
        Verdict::Disposable
    } else if final_segment(path) == excluded_name() {
        Verdict::Excluded
    } else {
        Verdict::Descend
    }
}

/// The decision of the scan for one path.
pub fn classify(path: &str, probe: &Probe) -> (verdict: Verdict)
    ensures
        verdict == verdict_of(path@, *probe),
{
    if let Probe::NotDir = probe {
        return Verdict::NotDir;
    }
    let names = probe.names();
    if holds_name(&names, "rmdev.skip") {
        return Verdict::Skipped;
    }
    if let Some(cate) = find_matching(&names) {
        return Verdict::Matched(cate);
    }
    if find_disposable(path).is_some() {
        return Verdict::Disposable;
    }
    let name = file_name(path);
    if same_text(name.as_str(), ".git") {
        return Verdict::Excluded;
    }
    Verdict::Descend
}

/// The traversal of a directory tree in search of project roots: a worklist
/// of paths still to look at, the paths looked at so far, and the rows found
/// so far. No path is looked at twice.
#[derive(Debug)]
pub struct Scanner {
    stack: Vec<String>,
    seen: VisitedSet,
    rows: Vec<ScanRow>,
    at_root: bool,
    failed: bool,
}

impl Scanner {
    /// The paths still to look at; the last is looked at next.
    pub closed spec fn worklist(&self) -> Seq<Seq<char>> {
        crate::text::views(self.stack@)
    }

    /// The paths that were taken off the worklist to be looked at.
    pub open spec fn seen(&self) -> Set<Seq<char>> {
        self.looked().to_set()
    }

    /// The same paths in the order in which they were taken off.
    pub closed spec fn looked(&self) -> Seq<Seq<char>> {
        self.seen.order()
    }

    /// Whether no path has been looked at yet, so that the next look is at
    /// the root.
    pub closed spec fn at_root(&self) -> bool {
        self.at_root
    }

    /// Whether the root turned out to be no directory that can be listed.
    pub closed spec fn failed(&self) -> bool {
        self.failed
    }

    /// The rows found so far, in the order in which they were recorded.
    pub closed spec fn found(&self) -> Seq<RowView> {
        row_views(self.rows@)
    }

    /// A scan that has only its root to look at.
    pub fn new(root: String) -> (scanner: Self)
        ensures
            scanner.worklist() == seq![root@],
            scanner.looked() == Seq::<Seq<char>>::empty(),
            scanner.found() == Seq::<RowView>::empty(),
            scanner.at_root(),
            !scanner.failed(),
    {
        let mut stack: Vec<String> = Vec::new();
        stack.push(root);
        let scanner = Scanner {
            stack,
            seen: VisitedSet::new(),
            rows: Vec::new(),
            at_root: true,
            failed: false,
        };
        assert(scanner.worklist() =~= seq![root@]);
        assert(scanner.found() =~= Seq::<RowView>::empty());
        scanner
    }

    /// The next path to look at: the nearest one on the worklist that was
    /// not looked at before. `None` when the scan is over.
    pub fn next_path(&mut self) -> (next: Option<String>)
        ensures
            final(self).found() == old(self).found(),
            final(self).at_root() == old(self).at_root(),
            final(self).failed() == old(self).failed(),
            match next {
                Some(path) => {
                    let rest = skip_seen(old(self).worklist(), old(self).seen());
                    &&& rest.len() > 0
                    &&& path@ == rest.last()
                    &&& !old(self).seen().contains(path@)
                    &&& final(self).worklist() == rest.drop_last()
                    &&& final(self).looked() == old(self).looked().push(path@)
                },
                None => {
                    &&& skip_seen(old(self).worklist(), old(self).seen()).len() == 0
                    &&& final(self).worklist().len() == 0
                    &&& final(self).looked() == old(self).looked()
                },
            },
    {
        pop_fresh(&mut self.stack, &mut self.seen)
    }

    /// Takes in what a look at `path` gave. Only where the verdict is to
    /// descend does the worklist grow, by the paths of all the entries seen;
    /// a match is left to the caller to measure and to `record`. If the
    /// first path looked at is no directory that can be listed, the scan has
    /// failed.
    pub fn visit(&mut self, path: &str, probe: &Probe) -> (verdict: Verdict)
        ensures
            verdict == verdict_of(path@, *probe),
            final(self).found() == old(self).found(),
            final(self).looked() == old(self).looked(),
            !final(self).at_root(),
            final(self).failed() == (old(self).failed() || (old(self).at_root() && !(probe is Dir))),
            final(self).worklist() == if verdict == Verdict::Descend {
                old(self).worklist() + entry_paths(probe.entries())
            } else {
                old(self).worklist()
            },
    {
        let verdict = classify(path, probe);
        if self.at_root {
            if let Probe::Dir(_) = probe {
            } else {
                self.failed = true;
            }
        }
        self.at_root = false;
        if let Verdict::Descend = verdict {
            if let Probe::Dir(entries) = probe {
                let mut i: usize = 0;
                while i < entries.len()
                    invariant
                        i <= entries.len(),
                        self.rows == old(self).rows,
                        self.seen == old(self).seen,
                        !self.at_root,
                        self.failed == (old(self).failed || (old(self).at_root && !(probe is Dir))),
                        self.worklist() == old(self).worklist() + entry_paths(
                            entries@.take(i as int),
                        ),
                    decreases entries.len() - i,
                {
                    let ghost before = self.worklist();
                    self.stack.push(entries[i].path.clone());
                    assert(self.worklist() =~= before.push(entries@[i as int].path@));
                    assert(entry_paths(entries@.take(i + 1)) =~= entry_paths(
                        entries@.take(i as int),
                    ).push(entries@[i as int].path@));
                    i += 1;
                }
                assert(entries@.take(entries@.len() as int) =~= entries@);
            } else {
                assert(old(self).worklist() + entry_paths(probe.entries()) =~= old(
                    self,
                ).worklist());
            }
        }
        verdict
    }

    /// Records a project root: its path, the category that matched, and the
    /// bytes under it. The project's name is the final segment of the path.
    pub fn record(&mut self, path: String, cate: ScanCate, size: u64)
        ensures
            final(self).worklist() == old(self).worklist(),
            final(self).looked() == old(self).looked(),
            final(self).at_root() == old(self).at_root(),
            final(self).failed() == old(self).failed(),
            final(self).found() == old(self).found().push(
                RowView { path: path@, project: final_segment(path@), cate, size },
            ),
    {
        self.rows.push(ScanRow::new(path, cate, size));
        assert(final(self).found() =~= old(self).found().push(
            RowView { path: path@, project: final_segment(path@), cate, size },
        ));
    }

    /// Whether the root turned out to be no directory that can be listed.
    pub fn root_failed(&self) -> (failed: bool)
        ensures
            failed == self.failed(),
    {
        self.failed
    }

    /// Whether nothing is left to look at.
    pub fn is_done(&self) -> (done: bool)
        ensures
            done == (self.worklist().len() == 0),
    {
        self.stack.len() == 0
    }

    /// Ends the scan and hands out the rows found.
    pub fn into_rows(self) -> (rows: Vec<ScanRow>)
        ensures
            row_views(rows@) == self.found(),
    {
        self.rows
    }
}

} // verus!
