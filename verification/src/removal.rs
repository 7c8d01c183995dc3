use crate::probe::{entry_paths, Probe};
use crate::scan_category::ScanCate;
use crate::text::views;
use crate::visited::{pop_fresh, skip_seen, VisitedSet};
use vstd::prelude::*;

verus! {

/// What whoever drives a removal has to do next.
#[derive(Debug)]
pub enum RemovalStep {
    /// Nothing is left to look at.
    Done,
    /// Look at this path and hand what was seen to `inspected`.
    Inspect(String),
    /// See whether this path, which has the name of a disposable directory,
    /// is a directory, and hand that to `checked`.
    Check(String),
    /// Ask whether this directory may be removed and hand the answer to
    /// `answered`.
    Confirm(String),
    /// Remove this directory with all that is under it and hand the result
    /// to `deleted`.
    Delete(String),
    /// Nothing is to be done with the path.
    Pass,
}

/// What became of one match.
#[derive(Debug)]
pub struct RemovalOutcome {
    /// The project root.
    pub path: String,
    /// Whether at least one disposable directory under it was removed.
    pub removed: bool,
    /// What the last removal that failed under it said; `None` where none
    /// failed.
    pub error: Option<String>,
}

/// What became of a batch of matches.
#[derive(Debug, Clone, Copy, PartialEq, Eq, Structural)]
pub struct BatchSummary {
    /// How many matches had at least one disposable directory removed.
    pub total_removed: usize,
}

/// How many of `outcomes` had something removed.
pub open spec fn count_removed(outcomes: Seq<RemovalOutcome>) -> nat
    decreases outcomes.len(),
{
    if outcomes.len() == 0 {
        0
    } else if outcomes.last().removed {
        count_removed(outcomes.drop_last()) + 1
    } else {
        count_removed(outcomes.drop_last())
    }
}

/// The paths of `failures`, in order.
pub open spec fn failed_paths(failures: Seq<(String, String)>) -> Seq<Seq<char>> {
    Seq::new(failures.len(), |i: int| failures[i].0@)
}

/// The removal under one project root: a worklist of paths still to look
/// at, the paths looked at so far, the disposable directories removed so
/// far, and those whose removal failed, each with what the failure said.
/// Every path is held against the category that matched the root, and
/// against no other. No path is looked at twice.
#[derive(Debug)]
pub struct RemovalWalk {
    cate: ScanCate,
    force: bool,
    stack: Vec<String>,
    seen: VisitedSet,
    removed: Vec<String>,
    failures: Vec<(String, String)>,
}

impl RemovalWalk {
    /// The paths still to look at; the last is looked at next.
    pub closed spec fn worklist(&self) -> Seq<Seq<char>> {
        views(self.stack@)
    }

    /// The paths that were taken off the worklist.
    pub open spec fn seen(&self) -> Set<Seq<char>> {
        self.looked().to_set()
    }

    /// The same paths in the order in which they were taken off.
    pub closed spec fn looked(&self) -> Seq<Seq<char>> {
        self.seen.order()
    }

    /// The disposable directories removed so far, in the order of removal.
    pub closed spec fn removed(&self) -> Seq<Seq<char>> {
        views(self.removed@)
    }

    /// The disposable directories whose removal failed, in that order.
    pub closed spec fn refused(&self) -> Seq<Seq<char>> {
        failed_paths(self.failures@)
    }

    /// The category whose junk is removed.
    pub closed spec fn cate(&self) -> ScanCate {
        self.cate
    }

    /// Whether removal goes ahead without asking.
    pub closed spec fn force(&self) -> bool {
        self.force
    }

    /// What the last removal that failed said, if one failed.
    pub closed spec fn last_error(&self) -> Option<Seq<char>> {
        if self.failures@.len() > 0 {
            Some(self.failures@.last().1@)
        } else {
            None
        }
    }

    /// A failure is on record exactly where a removal was refused.
    pub proof fn lemma_error_where_refused(&self)
        ensures
            self.last_error() is Some <==> self.refused().len() > 0,
    {
    }

    /// A removal that has only the project root to look at.
    pub fn new(root: String, cate: ScanCate, force: bool) -> (walk: Self)
        ensures
            walk.worklist() == seq![root@],
            walk.looked() == Seq::<Seq<char>>::empty(),
            walk.removed() == Seq::<Seq<char>>::empty(),
            walk.refused() == Seq::<Seq<char>>::empty(),
            walk.cate() == cate,
            walk.force() == force,
            walk.last_error() is None,
    {
        let mut stack: Vec<String> = Vec::new();
        stack.push(root);
        let walk = RemovalWalk {
            cate,
            force,
            stack,
            seen: VisitedSet::new(),
            removed: Vec::new(),
            failures: Vec::new(),
        };
        assert(walk.worklist() =~= seq![root@]);
        assert(walk.removed() =~= Seq::<Seq<char>>::empty());
        assert(walk.refused() =~= Seq::<Seq<char>>::empty());
        walk
    }

    /// Takes the next path that was not looked at before off the worklist
    /// and says what to do with it. A path with the name of a disposable
    /// directory is to be checked for being a directory; any other path is
    /// to be looked at.
    pub fn next(&mut self) -> (step: RemovalStep)
        ensures
            final(self).removed() == old(self).removed(),
            final(self).refused() == old(self).refused(),
            final(self).cate() == old(self).cate(),
            final(self).force() == old(self).force(),
            final(self).last_error() == old(self).last_error(),
            ({
                let rest = skip_seen(old(self).worklist(), old(self).seen());
                if rest.len() == 0 {
                    &&& step is Done
                    &&& final(self).worklist().len() == 0
                    &&& final(self).looked() == old(self).looked()
                } else {
                    let path = rest.last();
                    &&& !old(self).seen().contains(path)
                    &&& final(self).worklist() == rest.drop_last()
                    &&& final(self).looked() == old(self).looked().push(path)
                    &&& old(self).cate().is_disposable(path) ==> (step matches RemovalStep::Check(
                        p,
                    ) && p@ == path)
                    &&& !old(self).cate().is_disposable(path) ==> (step matches RemovalStep::Inspect(
                        p,
                    ) && p@ == path)
                }
            }),
    {
        match pop_fresh(&mut self.stack, &mut self.seen) {
            None => RemovalStep::Done,
            Some(path) => {
                if self.cate.rm_keyfile(path.as_str()) {
                    RemovalStep::Check(path)
                } else {
                    RemovalStep::Inspect(path)
                }
            },
        }
    }

    /// What follows the check of a path with the name of a disposable
    /// directory. What is no directory is passed over. A directory is not
    /// entered: it is to be removed, after a question unless the removal is
    /// forced.
    pub fn checked(&self, path: String, is_dir: bool) -> (step: RemovalStep)
        ensures
            !is_dir ==> step is Pass,
            is_dir && self.force() ==> (step matches RemovalStep::Delete(p) && p@ == path@),
            is_dir && !self.force() ==> (step matches RemovalStep::Confirm(p) && p@ == path@),
    {
        if !is_dir {
            RemovalStep::Pass
        } else if self.force {
            RemovalStep::Delete(path)
        } else {
            RemovalStep::Confirm(path)
        }
    }

    /// What follows the answer to a question: only a yes leads to the
    /// removal of `path`.
    pub fn answered(&self, path: String, yes: bool) -> (go: Option<String>)
        ensures
            yes ==> (go matches Some(p) && p@ == path@),
            !yes ==> go is None,
    {
        if yes {
            Some(path)
        } else {
            None
        }
    }

    /// Takes in how the removal of `path` went: `None` where it succeeded,
    /// what it said where it failed. One that succeeded is counted; one that
    /// failed is kept with what it said, and stops nothing.
    pub fn deleted(&mut self, path: String, failure: Option<String>)
        ensures
            final(self).worklist() == old(self).worklist(),
            final(self).looked() == old(self).looked(),
            final(self).cate() == old(self).cate(),
            final(self).force() == old(self).force(),
            final(self).removed() == if failure is None {
                old(self).removed().push(path@)
            } else {
                old(self).removed()
            },
            final(self).refused() == if failure is None {
                old(self).refused()
            } else {
                old(self).refused().push(path@)
            },
            final(self).last_error() == match failure {
                Some(text) => Some(text@),
                None => old(self).last_error(),
            },
    {
        match failure {
            None => {
                let ghost before = self.removed();
                self.removed.push(path);
                assert(self.removed() =~= before.push(path@));
            },
            Some(text) => {
                let ghost before = self.refused();
                self.failures.push((path, text));
                assert(self.refused() =~= before.push(path@));
            },
        }
    }

    /// Takes in what a look at a path gave: the entries of a directory all
    /// join the worklist, anything else adds nothing.
    pub fn inspected(&mut self, probe: &Probe)
        ensures
            final(self).worklist() == old(self).worklist() + entry_paths(probe.entries()),
            final(self).looked() == old(self).looked(),
            final(self).removed() == old(self).removed(),
            final(self).refused() == old(self).refused(),
            final(self).cate() == old(self).cate(),
            final(self).force() == old(self).force(),
            final(self).last_error() == old(self).last_error(),
    {
        match probe {
            Probe::Dir(entries) => {
                let mut i: usize = 0;
                assert(self.worklist() + entry_paths(entries@.take(0)) =~= self.worklist());
                while i < entries.len()
                    invariant
                        i <= entries.len(),
                        self.removed == old(self).removed,
                        self.seen == old(self).seen,
                        self.cate == old(self).cate,
                        self.force == old(self).force,
                        self.failures == old(self).failures,
                        self.worklist() == old(self).worklist() + entry_paths(
                            entries@.take(i as int),
                        ),
                    decreases entries.len() - i,
                {
                    let ghost before = self.worklist();
                    self.stack.push(entries[i].path.clone());
                    assert(self.worklist() =~= before.push(entries@[i as int].path@));
                    assert(entry_paths(entries@.take(i + 1)) =~= entry_paths(
                        entries@.take(i as int),
                    ).push(entries@[i as int].path@));
                    i += 1;
                }
                assert(entries@.take(entries@.len() as int) =~= entries@);
            },
            _ => {
                assert(self.worklist() + entry_paths(probe.entries()) =~= self.worklist());
            },
        }
    }

    /// How many disposable directories were removed so far.
    pub fn removed_count(&self) -> (n: usize)
        ensures
            n == self.removed().len(),
    {
        self.removed.len()
    }

    /// Ends the removal under the project root `path` and says what became
    /// of the match: it counts as removed if anything under it was, and
    /// carries what the last removal that failed under it said.
    pub fn finish(self, path: String) -> (outcome: RemovalOutcome)
        ensures
            outcome.path@ == path@,
            outcome.removed == (self.removed().len() > 0),
            outcome.error is Some == (self.refused().len() > 0),
            match outcome.error {
                Some(text) => self.last_error() == Some(text@),
                None => self.last_error() is None,
            },
    {
        let removed = self.removed.len() > 0;
        let mut failures = self.failures;
        let error = match failures.pop() {
            Some(last) => Some(last.1),
            None => None,
        };
        RemovalOutcome { path, removed, error }
    }
}

/// The summary of a batch: one count for every match under which something
/// was removed. A match under which nothing was found, or every removal
/// failed, is not counted, and stops nothing.
pub fn tally(outcomes: &Vec<RemovalOutcome>) -> (summary: BatchSummary)
    ensures
        summary.total_removed == count_removed(outcomes@),
{
    let mut total: usize = 0;
    let mut i: usize = 0;
    while i < outcomes.len()
        invariant
            i <= outcomes.len(),
            total == count_removed(outcomes@.take(i as int)),
            total <= i,
        decreases outcomes.len() - i,
    {
        assert(outcomes@.take(i + 1).drop_last() =~= outcomes@.take(i as int));
        if outcomes[i].removed {
            total = total + 1;
        }
        i += 1;
    }
    assert(outcomes@.take(outcomes@.len() as int) =~= outcomes@);
    BatchSummary { total_removed: total }
}

} // verus!
