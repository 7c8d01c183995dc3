use crate::probe::{dir_paths, file_bytes, Probe};
use crate::text::views;
use crate::visited::{pop_fresh, skip_seen, VisitedSet};
use vstd::prelude::*;

verus! {

/// Why a size computation gave no size.
#[derive(Debug, Clone, Copy, PartialEq, Eq, Structural)]
pub enum SizeError {
    /// The directory whose size was asked for is no directory, or could not
    /// be listed.
    RootUnreadable,
    /// The bytes do not fit in 64 bits.
    Overflow,
}

/// A byte count grown by `more` bytes; `None` once it no longer fits in 64
/// bits, and from then on.
pub open spec fn add_bytes(sum: Option<nat>, more: nat) -> Option<nat> {
    match sum {
        Some(bytes) => if bytes + more <= u64::MAX {
            Some(bytes + more)
        } else {
            None
        },
        None => None,
    }
}

/// The computation of the bytes under one directory: the directories still
/// to enter, and the bytes counted so far. Whoever drives it lists each
/// directory that `next_dir` names and hands the listing to `absorb`.
#[derive(Debug)]
pub struct SizeWalk {
    pending: Vec<String>,
    total: u64,
    overflow: bool,
    at_root: bool,
    failed: bool,
}

impl SizeWalk {
    /// The directories still to enter; the last is entered next.
    pub closed spec fn pending(&self) -> Seq<Seq<char>> {
        views(self.pending@)
    }

    /// The bytes counted so far; `None` once they no longer fit in 64 bits.
    pub closed spec fn sum(&self) -> Option<nat> {
        if self.overflow {
            None
        } else {
            Some(self.total as nat)
        }
    }

    /// Whether no directory has been listed yet, so that the next listing is
    /// that of the root.
    pub closed spec fn at_root(&self) -> bool {
        self.at_root
    }

    /// Whether the root could not be listed.
    pub closed spec fn failed(&self) -> bool {
        self.failed
    }

    /// A computation that has only `root` to enter.
    pub fn new(root: String) -> (walk: Self)
        ensures
            walk.pending() == seq![root@],
            walk.sum() == Some(0nat),
            walk.at_root(),
            !walk.failed(),
    {
        let mut pending: Vec<String> = Vec::new();
        pending.push(root);
        let walk = SizeWalk { pending, total: 0, overflow: false, at_root: true, failed: false };
        assert(walk.pending() =~= seq![root@]);
        walk
    }

    /// The next directory to list: the nearest pending one that was not
    /// entered before, which is entered by this call. `None` when nothing is
    /// left. A directory that was entered before is passed over and adds
    /// nothing.
    pub fn next_dir(&mut self, visited: &mut VisitedSet) -> (next: Option<String>)
        ensures
            final(self).sum() == old(self).sum(),
            final(self).at_root() == old(self).at_root(),
            final(self).failed() == old(self).failed(),
            match next {
                Some(dir) => {
                    let rest = skip_seen(old(self).pending(), old(visited)@);
                    &&& rest.len() > 0
                    &&& dir@ == rest.last()
                    &&& !old(visited)@.contains(dir@)
                    &&& final(self).pending() == rest.drop_last()
                    &&& final(visited)@ == old(visited)@.insert(dir@)
                    &&& final(visited).order() == old(visited).order().push(dir@)
                },
                None => {
                    &&& skip_seen(old(self).pending(), old(visited)@).len() == 0
                    &&& final(self).pending().len() == 0
                    &&& final(visited)@ == old(visited)@
                    &&& final(visited).order() == old(visited).order()
                },
            },
    {
        pop_fresh(&mut self.pending, visited)
    }

    /// Takes in the listing of the directory that `next_dir` named last. Its
    /// files add their bytes, its directories wait to be entered. A listing
    /// that failed adds nothing; if it was the root's, the computation has
    /// failed.
    pub fn absorb(&mut self, probe: &Probe)
        ensures
            final(self).sum() == add_bytes(old(self).sum(), file_bytes(probe.entries())),
            final(self).pending() == old(self).pending() + dir_paths(probe.entries()),
            !final(self).at_root(),
            final(self).failed() == (old(self).failed() || (old(self).at_root() && !(probe is Dir))),
    {
        match probe {
            Probe::Dir(entries) => {
                let mut i: usize = 0;
                assert(self.pending() + dir_paths(entries@.take(0)) =~= self.pending());
                while i < entries.len()
                    invariant
                        i <= entries.len(),
                        self.at_root == old(self).at_root,
                        self.failed == old(self).failed,
                        self.sum() == add_bytes(old(self).sum(), file_bytes(entries@.take(i as int))),
                        self.pending() == old(self).pending() + dir_paths(entries@.take(i as int)),
                    decreases entries.len() - i,
                {
                    proof {
                        assert(entries@.take(i + 1).drop_last() =~= entries@.take(i as int));
                        assert(entries@.take(i + 1).last() == entries@[i as int]);
                    }
                    if entries[i].is_dir {
                        let ghost before = self.pending();
                        self.pending.push(entries[i].path.clone());
                        assert(self.pending() =~= before.push(entries@[i as int].path@));
                    } else if !self.overflow {
                        match self.total.checked_add(entries[i].len) {
                            Some(more) => {
                                self.total = more;
                            },
                            None => {
                                self.overflow = true;
                            },
                        }
                    }
                    i += 1;
                }
                assert(entries@.take(entries@.len() as int) =~= entries@);
            },
            _ => {
                assert(self.pending() + dir_paths(probe.entries()) =~= self.pending());
                if self.at_root {
                    self.failed = true;
                }
            },
        }
        self.at_root = false;
    }

    /// The outcome: the bytes counted, or why there is no count. The failure
    /// of the root comes before an overflow.
    pub fn finish(&self) -> (outcome: Result<u64, SizeError>)
        ensures
            outcome == size_outcome(self.failed(), self.sum()),
    {
        if self.failed {
            Err(SizeError::RootUnreadable)
        } else if self.overflow {
            Err(SizeError::Overflow)
        } else {
            Ok(self.total)
        }
    }
}

/// What a size computation comes to, from whether its root failed and from
/// the bytes it counted.
pub open spec fn size_outcome(failed: bool, sum: Option<nat>) -> Result<u64, SizeError> {
    if failed {
        Err(SizeError::RootUnreadable)
    } else {
        match sum {
            Some(bytes) => Ok(bytes as u64),
            None => Err(SizeError::Overflow),
        }
    }
}

} // verus!
