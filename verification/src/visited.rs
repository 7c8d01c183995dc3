use crate::text::{same_text, views};
use vstd::prelude::*;

verus! {

/// A set of paths that were entered. Nothing is held twice.
#[derive(Debug)]
pub struct VisitedSet {
    paths: Vec<String>,
}

/// No two positions of `paths` hold the same path.
pub open spec fn all_distinct(paths: Seq<Seq<char>>) -> bool {
    forall|i: int, j: int| 0 <= i < j < paths.len() ==> paths[i] != paths[j]
}

/// What is left of `pending` once the paths at its end that were entered
/// before are dropped.
pub open spec fn skip_seen(pending: Seq<Seq<char>>, seen: Set<Seq<char>>) -> Seq<Seq<char>>
    decreases pending.len(),
{
    if pending.len() > 0 && seen.contains(pending.last()) {
        skip_seen(pending.drop_last(), seen)
    } else {
        pending
    }
}

/// What is left of a worklist after the seen paths at its end are dropped
/// is no longer than the worklist.
pub proof fn lemma_skip_seen_len(pending: Seq<Seq<char>>, seen: Set<Seq<char>>)
    ensures
        skip_seen(pending, seen).len() <= pending.len(),
        skip_seen(pending, seen).len() > 0 ==> !seen.contains(skip_seen(pending, seen).last()),
    decreases pending.len(),
{
    if pending.len() > 0 && seen.contains(pending.last()) {
        lemma_skip_seen_len(pending.drop_last(), seen);
    }
}

/// What is dropped from the end of a worklist was entered before.
pub proof fn lemma_skip_seen_keeps(pending: Seq<Seq<char>>, seen: Set<Seq<char>>, i: int)
    requires
        0 <= i < pending.len(),
    ensures
        seen.contains(pending[i]) || (i < skip_seen(pending, seen).len() && skip_seen(
            pending,
            seen,
        )[i] == pending[i]),
    decreases pending.len(),
{
    if pending.len() > 0 && seen.contains(pending.last()) {
        if i < pending.len() - 1 {
            lemma_skip_seen_keeps(pending.drop_last(), seen, i);
        }
    }
}

/// What is left of a worklist after the seen paths at its end are dropped
/// is the beginning of the worklist.
pub proof fn lemma_skip_seen_prefix(pending: Seq<Seq<char>>, seen: Set<Seq<char>>)
    ensures
        skip_seen(pending, seen).len() <= pending.len(),
        skip_seen(pending, seen) == pending.take(skip_seen(pending, seen).len() as int),
    decreases pending.len(),
{
    if pending.len() > 0 && seen.contains(pending.last()) {
        let shorter = pending.drop_last();
        lemma_skip_seen_prefix(shorter, seen);
        assert(shorter.take(skip_seen(shorter, seen).len() as int) =~= pending.take(
            skip_seen(shorter, seen).len() as int,
        ));
    } else {
        assert(pending.take(pending.len() as int) =~= pending);
    }
}

/// The set of a sequence grown by one element is the set grown by it.
pub proof fn lemma_push_to_set(s: Seq<Seq<char>>, x: Seq<char>)
    ensures
        s.push(x).to_set() == s.to_set().insert(x),
{
    let a = s.push(x).to_set();
    let b = s.to_set().insert(x);
    assert forall|e: Seq<char>| a.contains(e) implies b.contains(e) by {
        let i = choose|i: int| 0 <= i < s.push(x).len() && s.push(x)[i] == e;
        if i < s.len() {
            assert(s[i] == e);
        }
    }
    assert forall|e: Seq<char>| b.contains(e) implies a.contains(e) by {
        if e == x {
            assert(s.push(x)[s.len() as int] == e);
        } else {
            let i = choose|i: int| 0 <= i < s.len() && s[i] == e;
            assert(s.push(x)[i] == e);
        }
    }
    assert(a =~= b);
}

impl View for VisitedSet {
    type V = Set<Seq<char>>;

    open spec fn view(&self) -> Set<Seq<char>> {
        self.order().to_set()
    }
}

impl VisitedSet {
    #[verifier::type_invariant]
    spec fn distinct(self) -> bool {
        all_distinct(views(self.paths@))
    }

    /// The paths in the order in which they were entered.
    pub closed spec fn order(&self) -> Seq<Seq<char>> {
        views(self.paths@)
    }

    /// The empty set.
    pub fn new() -> (visited: Self)
        ensures
            visited.order() == Seq::<Seq<char>>::empty(),
            visited@ == Set::<Seq<char>>::empty(),
    {
        let visited = VisitedSet { paths: Vec::new() };
        assert(views(visited.paths@) =~= Seq::<Seq<char>>::empty());
        assert(visited@ =~= Set::<Seq<char>>::empty());
        visited
    }

    /// Whether `path` was entered.
    pub fn contains(&self, path: &str) -> (held: bool)
        ensures
            held == self@.contains(path@),
    {
        let mut i: usize = 0;
        while i < self.paths.len()
            invariant
                i <= self.paths.len(),
                forall|j: int| 0 <= j < i ==> views(self.paths@)[j] != path@,
            decreases self.paths.len() - i,
        {
            if same_text(self.paths[i].as_str(), path) {
                assert(views(self.paths@)[i as int] == path@);
                return true;
            }
            i += 1;
        }
        false
    }

    /// Test and set in one step: enters `path` and says whether it was new.
    pub fn insert(&mut self, path: &str) -> (fresh: bool)
        ensures
            fresh == !old(self)@.contains(path@),
            final(self)@ == old(self)@.insert(path@),
            final(self).order() == if fresh {
                old(self).order().push(path@)
            } else {
                old(self).order()
            },
            all_distinct(final(self).order()),
    {
        proof {
            use_type_invariant(&*self);
        }
        if self.contains(path) {
            assert(self@.insert(path@) =~= self@);
            return false;
        }
        let ghost before = views(self.paths@);
        let mut paths: Vec<String> = Vec::new();
        std::mem::swap(&mut paths, &mut self.paths);
        paths.push(String::from_str(path));
        proof {
            let after = views(paths@);
            assert(after =~= before.push(path@));
            assert forall|i: int, j: int| 0 <= i < j < after.len() implies after[i] != after[j] by {
                if j == before.len() {
                    assert(before[i] == after[i]);
                    assert(before.to_set().contains(before[i]));
                }
            }
        }
        self.paths = paths;
        proof {
            let after = views(self.paths@);
            assert(after.to_set() =~= before.to_set().insert(path@)) by {
                assert forall|p: Seq<char>| after.to_set().contains(p) implies before.to_set().insert(
                    path@,
                ).contains(p) by {
                    let k = choose|k: int| 0 <= k < after.len() && after[k] == p;
                    if k < before.len() {
                        assert(before[k] == p);
                    }
                }
                assert forall|p: Seq<char>|
                    before.to_set().insert(path@).contains(p) implies after.to_set().contains(p) by {
                    if p == path@ {
                        assert(after[before.len() as int] == p);
                    } else {
                        let k = choose|k: int| 0 <= k < before.len() && before[k] == p;
                        assert(after[k] == p);
                    }
                }
            }
        }
        true
    }

    /// How many paths were entered.
    pub fn len(&self) -> (n: usize)
        ensures
            n == self@.len(),
            n == self.order().len(),
            self@.finite(),
            all_distinct(self.order()),
    {
        proof {
            use_type_invariant(&*self);
            views(self.paths@).unique_seq_to_set();
        }
        self.paths.len()
    }
}

/// Takes paths off the end of `stack` until one comes that was not entered
/// before; that one is entered and handed out. `None` when the stack runs
/// out first.
pub fn pop_fresh(stack: &mut Vec<String>, seen: &mut VisitedSet) -> (next: Option<String>)
    ensures
        match next {
            Some(path) => {
                let rest = skip_seen(views(old(stack)@), old(seen)@);
                &&& rest.len() > 0
                &&& path@ == rest.last()
                &&& !old(seen)@.contains(path@)
                &&& views(final(stack)@) == rest.drop_last()
                &&& final(seen)@ == old(seen)@.insert(path@)
                &&& final(seen).order() == old(seen).order().push(path@)
            },
            None => {
                &&& skip_seen(views(old(stack)@), old(seen)@).len() == 0
                &&& final(stack)@.len() == 0
                &&& final(seen)@ == old(seen)@
                &&& final(seen).order() == old(seen).order()
            },
        },
{
    loop
        invariant
            seen@ == old(seen)@,
            seen.order() == old(seen).order(),
            skip_seen(views(stack@), seen@) == skip_seen(views(old(stack)@), old(seen)@),
        decreases stack.len(),
    {
        let ghost before = views(stack@);
        match stack.pop() {
            None => {
                return None;
            },
            Some(path) => {
                assert(views(stack@) =~= before.drop_last());
                assert(path@ == before.last());
                let ghost entered = seen@;
                if seen.insert(path.as_str()) {
                    return Some(path);
                }
                assert(seen@ =~= entered);
                assert(skip_seen(before, entered) == skip_seen(before.drop_last(), entered));
            },
        }
    }
}

} // verus!
