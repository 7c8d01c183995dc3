use crate::probe::Probe;
use crate::text::same_text;
use crate::visited::{lemma_push_to_set, lemma_skip_seen_len, skip_seen};
use vstd::prelude::*;

verus! {

/// One directory of a tree held in memory.
#[derive(Debug)]
pub struct Node {
    /// The directory's path.
    pub path: String,
    /// What a look at the path gives.
    pub probe: Probe,
    /// Whether an attempt to remove the directory fails.
    pub locked: bool,
}

/// A directory tree held in memory: for each path that it knows, what a look
/// at the path gives. Of two nodes with one path the later one counts. A
/// path that it does not know is no directory.
#[derive(Debug)]
pub struct Tree {
    nodes: Vec<Node>,
}

/// Whether `nodes` knows `path`.
pub open spec fn knows(nodes: Seq<Node>, path: Seq<char>) -> bool {
    exists|i: int| 0 <= i < nodes.len() && #[trigger] nodes[i].path@ == path
}

/// Where `nodes` holds `path`: the last such position, or -1.
pub open spec fn place_of(nodes: Seq<Node>, path: Seq<char>) -> int
    decreases nodes.len(),
{
    if nodes.len() == 0 {
        -1
    } else if nodes.last().path@ == path {
        nodes.len() - 1
    } else {
        place_of(nodes.drop_last(), path)
    }
}

/// What a look at `path` gives in `nodes`.
pub open spec fn probe_in(nodes: Seq<Node>, path: Seq<char>) -> Probe {
    let at = place_of(nodes, path);
    if at < 0 {
        Probe::NotDir
    } else {
        nodes[at].probe
    }
}

/// Whether `path` is `dir` itself or lies below it.
pub open spec fn under(dir: Seq<char>, path: Seq<char>) -> bool {
    path == dir || (path.len() > dir.len() && path.subrange(0, dir.len() as int) == dir
        && path[dir.len() as int] == '/')
}

/// Whether the directory `path` can be removed from `nodes`: it is known and
/// not locked.
pub open spec fn can_remove(nodes: Seq<Node>, path: Seq<char>) -> bool {
    let at = place_of(nodes, path);
    at >= 0 && !nodes[at].locked
}

/// `nodes` without the directory `dir` and all that lies below it.
pub open spec fn without(nodes: Seq<Node>, dir: Seq<char>) -> Seq<Node>
    decreases nodes.len(),
{
    if nodes.len() == 0 {
        nodes
    } else if under(dir, nodes.last().path@) {
        without(nodes.drop_last(), dir)
    } else {
        without(nodes.drop_last(), dir).push(nodes.last())
    }
}

/// How many of `nodes` have a path that is not in `seen`.
pub open spec fn unseen(nodes: Seq<Node>, seen: Set<Seq<char>>) -> nat
    decreases nodes.len(),
{
    if nodes.len() == 0 {
        0
    } else if seen.contains(nodes.last().path@) {
        unseen(nodes.drop_last(), seen)
    } else {
        unseen(nodes.drop_last(), seen) + 1
    }
}

/// Where a path is held, if it is held at all: `place_of` finds a node of
/// that path exactly where there is one.
pub proof fn lemma_place_of(nodes: Seq<Node>, path: Seq<char>)
    ensures
        -1 <= place_of(nodes, path) < nodes.len(),
        place_of(nodes, path) >= 0 ==> nodes[place_of(nodes, path)].path@ == path,
        place_of(nodes, path) >= 0 <==> knows(nodes, path),
    decreases nodes.len(),
{
    if nodes.len() > 0 {
        let shorter = nodes.drop_last();
        lemma_place_of(shorter, path);
        if nodes.last().path@ == path {
            assert(nodes[nodes.len() - 1].path@ == path);
        } else {
            if knows(nodes, path) {
                let i = choose|i: int| 0 <= i < nodes.len() && #[trigger] nodes[i].path@ == path;
                assert(shorter[i].path@ == path);
            }
            if knows(shorter, path) {
                let i = choose|i: int| 0 <= i < shorter.len() && #[trigger] shorter[i].path@ == path;
                assert(nodes[i].path@ == path);
            }
        }
    }
}

/// Entering one more path never raises the number of nodes not yet seen, and
/// lowers it where the path is a node that was not seen.
pub proof fn lemma_unseen_insert(nodes: Seq<Node>, seen: Set<Seq<char>>, path: Seq<char>)
    ensures
        unseen(nodes, seen.insert(path)) <= unseen(nodes, seen),
        knows(nodes, path) && !seen.contains(path) ==> unseen(nodes, seen.insert(path)) < unseen(
            nodes,
            seen,
        ),
    decreases nodes.len(),
{
    if nodes.len() > 0 {
        let shorter = nodes.drop_last();
        lemma_unseen_insert(shorter, seen, path);
        if knows(nodes, path) && nodes.last().path@ != path {
            let i = choose|i: int| 0 <= i < nodes.len() && #[trigger] nodes[i].path@ == path;
            assert(shorter[i].path@ == path);
        }
    }
}

/// One step of a walk over `nodes` brings it nearer to its end: the path
/// taken off the worklist was not taken before, and either it is a node,
/// which is one node fewer to see, or it has no entries to add.
pub proof fn lemma_walk_step(nodes: Seq<Node>, pending: Seq<Seq<char>>, entered: Seq<Seq<char>>)
    requires
        skip_seen(pending, entered.to_set()).len() > 0,
    ensures
        ({
            let rest = skip_seen(pending, entered.to_set());
            let dir = rest.last();
            let after = entered.push(dir).to_set();
            &&& after == entered.to_set().insert(dir)
            &&& unseen(nodes, after) <= unseen(nodes, entered.to_set())
            &&& rest.len() <= pending.len()
            &&& !entered.to_set().contains(dir)
            &&& probe_in(nodes, dir).entries().len() > 0 ==> unseen(nodes, after) < unseen(
                nodes,
                entered.to_set(),
            )
        }),
{
    let rest = skip_seen(pending, entered.to_set());
    let dir = rest.last();
    lemma_skip_seen_len(pending, entered.to_set());
    lemma_unseen_insert(nodes, entered.to_set(), dir);
    lemma_place_of(nodes, dir);
    lemma_push_to_set(entered, dir);
}

impl Tree {
    /// The nodes, in the order in which they were added.
    pub closed spec fn nodes(&self) -> Seq<Node> {
        self.nodes@
    }

    /// What a look at `path` gives.
    pub open spec fn probe_at(&self, path: Seq<char>) -> Probe {
        probe_in(self.nodes(), path)
    }

    /// The empty tree: no path is a directory.
    pub fn new() -> (tree: Self)
        ensures
            tree.nodes() == Seq::<Node>::empty(),
    {
        Tree { nodes: Vec::new() }
    }

    /// Adds a node: from now on a look at `path` gives `probe`.
    pub fn add(&mut self, path: String, probe: Probe, locked: bool)
        ensures
            final(self).nodes() == old(self).nodes().push(Node { path, probe, locked }),
    {
        self.nodes.push(Node { path, probe, locked });
    }

    /// Removes the directory `path` with all that lies below it, and says
    /// whether it did. It does not where the tree does not know `path` or
    /// holds it locked; the tree is then left as it was.
    pub fn remove_all(&mut self, path: &str) -> (done: bool)
        ensures
            done == can_remove(old(self).nodes(), path@),
            final(self).nodes() == if done {
                without(old(self).nodes(), path@)
            } else {
                old(self).nodes()
            },
    {
        if !self.removable(path) {
            return false;
        }
        let dir = crate::text::chars_of(path);
        let ghost before = self.nodes@;
        let count = self.nodes.len();
        let mut i: usize = 0;
        let mut j: usize = 0;
        assert(before.take(0) =~= Seq::<Node>::empty());
        assert(without(before.take(0), path@) + before.skip(0) =~= before);
        while i < count
            invariant
                j <= i <= count,
                count == before.len(),
                dir@ == path@,
                j == without(before.take(i as int), path@).len(),
                self.nodes@ == without(before.take(i as int), path@) + before.skip(i as int),
            decreases count - i,
        {
            proof {
                assert(before.take(i + 1).drop_last() =~= before.take(i as int));
                assert(before.take(i + 1).last() == before[i as int]);
                assert(self.nodes@[j as int] == before[i as int]);
            }
            let below = is_under(&dir, self.nodes[j].path.as_str());
            if below {
                self.nodes.remove(j);
                assert(self.nodes@ =~= without(before.take(i + 1), path@) + before.skip(i + 1));
            } else {
                j += 1;
                assert(self.nodes@ =~= without(before.take(i + 1), path@) + before.skip(i + 1));
            }
            i += 1;
        }
        proof {
            assert(before.take(count as int) =~= before);
            assert(self.nodes@ =~= without(before, path@));
        }
        true
    }

    /// Whether the directory `path` can be removed.
    pub fn removable(&self, path: &str) -> (free: bool)
        ensures
            free == can_remove(self.nodes(), path@),
    {
        let mut i: usize = self.nodes.len();
        proof {
            assert(self.nodes@.take(i as int) =~= self.nodes@);
        }
        while i > 0
            invariant
                i <= self.nodes.len(),
                place_of(self.nodes@, path@) == place_of(self.nodes@.take(i as int), path@),
            decreases i,
        {
            proof {
                assert(self.nodes@.take(i as int).drop_last() =~= self.nodes@.take(i - 1));
                assert(self.nodes@.take(i as int).last() == self.nodes@[i - 1]);
            }
            if same_text(self.nodes[i - 1].path.as_str(), path) {
                return !self.nodes[i - 1].locked;
            }
            i -= 1;
        }
        false
    }

    /// What a look at `path` gives: `None` stands for no directory.
    pub fn look(&self, path: &str) -> (seen: Option<&Probe>)
        ensures
            match seen {
                Some(probe) => knows(self.nodes(), path@) && *probe == self.probe_at(path@),
                None => !knows(self.nodes(), path@) && self.probe_at(path@) == Probe::NotDir,
            },
    {
        let mut i: usize = self.nodes.len();
        proof {
            assert(self.nodes@.take(i as int) =~= self.nodes@);
            lemma_place_of(self.nodes@, path@);
        }
        while i > 0
            invariant
                i <= self.nodes.len(),
                place_of(self.nodes@, path@) == place_of(self.nodes@.take(i as int), path@),
                place_of(self.nodes@, path@) >= 0 <==> knows(self.nodes@, path@),
            decreases i,
        {
            proof {
                assert(self.nodes@.take(i as int).drop_last() =~= self.nodes@.take(i - 1));
                assert(self.nodes@.take(i as int).last() == self.nodes@[i - 1]);
            }
            if same_text(self.nodes[i - 1].path.as_str(), path) {
                return Some(&self.nodes[i - 1].probe);
            }
            i -= 1;
        }
        None
    }
}

/// Whether `path` is the directory `dir` itself or lies below it.
pub fn is_under(dir: &Vec<char>, path: &str) -> (below: bool)
    ensures
        below == under(dir@, path@),
{
    let chars = crate::text::chars_of(path);
    if chars.len() < dir.len() {
        return false;
    }
    let mut i: usize = 0;
    while i < dir.len()
        invariant
            i <= dir.len(),
            dir.len() <= chars.len(),
            chars@ == path@,
            forall|k: int| 0 <= k < i ==> chars@[k] == dir@[k],
        decreases dir.len() - i,
    {
        if chars[i] != dir[i] {
            proof {
                let head = path@.subrange(0, dir@.len() as int);
                assert(head[i as int] == path@[i as int]);
            }
            return false;
        }
        i += 1;
    }
    assert(path@.subrange(0, dir@.len() as int) =~= dir@);
    if chars.len() == dir.len() {
        assert(path@ =~= dir@);
        return true;
    }
    chars[dir.len()] == '/'
}

} // verus!
