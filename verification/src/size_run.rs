use crate::probe::{dir_paths, file_bytes, Probe};
use crate::size::{add_bytes, size_outcome, SizeError, SizeWalk};
use crate::tree::{lemma_walk_step, probe_in, unseen, Node, Tree};
use crate::visited::{skip_seen, VisitedSet};
use vstd::prelude::*;

verus! {

/// The run of a size computation over `nodes`, from the directories still
/// pending, the paths entered so far and the bytes counted so far: the paths
/// entered in the end, in order, and the bytes counted in the end. Each
/// pending directory that was not entered before is entered once: its files
/// add their bytes and its directories become pending.
pub open spec fn size_run(
    nodes: Seq<Node>,
    pending: Seq<Seq<char>>,
    entered: Seq<Seq<char>>,
    sum: Option<nat>,
) -> (Seq<Seq<char>>, Option<nat>)
    decreases unseen(nodes, entered.to_set()), pending.len(),
{
    let rest = skip_seen(pending, entered.to_set());
    if rest.len() == 0 {
        (entered, sum)
    } else {
        let dir = rest.last();
        let seen = probe_in(nodes, dir).entries();
        proof {
            lemma_walk_step(nodes, pending, entered);
        }
        size_run(
            nodes,
            rest.drop_last() + dir_paths(seen),
            entered.push(dir),
            add_bytes(sum, file_bytes(seen)),
        )
    }
}

/// Whether a size computation for `root` fails at its root: the root was not
/// entered before, and a look at it shows no directory that can be listed.
pub open spec fn root_fails(nodes: Seq<Node>, root: Seq<char>, entered: Seq<Seq<char>>) -> bool {
    !entered.to_set().contains(root) && !(probe_in(nodes, root) is Dir)
}

/// The bytes under the directory `path` of `tree`, every directory counted
/// only where it was not entered before: `visited` holds the directories
/// that were, and takes up those that this computation enters. A directory
/// that is reached a second time, around a cycle or by another way, adds
/// nothing. Only the failure of `path` itself fails the computation; a
/// directory below it that cannot be listed adds nothing.
pub fn get_directory_size(tree: &Tree, path: &str, visited: &mut VisitedSet) -> (outcome: Result<
    u64,
    SizeError,
>)
    ensures
        ({
            let run = size_run(tree.nodes(), seq![path@], old(visited).order(), Some(0nat));
            &&& final(visited).order() == run.0
            &&& outcome == size_outcome(
                root_fails(tree.nodes(), path@, old(visited).order()),
                run.1,
            )
        }),
{
    let mut walk = SizeWalk::new(String::from_str(path));
    let missing = Probe::NotDir;
    let ghost start = old(visited).order();
    proof {
        assert(seq![path@].drop_last() =~= Seq::<Seq<char>>::empty());
        assert(seq![path@].last() == path@);
    }
    loop
        invariant_except_break
            missing == Probe::NotDir,
            size_run(tree.nodes(), walk.pending(), visited.order(), walk.sum()) == size_run(
                tree.nodes(),
                seq![path@],
                start,
                Some(0nat),
            ),
            walk.at_root() ==> walk.pending() == seq![path@] && visited.order() == start
                && !walk.failed(),
            !walk.at_root() ==> walk.failed() == root_fails(tree.nodes(), path@, start),
        ensures
            visited.order() == size_run(tree.nodes(), seq![path@], start, Some(0nat)).0,
            walk.sum() == size_run(tree.nodes(), seq![path@], start, Some(0nat)).1,
            walk.failed() == root_fails(tree.nodes(), path@, start),
        decreases unseen(tree.nodes(), visited@), walk.pending().len(),
    {
        let ghost pending = walk.pending();
        let ghost entered = visited.order();
        match walk.next_dir(visited) {
            None => {
                proof {
                    if walk.at_root() {
                        assert(pending.drop_last() =~= Seq::<Seq<char>>::empty());
                        assert(pending.last() == path@);
                        assert(skip_seen(pending.drop_last(), entered.to_set()).len() == 0);
                        assert(start.to_set().contains(path@));
                    }
                }
                break ;
            },
            Some(dir) => {
                proof {
                    lemma_walk_step(tree.nodes(), pending, entered);
                    if walk.at_root() {
                        assert(pending.drop_last() =~= Seq::<Seq<char>>::empty());
                        assert(pending.last() == path@);
                        assert(skip_seen(pending.drop_last(), entered.to_set()).len() == 0);
                        assert(skip_seen(pending, entered.to_set()) == pending);
                        assert(dir@ == path@);
                    }
                }
                match tree.look(dir.as_str()) {
                    Some(probe) => {
                        walk.absorb(probe);
                    },
                    None => {
                        walk.absorb(&missing);
                    },
                }
            },
        }
    }
    walk.finish()
}

} // verus!
