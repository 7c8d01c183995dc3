use crate::probe::{dir_paths, file_bytes};
use crate::size::add_bytes;
use crate::size_run::size_run;
use crate::tree::{lemma_walk_step, probe_in, Node};
use crate::visited::{
    all_distinct, lemma_push_to_set, lemma_skip_seen_keeps, lemma_skip_seen_prefix, skip_seen,
};
use vstd::prelude::*;

verus! {

/// The bytes of the files that stand directly in the directories `dirs`,
/// each directory taken as often as it occurs.
pub open spec fn listed_bytes(nodes: Seq<Node>, dirs: Seq<Seq<char>>) -> nat
    decreases dirs.len(),
{
    if dirs.len() == 0 {
        0
    } else {
        listed_bytes(nodes, dirs.drop_last()) + file_bytes(probe_in(nodes, dirs.last()).entries())
    }
}

/// Every directory that one of `dirs` lists is among `all`.
pub open spec fn lists_within(nodes: Seq<Node>, dirs: Seq<Seq<char>>, all: Set<Seq<char>>) -> bool {
    forall|i: int, j: int|
        0 <= i < dirs.len() && 0 <= j < dir_paths(probe_in(nodes, dirs[i]).entries()).len()
            ==> all.contains(#[trigger] dir_paths(probe_in(nodes, dirs[i]).entries())[j])
}

/// Every one of `paths` is among `all`.
pub open spec fn all_within(paths: Seq<Seq<char>>, all: Set<Seq<char>>) -> bool {
    forall|i: int| 0 <= i < paths.len() ==> all.contains(#[trigger] paths[i])
}

/// Bytes added in two steps are the bytes added in one.
pub proof fn lemma_add_bytes_twice(sum: Option<nat>, a: nat, b: nat)
    ensures
        add_bytes(add_bytes(sum, a), b) == add_bytes(sum, a + b),
{
}

proof fn lemma_listed_bytes_first(nodes: Seq<Node>, first: Seq<char>, more: Seq<Seq<char>>)
    ensures
        listed_bytes(nodes, seq![first] + more) == file_bytes(probe_in(nodes, first).entries())
            + listed_bytes(nodes, more),
    decreases more.len(),
{
    let whole = seq![first] + more;
    if more.len() == 0 {
        assert(whole.drop_last() =~= Seq::<Seq<char>>::empty());
        assert(whole.last() == first);
        assert(listed_bytes(nodes, whole.drop_last()) == 0);
    } else {
        lemma_listed_bytes_first(nodes, first, more.drop_last());
        assert(whole.drop_last() =~= seq![first] + more.drop_last());
        assert(whole.last() == more.last());
    }
}

/// No double counting. A run only adds to the paths entered; it enters no
/// path twice, and none that was entered before; and the bytes it adds are
/// those of the files that stand directly in the directories it entered,
/// each directory taken once.
pub proof fn lemma_size_run_counts_once(
    nodes: Seq<Node>,
    pending: Seq<Seq<char>>,
    entered: Seq<Seq<char>>,
    sum: Option<nat>,
)
    requires
        all_distinct(entered),
        sum matches Some(bytes) ==> bytes <= u64::MAX,
    ensures
        ({
            let run = size_run(nodes, pending, entered, sum);
            &&& entered.len() <= run.0.len()
            &&& run.0.take(entered.len() as int) == entered
            &&& all_distinct(run.0)
            &&& run.1 == add_bytes(sum, listed_bytes(nodes, run.0.skip(entered.len() as int)))
        }),
    decreases crate::tree::unseen(nodes, entered.to_set()), pending.len(),
{
    let rest = skip_seen(pending, entered.to_set());
    let run = size_run(nodes, pending, entered, sum);
    if rest.len() == 0 {
        assert(run.0.take(entered.len() as int) =~= entered);
        assert(run.0.skip(entered.len() as int) =~= Seq::<Seq<char>>::empty());
    } else {
        let dir = rest.last();
        let seen = probe_in(nodes, dir).entries();
        let more = entered.push(dir);
        lemma_walk_step(nodes, pending, entered);
        assert(all_distinct(more)) by {
            assert forall|i: int, j: int| 0 <= i < j < more.len() implies more[i] != more[j] by {
                if j == entered.len() {
                    assert(entered[i] == more[i]);
                    assert(entered.to_set().contains(entered[i]));
                }
            }
        }
        lemma_size_run_counts_once(
            nodes,
            rest.drop_last() + dir_paths(seen),
            more,
            add_bytes(sum, file_bytes(seen)),
        );
        assert(run.0.take(entered.len() as int) =~= run.0.take(more.len() as int).take(
            entered.len() as int,
        ));
        assert(more.take(entered.len() as int) =~= entered);
        let added = run.0.skip(entered.len() as int);
        let later = run.0.skip(more.len() as int);
        assert(run.0[entered.len() as int] == more[entered.len() as int]);
        assert(added =~= seq![dir] + later);
        lemma_listed_bytes_first(nodes, dir, later);
        lemma_add_bytes_twice(sum, file_bytes(seen), listed_bytes(nodes, later));
    }
}

/// Cycle safety. A directory that was entered before adds nothing when it
/// is reached again: the run that starts at it ends at once, with the bytes
/// and the entered paths it started with.
pub proof fn lemma_reentry_adds_nothing(
    nodes: Seq<Node>,
    root: Seq<char>,
    entered: Seq<Seq<char>>,
    sum: Option<nat>,
)
    requires
        entered.to_set().contains(root),
    ensures
        size_run(nodes, seq![root], entered, sum) == (entered, sum),
{
    let pending = seq![root];
    assert(pending.last() == root);
    assert(pending.drop_last() =~= Seq::<Seq<char>>::empty());
    assert(skip_seen(pending.drop_last(), entered.to_set()).len() == 0);
}

/// Completeness of a run. Where every directory listed by a path entered so
/// far was entered or is pending, the run enters every pending directory and
/// every directory that an entered one lists: all that can be reached.
pub proof fn lemma_size_run_complete(
    nodes: Seq<Node>,
    pending: Seq<Seq<char>>,
    entered: Seq<Seq<char>>,
    sum: Option<nat>,
)
    requires
        lists_within(nodes, entered, entered.to_set().union(pending.to_set())),
    ensures
        ({
            let all = size_run(nodes, pending, entered, sum).0;
            &&& all_within(pending, all.to_set())
            &&& all_within(entered, all.to_set())
            &&& lists_within(nodes, all, all.to_set())
        }),
    decreases crate::tree::unseen(nodes, entered.to_set()), pending.len(),
{
    let before = entered.to_set();
    let rest = skip_seen(pending, before);
    let all = size_run(nodes, pending, entered, sum).0;
    assert forall|i: int| 0 <= i < pending.len() implies before.contains(pending[i])
        || rest.to_set().contains(pending[i]) by {
        lemma_skip_seen_keeps(pending, before, i);
    }
    if rest.len() == 0 {
        assert forall|i: int| 0 <= i < pending.len() implies all.to_set().contains(
            #[trigger] pending[i],
        ) by {
            assert(before.contains(pending[i]) || rest.to_set().contains(pending[i]));
        }
        assert forall|i: int, j: int|
            0 <= i < all.len() && 0 <= j < dir_paths(
                probe_in(nodes, all[i]).entries(),
            ).len() implies all.to_set().contains(
            #[trigger] dir_paths(probe_in(nodes, all[i]).entries())[j],
        ) by {
            let e = dir_paths(probe_in(nodes, entered[i]).entries())[j];
            assert(before.union(pending.to_set()).contains(e));
            if pending.to_set().contains(e) {
                let k = choose|k: int| 0 <= k < pending.len() && pending[k] == e;
                assert(before.contains(pending[k]) || rest.to_set().contains(pending[k]));
            }
        }
    } else {
        let dir = rest.last();
        let seen = probe_in(nodes, dir).entries();
        let more = entered.push(dir);
        let next = rest.drop_last() + dir_paths(seen);
        lemma_walk_step(nodes, pending, entered);
        lemma_push_to_set(entered, dir);
        let reach = more.to_set().union(next.to_set());
        assert forall|x: Seq<char>| rest.to_set().contains(x) implies reach.contains(x) by {
            let k = choose|k: int| 0 <= k < rest.len() && rest[k] == x;
            if k < rest.len() - 1 {
                assert(next[k] == x);
            }
        }
        assert forall|i: int, j: int|
            0 <= i < more.len() && 0 <= j < dir_paths(
                probe_in(nodes, more[i]).entries(),
            ).len() implies reach.contains(
            #[trigger] dir_paths(probe_in(nodes, more[i]).entries())[j],
        ) by {
            let e = dir_paths(probe_in(nodes, more[i]).entries())[j];
            if i < entered.len() {
                assert(more[i] == entered[i]);
                assert(before.union(pending.to_set()).contains(e));
                if !before.contains(e) {
                    let k = choose|k: int| 0 <= k < pending.len() && pending[k] == e;
                    assert(before.contains(pending[k]) || rest.to_set().contains(pending[k]));
                }
            } else {
                assert(next[rest.len() - 1 + j] == e);
            }
        }
        lemma_size_run_complete(nodes, next, more, add_bytes(sum, file_bytes(seen)));
        assert forall|i: int| 0 <= i < entered.len() implies all.to_set().contains(
            #[trigger] entered[i],
        ) by {
            assert(more[i] == entered[i]);
        }
        assert forall|i: int| 0 <= i < pending.len() implies all.to_set().contains(
            #[trigger] pending[i],
        ) by {
            let x = pending[i];
            assert(before.contains(x) || rest.to_set().contains(x));
            if before.contains(x) {
                let k = choose|k: int| 0 <= k < entered.len() && entered[k] == x;
                assert(all.to_set().contains(entered[k]));
            } else {
                let k = choose|k: int| 0 <= k < rest.len() && rest[k] == x;
                if k < rest.len() - 1 {
                    assert(next[k] == x);
                    assert(all.to_set().contains(next[k]));
                } else {
                    assert(more[entered.len() as int] == x);
                    assert(all.to_set().contains(more[entered.len() as int]));
                }
            }
        }
    }
}

/// One of `dirs` lists `path` as a directory.
pub open spec fn listed_by(nodes: Seq<Node>, dirs: Seq<Seq<char>>, path: Seq<char>) -> bool {
    exists|i: int, j: int|
        0 <= i < dirs.len() && 0 <= j < dir_paths(probe_in(nodes, dirs[i]).entries()).len()
            && #[trigger] dir_paths(probe_in(nodes, dirs[i]).entries())[j] == path
}

/// A run only adds to the paths entered.
pub proof fn lemma_size_run_extends(
    nodes: Seq<Node>,
    pending: Seq<Seq<char>>,
    entered: Seq<Seq<char>>,
    sum: Option<nat>,
)
    ensures
        entered.len() <= size_run(nodes, pending, entered, sum).0.len(),
        size_run(nodes, pending, entered, sum).0.take(entered.len() as int) == entered,
    decreases crate::tree::unseen(nodes, entered.to_set()), pending.len(),
{
    let rest = skip_seen(pending, entered.to_set());
    let all = size_run(nodes, pending, entered, sum).0;
    if rest.len() == 0 {
        assert(all.take(entered.len() as int) =~= entered);
    } else {
        let dir = rest.last();
        let seen = probe_in(nodes, dir).entries();
        let more = entered.push(dir);
        lemma_walk_step(nodes, pending, entered);
        lemma_size_run_extends(
            nodes,
            rest.drop_last() + dir_paths(seen),
            more,
            add_bytes(sum, file_bytes(seen)),
        );
        assert(all.take(entered.len() as int) =~= all.take(more.len() as int).take(
            entered.len() as int,
        ));
        assert(more.take(entered.len() as int) =~= entered);
    }
}

/// Soundness of a run. Every path that a run enters was pending when the run
/// began, or is a directory that a path entered lists: nothing is entered
/// that cannot be reached.
pub proof fn lemma_size_run_sound(
    nodes: Seq<Node>,
    pending: Seq<Seq<char>>,
    entered: Seq<Seq<char>>,
    sum: Option<nat>,
)
    ensures
        ({
            let all = size_run(nodes, pending, entered, sum).0;
            &&& entered.len() <= all.len()
            &&& forall|k: int|
                entered.len() <= k < all.len() ==> pending.contains(#[trigger] all[k])
                    || listed_by(nodes, all, all[k])
        }),
    decreases crate::tree::unseen(nodes, entered.to_set()), pending.len(),
{
    let rest = skip_seen(pending, entered.to_set());
    let all = size_run(nodes, pending, entered, sum).0;
    lemma_size_run_extends(nodes, pending, entered, sum);
    if rest.len() > 0 {
        let dir = rest.last();
        let seen = probe_in(nodes, dir).entries();
        let more = entered.push(dir);
        let next = rest.drop_last() + dir_paths(seen);
        lemma_walk_step(nodes, pending, entered);
        lemma_skip_seen_prefix(pending, entered.to_set());
        lemma_size_run_extends(nodes, next, more, add_bytes(sum, file_bytes(seen)));
        lemma_size_run_sound(nodes, next, more, add_bytes(sum, file_bytes(seen)));
        let at = entered.len() as int;
        assert(all.take(more.len() as int)[at] == more[at]);
        assert(all[at] == dir);
        assert forall|k: int| entered.len() <= k < all.len() implies pending.contains(
            #[trigger] all[k],
        ) || listed_by(nodes, all, all[k]) by {
            if k == at {
                assert(pending[rest.len() - 1] == dir);
            } else if next.contains(all[k]) {
                let n = choose|n: int| 0 <= n < next.len() && next[n] == all[k];
                if n < rest.len() - 1 {
                    assert(pending[n] == all[k]);
                } else {
                    let j = n - (rest.len() - 1);
                    assert(dir_paths(probe_in(nodes, all[at]).entries())[j] == all[k]);
                }
            }
        }
    }
}

} // verus!
