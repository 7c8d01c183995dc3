use crate::command::clear::RowView;
use crate::probe::{entry_paths, Probe};
use crate::removal_run::{
    clear_run, count_ends, fresh_run, is_junk, lemma_without_unseen, removal_run, MatchEnd,
};
use crate::scan_category::ScanCate;
use crate::size_laws::all_within;
use crate::tree::{
    can_remove, lemma_place_of, lemma_walk_step, place_of, probe_in, under, unseen, without, Node,
};
use crate::visited::{lemma_push_to_set, lemma_skip_seen_keeps, lemma_skip_seen_prefix, skip_seen};
use vstd::prelude::*;

verus! {

/// `thin` is what is left of `full` after directories were removed: a path
/// shows in `thin` what it shows in `full`, or no directory at all, and
/// nothing can be removed from `thin` that could not be removed from `full`.
pub open spec fn pruned(full: Seq<Node>, thin: Seq<Node>) -> bool {
    &&& forall|path: Seq<char>|
        #[trigger] probe_in(thin, path) == probe_in(full, path) || probe_in(thin, path)
            == Probe::NotDir
    &&& forall|path: Seq<char>| #[trigger] can_remove(thin, path) ==> can_remove(full, path)
}

/// Of every path of `looked` that is no disposable directory, `all` holds
/// every entry that a look at it shows in `nodes`.
pub open spec fn closed_under(
    nodes: Seq<Node>,
    cate: ScanCate,
    looked: Seq<Seq<char>>,
    all: Set<Seq<char>>,
) -> bool {
    forall|i: int, j: int|
        0 <= i < looked.len() && !is_junk(nodes, cate, looked[i]) && 0 <= j < entry_paths(
            probe_in(nodes, looked[i]).entries(),
        ).len() ==> all.contains(
            #[trigger] entry_paths(probe_in(nodes, looked[i]).entries())[j],
        )
}

/// None of the disposable directories among `looked` can be removed from
/// `nodes`.
pub open spec fn spent(nodes: Seq<Node>, cate: ScanCate, looked: Seq<Seq<char>>) -> bool {
    forall|i: int|
        0 <= i < looked.len() && is_junk(nodes, cate, looked[i]) ==> !can_remove(
            nodes,
            #[trigger] looked[i],
        )
}

/// Nothing is left to do among `done`: none of its disposable directories
/// can be removed from `nodes`, and every entry of its other paths is among
/// `done`.
pub open spec fn settled(nodes: Seq<Node>, cate: ScanCate, done: Set<Seq<char>>) -> bool {
    forall|path: Seq<char>| #[trigger]
        done.contains(path) ==> if is_junk(nodes, cate, path) {
            !can_remove(nodes, path)
        } else {
            all_within(entry_paths(probe_in(nodes, path).entries()), done)
        }
}

/// Removing a directory forgets every path below it and changes nothing
/// about any other path.
pub proof fn lemma_without_place(nodes: Seq<Node>, dir: Seq<char>, path: Seq<char>)
    ensures
        under(dir, path) ==> place_of(without(nodes, dir), path) < 0,
        !under(dir, path) ==> probe_in(without(nodes, dir), path) == probe_in(nodes, path)
            && can_remove(without(nodes, dir), path) == can_remove(nodes, path),
    decreases nodes.len(),
{
    if nodes.len() > 0 {
        let shorter = nodes.drop_last();
        lemma_without_place(shorter, dir, path);
        lemma_place_of(shorter, path);
        lemma_place_of(without(shorter, dir), path);
        if !under(dir, nodes.last().path@) {
            let kept = without(shorter, dir).push(nodes.last());
            assert(kept.drop_last() =~= without(shorter, dir));
            assert(kept.last() == nodes.last());
        }
    }
}

/// Removing a directory prunes the nodes.
pub proof fn lemma_without_prunes(nodes: Seq<Node>, dir: Seq<char>)
    ensures
        pruned(nodes, without(nodes, dir)),
{
    let thin = without(nodes, dir);
    assert forall|path: Seq<char>| #[trigger]
        probe_in(thin, path) == probe_in(nodes, path) || probe_in(thin, path)
            == Probe::NotDir by {
        lemma_without_place(nodes, dir, path);
    }
    assert forall|path: Seq<char>| #[trigger] can_remove(thin, path) implies can_remove(
        nodes,
        path,
    ) by {
        lemma_without_place(nodes, dir, path);
    }
}

/// Pruning in two steps is pruning.
pub proof fn lemma_pruned_twice(full: Seq<Node>, mid: Seq<Node>, thin: Seq<Node>)
    requires
        pruned(full, mid),
        pruned(mid, thin),
    ensures
        pruned(full, thin),
{
    assert forall|path: Seq<char>| #[trigger]
        probe_in(thin, path) == probe_in(full, path) || probe_in(thin, path)
            == Probe::NotDir by {
        assert(probe_in(mid, path) == probe_in(full, path) || probe_in(mid, path)
            == Probe::NotDir);
    }
    assert forall|path: Seq<char>| #[trigger] can_remove(thin, path) implies can_remove(
        full,
        path,
    ) by {
        assert(can_remove(mid, path));
    }
}

/// A removal only prunes the nodes.
pub proof fn lemma_run_prunes(
    nodes: Seq<Node>,
    cate: ScanCate,
    go: bool,
    worklist: Seq<Seq<char>>,
    looked: Seq<Seq<char>>,
    removed: Seq<Seq<char>>,
    refused: Seq<Seq<char>>,
)
    ensures
        pruned(nodes, removal_run(nodes, cate, go, worklist, looked, removed, refused).0),
    decreases unseen(nodes, looked.to_set()), worklist.len(),
{
    let rest = skip_seen(worklist, looked.to_set());
    if rest.len() > 0 {
        let path = rest.last();
        let more = looked.push(path);
        lemma_walk_step(nodes, worklist, looked);
        lemma_without_unseen(nodes, path, more.to_set());
        if is_junk(nodes, cate, path) {
            if !go {
                lemma_run_prunes(nodes, cate, go, rest.drop_last(), more, removed, refused);
            } else if can_remove(nodes, path) {
                let less = without(nodes, path);
                let gone = removed.push(path);
                lemma_without_prunes(nodes, path);
                lemma_run_prunes(less, cate, go, rest.drop_last(), more, gone, refused);
                lemma_pruned_twice(
                    nodes,
                    less,
                    removal_run(less, cate, go, rest.drop_last(), more, gone, refused).0,
                );
            } else {
                lemma_run_prunes(
                    nodes,
                    cate,
                    go,
                    rest.drop_last(),
                    more,
                    removed,
                    refused.push(path),
                );
            }
        } else {
            lemma_run_prunes(
                nodes,
                cate,
                go,
                rest.drop_last() + entry_paths(probe_in(nodes, path).entries()),
                more,
                removed,
                refused,
            );
        }
    }
}

/// A batch only prunes the nodes.
pub proof fn lemma_batch_prunes(nodes: Seq<Node>, rows: Seq<RowView>, go: bool, from: int)
    ensures
        pruned(nodes, clear_run(nodes, rows, go, from).0),
    decreases rows.len() - from,
{
    if 0 <= from < rows.len() {
        let none = Seq::<Seq<char>>::empty();
        let one = fresh_run(nodes, rows[from].cate, rows[from].path, go);
        lemma_run_prunes(nodes, rows[from].cate, go, seq![rows[from].path], none, none, none);
        lemma_batch_prunes(one.0, rows, go, from + 1);
        lemma_pruned_twice(nodes, one.0, clear_run(one.0, rows, go, from + 1).0);
    }
}

/// What a removal touches. Every directory that a removal removes was a
/// disposable directory of the category when the removal began, and a path
/// that lies below none of the directories removed shows in the end what it
/// showed before.
pub proof fn lemma_removal_touches_only_junk(
    nodes: Seq<Node>,
    cate: ScanCate,
    go: bool,
    worklist: Seq<Seq<char>>,
    looked: Seq<Seq<char>>,
    removed: Seq<Seq<char>>,
    refused: Seq<Seq<char>>,
)
    ensures
        ({
            let end = removal_run(nodes, cate, go, worklist, looked, removed, refused);
            &&& removed.len() <= end.2.len()
            &&& forall|k: int|
                removed.len() <= k < end.2.len() ==> is_junk(nodes, cate, #[trigger] end.2[k])
            &&& forall|path: Seq<char>|
                (forall|k: int| removed.len() <= k < end.2.len() ==> !under(end.2[k], path))
                    ==> #[trigger] probe_in(end.0, path) == probe_in(nodes, path) && can_remove(
                    end.0,
                    path,
                ) == can_remove(nodes, path)
        }),
    decreases unseen(nodes, looked.to_set()), worklist.len(),
{
    let rest = skip_seen(worklist, looked.to_set());
    let end = removal_run(nodes, cate, go, worklist, looked, removed, refused);
    if rest.len() > 0 {
        let path = rest.last();
        let more = looked.push(path);
        lemma_walk_step(nodes, worklist, looked);
        lemma_without_unseen(nodes, path, more.to_set());
        if is_junk(nodes, cate, path) {
            if !go {
                lemma_removal_touches_only_junk(
                    nodes,
                    cate,
                    go,
                    rest.drop_last(),
                    more,
                    removed,
                    refused,
                );
            } else if can_remove(nodes, path) {
                let less = without(nodes, path);
                let gone = removed.push(path);
                lemma_removal_touches_only_junk(less, cate, go, rest.drop_last(), more, gone, refused);
                lemma_run_extends_removed(less, cate, go, rest.drop_last(), more, gone, refused);
                assert(end.2.take(gone.len() as int)[removed.len() as int] == gone[removed.len() as int]);
                assert(end.2[removed.len() as int] == path);
                assert forall|k: int| removed.len() <= k < end.2.len() implies is_junk(
                    nodes,
                    cate,
                    #[trigger] end.2[k],
                ) by {
                    if k > removed.len() {
                        assert(is_junk(less, cate, end.2[k]));
                        lemma_without_place(nodes, path, end.2[k]);
                        lemma_place_of(less, end.2[k]);
                    }
                }
                assert forall|q: Seq<char>|
                    (forall|k: int| removed.len() <= k < end.2.len() ==> !under(end.2[k], q))
                        implies #[trigger] probe_in(end.0, q) == probe_in(nodes, q) && can_remove(
                    end.0,
                    q,
                ) == can_remove(nodes, q) by {
                    assert(!under(end.2[removed.len() as int], q));
                    lemma_without_place(nodes, path, q);
                    assert(probe_in(end.0, q) == probe_in(less, q));
                }
            } else {
                lemma_removal_touches_only_junk(
                    nodes,
                    cate,
                    go,
                    rest.drop_last(),
                    more,
                    removed,
                    refused.push(path),
                );
            }
        } else {
            lemma_removal_touches_only_junk(
                nodes,
                cate,
                go,
                rest.drop_last() + entry_paths(probe_in(nodes, path).entries()),
                more,
                removed,
                refused,
            );
        }
    }
}

/// A removal only adds to the directories removed.
pub proof fn lemma_run_extends_removed(
    nodes: Seq<Node>,
    cate: ScanCate,
    go: bool,
    worklist: Seq<Seq<char>>,
    looked: Seq<Seq<char>>,
    removed: Seq<Seq<char>>,
    refused: Seq<Seq<char>>,
)
    ensures
        removed.len() <= removal_run(nodes, cate, go, worklist, looked, removed, refused).2.len(),
        removal_run(nodes, cate, go, worklist, looked, removed, refused).2.take(
            removed.len() as int,
        ) == removed,
    decreases unseen(nodes, looked.to_set()), worklist.len(),
{
    let rest = skip_seen(worklist, looked.to_set());
    let end = removal_run(nodes, cate, go, worklist, looked, removed, refused);
    if rest.len() == 0 {
        assert(end.2.take(removed.len() as int) =~= removed);
    } else {
        let path = rest.last();
        let more = looked.push(path);
        lemma_walk_step(nodes, worklist, looked);
        lemma_without_unseen(nodes, path, more.to_set());
        if is_junk(nodes, cate, path) {
            if !go {
                lemma_run_extends_removed(nodes, cate, go, rest.drop_last(), more, removed, refused);
            } else if can_remove(nodes, path) {
                let gone = removed.push(path);
                lemma_run_extends_removed(
                    without(nodes, path),
                    cate,
                    go,
                    rest.drop_last(),
                    more,
                    gone,
                    refused,
                );
                assert(end.2.take(removed.len() as int) =~= end.2.take(gone.len() as int).take(
                    removed.len() as int,
                ));
                assert(gone.take(removed.len() as int) =~= removed);
            } else {
                lemma_run_extends_removed(
                    nodes,
                    cate,
                    go,
                    rest.drop_last(),
                    more,
                    removed,
                    refused.push(path),
                );
            }
        } else {
            lemma_run_extends_removed(
                nodes,
                cate,
                go,
                rest.drop_last() + entry_paths(probe_in(nodes, path).entries()),
                more,
                removed,
                refused,
            );
        }
    }
}

/// A removal that goes ahead exhausts what it can reach. It looks at every
/// path of its worklist and at every entry of every path it looked at that
/// is no disposable directory; and of the disposable directories it looked
/// at, none can be removed from what it leaves.
pub proof fn lemma_removal_exhausts(
    nodes: Seq<Node>,
    cate: ScanCate,
    worklist: Seq<Seq<char>>,
    looked: Seq<Seq<char>>,
    removed: Seq<Seq<char>>,
    refused: Seq<Seq<char>>,
)
    requires
        closed_under(nodes, cate, looked, looked.to_set().union(worklist.to_set())),
        spent(nodes, cate, looked),
    ensures
        ({
            let end = removal_run(nodes, cate, true, worklist, looked, removed, refused);
            &&& all_within(worklist, end.1.to_set())
            &&& all_within(looked, end.1.to_set())
            &&& closed_under(end.0, cate, end.1, end.1.to_set())
            &&& spent(end.0, cate, end.1)
        }),
    decreases unseen(nodes, looked.to_set()), worklist.len(),
{
    let before = looked.to_set();
    let rest = skip_seen(worklist, before);
    let end = removal_run(nodes, cate, true, worklist, looked, removed, refused);
    assert forall|i: int| 0 <= i < worklist.len() implies before.contains(worklist[i])
        || rest.to_set().contains(worklist[i]) by {
        lemma_skip_seen_keeps(worklist, before, i);
    }
    if rest.len() == 0 {
        assert forall|i: int| 0 <= i < worklist.len() implies end.1.to_set().contains(
            #[trigger] worklist[i],
        ) by {
            assert(before.contains(worklist[i]) || rest.to_set().contains(worklist[i]));
        }
        assert forall|i: int, j: int|
            0 <= i < looked.len() && !is_junk(nodes, cate, looked[i]) && 0 <= j < entry_paths(
                probe_in(nodes, looked[i]).entries(),
            ).len() implies before.contains(
            #[trigger] entry_paths(probe_in(nodes, looked[i]).entries())[j],
        ) by {
            let e = entry_paths(probe_in(nodes, looked[i]).entries())[j];
            assert(before.union(worklist.to_set()).contains(e));
            if worklist.to_set().contains(e) {
                let k = choose|k: int| 0 <= k < worklist.len() && worklist[k] == e;
                assert(before.contains(worklist[k]) || rest.to_set().contains(worklist[k]));
            }
        }
    } else {
        let path = rest.last();
        let more = looked.push(path);
        lemma_walk_step(nodes, worklist, looked);
        lemma_without_unseen(nodes, path, more.to_set());
        lemma_push_to_set(looked, path);
        let hit = is_junk(nodes, cate, path);
        let taken = hit && can_remove(nodes, path);
        let less = if taken {
            without(nodes, path)
        } else {
            nodes
        };
        let next = if hit {
            rest.drop_last()
        } else {
            rest.drop_last() + entry_paths(probe_in(nodes, path).entries())
        };
        let gone = if taken {
            removed.push(path)
        } else {
            removed
        };
        let kept = if hit && !taken {
            refused.push(path)
        } else {
            refused
        };
        assert(end == removal_run(less, cate, true, next, more, gone, kept));
        let reach = more.to_set().union(next.to_set());
        assert forall|x: Seq<char>| rest.to_set().contains(x) implies reach.contains(x) by {
            let k = choose|k: int| 0 <= k < rest.len() && rest[k] == x;
            if k < rest.len() - 1 {
                assert(next[k] == x);
            }
        }
        assert forall|q: Seq<char>|
            probe_in(less, q) == probe_in(nodes, q) || probe_in(less, q) == Probe::NotDir by {
            if taken {
                lemma_without_place(nodes, path, q);
            }
        }
        assert forall|q: Seq<char>| can_remove(less, q) implies can_remove(nodes, q) by {
            if taken {
                lemma_without_place(nodes, path, q);
            }
        }
        assert(closed_under(less, cate, more, reach)) by {
            assert forall|i: int, j: int|
                0 <= i < more.len() && !is_junk(less, cate, more[i]) && 0 <= j < entry_paths(
                    probe_in(less, more[i]).entries(),
                ).len() implies reach.contains(
                #[trigger] entry_paths(probe_in(less, more[i]).entries())[j],
            ) by {
                let e = entry_paths(probe_in(less, more[i]).entries())[j];
                assert(probe_in(less, more[i]) == probe_in(nodes, more[i]) || probe_in(
                    less,
                    more[i],
                ) == Probe::NotDir);
                assert(probe_in(less, more[i]) == probe_in(nodes, more[i]));
                if i < looked.len() {
                    assert(more[i] == looked[i]);
                    assert(entry_paths(probe_in(nodes, looked[i]).entries())[j] == e);
                    assert(before.union(worklist.to_set()).contains(e));
                    if !before.contains(e) {
                        let k = choose|k: int| 0 <= k < worklist.len() && worklist[k] == e;
                        assert(before.contains(worklist[k]) || rest.to_set().contains(worklist[k]));
                    }
                } else {
                    assert(more[i] == path);
                    assert(next[rest.len() - 1 + j] == e);
                }
            }
        }
        assert(spent(less, cate, more)) by {
            assert forall|i: int|
                0 <= i < more.len() && is_junk(less, cate, more[i]) implies !can_remove(
                less,
                #[trigger] more[i],
            ) by {
                assert(probe_in(less, more[i]) == probe_in(nodes, more[i]) || probe_in(
                    less,
                    more[i],
                ) == Probe::NotDir);
                if i < looked.len() {
                    assert(more[i] == looked[i]);
                    assert(!can_remove(nodes, looked[i]));
                } else {
                    assert(more[i] == path);
                    if taken {
                        lemma_without_place(nodes, path, path);
                        lemma_place_of(less, path);
                    }
                }
            }
        }
        lemma_removal_exhausts(less, cate, next, more, gone, kept);
        assert forall|i: int| 0 <= i < looked.len() implies end.1.to_set().contains(
            #[trigger] looked[i],
        ) by {
            assert(more[i] == looked[i]);
        }
        assert forall|i: int| 0 <= i < worklist.len() implies end.1.to_set().contains(
            #[trigger] worklist[i],
        ) by {
            let x = worklist[i];
            assert(before.contains(x) || rest.to_set().contains(x));
            if before.contains(x) {
                let k = choose|k: int| 0 <= k < looked.len() && looked[k] == x;
                assert(end.1.to_set().contains(looked[k]));
            } else {
                let k = choose|k: int| 0 <= k < rest.len() && rest[k] == x;
                if k < rest.len() - 1 {
                    assert(next[k] == x);
                    assert(end.1.to_set().contains(next[k]));
                } else {
                    assert(more[looked.len() as int] == x);
                    assert(end.1.to_set().contains(more[looked.len() as int]));
                }
            }
        }
    }
}

/// Where nothing is left to do among `done`, a removal whose worklist lies
/// within `done` removes nothing and leaves the nodes as they are.
pub proof fn lemma_rerun_removes_nothing(
    nodes: Seq<Node>,
    cate: ScanCate,
    worklist: Seq<Seq<char>>,
    looked: Seq<Seq<char>>,
    removed: Seq<Seq<char>>,
    refused: Seq<Seq<char>>,
    done: Set<Seq<char>>,
)
    requires
        all_within(worklist, done),
        settled(nodes, cate, done),
    ensures
        removal_run(nodes, cate, true, worklist, looked, removed, refused).0 == nodes,
        removal_run(nodes, cate, true, worklist, looked, removed, refused).2 == removed,
    decreases unseen(nodes, looked.to_set()), worklist.len(),
{
    let rest = skip_seen(worklist, looked.to_set());
    if rest.len() > 0 {
        let path = rest.last();
        lemma_walk_step(nodes, worklist, looked);
        lemma_skip_seen_prefix(worklist, looked.to_set());
        assert(worklist[rest.len() - 1] == path);
        assert(done.contains(path));
        assert forall|i: int| 0 <= i < rest.drop_last().len() implies done.contains(
            #[trigger] rest.drop_last()[i],
        ) by {
            assert(worklist[i] == rest.drop_last()[i]);
        }
        if is_junk(nodes, cate, path) {
            lemma_rerun_removes_nothing(
                nodes,
                cate,
                rest.drop_last(),
                looked.push(path),
                removed,
                refused.push(path),
                done,
            );
        } else {
            let entries = entry_paths(probe_in(nodes, path).entries());
            let next = rest.drop_last() + entries;
            assert forall|i: int| 0 <= i < next.len() implies done.contains(#[trigger] next[i]) by {
                if i >= rest.len() - 1 {
                    assert(entries[i - (rest.len() - 1)] == next[i]);
                } else {
                    assert(rest.drop_last()[i] == next[i]);
                }
            }
            lemma_rerun_removes_nothing(
                nodes,
                cate,
                next,
                looked.push(path),
                removed,
                refused,
                done,
            );
        }
    }
}

/// What a removal that went ahead looked at is settled in what it left, and
/// in that pruned further.
pub proof fn lemma_exhausted_is_settled(
    nodes: Seq<Node>,
    cate: ScanCate,
    root: Seq<char>,
    later: Seq<Node>,
)
    requires
        pruned(fresh_run(nodes, cate, root, true).0, later),
    ensures
        ({
            let done = fresh_run(nodes, cate, root, true).1.to_set();
            &&& done.contains(root)
            &&& settled(later, cate, done)
        }),
{
    let none = Seq::<Seq<char>>::empty();
    let end = removal_run(nodes, cate, true, seq![root], none, none, none);
    let done = end.1.to_set();
    lemma_removal_exhausts(nodes, cate, seq![root], none, none, none);
    assert(seq![root][0] == root);
    assert forall|path: Seq<char>| #[trigger] done.contains(path) implies if is_junk(
        later,
        cate,
        path,
    ) {
        !can_remove(later, path)
    } else {
        all_within(entry_paths(probe_in(later, path).entries()), done)
    } by {
        let i = choose|i: int| 0 <= i < end.1.len() && end.1[i] == path;
        assert(probe_in(later, path) == probe_in(end.0, path) || probe_in(later, path)
            == Probe::NotDir);
        if is_junk(later, cate, path) {
            assert(is_junk(end.0, cate, end.1[i]));
            assert(!can_remove(end.0, end.1[i]));
            if can_remove(later, path) {
                assert(can_remove(end.0, path));
            }
        } else {
            let entries = entry_paths(probe_in(later, path).entries());
            assert forall|j: int| 0 <= j < entries.len() implies done.contains(
                #[trigger] entries[j],
            ) by {
                assert(probe_in(later, path) == probe_in(end.0, path));
                assert(!is_junk(end.0, cate, end.1[i]));
                assert(entry_paths(probe_in(end.0, end.1[i]).entries())[j] == entries[j]);
            }
        }
    }
}

/// Idempotent removal. When the removal under a project root has gone ahead
/// once, the same removal over what it left removes nothing and leaves the
/// nodes as they are.
pub proof fn lemma_removal_idempotent(nodes: Seq<Node>, cate: ScanCate, root: Seq<char>)
    ensures
        ({
            let first = fresh_run(nodes, cate, root, true);
            let second = fresh_run(first.0, cate, root, true);
            &&& second.0 == first.0
            &&& second.2 == Seq::<Seq<char>>::empty()
        }),
{
    let none = Seq::<Seq<char>>::empty();
    let first = fresh_run(nodes, cate, root, true);
    lemma_exhausted_is_settled(nodes, cate, root, first.0);
    assert(seq![root][0] == root);
    lemma_rerun_removes_nothing(first.0, cate, seq![root], none, none, none, first.1.to_set());
}

/// A removal that removes nothing leaves the nodes as they were.
pub proof fn lemma_nothing_removed_nothing_changed(
    nodes: Seq<Node>,
    cate: ScanCate,
    go: bool,
    worklist: Seq<Seq<char>>,
    looked: Seq<Seq<char>>,
    removed: Seq<Seq<char>>,
    refused: Seq<Seq<char>>,
)
    requires
        removal_run(nodes, cate, go, worklist, looked, removed, refused).2.len() == removed.len(),
    ensures
        removal_run(nodes, cate, go, worklist, looked, removed, refused).0 == nodes,
    decreases unseen(nodes, looked.to_set()), worklist.len(),
{
    let rest = skip_seen(worklist, looked.to_set());
    if rest.len() > 0 {
        let path = rest.last();
        let more = looked.push(path);
        lemma_walk_step(nodes, worklist, looked);
        lemma_without_unseen(nodes, path, more.to_set());
        if is_junk(nodes, cate, path) {
            if !go {
                lemma_nothing_removed_nothing_changed(
                    nodes,
                    cate,
                    go,
                    rest.drop_last(),
                    more,
                    removed,
                    refused,
                );
            } else if can_remove(nodes, path) {
                lemma_run_extends_removed(
                    without(nodes, path),
                    cate,
                    go,
                    rest.drop_last(),
                    more,
                    removed.push(path),
                    refused,
                );
            } else {
                lemma_nothing_removed_nothing_changed(
                    nodes,
                    cate,
                    go,
                    rest.drop_last(),
                    more,
                    removed,
                    refused.push(path),
                );
            }
        } else {
            lemma_nothing_removed_nothing_changed(
                nodes,
                cate,
                go,
                rest.drop_last() + entry_paths(probe_in(nodes, path).entries()),
                more,
                removed,
                refused,
            );
        }
    }
}

/// Partial-failure tolerance. A row under which nothing is removed, be it
/// that nothing was found or that every removal failed, changes nothing for
/// the rows after it: they run over the same nodes, and come to the same
/// ends, as if the row had not been there.
pub proof fn lemma_failed_row_stops_nothing(
    nodes: Seq<Node>,
    rows: Seq<RowView>,
    go: bool,
    from: int,
)
    requires
        0 <= from < rows.len(),
        fresh_run(nodes, rows[from].cate, rows[from].path, go).2.len() == 0,
    ensures
        ({
            let one = fresh_run(nodes, rows[from].cate, rows[from].path, go);
            let whole = clear_run(nodes, rows, go, from);
            let others = clear_run(nodes, rows, go, from + 1);
            &&& whole.0 == others.0
            &&& whole.1 == seq![
                MatchEnd { path: rows[from].path, removed: false, failed: one.3.len() > 0 },
            ] + others.1
        }),
{
    let none = Seq::<Seq<char>>::empty();
    lemma_nothing_removed_nothing_changed(
        nodes,
        rows[from].cate,
        go,
        seq![rows[from].path],
        none,
        none,
        none,
    );
}

/// The removal under a project root that holds one disposable directory and
/// nothing else to enter: the directory is removed if it can be, and
/// refused if it cannot; the project root itself stays.
pub proof fn lemma_one_junk(nodes: Seq<Node>, cate: ScanCate, root: Seq<char>, junk: Seq<char>)
    requires
        !is_junk(nodes, cate, root),
        is_junk(nodes, cate, junk),
        entry_paths(probe_in(nodes, root).entries()) == seq![junk],
    ensures
        fresh_run(nodes, cate, root, true) == if can_remove(nodes, junk) {
            (without(nodes, junk), seq![root, junk], seq![junk], Seq::<Seq<char>>::empty())
        } else {
            (nodes, seq![root, junk], Seq::<Seq<char>>::empty(), seq![junk])
        },
{
    let none = Seq::<Seq<char>>::empty();
    let first = seq![root];
    assert(first.last() == root);
    assert(first.drop_last() =~= none);
    assert(!none.to_set().contains(root));
    assert(skip_seen(first, none.to_set()) == first);
    let looked = none.push(root);
    let second = first.drop_last() + seq![junk];
    assert(second =~= seq![junk]);
    assert(second.last() == junk);
    assert(second.drop_last() =~= none);
    lemma_push_to_set(none, root);
    assert(!looked.to_set().contains(junk));
    assert(skip_seen(second, looked.to_set()) == second);
    let both = looked.push(junk);
    assert(both =~= seq![root, junk]);
    lemma_walk_step(nodes, first, none);
    assert(fresh_run(nodes, cate, root, true) == removal_run(
        nodes,
        cate,
        true,
        second,
        looked,
        none,
        none,
    ));
    if can_remove(nodes, junk) {
        assert(removal_run(nodes, cate, true, second, looked, none, none) == removal_run(
            without(nodes, junk),
            cate,
            true,
            none,
            both,
            none.push(junk),
            none,
        ));
        assert(none.push(junk) =~= seq![junk]);
    } else {
        assert(removal_run(nodes, cate, true, second, looked, none, none) == removal_run(
            nodes,
            cate,
            true,
            none,
            both,
            none,
            none.push(junk),
        ));
        assert(none.push(junk) =~= seq![junk]);
    }
}

/// The project root of `row` holds the one disposable directory `junk` and
/// nothing else to enter.
pub open spec fn holds_one_junk(nodes: Seq<Node>, row: RowView, junk: Seq<char>) -> bool {
    &&& !is_junk(nodes, row.cate, row.path)
    &&& is_junk(nodes, row.cate, junk)
    &&& entry_paths(probe_in(nodes, row.path).entries()) == seq![junk]
}

/// From position `from` on, every row holds the one disposable directory
/// that `junks` gives for it, and the rows lie apart: no project root lies
/// below one of these directories, and none of the directories below
/// another.
pub open spec fn rows_apart(
    nodes: Seq<Node>,
    rows: Seq<RowView>,
    junks: Seq<Seq<char>>,
    from: int,
) -> bool {
    &&& junks.len() == rows.len()
    &&& forall|i: int| from <= i < rows.len() ==> holds_one_junk(nodes, #[trigger] rows[i], junks[i])
    &&& forall|i: int, j: int|
        from <= i < rows.len() && from <= j < rows.len() ==> !under(
            #[trigger] junks[i],
            (#[trigger] rows[j]).path,
        )
    &&& forall|i: int, j: int|
        #![trigger junks[i], junks[j]]
        from <= i < rows.len() && from <= j < rows.len() && i != j ==> !under(junks[i], junks[j])
}

/// `path` lies below none of the directories of `junks`, from position
/// `from` on, that can be removed from `nodes`.
pub open spec fn spared(nodes: Seq<Node>, junks: Seq<Seq<char>>, from: int, path: Seq<char>) -> bool {
    forall|i: int|
        from <= i < junks.len() && can_remove(nodes, #[trigger] junks[i]) ==> !under(
            junks[i],
            path,
        )
}

/// How many of the directories of `junks`, from position `from` on, can be
/// removed from `nodes`.
pub open spec fn count_free(nodes: Seq<Node>, junks: Seq<Seq<char>>, from: int) -> nat
    decreases junks.len() - from,
{
    if from < 0 || from >= junks.len() {
        0
    } else if can_remove(nodes, junks[from]) {
        count_free(nodes, junks, from + 1) + 1
    } else {
        count_free(nodes, junks, from + 1)
    }
}

/// Partial-failure tolerance over trees. In a batch that goes ahead over
/// rows that lie apart, each holding one disposable directory, every row
/// comes to its own end whatever became of the others: it counts as removed
/// exactly where its directory can be removed, and as failed exactly where
/// it cannot. As many rows are counted as there are directories that can be
/// removed. In the end the directories that could be removed are gone and
/// those that could not are still there, the project roots are as they
/// were, and so is every path that lies below none of the directories
/// removed.
pub proof fn lemma_failure_stops_nothing(
    nodes: Seq<Node>,
    rows: Seq<RowView>,
    junks: Seq<Seq<char>>,
    from: int,
)
    requires
        0 <= from <= rows.len(),
        rows_apart(nodes, rows, junks, from),
    ensures
        ({
            let run = clear_run(nodes, rows, true, from);
            &&& run.1.len() == rows.len() - from
            &&& forall|i: int|
                from <= i < rows.len() ==> #[trigger] run.1[i - from] == (MatchEnd {
                    path: rows[i].path,
                    removed: can_remove(nodes, junks[i]),
                    failed: !can_remove(nodes, junks[i]),
                })
            &&& count_ends(run.1) == count_free(nodes, junks, from)
            &&& forall|path: Seq<char>|
                spared(nodes, junks, from, path) ==> #[trigger] probe_in(run.0, path) == probe_in(
                    nodes,
                    path,
                )
            &&& forall|i: int|
                from <= i < rows.len() ==> (probe_in(run.0, #[trigger] junks[i]).is_dir()
                    <==> !can_remove(nodes, junks[i]))
            &&& forall|i: int|
                from <= i < rows.len() ==> probe_in(run.0, (#[trigger] rows[i]).path) == probe_in(
                    nodes,
                    rows[i].path,
                )
        }),
    decreases rows.len() - from,
{
    let run = clear_run(nodes, rows, true, from);
    if from < rows.len() {
        let row = rows[from];
        let junk = junks[from];
        let free = can_remove(nodes, junk);
        assert(holds_one_junk(nodes, row, junk));
        lemma_one_junk(nodes, row.cate, row.path, junk);
        let one = fresh_run(nodes, row.cate, row.path, true);
        let less = one.0;
        let others = clear_run(less, rows, true, from + 1);
        let end = MatchEnd { path: row.path, removed: free, failed: !free };
        assert(run.1 == seq![end] + others.1);
        assert forall|q: Seq<char>| !under(junk, q) || !free implies probe_in(less, q) == probe_in(
            nodes,
            q,
        ) && can_remove(less, q) == can_remove(nodes, q) by {
            if free {
                lemma_without_place(nodes, junk, q);
            }
        }
        assert(rows_apart(less, rows, junks, from + 1)) by {
            assert forall|i: int| from + 1 <= i < rows.len() implies holds_one_junk(
                less,
                #[trigger] rows[i],
                junks[i],
            ) by {
                assert(holds_one_junk(nodes, rows[i], junks[i]));
                assert(!under(junks[from], rows[i].path));
                assert(!under(junks[from], junks[i]));
            }
        }
        lemma_failure_stops_nothing(less, rows, junks, from + 1);
        assert forall|i: int| from + 1 <= i < rows.len() implies can_remove(less, junks[i])
            == can_remove(nodes, #[trigger] junks[i]) by {
            assert(!under(junks[from], junks[i]));
        }
        assert forall|i: int| from <= i < rows.len() implies #[trigger] run.1[i - from] == (
        MatchEnd {
            path: rows[i].path,
            removed: can_remove(nodes, junks[i]),
            failed: !can_remove(nodes, junks[i]),
        }) by {
            if i > from {
                assert(run.1[i - from] == others.1[i - (from + 1)]);
                assert(can_remove(less, junks[i]) == can_remove(nodes, junks[i]));
            }
        }
        lemma_count_ends_first(end, others.1);
        lemma_count_free_same(less, nodes, junks, from + 1);
        assert forall|path: Seq<char>| spared(nodes, junks, from, path) implies #[trigger] probe_in(
            run.0,
            path,
        ) == probe_in(nodes, path) by {
            assert forall|i: int|
                from + 1 <= i < junks.len() && can_remove(less, #[trigger] junks[i]) implies !under(
                junks[i],
                path,
            ) by {
                assert(can_remove(nodes, junks[i]));
            }
            assert(spared(less, junks, from + 1, path));
            assert(probe_in(run.0, path) == probe_in(less, path));
            if free {
                assert(can_remove(nodes, junks[from]));
                assert(!under(junks[from], path));
            }
        }
        assert forall|i: int| from <= i < rows.len() implies spared(
            nodes,
            junks,
            from,
            (#[trigger] rows[i]).path,
        ) by {
            assert forall|k: int|
                from <= k < junks.len() && can_remove(nodes, #[trigger] junks[k]) implies !under(
                junks[k],
                rows[i].path,
            ) by {
                assert(!under(junks[k], rows[i].path));
            }
        }
        assert forall|i: int| from <= i < rows.len() implies (probe_in(
            run.0,
            #[trigger] junks[i],
        ).is_dir() <==> !can_remove(nodes, junks[i])) by {
            if i == from {
                if free {
                    lemma_without_place(nodes, junk, junk);
                    lemma_batch_prunes(less, rows, true, from + 1);
                    assert(probe_in(less, junk) == Probe::NotDir);
                    assert(probe_in(run.0, junk) == probe_in(less, junk) || probe_in(run.0, junk)
                        == Probe::NotDir);
                } else {
                    assert forall|k: int|
                        from <= k < junks.len() && can_remove(
                            nodes,
                            #[trigger] junks[k],
                        ) implies !under(junks[k], junk) by {
                        assert(k != from);
                        assert(!under(junks[k], junks[from]));
                    }
                    assert(spared(nodes, junks, from, junk));
                    assert(probe_in(run.0, junk) == probe_in(nodes, junk));
                }
            } else {
                assert(can_remove(less, junks[i]) == can_remove(nodes, junks[i]));
            }
        }
    }
}

/// Where the directories can be removed from one list of nodes exactly as
/// from another, as many of them can be removed from each.
proof fn lemma_count_free_same(
    one: Seq<Node>,
    other: Seq<Node>,
    junks: Seq<Seq<char>>,
    from: int,
)
    requires
        0 <= from,
        forall|i: int|
            from <= i < junks.len() ==> can_remove(one, #[trigger] junks[i]) == can_remove(
                other,
                junks[i],
            ),
    ensures
        count_free(one, junks, from) == count_free(other, junks, from),
    decreases junks.len() - from,
{
    if from < junks.len() {
        lemma_count_free_same(one, other, junks, from + 1);
    }
}

/// A row put before others counts with them.
proof fn lemma_count_ends_first(first: MatchEnd, more: Seq<MatchEnd>)
    ensures
        count_ends(seq![first] + more) == count_ends(more) + if first.removed {
            1nat
        } else {
            0nat
        },
    decreases more.len(),
{
    let whole = seq![first] + more;
    if more.len() == 0 {
        assert(whole.drop_last() =~= Seq::<MatchEnd>::empty());
        assert(whole.last() == first);
        assert(count_ends(whole.drop_last()) == 0);
    } else {
        lemma_count_ends_first(first, more.drop_last());
        assert(whole.drop_last() =~= seq![first] + more.drop_last());
        assert(whole.last() == more.last());
    }
}

/// A batch that has gone ahead leaves nothing for the same batch over what
/// it left, or over that pruned further: no row is counted, and the nodes
/// stay as they are.
pub proof fn lemma_batch_leaves_nothing(
    nodes: Seq<Node>,
    rows: Seq<RowView>,
    from: int,
    later: Seq<Node>,
)
    requires
        0 <= from,
        pruned(clear_run(nodes, rows, true, from).0, later),
    ensures
        clear_run(later, rows, true, from).0 == later,
        count_ends(clear_run(later, rows, true, from).1) == 0,
    decreases rows.len() - from,
{
    if from < rows.len() {
        let none = Seq::<Seq<char>>::empty();
        let cate = rows[from].cate;
        let root = rows[from].path;
        let one = fresh_run(nodes, cate, root, true);
        let end = clear_run(one.0, rows, true, from + 1).0;
        lemma_batch_prunes(one.0, rows, true, from + 1);
        lemma_pruned_twice(one.0, end, later);
        lemma_exhausted_is_settled(nodes, cate, root, later);
        assert(seq![root][0] == root);
        lemma_rerun_removes_nothing(later, cate, seq![root], none, none, none, one.1.to_set());
        lemma_batch_leaves_nothing(one.0, rows, from + 1, later);
        let again = fresh_run(later, cate, root, true);
        lemma_count_ends_first(
            MatchEnd { path: root, removed: again.2.len() > 0, failed: again.3.len() > 0 },
            clear_run(later, rows, true, from + 1).1,
        );
    }
}

/// Idempotent removal of a batch. When the removal under a list of rows has
/// gone ahead once, the same batch over what it left counts no row and
/// leaves the nodes as they are.
pub proof fn lemma_batch_idempotent(nodes: Seq<Node>, rows: Seq<RowView>)
    ensures
        ({
            let first = clear_run(nodes, rows, true, 0);
            let second = clear_run(first.0, rows, true, 0);
            &&& second.0 == first.0
            &&& count_ends(second.1) == 0
        }),
{
    let first = clear_run(nodes, rows, true, 0);
    lemma_batch_leaves_nothing(nodes, rows, 0, first.0);
}

} // verus!
