use crate::command::clear::RowView;
use crate::probe::entry_paths;
use crate::scan_run::{scan_run, tree_size};
use crate::scanner::{verdict_of, Verdict};
use crate::text::final_segment;
use crate::tree::{lemma_walk_step, probe_in, unseen, Node};
use crate::size_laws::all_within;
use crate::visited::{
    all_distinct, lemma_push_to_set, lemma_skip_seen_keeps, lemma_skip_seen_prefix, skip_seen,
};
use vstd::prelude::*;

verus! {

/// The rows that `path` gives when it is looked at: one row if it is a
/// project root whose bytes can be counted, else none.
pub open spec fn rows_of(nodes: Seq<Node>, path: Seq<char>) -> Seq<RowView> {
    match verdict_of(path, probe_in(nodes, path)) {
        Verdict::Matched(cate) => match tree_size(nodes, path) {
            Ok(size) => seq![RowView { path, project: final_segment(path), cate, size }],
            Err(_) => Seq::empty(),
        },
        _ => Seq::empty(),
    }
}

/// The rows that the paths `paths` give, in the order of the paths.
pub open spec fn rows_among(nodes: Seq<Node>, paths: Seq<Seq<char>>) -> Seq<RowView>
    decreases paths.len(),
{
    if paths.len() == 0 {
        Seq::empty()
    } else {
        rows_among(nodes, paths.drop_last()) + rows_of(nodes, paths.last())
    }
}

/// A directory among `dirs` that the scan enters has `path` as an entry.
pub open spec fn entered_from(nodes: Seq<Node>, dirs: Seq<Seq<char>>, path: Seq<char>) -> bool {
    exists|i: int, j: int|
        0 <= i < dirs.len() && verdict_of(dirs[i], probe_in(nodes, dirs[i])) == Verdict::Descend
            && 0 <= j < entry_paths(probe_in(nodes, dirs[i]).entries()).len()
            && #[trigger] entry_paths(probe_in(nodes, dirs[i]).entries())[j] == path
}

proof fn lemma_rows_among_first(nodes: Seq<Node>, first: Seq<char>, more: Seq<Seq<char>>)
    ensures
        rows_among(nodes, seq![first] + more) == rows_of(nodes, first) + rows_among(nodes, more),
    decreases more.len(),
{
    let whole = seq![first] + more;
    if more.len() == 0 {
        assert(whole.drop_last() =~= Seq::<Seq<char>>::empty());
        assert(whole.last() == first);
        assert(rows_among(nodes, whole.drop_last()) =~= Seq::<RowView>::empty());
        assert(rows_among(nodes, whole) =~= rows_of(nodes, first) + rows_among(nodes, more));
    } else {
        lemma_rows_among_first(nodes, first, more.drop_last());
        assert(whole.drop_last() =~= seq![first] + more.drop_last());
        assert(whole.last() == more.last());
        assert(rows_among(nodes, whole) =~= rows_of(nodes, first) + rows_among(nodes, more));
    }
}

/// No path is looked at twice: a scan that comes to its end looks at no path
/// that was looked at before, and at none more than once.
pub proof fn lemma_scan_looks_once(
    nodes: Seq<Node>,
    worklist: Seq<Seq<char>>,
    looked: Seq<Seq<char>>,
    rows: Seq<RowView>,
)
    requires
        scan_run(nodes, worklist, looked, rows) is Ok,
        all_distinct(looked),
    ensures
        all_distinct((scan_run(nodes, worklist, looked, rows)->Ok_0).0),
    decreases unseen(nodes, looked.to_set()), worklist.len(),
{
    let rest = skip_seen(worklist, looked.to_set());
    if rest.len() > 0 {
        let path = rest.last();
        let probe = probe_in(nodes, path);
        let more = looked.push(path);
        lemma_walk_step(nodes, worklist, looked);
        assert(all_distinct(more)) by {
            assert forall|i: int, j: int| 0 <= i < j < more.len() implies more[i] != more[j] by {
                if j == looked.len() {
                    assert(looked[i] == more[i]);
                    assert(looked.to_set().contains(looked[i]));
                }
            }
        }
        match verdict_of(path, probe) {
            Verdict::Matched(cate) => {
                lemma_scan_looks_once(
                    nodes,
                    rest.drop_last(),
                    more,
                    rows.push(
                        RowView {
                            path,
                            project: final_segment(path),
                            cate,
                            size: tree_size(nodes, path)->Ok_0,
                        },
                    ),
                );
            },
            Verdict::Descend => {
                lemma_scan_looks_once(
                    nodes,
                    rest.drop_last() + entry_paths(probe.entries()),
                    more,
                    rows,
                );
            },
            _ => {
                lemma_scan_looks_once(nodes, rest.drop_last(), more, rows);
            },
        }
    }
}

/// What a scan finds. A scan that comes to its end only adds to the paths
/// looked at, and the rows it adds are the rows of the project roots among
/// the paths it looked at, one for each, in the order in which it looked.
pub proof fn lemma_scan_finds_the_roots(
    nodes: Seq<Node>,
    worklist: Seq<Seq<char>>,
    looked: Seq<Seq<char>>,
    rows: Seq<RowView>,
)
    requires
        scan_run(nodes, worklist, looked, rows) is Ok,
    ensures
        ({
            let end = scan_run(nodes, worklist, looked, rows)->Ok_0;
            &&& looked.len() <= end.0.len()
            &&& end.0.take(looked.len() as int) == looked
            &&& end.1 == rows + rows_among(nodes, end.0.skip(looked.len() as int))
        }),
    decreases unseen(nodes, looked.to_set()), worklist.len(),
{
    let rest = skip_seen(worklist, looked.to_set());
    let end = scan_run(nodes, worklist, looked, rows)->Ok_0;
    if rest.len() == 0 {
        assert(end.0.take(looked.len() as int) =~= looked);
        assert(end.0.skip(looked.len() as int) =~= Seq::<Seq<char>>::empty());
        assert(end.1 =~= rows + rows_among(nodes, end.0.skip(looked.len() as int)));
    } else {
        let path = rest.last();
        let probe = probe_in(nodes, path);
        let more = looked.push(path);
        lemma_walk_step(nodes, worklist, looked);
        let next = if verdict_of(path, probe) == Verdict::Descend {
            rest.drop_last() + entry_paths(probe.entries())
        } else {
            rest.drop_last()
        };
        let grown = rows + rows_of(nodes, path);
        assert(scan_run(nodes, worklist, looked, rows) == scan_run(nodes, next, more, grown)) by {
            match verdict_of(path, probe) {
                Verdict::Matched(cate) => {
                    assert(tree_size(nodes, path) is Ok);
                    assert(grown =~= rows.push(
                        RowView {
                            path,
                            project: final_segment(path),
                            cate,
                            size: tree_size(nodes, path)->Ok_0,
                        },
                    ));
                },
                _ => {
                    assert(grown =~= rows);
                },
            }
        }
        lemma_scan_finds_the_roots(nodes, next, more, grown);
        assert(end.0.take(looked.len() as int) =~= end.0.take(more.len() as int).take(
            looked.len() as int,
        ));
        assert(more.take(looked.len() as int) =~= looked);
        let added = end.0.skip(looked.len() as int);
        let later = end.0.skip(more.len() as int);
        assert(end.0.take(more.len() as int)[looked.len() as int] == more[looked.len() as int]);
        assert(added =~= seq![path] + later);
        lemma_rows_among_first(nodes, path, later);
        assert(end.1 =~= rows + rows_among(nodes, added));
    }
}

/// Pruning. Every path that a scan looks at was on its worklist when it
/// began, or is an entry of a directory that the scan looked at and entered:
/// nothing is looked at below a directory that is a project root, skipped,
/// disposable or excluded, unless another way leads there.
pub proof fn lemma_scan_enters_only_plain_directories(
    nodes: Seq<Node>,
    worklist: Seq<Seq<char>>,
    looked: Seq<Seq<char>>,
    rows: Seq<RowView>,
)
    requires
        scan_run(nodes, worklist, looked, rows) is Ok,
    ensures
        ({
            let all = (scan_run(nodes, worklist, looked, rows)->Ok_0).0;
            &&& looked.len() <= all.len()
            &&& forall|k: int|
                looked.len() <= k < all.len() ==> worklist.contains(#[trigger] all[k])
                    || entered_from(nodes, all, all[k])
        }),
    decreases unseen(nodes, looked.to_set()), worklist.len(),
{
    let rest = skip_seen(worklist, looked.to_set());
    let all = (scan_run(nodes, worklist, looked, rows)->Ok_0).0;
    lemma_scan_finds_the_roots(nodes, worklist, looked, rows);
    if rest.len() > 0 {
        let path = rest.last();
        let probe = probe_in(nodes, path);
        let more = looked.push(path);
        lemma_walk_step(nodes, worklist, looked);
        lemma_skip_seen_prefix(worklist, looked.to_set());
        let descend = verdict_of(path, probe) == Verdict::Descend;
        let next = if descend {
            rest.drop_last() + entry_paths(probe.entries())
        } else {
            rest.drop_last()
        };
        let grown = match verdict_of(path, probe) {
            Verdict::Matched(cate) => rows.push(
                RowView {
                    path,
                    project: final_segment(path),
                    cate,
                    size: tree_size(nodes, path)->Ok_0,
                },
            ),
            _ => rows,
        };
        assert(scan_run(nodes, worklist, looked, rows) == scan_run(nodes, next, more, grown));
        lemma_scan_finds_the_roots(nodes, next, more, grown);
        lemma_scan_enters_only_plain_directories(nodes, next, more, grown);
        let at = looked.len() as int;
        assert(all.take(more.len() as int)[at] == more[at]);
        assert(all[at] == path);
        assert forall|k: int| looked.len() <= k < all.len() implies worklist.contains(
            #[trigger] all[k],
        ) || entered_from(nodes, all, all[k]) by {
            if k == at {
                assert(worklist[rest.len() - 1] == path);
            } else if next.contains(all[k]) {
                let n = choose|n: int| 0 <= n < next.len() && next[n] == all[k];
                if n < rest.len() - 1 {
                    assert(worklist[n] == all[k]);
                } else {
                    let j = n - (rest.len() - 1);
                    assert(entry_paths(probe_in(nodes, all[at]).entries())[j] == all[k]);
                }
            }
        }
    }
}

/// Every entry of every directory among `dirs` that the scan enters is among
/// `all`.
pub open spec fn entries_within(nodes: Seq<Node>, dirs: Seq<Seq<char>>, all: Set<Seq<char>>) -> bool {
    forall|i: int, j: int|
        0 <= i < dirs.len() && verdict_of(dirs[i], probe_in(nodes, dirs[i])) == Verdict::Descend
            && 0 <= j < entry_paths(probe_in(nodes, dirs[i]).entries()).len() ==> all.contains(
            #[trigger] entry_paths(probe_in(nodes, dirs[i]).entries())[j],
        )
}

/// Completeness of a scan. Where every entry of a directory entered so far
/// was looked at or is on the worklist, a scan that comes to its end looks
/// at every path of its worklist and at every entry of every directory that
/// it enters: no project root that can be reached is missed.
pub proof fn lemma_scan_complete(
    nodes: Seq<Node>,
    worklist: Seq<Seq<char>>,
    looked: Seq<Seq<char>>,
    rows: Seq<RowView>,
)
    requires
        scan_run(nodes, worklist, looked, rows) is Ok,
        entries_within(nodes, looked, looked.to_set().union(worklist.to_set())),
    ensures
        ({
            let all = (scan_run(nodes, worklist, looked, rows)->Ok_0).0;
            &&& all_within(worklist, all.to_set())
            &&& all_within(looked, all.to_set())
            &&& entries_within(nodes, all, all.to_set())
        }),
    decreases unseen(nodes, looked.to_set()), worklist.len(),
{
    let before = looked.to_set();
    let rest = skip_seen(worklist, before);
    let all = (scan_run(nodes, worklist, looked, rows)->Ok_0).0;
    assert forall|i: int| 0 <= i < worklist.len() implies before.contains(worklist[i])
        || rest.to_set().contains(worklist[i]) by {
        lemma_skip_seen_keeps(worklist, before, i);
    }
    if rest.len() == 0 {
        assert forall|i: int| 0 <= i < worklist.len() implies all.to_set().contains(
            #[trigger] worklist[i],
        ) by {
            assert(before.contains(worklist[i]) || rest.to_set().contains(worklist[i]));
        }
        assert forall|i: int, j: int|
            0 <= i < all.len() && verdict_of(all[i], probe_in(nodes, all[i])) == Verdict::Descend
                && 0 <= j < entry_paths(
                probe_in(nodes, all[i]).entries(),
            ).len() implies all.to_set().contains(
            #[trigger] entry_paths(probe_in(nodes, all[i]).entries())[j],
        ) by {
            let e = entry_paths(probe_in(nodes, looked[i]).entries())[j];
            assert(before.union(worklist.to_set()).contains(e));
            if worklist.to_set().contains(e) {
                let k = choose|k: int| 0 <= k < worklist.len() && worklist[k] == e;
                assert(before.contains(worklist[k]) || rest.to_set().contains(worklist[k]));
            }
        }
    } else {
        let path = rest.last();
        let probe = probe_in(nodes, path);
        let more = looked.push(path);
        lemma_walk_step(nodes, worklist, looked);
        lemma_push_to_set(looked, path);
        let descend = verdict_of(path, probe) == Verdict::Descend;
        let next = if descend {
            rest.drop_last() + entry_paths(probe.entries())
        } else {
            rest.drop_last()
        };
        let grown = match verdict_of(path, probe) {
            Verdict::Matched(cate) => rows.push(
                RowView {
                    path,
                    project: final_segment(path),
                    cate,
                    size: tree_size(nodes, path)->Ok_0,
                },
            ),
            _ => rows,
        };
        assert(scan_run(nodes, worklist, looked, rows) == scan_run(nodes, next, more, grown));
        let reach = more.to_set().union(next.to_set());
        assert forall|x: Seq<char>| rest.to_set().contains(x) implies reach.contains(x) by {
            let k = choose|k: int| 0 <= k < rest.len() && rest[k] == x;
            if k < rest.len() - 1 {
                assert(next[k] == x);
            }
        }
        assert forall|i: int, j: int|
            0 <= i < more.len() && verdict_of(more[i], probe_in(nodes, more[i]))
                == Verdict::Descend && 0 <= j < entry_paths(
                probe_in(nodes, more[i]).entries(),
            ).len() implies reach.contains(
            #[trigger] entry_paths(probe_in(nodes, more[i]).entries())[j],
        ) by {
            let e = entry_paths(probe_in(nodes, more[i]).entries())[j];
            if i < looked.len() {
                assert(more[i] == looked[i]);
                assert(before.union(worklist.to_set()).contains(e));
                if !before.contains(e) {
                    let k = choose|k: int| 0 <= k < worklist.len() && worklist[k] == e;
                    assert(before.contains(worklist[k]) || rest.to_set().contains(worklist[k]));
                }
            } else {
                assert(next[rest.len() - 1 + j] == e);
            }
        }
        lemma_scan_complete(nodes, next, more, grown);
        assert forall|i: int| 0 <= i < looked.len() implies all.to_set().contains(
            #[trigger] looked[i],
        ) by {
            assert(more[i] == looked[i]);
        }
        assert forall|i: int| 0 <= i < worklist.len() implies all.to_set().contains(
            #[trigger] worklist[i],
        ) by {
            let x = worklist[i];
            assert(before.contains(x) || rest.to_set().contains(x));
            if before.contains(x) {
                let k = choose|k: int| 0 <= k < looked.len() && looked[k] == x;
                assert(all.to_set().contains(looked[k]));
            } else {
                let k = choose|k: int| 0 <= k < rest.len() && rest[k] == x;
                if k < rest.len() - 1 {
                    assert(next[k] == x);
                    assert(all.to_set().contains(next[k]));
                } else {
                    assert(more[looked.len() as int] == x);
                    assert(all.to_set().contains(more[looked.len() as int]));
                }
            }
        }
    }
}

} // verus!
