use crate::command::clear::{row_views, RowView, ScanRow};
use crate::probe::{entry_paths, Probe};
use crate::removal::{count_removed, tally, RemovalOutcome, RemovalStep, RemovalWalk};
use crate::scan_category::ScanCate;
use crate::tree::{can_remove, lemma_walk_step, probe_in, under, unseen, without, Node, Tree};
use crate::visited::skip_seen;
use vstd::prelude::*;

verus! {

/// What became of one row of a batch, as plain values.
pub struct MatchEnd {
    /// The project root.
    pub path: Seq<char>,
    /// Whether a disposable directory under it was removed.
    pub removed: bool,
    /// Whether the removal of a disposable directory under it failed.
    pub failed: bool,
}

/// `path` is a disposable directory of `cate` in `nodes`: it has the name of
/// the junk directory, and a look at it shows a directory.
pub open spec fn is_junk(nodes: Seq<Node>, cate: ScanCate, path: Seq<char>) -> bool {
    cate.is_disposable(path) && probe_in(nodes, path).is_dir()
}

/// Removing a directory leaves no more nodes unseen than there were.
pub proof fn lemma_without_unseen(nodes: Seq<Node>, dir: Seq<char>, seen: Set<Seq<char>>)
    ensures
        unseen(without(nodes, dir), seen) <= unseen(nodes, seen),
    decreases nodes.len(),
{
    if nodes.len() > 0 {
        lemma_without_unseen(nodes.drop_last(), dir, seen);
        if !under(dir, nodes.last().path@) {
            let kept = without(nodes.drop_last(), dir).push(nodes.last());
            assert(kept.drop_last() =~= without(nodes.drop_last(), dir));
        }
    }
}

/// The run of a removal over `nodes` for one category, from the paths still
/// to look at, the paths looked at so far, the directories removed and the
/// directories refused so far: the nodes left in the end, the paths looked
/// at, the directories removed, and those whose removal was refused. Each
/// path is looked at once. A disposable directory of the category is not
/// entered; where `go` allows, it is removed with all below it if it can be,
/// and refused if it cannot. Of any other path the entries are looked at in
/// turn.
pub open spec fn removal_run(
    nodes: Seq<Node>,
    cate: ScanCate,
    go: bool,
    worklist: Seq<Seq<char>>,
    looked: Seq<Seq<char>>,
    removed: Seq<Seq<char>>,
    refused: Seq<Seq<char>>,
) -> (Seq<Node>, Seq<Seq<char>>, Seq<Seq<char>>, Seq<Seq<char>>)
    decreases unseen(nodes, looked.to_set()), worklist.len(),
{
    let rest = skip_seen(worklist, looked.to_set());
    if rest.len() == 0 {
        (nodes, looked, removed, refused)
    } else {
        let path = rest.last();
        proof {
            lemma_walk_step(nodes, worklist, looked);
            lemma_without_unseen(nodes, path, looked.push(path).to_set());
        }
        if is_junk(nodes, cate, path) {
            if !go {
                removal_run(nodes, cate, go, rest.drop_last(), looked.push(path), removed, refused)
            } else if can_remove(nodes, path) {
                removal_run(
                    without(nodes, path),
                    cate,
                    go,
                    rest.drop_last(),
                    looked.push(path),
                    removed.push(path),
                    refused,
                )
            } else {
                removal_run(
                    nodes,
                    cate,
                    go,
                    rest.drop_last(),
                    looked.push(path),
                    removed,
                    refused.push(path),
                )
            }
        } else {
            removal_run(
                nodes,
                cate,
                go,
                rest.drop_last() + entry_paths(probe_in(nodes, path).entries()),
                looked.push(path),
                removed,
                refused,
            )
        }
    }
}

/// The removal under the project root `root`, begun afresh.
pub open spec fn fresh_run(nodes: Seq<Node>, cate: ScanCate, root: Seq<char>, go: bool) -> (
    Seq<Node>,
    Seq<Seq<char>>,
    Seq<Seq<char>>,
    Seq<Seq<char>>,
) {
    removal_run(nodes, cate, go, seq![root], Seq::empty(), Seq::empty(), Seq::empty())
}

/// The run of a batch over `nodes`, from the row at position `from` on: the
/// nodes left in the end, and what became of each row, in order. Every row
/// has its own removal, whatever became of the rows before it.
pub open spec fn clear_run(nodes: Seq<Node>, rows: Seq<RowView>, go: bool, from: int) -> (
    Seq<Node>,
    Seq<MatchEnd>,
)
    decreases rows.len() - from,
{
    if from < 0 || from >= rows.len() {
        (nodes, Seq::empty())
    } else {
        let one = fresh_run(nodes, rows[from].cate, rows[from].path, go);
        let others = clear_run(one.0, rows, go, from + 1);
        (
            others.0,
            seq![
                MatchEnd { path: rows[from].path, removed: one.2.len() > 0, failed: one.3.len() > 0 },
            ] + others.1,
        )
    }
}

/// How many of `ends` had something removed.
pub open spec fn count_ends(ends: Seq<MatchEnd>) -> nat
    decreases ends.len(),
{
    if ends.len() == 0 {
        0
    } else if ends.last().removed {
        count_ends(ends.drop_last()) + 1
    } else {
        count_ends(ends.drop_last())
    }
}

/// What became of the matches `outcomes`, as plain values.
pub open spec fn ends_of(outcomes: Seq<RemovalOutcome>) -> Seq<MatchEnd> {
    Seq::new(
        outcomes.len(),
        |i: int|
            MatchEnd {
                path: outcomes[i].path@,
                removed: outcomes[i].removed,
                failed: outcomes[i].error is Some,
            },
    )
}

/// What a removal that failed says here.
pub open spec fn refusal_text() -> Seq<char> {
    "cannot remove"@
}

/// Counting the outcomes is counting what became of them.
pub proof fn lemma_count_ends(outcomes: Seq<RemovalOutcome>)
    ensures
        count_ends(ends_of(outcomes)) == count_removed(outcomes),
    decreases outcomes.len(),
{
    if outcomes.len() > 0 {
        lemma_count_ends(outcomes.drop_last());
        assert(ends_of(outcomes).drop_last() =~= ends_of(outcomes.drop_last()));
    }
}

/// The removal under the project root `path`, run to its end over `tree`.
fn walk_tree(tree: &mut Tree, path: String, cate: ScanCate, force: bool, consent: bool) -> (walk:
    RemovalWalk)
    ensures
        ({
            let run = fresh_run(old(tree).nodes(), cate, path@, force || consent);
            &&& final(tree).nodes() == run.0
            &&& walk.looked() == run.1
            &&& walk.removed() == run.2
            &&& walk.refused() == run.3
            &&& walk.last_error() matches Some(text) ==> text == refusal_text()
        }),
{
    let ghost goal = fresh_run(tree.nodes(), cate, path@, force || consent);
    let mut walk = RemovalWalk::new(path, cate, force);
    let missing = Probe::NotDir;
    loop
        invariant_except_break
            missing == Probe::NotDir,
            walk.cate() == cate,
            walk.force() == force,
            walk.last_error() matches Some(text) ==> text == refusal_text(),
            removal_run(
                tree.nodes(),
                cate,
                force || consent,
                walk.worklist(),
                walk.looked(),
                walk.removed(),
                walk.refused(),
            ) == goal,
        ensures
            goal == (tree.nodes(), walk.looked(), walk.removed(), walk.refused()),
            walk.last_error() matches Some(text) ==> text == refusal_text(),
        decreases unseen(tree.nodes(), walk.seen()), walk.worklist().len(),
    {
        let ghost worklist = walk.worklist();
        let ghost looked = walk.looked();
        let ghost nodes = tree.nodes();
        let step = walk.next();
        proof {
            if skip_seen(worklist, looked.to_set()).len() > 0 {
                lemma_walk_step(nodes, worklist, looked);
                lemma_without_unseen(
                    nodes,
                    skip_seen(worklist, looked.to_set()).last(),
                    walk.seen(),
                );
            }
        }
        match step {
            RemovalStep::Done => {
                break ;
            },
            RemovalStep::Inspect(next) => {
                match tree.look(next.as_str()) {
                    Some(probe) => {
                        walk.inspected(probe);
                    },
                    None => {
                        walk.inspected(&missing);
                    },
                }
            },
            RemovalStep::Check(next) => {
                let is_dir = match tree.look(next.as_str()) {
                    Some(Probe::NotDir) => false,
                    Some(_) => true,
                    None => false,
                };
                proof {
                    if !is_dir {
                        assert(walk.worklist() + entry_paths(
                            probe_in(nodes, next@).entries(),
                        ) =~= walk.worklist());
                    }
                }
                let target = match walk.checked(next, is_dir) {
                    RemovalStep::Delete(target) => Some(target),
                    RemovalStep::Confirm(asked) => walk.answered(asked, consent),
                    _ => None,
                };
                match target {
                    Some(target) => {
                        let done = tree.remove_all(target.as_str());
                        walk.deleted(target, failure_of(done));
                    },
                    None => {},
                }
            },
            _ => {},
        }
    }
    walk
}

/// What a removal that failed says here.
fn failure_of(done: bool) -> (failure: Option<String>)
    ensures
        failure is None == done,
        failure matches Some(text) ==> text@ == refusal_text(),
{
    if done {
        None
    } else {
        Some(String::from_str("cannot remove"))
    }
}

/// Removes from `tree` the disposable directories of category `cate` under
/// the project root `path`, and says how many it removed. Unless `force` is
/// set, each removal waits for an answer, which here is `consent` every
/// time. A removal that fails is not counted and stops nothing.
pub fn traverse_rm(tree: &mut Tree, path: String, cate: ScanCate, force: bool, consent: bool) -> (count:
    usize)
    ensures
        ({
            let run = fresh_run(old(tree).nodes(), cate, path@, force || consent);
            &&& final(tree).nodes() == run.0
            &&& count == run.2.len()
        }),
{
    let walk = walk_tree(tree, path, cate, force, consent);
    walk.removed_count()
}

/// Removes from `tree` what is disposable under every one of `rows`, each
/// with its own category, and says what became of each row, in order: its
/// path, whether a directory under it was removed, and, where the removal of
/// a directory under it failed, what the failure said. A row under which a
/// removal fails does not stop the rows after it, and what was removed
/// before stays removed.
pub fn remove_matches(tree: &mut Tree, rows: &Vec<ScanRow>, force: bool, consent: bool) -> (outcomes:
    Vec<RemovalOutcome>)
    ensures
        ({
            let run = clear_run(old(tree).nodes(), row_views(rows@), force || consent, 0);
            &&& final(tree).nodes() == run.0
            &&& ends_of(outcomes@) == run.1
            &&& outcomes@.len() == rows@.len()
            &&& forall|i: int|
                0 <= i < outcomes@.len() ==> ((#[trigger] outcomes@[i]).error matches Some(text)
                    ==> text@ == refusal_text())
        }),
{
    let ghost views = row_views(rows@);
    let ghost start = tree.nodes();
    let ghost go = force || consent;
    let mut outcomes: Vec<RemovalOutcome> = Vec::new();
    let mut i: usize = 0;
    assert(ends_of(outcomes@) + clear_run(start, views, go, 0).1 =~= clear_run(
        start,
        views,
        go,
        0,
    ).1);
    while i < rows.len()
        invariant
            i <= rows.len(),
            outcomes@.len() == i,
            views == row_views(rows@),
            go == (force || consent),
            clear_run(tree.nodes(), views, go, i as int).0 == clear_run(start, views, go, 0).0,
            ends_of(outcomes@) + clear_run(tree.nodes(), views, go, i as int).1 == clear_run(
                start,
                views,
                go,
                0,
            ).1,
            forall|k: int|
                0 <= k < outcomes@.len() ==> ((#[trigger] outcomes@[k]).error matches Some(text)
                    ==> text@ == refusal_text()),
        decreases rows.len() - i,
    {
        assert(views[i as int] == rows@[i as int]@);
        let ghost before = ends_of(outcomes@);
        let ghost nodes = tree.nodes();
        let walk = walk_tree(tree, rows[i].path.clone(), rows[i].cate, force, consent);
        proof {
            walk.lemma_error_where_refused();
        }
        let outcome = walk.finish(rows[i].path.clone());
        outcomes.push(outcome);
        proof {
            let one = fresh_run(nodes, views[i as int].cate, views[i as int].path, go);
            let end = MatchEnd {
                path: views[i as int].path,
                removed: one.2.len() > 0,
                failed: one.3.len() > 0,
            };
            assert(ends_of(outcomes@) =~= before.push(end));
            let others = clear_run(tree.nodes(), views, go, i + 1);
            assert(clear_run(nodes, views, go, i as int).1 == seq![end] + others.1);
            assert(ends_of(outcomes@) + others.1 =~= before + (seq![end] + others.1));
        }
        i += 1;
    }
    assert(ends_of(outcomes@) + Seq::<MatchEnd>::empty() =~= ends_of(outcomes@));
    outcomes
}

/// Removes from `tree` what is disposable under every one of `rows`, and
/// says under how many of them something was removed. A row under which
/// nothing is found, or every removal fails, is not counted and does not
/// stop the rows after it.
pub fn clear_target(tree: &mut Tree, rows: &Vec<ScanRow>, force: bool, consent: bool) -> (total:
    usize)
    ensures
        ({
            let run = clear_run(old(tree).nodes(), row_views(rows@), force || consent, 0);
            &&& final(tree).nodes() == run.0
            &&& total == count_ends(run.1)
        }),
{
    let outcomes = remove_matches(tree, rows, force, consent);
    proof {
        lemma_count_ends(outcomes@);
    }
    tally(&outcomes).total_removed
}

} // verus!
