use crate::command::clear::{row_views, RowView, ScanRow};
use crate::probe::{entry_paths, Probe};
use crate::scanner::{verdict_of, ScanError, Scanner, Verdict};
use crate::size::{size_outcome, SizeError};
use crate::text::final_segment;
use crate::size_run::{get_directory_size, root_fails, size_run};
use crate::tree::{lemma_walk_step, probe_in, unseen, Node, Tree};
use crate::visited::{skip_seen, VisitedSet};
use vstd::prelude::*;

verus! {

/// The bytes under the directory `path` of `nodes`, computed on its own:
/// nothing counts as entered before.
pub open spec fn tree_size(nodes: Seq<Node>, path: Seq<char>) -> Result<u64, SizeError> {
    size_outcome(
        root_fails(nodes, path, Seq::empty()),
        size_run(nodes, seq![path], Seq::empty(), Some(0nat)).1,
    )
}

/// The run of a scan over `nodes`, from the paths still to look at, the
/// paths looked at so far and the rows found so far: the paths looked at in
/// the end and the rows found in the end. Each path is looked at once. A
/// project root gives a row with the bytes under it and is not entered; a
/// directory that is skipped, disposable or excluded gives nothing and is
/// not entered; of any other directory all entries are looked at in turn.
/// A project root whose bytes cannot be counted ends the scan with the
/// reason.
pub open spec fn scan_run(
    nodes: Seq<Node>,
    worklist: Seq<Seq<char>>,
    looked: Seq<Seq<char>>,
    rows: Seq<RowView>,
) -> Result<(Seq<Seq<char>>, Seq<RowView>), SizeError>
    decreases unseen(nodes, looked.to_set()), worklist.len(),
{
    let rest = skip_seen(worklist, looked.to_set());
    if rest.len() == 0 {
        Ok((looked, rows))
    } else {
        let path = rest.last();
        let probe = probe_in(nodes, path);
        proof {
            lemma_walk_step(nodes, worklist, looked);
        }
        match verdict_of(path, probe) {
            Verdict::Matched(cate) => match tree_size(nodes, path) {
                Ok(size) => scan_run(
                    nodes,
                    rest.drop_last(),
                    looked.push(path),
                    rows.push(RowView { path, project: final_segment(path), cate, size }),
                ),
                Err(reason) => Err(reason),
            },
            Verdict::Descend => scan_run(
                nodes,
                rest.drop_last() + entry_paths(probe.entries()),
                looked.push(path),
                rows,
            ),
            _ => scan_run(nodes, rest.drop_last(), looked.push(path), rows),
        }
    }
}

/// The rows that a scan of `nodes` from `root` finds, or why it found none:
/// the root is no directory that can be listed, or the bytes under a
/// project root could not be counted.
pub open spec fn scan_rows(nodes: Seq<Node>, root: Seq<char>) -> Result<Seq<RowView>, ScanError> {
    if !(probe_in(nodes, root) is Dir) {
        Err(ScanError::RootUnreadable)
    } else {
        match scan_run(nodes, seq![root], Seq::empty(), Seq::empty()) {
            Ok(end) => Ok(end.1),
            Err(reason) => Err(ScanError::Size(reason)),
        }
    }
}

/// Scans `tree` from `path` for project roots and measures each one.
pub fn scan_target(tree: &Tree, path: String) -> (outcome: Result<Vec<ScanRow>, ScanError>)
    ensures
        match scan_rows(tree.nodes(), path@) {
            Ok(found) => outcome matches Ok(rows) && row_views(rows@) == found,
            Err(reason) => outcome == Err::<Vec<ScanRow>, ScanError>(reason),
        },
{
    match tree.look(path.as_str()) {
        Some(Probe::Dir(_)) => {},
        _ => {
            return Err(ScanError::RootUnreadable);
        },
    }
    let ghost goal = scan_run(tree.nodes(), seq![path@], Seq::empty(), Seq::empty());
    let mut scanner = Scanner::new(path);
    let missing = Probe::NotDir;
    loop
        invariant_except_break
            missing == Probe::NotDir,
            scan_run(tree.nodes(), scanner.worklist(), scanner.looked(), scanner.found()) == goal,
        invariant
            goal == scan_run(tree.nodes(), seq![path@], Seq::empty(), Seq::empty()),
            tree.probe_at(path@) is Dir,
        ensures
            goal == Ok::<(Seq<Seq<char>>, Seq<RowView>), SizeError>(
                (scanner.looked(), scanner.found()),
            ),
        decreases unseen(tree.nodes(), scanner.seen()), scanner.worklist().len(),
    {
        let ghost worklist = scanner.worklist();
        let ghost looked = scanner.looked();
        let ghost found = scanner.found();
        match scanner.next_path() {
            None => {
                break ;
            },
            Some(next) => {
                proof {
                    lemma_walk_step(tree.nodes(), worklist, looked);
                }
                let probe = match tree.look(next.as_str()) {
                    Some(probe) => probe,
                    None => &missing,
                };
                match scanner.visit(next.as_str(), probe) {
                    Verdict::Matched(cate) => {
                        let mut visited = VisitedSet::new();
                        match get_directory_size(tree, next.as_str(), &mut visited) {
                            Ok(size) => {
                                scanner.record(next, cate, size);
                            },
                            Err(reason) => {
                                proof {
                                    assert(*probe == probe_in(tree.nodes(), next@));
                                    assert(tree_size(tree.nodes(), next@) == Err::<u64, SizeError>(
                                        reason,
                                    ));
                                    assert(scan_run(tree.nodes(), worklist, looked, found) == Err::<
                                        (Seq<Seq<char>>, Seq<RowView>),
                                        SizeError,
                                    >(reason));
                                }
                                return Err(ScanError::Size(reason));
                            },
                        }
                    },
                    _ => {},
                }
            },
        }
    }
    Ok(scanner.into_rows())
}

} // verus!
