use rmdev::command::clear::ScanRow;
use rmdev::probe::{Entry, Probe};
use rmdev::removal::{tally, RemovalOutcome, RemovalStep, RemovalWalk};
use rmdev::removal_run::{clear_target, remove_matches, traverse_rm};
use rmdev::scan_category::ScanCate;
use rmdev::scan_run::scan_target;
use rmdev::tree::Tree;

fn file(dir: &str, name: &str, len: u64) -> Entry {
    Entry { name: name.to_string(), path: format!("{}/{}", dir, name), is_dir: false, len }
}

fn sub(dir: &str, name: &str) -> Entry {
    Entry { name: name.to_string(), path: format!("{}/{}", dir, name), is_dir: true, len: 0 }
}

fn add(tree: &mut Tree, path: &str, entries: Vec<Entry>) {
    tree.add(path.to_string(), Probe::Dir(entries), false);
}

fn row(path: &str, cate: ScanCate) -> ScanRow {
    ScanRow { path: path.to_string(), project: String::new(), cate, size: 0 }
}

fn npm_project(tree: &mut Tree, root: &str, locked: bool) {
    add(tree, root, vec![file(root, "package.json", 1), sub(root, "node_modules"), sub(root, "src")]);
    let junk = format!("{}/node_modules", root);
    tree.add(junk.clone(), Probe::Dir(vec![file(&junk, "x.txt", 10)]), locked);
    let src = format!("{}/src", root);
    add(tree, &src, vec![file(&src, "index.js", 2)]);
}

fn outcome(removed: bool) -> RemovalOutcome {
    RemovalOutcome { path: "/p".to_string(), removed, error: None }
}

#[test]
fn removal_walk_forced() {
    let mut walk = RemovalWalk::new("/p".to_string(), ScanCate::Npm, true);
    let step = walk.next();
    assert!(matches!(&step, RemovalStep::Inspect(p) if p == "/p"));
    walk.inspected(&Probe::Dir(vec![sub("/p", "src"), sub("/p", "node_modules")]));
    let step = walk.next();
    assert!(matches!(&step, RemovalStep::Check(p) if p == "/p/node_modules"));
    let step = walk.checked("/p/node_modules".to_string(), true);
    assert!(matches!(&step, RemovalStep::Delete(p) if p == "/p/node_modules"));
    walk.deleted("/p/node_modules".to_string(), None);
    let step = walk.next();
    assert!(matches!(&step, RemovalStep::Inspect(p) if p == "/p/src"));
    walk.inspected(&Probe::Dir(vec![file("/p/src", "a.js", 1)]));
    let step = walk.next();
    assert!(matches!(&step, RemovalStep::Inspect(p) if p == "/p/src/a.js"));
    walk.inspected(&Probe::NotDir);
    assert!(matches!(walk.next(), RemovalStep::Done));
    assert_eq!(walk.removed_count(), 1);
    let end = walk.finish("/p".to_string());
    assert!(end.removed);
    assert_eq!(end.path, "/p");
    assert_eq!(end.error, None);
}

#[test]
fn removal_walk_asks_unless_forced() {
    let mut walk = RemovalWalk::new("/p/target".to_string(), ScanCate::Cargo, false);
    let step = walk.next();
    assert!(matches!(&step, RemovalStep::Check(p) if p == "/p/target"));
    let step = walk.checked("/p/target".to_string(), true);
    assert!(matches!(&step, RemovalStep::Confirm(p) if p == "/p/target"));
    assert_eq!(walk.answered("/p/target".to_string(), false), None);
    assert_eq!(walk.answered("/p/target".to_string(), true), Some("/p/target".to_string()));
    assert!(matches!(walk.next(), RemovalStep::Done));
    assert_eq!(walk.removed_count(), 0);
    assert!(!walk.finish("/p".to_string()).removed);
}

#[test]
fn removal_walk_passes_over_what_is_no_directory() {
    let walk = RemovalWalk::new("/p".to_string(), ScanCate::Cargo, true);
    assert!(matches!(walk.checked("/p/target".to_string(), false), RemovalStep::Pass));
    let asking = RemovalWalk::new("/p".to_string(), ScanCate::Cargo, false);
    assert!(matches!(asking.checked("/p/target".to_string(), false), RemovalStep::Pass));
}

#[test]
fn removal_walk_holds_paths_against_its_own_category() {
    let mut walk = RemovalWalk::new("/p/target".to_string(), ScanCate::Npm, true);
    assert!(matches!(walk.next(), RemovalStep::Inspect(_)));
}

#[test]
fn removal_walk_goes_by_the_name() {
    let mut walk = RemovalWalk::new("/x/targets/app".to_string(), ScanCate::Cargo, true);
    assert!(matches!(walk.next(), RemovalStep::Inspect(_)));
    walk.inspected(&Probe::Dir(vec![sub("/x/targets/app", "my-target")]));
    assert!(matches!(walk.next(), RemovalStep::Inspect(_)));
}

#[test]
fn removal_walk_keeps_the_failure() {
    let mut walk = RemovalWalk::new("/p/node_modules".to_string(), ScanCate::Npm, true);
    assert!(matches!(walk.next(), RemovalStep::Check(_)));
    walk.deleted("/p/node_modules".to_string(), Some("permission denied".to_string()));
    assert_eq!(walk.removed_count(), 0);
    let end = walk.finish("/p".to_string());
    assert!(!end.removed);
    assert_eq!(end.error, Some("permission denied".to_string()));
}

#[test]
fn removal_walk_keeps_the_last_failure_beside_a_removal() {
    let mut walk = RemovalWalk::new("/p".to_string(), ScanCate::Npm, true);
    walk.deleted("/p/a/node_modules".to_string(), Some("first".to_string()));
    walk.deleted("/p/b/node_modules".to_string(), None);
    walk.deleted("/p/c/node_modules".to_string(), Some("second".to_string()));
    assert_eq!(walk.removed_count(), 1);
    let end = walk.finish("/p".to_string());
    assert!(end.removed);
    assert_eq!(end.error, Some("second".to_string()));
}

#[test]
fn tally_counts_matches_not_directories() {
    assert_eq!(tally(&vec![]).total_removed, 0);
    assert_eq!(tally(&vec![outcome(true), outcome(false), outcome(true)]).total_removed, 2);
    assert_eq!(tally(&vec![outcome(false)]).total_removed, 0);
}

#[test]
fn traverse_removes_every_junk_directory_below() {
    let mut tree = Tree::new();
    add(&mut tree, "/p", vec![sub("/p", "a"), sub("/p", "b")]);
    add(&mut tree, "/p/a", vec![sub("/p/a", "node_modules")]);
    add(&mut tree, "/p/a/node_modules", vec![sub("/p/a/node_modules", "node_modules")]);
    add(&mut tree, "/p/a/node_modules/node_modules", vec![]);
    add(&mut tree, "/p/b", vec![sub("/p/b", "node_modules"), sub("/p/b", "target")]);
    add(&mut tree, "/p/b/node_modules", vec![]);
    add(&mut tree, "/p/b/target", vec![]);
    assert_eq!(traverse_rm(&mut tree, "/p".to_string(), ScanCate::Npm, true, false), 2);
    assert!(tree.look("/p/a/node_modules").is_none());
    assert!(tree.look("/p/a/node_modules/node_modules").is_none());
    assert!(tree.look("/p/b/node_modules").is_none());
    assert!(tree.look("/p/b/target").is_some());
    assert!(tree.look("/p/a").is_some());
}

#[test]
fn traverse_waits_for_consent() {
    let mut tree = Tree::new();
    npm_project(&mut tree, "/p", false);
    assert_eq!(traverse_rm(&mut tree, "/p".to_string(), ScanCate::Npm, false, false), 0);
    assert!(tree.look("/p/node_modules").is_some());
    assert_eq!(traverse_rm(&mut tree, "/p".to_string(), ScanCate::Npm, false, true), 1);
    assert!(tree.look("/p/node_modules").is_none());
}

#[test]
fn idempotent_removal() {
    let mut tree = Tree::new();
    add(&mut tree, "/r", vec![sub("/r", "one"), sub("/r", "two")]);
    npm_project(&mut tree, "/r/one", false);
    npm_project(&mut tree, "/r/two", false);
    let rows = vec![row("/r/one", ScanCate::Npm), row("/r/two", ScanCate::Npm)];
    assert_eq!(clear_target(&mut tree, &rows, true, false), 2);
    assert!(tree.look("/r/one/node_modules").is_none());
    assert_eq!(clear_target(&mut tree, &rows, true, false), 0);
    assert!(tree.look("/r/one/src").is_some());
}

#[test]
fn partial_failure_tolerance() {
    let mut tree = Tree::new();
    npm_project(&mut tree, "/r/first", false);
    npm_project(&mut tree, "/r/second", true);
    npm_project(&mut tree, "/r/third", false);
    let rows = vec![
        row("/r/first", ScanCate::Npm),
        row("/r/second", ScanCate::Npm),
        row("/r/third", ScanCate::Npm),
    ];
    assert_eq!(clear_target(&mut tree, &rows, true, false), 2);
    assert!(tree.look("/r/first/node_modules").is_none());
    assert!(tree.look("/r/second/node_modules").is_some());
    assert!(tree.look("/r/third/node_modules").is_none());
}

#[test]
fn end_to_end() {
    let mut tree = Tree::new();
    add(&mut tree, "/root", vec![sub("/root", "a"), sub("/root", "b")]);
    add(&mut tree, "/root/a", vec![file("/root/a", "package.json", 0), sub("/root/a", "node_modules")]);
    add(&mut tree, "/root/a/node_modules", vec![file("/root/a/node_modules", "x.txt", 10)]);
    add(&mut tree, "/root/b", vec![file("/root/b", "Cargo.toml", 0), sub("/root/b", "target")]);
    add(&mut tree, "/root/b/target", vec![file("/root/b/target", "y.bin", 20)]);
    let rows = scan_target(&tree, "/root".to_string()).unwrap();
    let mut seen: Vec<(String, ScanCate, u64)> =
        rows.iter().map(|r| (r.path.clone(), r.cate, r.size)).collect();
    seen.sort_by(|x, y| x.0.cmp(&y.0));
    assert_eq!(
        seen,
        vec![
            ("/root/a".to_string(), ScanCate::Npm, 10),
            ("/root/b".to_string(), ScanCate::Cargo, 20),
        ]
    );
    assert_eq!(clear_target(&mut tree, &rows, true, false), 2);
    assert!(tree.look("/root/a/node_modules").is_none());
    assert!(tree.look("/root/b/target").is_none());
    assert!(tree.look("/root/a").is_some());
    assert!(tree.look("/root/b").is_some());
}

#[test]
fn end_to_end_counts_the_whole_project_root() {
    let mut tree = Tree::new();
    add(&mut tree, "/root", vec![sub("/root", "a")]);
    add(&mut tree, "/root/a", vec![file("/root/a", "package.json", 7), sub("/root/a", "node_modules")]);
    add(&mut tree, "/root/a/node_modules", vec![file("/root/a/node_modules", "x.txt", 10)]);
    let rows = scan_target(&tree, "/root".to_string()).unwrap();
    assert_eq!(rows.len(), 1);
    assert_eq!(rows[0].size, 17);
    assert_eq!(rows[0].project, "a");
}

#[test]
fn tree_removal_forgets_what_lies_below() {
    let mut tree = Tree::new();
    add(&mut tree, "/a", vec![]);
    add(&mut tree, "/a/b", vec![]);
    add(&mut tree, "/ab", vec![]);
    assert!(tree.removable("/a"));
    assert!(!tree.removable("/zzz"));
    assert!(!tree.remove_all("/zzz"));
    assert!(tree.remove_all("/a"));
    assert!(tree.look("/a").is_none());
    assert!(tree.look("/a/b").is_none());
    assert!(tree.look("/ab").is_some());
    assert!(!tree.remove_all("/a"));
}

#[test]
fn match_without_junk_is_not_counted() {
    let mut tree = Tree::new();
    add(&mut tree, "/r/bare", vec![file("/r/bare", "package.json", 1), sub("/r/bare", "src")]);
    add(&mut tree, "/r/bare/src", vec![]);
    npm_project(&mut tree, "/r/full", false);
    let rows = vec![row("/r/bare", ScanCate::Npm), row("/r/full", ScanCate::Npm)];
    assert_eq!(clear_target(&mut tree, &rows, true, false), 1);
    assert!(tree.look("/r/bare/src").is_some());
}

#[test]
fn match_counts_once_whatever_was_removed_under_it() {
    let mut tree = Tree::new();
    add(&mut tree, "/p", vec![sub("/p", "a"), sub("/p", "b")]);
    add(&mut tree, "/p/a", vec![sub("/p/a", "target")]);
    add(&mut tree, "/p/a/target", vec![]);
    add(&mut tree, "/p/b", vec![sub("/p/b", "target")]);
    add(&mut tree, "/p/b/target", vec![]);
    assert_eq!(clear_target(&mut tree, &vec![row("/p", ScanCate::Cargo)], true, false), 1);
    assert!(tree.look("/p/a/target").is_none());
    assert!(tree.look("/p/b/target").is_none());
}

#[test]
fn second_run_over_both_categories_removes_nothing() {
    let mut tree = Tree::new();
    add(&mut tree, "/root", vec![sub("/root", "a"), sub("/root", "b")]);
    add(&mut tree, "/root/a", vec![file("/root/a", "package.json", 0), sub("/root/a", "node_modules")]);
    add(&mut tree, "/root/a/node_modules", vec![file("/root/a/node_modules", "x.txt", 10)]);
    add(&mut tree, "/root/b", vec![file("/root/b", "Cargo.toml", 0), sub("/root/b", "target")]);
    add(&mut tree, "/root/b/target", vec![file("/root/b/target", "y.bin", 20)]);
    let rows = scan_target(&tree, "/root".to_string()).unwrap();
    assert_eq!(clear_target(&mut tree, &rows, true, false), 2);
    assert_eq!(clear_target(&mut tree, &rows, true, false), 0);
}

#[test]
fn traverse_leaves_a_project_below_a_directory_named_alike() {
    let mut tree = Tree::new();
    add(&mut tree, "/x/targets/app", vec![sub("/x/targets/app", "src"), sub("/x/targets/app", "target")]);
    add(&mut tree, "/x/targets/app/src", vec![sub("/x/targets/app/src", "targets")]);
    add(&mut tree, "/x/targets/app/src/targets", vec![]);
    add(&mut tree, "/x/targets/app/target", vec![]);
    assert_eq!(traverse_rm(&mut tree, "/x/targets/app".to_string(), ScanCate::Cargo, true, false), 1);
    assert!(tree.look("/x/targets/app").is_some());
    assert!(tree.look("/x/targets/app/src").is_some());
    assert!(tree.look("/x/targets/app/src/targets").is_some());
    assert!(tree.look("/x/targets/app/target").is_none());
}

#[test]
fn traverse_removes_nothing_where_only_the_text_occurs() {
    let mut tree = Tree::new();
    add(&mut tree, "/x/targets/app", vec![sub("/x/targets/app", "src")]);
    add(&mut tree, "/x/targets/app/src", vec![]);
    assert_eq!(traverse_rm(&mut tree, "/x/targets/app".to_string(), ScanCate::Cargo, true, false), 0);
    assert!(tree.look("/x/targets/app").is_some());
    assert!(tree.look("/x/targets/app/src").is_some());
}

#[test]
fn traverse_passes_over_a_file_with_the_name() {
    let mut tree = Tree::new();
    add(&mut tree, "/p", vec![file("/p", "target", 5)]);
    let rows = vec![row("/p", ScanCate::Cargo)];
    let outcomes = remove_matches(&mut tree, &rows, true, false);
    assert_eq!(outcomes.len(), 1);
    assert!(!outcomes[0].removed);
    assert_eq!(outcomes[0].error, None);
}

#[test]
fn outcomes_name_the_row_under_which_a_removal_failed() {
    let mut tree = Tree::new();
    npm_project(&mut tree, "/r/first", false);
    npm_project(&mut tree, "/r/second", true);
    npm_project(&mut tree, "/r/third", false);
    let rows = vec![
        row("/r/first", ScanCate::Npm),
        row("/r/second", ScanCate::Npm),
        row("/r/third", ScanCate::Npm),
    ];
    let outcomes = remove_matches(&mut tree, &rows, true, false);
    let seen: Vec<(String, bool, Option<String>)> =
        outcomes.into_iter().map(|o| (o.path, o.removed, o.error)).collect();
    assert_eq!(
        seen,
        vec![
            ("/r/first".to_string(), true, None),
            ("/r/second".to_string(), false, Some("cannot remove".to_string())),
            ("/r/third".to_string(), true, None),
        ]
    );
    assert!(tree.look("/r/first/node_modules").is_none());
    assert!(tree.look("/r/second/node_modules").is_some());
    assert!(tree.look("/r/third/node_modules").is_none());
}

#[test]
fn outcomes_of_a_second_run_report_nothing() {
    let mut tree = Tree::new();
    npm_project(&mut tree, "/r/one", false);
    let rows = vec![row("/r/one", ScanCate::Npm)];
    assert!(remove_matches(&mut tree, &rows, true, false)[0].removed);
    let again = remove_matches(&mut tree, &rows, true, false);
    assert!(!again[0].removed);
    assert_eq!(again[0].error, None);
}

#[test]
fn outcomes_without_consent_report_nothing() {
    let mut tree = Tree::new();
    npm_project(&mut tree, "/r/one", true);
    let rows = vec![row("/r/one", ScanCate::Npm)];
    let outcomes = remove_matches(&mut tree, &rows, false, false);
    assert!(!outcomes[0].removed);
    assert_eq!(outcomes[0].error, None);
}
