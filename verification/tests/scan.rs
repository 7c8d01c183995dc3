use rmdev::command::clear::ScanRow;
use rmdev::probe::{Entry, Probe};
use rmdev::scan_category::ScanCate;
use rmdev::scan_run::scan_target;
use rmdev::scanner::{classify, ScanError, Scanner, Verdict};
use rmdev::size::SizeError;
use rmdev::tree::Tree;

fn file(dir: &str, name: &str, len: u64) -> Entry {
    Entry { name: name.to_string(), path: format!("{}/{}", dir, name), is_dir: false, len }
}

fn sub(dir: &str, name: &str) -> Entry {
    Entry { name: name.to_string(), path: format!("{}/{}", dir, name), is_dir: true, len: 0 }
}

fn add(tree: &mut Tree, path: &str, entries: Vec<Entry>) {
    tree.add(path.to_string(), Probe::Dir(entries), false);
}

fn found(rows: &[ScanRow]) -> Vec<(String, String, ScanCate, u64)> {
    let mut all: Vec<(String, String, ScanCate, u64)> =
        rows.iter().map(|r| (r.path.clone(), r.project.clone(), r.cate, r.size)).collect();
    all.sort_by(|a, b| a.0.cmp(&b.0));
    all
}

#[test]
fn verdict_not_a_directory() {
    assert_eq!(classify("/r/file", &Probe::NotDir), Verdict::NotDir);
}

#[test]
fn verdict_skip_file_comes_first() {
    let probe = Probe::Dir(vec![file("/r/p", "package.json", 1), file("/r/p", "rmdev.skip", 0)]);
    assert_eq!(classify("/r/p", &probe), Verdict::Skipped);
}

#[test]
fn verdict_project_root_by_registry_order() {
    let both = Probe::Dir(vec![file("/r/p", "Cargo.toml", 1), file("/r/p", "package.json", 1)]);
    assert_eq!(classify("/r/p", &both), Verdict::Matched(ScanCate::Npm));
    let cargo = Probe::Dir(vec![file("/r/p", "Cargo.toml", 1)]);
    assert_eq!(classify("/r/p", &cargo), Verdict::Matched(ScanCate::Cargo));
}

#[test]
fn verdict_project_root_comes_before_disposable() {
    let probe = Probe::Dir(vec![file("/r/target", "Cargo.toml", 1)]);
    assert_eq!(classify("/r/target", &probe), Verdict::Matched(ScanCate::Cargo));
}

#[test]
fn verdict_stray_junk_is_pruned() {
    assert_eq!(classify("/r/x/target", &Probe::Dir(vec![])), Verdict::Disposable);
    assert_eq!(classify("/r/node_modules", &Probe::Dir(vec![])), Verdict::Disposable);
    assert_eq!(classify("/r/x/target", &Probe::Unreadable), Verdict::Disposable);
}

#[test]
fn verdict_goes_by_the_name_of_the_directory() {
    let listing = Probe::Dir(vec![sub("/r/targets", "app")]);
    assert_eq!(classify("/r/targets", &listing), Verdict::Descend);
    assert_eq!(classify("/r/node_modules/deep", &Probe::Dir(vec![])), Verdict::Descend);
    assert_eq!(classify("/r/my-target", &Probe::Dir(vec![])), Verdict::Descend);
}

#[test]
fn scan_finds_a_project_below_a_directory_named_alike() {
    let mut tree = Tree::new();
    add(&mut tree, "/r", vec![sub("/r", "targets")]);
    add(&mut tree, "/r/targets", vec![sub("/r/targets", "app")]);
    add(&mut tree, "/r/targets/app", vec![file("/r/targets/app", "Cargo.toml", 3)]);
    let rows = scan_target(&tree, "/r".to_string()).unwrap();
    assert_eq!(
        found(&rows),
        vec![("/r/targets/app".to_string(), "app".to_string(), ScanCate::Cargo, 3)]
    );
}

#[test]
fn verdict_git_is_excluded() {
    assert_eq!(classify("/r/.git", &Probe::Dir(vec![sub("/r/.git", "objects")])), Verdict::Excluded);
    assert_eq!(classify("/r/.git/", &Probe::Dir(vec![])), Verdict::Excluded);
    assert_eq!(classify("/r/.github", &Probe::Dir(vec![])), Verdict::Descend);
}

#[test]
fn verdict_plain_directory_descends() {
    assert_eq!(classify("/r/src", &Probe::Dir(vec![file("/r/src", "main.rs", 3)])), Verdict::Descend);
    assert_eq!(classify("/r/src", &Probe::Unreadable), Verdict::Descend);
}

#[test]
fn scanner_steps_by_hand() {
    let mut scanner = Scanner::new("/r".to_string());
    assert!(!scanner.is_done());
    let root = scanner.next_path().unwrap();
    assert_eq!(root, "/r");
    let listing = Probe::Dir(vec![sub("/r", "a"), sub("/r", "b"), file("/r", "notes", 1)]);
    assert_eq!(scanner.visit(&root, &listing), Verdict::Descend);
    // last pushed, first looked at
    assert_eq!(scanner.next_path().unwrap(), "/r/notes");
    assert_eq!(scanner.visit("/r/notes", &Probe::NotDir), Verdict::NotDir);
    let b = scanner.next_path().unwrap();
    assert_eq!(b, "/r/b");
    let hit = Probe::Dir(vec![file("/r/b", "Cargo.toml", 4)]);
    assert_eq!(scanner.visit(&b, &hit), Verdict::Matched(ScanCate::Cargo));
    scanner.record(b, ScanCate::Cargo, 44);
    assert_eq!(scanner.next_path().unwrap(), "/r/a");
    assert_eq!(scanner.visit("/r/a", &Probe::Unreadable), Verdict::Descend);
    assert!(scanner.next_path().is_none());
    assert!(scanner.is_done());
    let rows = scanner.into_rows();
    assert_eq!(found(&rows), vec![("/r/b".to_string(), "b".to_string(), ScanCate::Cargo, 44)]);
}

#[test]
fn scanner_looks_at_no_path_twice() {
    let mut scanner = Scanner::new("/r".to_string());
    let root = scanner.next_path().unwrap();
    let listing = Probe::Dir(vec![sub("/r", "a"), sub("/r", "a"), sub("/r", "/r")]);
    let again = Entry { name: "loop".to_string(), path: "/r".to_string(), is_dir: true, len: 0 };
    assert_eq!(scanner.visit(&root, &listing), Verdict::Descend);
    assert_eq!(scanner.next_path().unwrap(), "/r//r");
    assert_eq!(scanner.visit("/r//r", &Probe::Dir(vec![again])), Verdict::Descend);
    assert_eq!(scanner.next_path().unwrap(), "/r/a");
    assert!(scanner.next_path().is_none());
}

#[test]
fn pruning_correctness() {
    let mut tree = Tree::new();
    add(&mut tree, "/r", vec![sub("/r", "proj")]);
    add(
        &mut tree,
        "/r/proj",
        vec![file("/r/proj", "package.json", 2), sub("/r/proj", "node_modules")],
    );
    add(&mut tree, "/r/proj/node_modules", vec![sub("/r/proj/node_modules", "deep")]);
    add(
        &mut tree,
        "/r/proj/node_modules/deep",
        vec![
            sub("/r/proj/node_modules/deep", "nested"),
            file("/r/proj/node_modules/deep", "package.json", 3),
        ],
    );
    add(
        &mut tree,
        "/r/proj/node_modules/deep/nested",
        vec![file("/r/proj/node_modules/deep/nested", "package.json", 4)],
    );
    let rows = scan_target(&tree, "/r".to_string()).unwrap();
    assert_eq!(found(&rows), vec![("/r/proj".to_string(), "proj".to_string(), ScanCate::Npm, 9)]);
}

#[test]
fn skip_sentinel() {
    let mut tree = Tree::new();
    add(&mut tree, "/r", vec![sub("/r", "proj")]);
    add(
        &mut tree,
        "/r/proj",
        vec![
            file("/r/proj", "package.json", 2),
            file("/r/proj", "rmdev.skip", 0),
            sub("/r/proj", "inner"),
        ],
    );
    add(&mut tree, "/r/proj/inner", vec![file("/r/proj/inner", "Cargo.toml", 1)]);
    let rows = scan_target(&tree, "/r".to_string()).unwrap();
    assert!(rows.is_empty());
}

#[test]
fn scan_does_not_enter_git_or_stray_junk() {
    let mut tree = Tree::new();
    add(&mut tree, "/r", vec![sub("/r", ".git"), sub("/r", "target"), sub("/r", "ok")]);
    add(&mut tree, "/r/.git", vec![sub("/r/.git", "p")]);
    add(&mut tree, "/r/.git/p", vec![file("/r/.git/p", "package.json", 1)]);
    add(&mut tree, "/r/target", vec![sub("/r/target", "q")]);
    add(&mut tree, "/r/target/q", vec![file("/r/target/q", "package.json", 1)]);
    add(&mut tree, "/r/ok", vec![file("/r/ok", "Cargo.toml", 6)]);
    let rows = scan_target(&tree, "/r".to_string()).unwrap();
    assert_eq!(found(&rows), vec![("/r/ok".to_string(), "ok".to_string(), ScanCate::Cargo, 6)]);
}

#[test]
fn scan_fails_at_a_root_that_is_no_directory() {
    let mut tree = Tree::new();
    assert_eq!(scan_target(&tree, "/nowhere".to_string()).err(), Some(ScanError::RootUnreadable));
    tree.add("/closed".to_string(), Probe::Unreadable, false);
    assert_eq!(scan_target(&tree, "/closed".to_string()).err(), Some(ScanError::RootUnreadable));
}

#[test]
fn scanner_flags_the_failure_of_its_root_only() {
    let mut scanner = Scanner::new("/r".to_string());
    let root = scanner.next_path().unwrap();
    assert!(!scanner.root_failed());
    scanner.visit(&root, &Probe::Dir(vec![sub("/r", "a")]));
    let a = scanner.next_path().unwrap();
    scanner.visit(&a, &Probe::Unreadable);
    assert!(!scanner.root_failed());
    let mut other = Scanner::new("/gone".to_string());
    let gone = other.next_path().unwrap();
    other.visit(&gone, &Probe::NotDir);
    assert!(other.root_failed());
}

#[test]
fn scan_swallows_an_unreadable_directory() {
    let mut tree = Tree::new();
    add(&mut tree, "/r", vec![sub("/r", "locked"), sub("/r", "p")]);
    tree.add("/r/locked".to_string(), Probe::Unreadable, false);
    add(&mut tree, "/r/p", vec![file("/r/p", "package.json", 8)]);
    let rows = scan_target(&tree, "/r".to_string()).unwrap();
    assert_eq!(found(&rows), vec![("/r/p".to_string(), "p".to_string(), ScanCate::Npm, 8)]);
}

#[test]
fn scan_ends_on_a_size_that_does_not_fit() {
    let mut tree = Tree::new();
    add(
        &mut tree,
        "/r",
        vec![file("/r", "package.json", u64::MAX), file("/r", "more", 1)],
    );
    assert_eq!(
        scan_target(&tree, "/r".to_string()).err(),
        Some(ScanError::Size(SizeError::Overflow))
    );
}

#[test]
fn scan_terminates_on_a_cycle() {
    let mut tree = Tree::new();
    let back = Entry { name: "back".to_string(), path: "/r".to_string(), is_dir: true, len: 0 };
    add(&mut tree, "/r", vec![sub("/r", "a")]);
    add(&mut tree, "/r/a", vec![back]);
    let rows = scan_target(&tree, "/r".to_string()).unwrap();
    assert!(rows.is_empty());
}
