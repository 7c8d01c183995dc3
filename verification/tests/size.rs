use rmdev::probe::{Entry, Probe};
use rmdev::size::{SizeError, SizeWalk};
use rmdev::size_run::get_directory_size;
use rmdev::tree::Tree;
use rmdev::visited::VisitedSet;

fn file(dir: &str, name: &str, len: u64) -> Entry {
    Entry { name: name.to_string(), path: format!("{}/{}", dir, name), is_dir: false, len }
}

fn sub(dir: &str, name: &str) -> Entry {
    Entry { name: name.to_string(), path: format!("{}/{}", dir, name), is_dir: true, len: 0 }
}

fn link(name: &str, to: &str) -> Entry {
    Entry { name: name.to_string(), path: to.to_string(), is_dir: true, len: 0 }
}

fn add(tree: &mut Tree, path: &str, entries: Vec<Entry>) {
    tree.add(path.to_string(), Probe::Dir(entries), false);
}

#[test]
fn visited_set_is_test_and_set() {
    let mut visited = VisitedSet::new();
    assert_eq!(visited.len(), 0);
    assert!(!visited.contains("/a"));
    assert!(visited.insert("/a"));
    assert!(visited.contains("/a"));
    assert!(!visited.insert("/a"));
    assert!(visited.insert("/b"));
    assert_eq!(visited.len(), 2);
}

#[test]
fn size_of_a_plain_tree() {
    let mut tree = Tree::new();
    add(&mut tree, "/r", vec![file("/r", "a", 1), sub("/r", "d"), file("/r", "b", 2)]);
    add(&mut tree, "/r/d", vec![file("/r/d", "c", 30), sub("/r/d", "e")]);
    add(&mut tree, "/r/d/e", vec![file("/r/d/e", "f", 400)]);
    let mut visited = VisitedSet::new();
    assert_eq!(get_directory_size(&tree, "/r", &mut visited), Ok(433));
    assert_eq!(visited.len(), 3);
}

#[test]
fn cycle_safety() {
    let mut tree = Tree::new();
    add(&mut tree, "/r", vec![file("/r", "a", 5), sub("/r", "d")]);
    add(&mut tree, "/r/d", vec![file("/r/d", "b", 7), link("up", "/r"), link("self", "/r/d")]);
    let mut visited = VisitedSet::new();
    assert_eq!(get_directory_size(&tree, "/r", &mut visited), Ok(12));
    assert_eq!(visited.len(), 2);
}

#[test]
fn no_double_counting() {
    // one directory reached by two ways
    let mut tree = Tree::new();
    add(&mut tree, "/r", vec![sub("/r", "x"), sub("/r", "y")]);
    add(&mut tree, "/r/x", vec![link("shared", "/s"), file("/r/x", "a", 1)]);
    add(&mut tree, "/r/y", vec![link("shared", "/s"), file("/r/y", "b", 2)]);
    add(&mut tree, "/s", vec![file("/s", "big", 100)]);
    let mut visited = VisitedSet::new();
    assert_eq!(get_directory_size(&tree, "/r", &mut visited), Ok(103));
    // as many entered as there are distinct directories under the root
    assert_eq!(visited.len(), 4);
    assert!(visited.contains("/r") && visited.contains("/r/x"));
    assert!(visited.contains("/r/y") && visited.contains("/s"));
}

#[test]
fn size_of_a_directory_entered_before_is_zero() {
    let mut tree = Tree::new();
    add(&mut tree, "/r", vec![file("/r", "a", 5)]);
    let mut visited = VisitedSet::new();
    assert_eq!(get_directory_size(&tree, "/r", &mut visited), Ok(5));
    assert_eq!(get_directory_size(&tree, "/r", &mut visited), Ok(0));
    assert_eq!(visited.len(), 1);
}

#[test]
fn size_fails_only_at_the_root() {
    let mut tree = Tree::new();
    add(&mut tree, "/r", vec![file("/r", "a", 5), sub("/r", "closed"), sub("/r", "gone")]);
    tree.add("/r/closed".to_string(), Probe::Unreadable, false);
    let mut visited = VisitedSet::new();
    assert_eq!(get_directory_size(&tree, "/r", &mut visited), Ok(5));
    let mut fresh = VisitedSet::new();
    assert_eq!(
        get_directory_size(&tree, "/r/closed", &mut fresh),
        Err(SizeError::RootUnreadable)
    );
    let mut other = VisitedSet::new();
    assert_eq!(get_directory_size(&tree, "/missing", &mut other), Err(SizeError::RootUnreadable));
}

#[test]
fn size_that_does_not_fit() {
    let mut tree = Tree::new();
    add(&mut tree, "/r", vec![file("/r", "a", u64::MAX - 1), sub("/r", "d")]);
    add(&mut tree, "/r/d", vec![file("/r/d", "b", 1)]);
    let mut visited = VisitedSet::new();
    assert_eq!(get_directory_size(&tree, "/r", &mut visited), Ok(u64::MAX));
    add(&mut tree, "/r/d", vec![file("/r/d", "b", 2)]);
    let mut again = VisitedSet::new();
    assert_eq!(get_directory_size(&tree, "/r", &mut again), Err(SizeError::Overflow));
}

#[test]
fn size_walk_by_hand() {
    let mut visited = VisitedSet::new();
    let mut walk = SizeWalk::new("/r".to_string());
    let root = walk.next_dir(&mut visited).unwrap();
    assert_eq!(root, "/r");
    walk.absorb(&Probe::Dir(vec![file("/r", "a", 3), sub("/r", "d"), link("again", "/r")]));
    // the link back to the root is passed over
    assert_eq!(walk.next_dir(&mut visited).unwrap(), "/r/d");
    walk.absorb(&Probe::Unreadable);
    assert!(walk.next_dir(&mut visited).is_none());
    assert_eq!(walk.finish(), Ok(3));
    assert_eq!(visited.len(), 2);
}

#[test]
fn size_walk_root_not_listed() {
    let mut visited = VisitedSet::new();
    let mut walk = SizeWalk::new("/r".to_string());
    assert!(walk.next_dir(&mut visited).is_some());
    walk.absorb(&Probe::NotDir);
    assert!(walk.next_dir(&mut visited).is_none());
    assert_eq!(walk.finish(), Err(SizeError::RootUnreadable));
}
