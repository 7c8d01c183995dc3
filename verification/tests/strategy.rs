use rmdev::scan_category::{find_disposable, find_matching, strategies, ScanCate};

fn names(list: &[&str]) -> Vec<String> {
    list.iter().map(|s| s.to_string()).collect()
}

#[test]
fn registry_is_npm_then_cargo() {
    assert_eq!(strategies(), vec![ScanCate::Npm, ScanCate::Cargo]);
}

#[test]
fn first_matching_category_wins() {
    assert_eq!(find_matching(&names(&["Cargo.toml", "package.json"])), Some(ScanCate::Npm));
    assert_eq!(find_matching(&names(&["Cargo.toml", "src"])), Some(ScanCate::Cargo));
    assert_eq!(find_matching(&names(&["README.md"])), None);
    assert_eq!(find_matching(&names(&[])), None);
}

#[test]
fn disposable_goes_by_the_name() {
    assert_eq!(find_disposable("/r/proj/node_modules"), Some(ScanCate::Npm));
    assert_eq!(find_disposable("/r/proj/target"), Some(ScanCate::Cargo));
    assert_eq!(find_disposable("/r/proj/target/"), Some(ScanCate::Cargo));
    assert_eq!(find_disposable("target"), Some(ScanCate::Cargo));
    assert_eq!(find_disposable("/r/proj/src"), None);
    assert!(ScanCate::Cargo.rm_keyfile("/r/target"));
    assert!(!ScanCate::Npm.rm_keyfile("/r/target"));
    assert!(ScanCate::Npm.rm_keyfile("/r/node_modules"));
}

#[test]
fn disposable_is_no_test_on_the_text_of_the_path() {
    assert!(!ScanCate::Cargo.rm_keyfile("/r/targets/app"));
    assert!(!ScanCate::Cargo.rm_keyfile("/r/targets"));
    assert!(!ScanCate::Cargo.rm_keyfile("/r/target/debug"));
    assert!(!ScanCate::Cargo.rm_keyfile("/r/src/my-target"));
    assert!(!ScanCate::Npm.rm_keyfile("/r/node_modules/lodash"));
    assert!(!ScanCate::Npm.rm_keyfile("/r/node_modules.bak"));
    assert_eq!(find_disposable("/r/proj/target/debug"), None);
    assert_eq!(find_disposable(""), None);
}

#[test]
fn idents_are_stable() {
    assert_eq!(ScanCate::Npm.ident(), "NPM");
    assert_eq!(ScanCate::Cargo.ident(), "Cargo");
    assert_eq!(ScanCate::Npm.keyfile(), "package.json");
    assert_eq!(ScanCate::Cargo.junk_dir(), "target");
}
