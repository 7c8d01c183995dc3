use crate::text::{file_name, final_segment, same_text, views};
use vstd::prelude::*;

verus! {

/// The kinds of project that are recognised, each by a marker file in the
/// project's root and by the directory that holds what can be thrown away.
#[derive(Debug, Clone, Copy, PartialEq, Eq, Structural)]
pub enum ScanCate {
    Npm,
    Cargo,
}

/// The name of the file that marks a directory as holding nothing to look at.
pub open spec fn skip_file() -> Seq<char> {
    "rmdev.skip"@
}

/// The registry: every category, in the order in which they are tried.
pub open spec fn registry() -> Seq<ScanCate> {
    seq![ScanCate::Npm, ScanCate::Cargo]
}

/// `names` holds `name`.
pub open spec fn has_name(names: Seq<Seq<char>>, name: Seq<char>) -> bool {
    exists|i: int| 0 <= i < names.len() && #[trigger] names[i] == name
}

/// The first category of `cates`, from position `from` on, whose marker file
/// is among `names`.
pub open spec fn first_root(cates: Seq<ScanCate>, names: Seq<Seq<char>>, from: int) -> Option<
    ScanCate,
>
    decreases cates.len() - from,
{
    if from < 0 || from >= cates.len() {
        None
    } else if cates[from].is_project_root(names) {
        Some(cates[from])
    } else {
        first_root(cates, names, from + 1)
    }
}

/// The first category of `cates`, from position `from` on, for which `path`
/// is disposable.
pub open spec fn first_disposable(cates: Seq<ScanCate>, path: Seq<char>, from: int) -> Option<
    ScanCate,
>
    decreases cates.len() - from,
{
    if from < 0 || from >= cates.len() {
        None
    } else if cates[from].is_disposable(path) {
        Some(cates[from])
    } else {
        first_disposable(cates, path, from + 1)
    }
}

impl ScanCate {
    /// The marker file of this category.
    pub open spec fn keyfile_name(self) -> Seq<char> {
        match self {
            ScanCate::Npm => "package.json"@,
            ScanCate::Cargo => "Cargo.toml"@,
        }
    }

    /// The directory name under which this category keeps what it can rebuild.
    pub open spec fn junk_name(self) -> Seq<char> {
        match self {
            ScanCate::Npm => "node_modules"@,
            ScanCate::Cargo => "target"@,
        }
    }

    /// The display name of this category.
    pub open spec fn ident_name(self) -> Seq<char> {
        match self {
            ScanCate::Npm => "NPM"@,
            ScanCate::Cargo => "Cargo"@,
        }
    }

    /// A directory whose entries are named `names` is a project root of this
    /// category: the marker file is among them.
    pub open spec fn is_project_root(self, names: Seq<Seq<char>>) -> bool {
        has_name(names, self.keyfile_name())
    }

    /// `path` is disposable for this category: its name, the final segment
    /// of the path, is the junk directory's name.
    pub open spec fn is_disposable(self, path: Seq<char>) -> bool {
        final_segment(path) == self.junk_name()
    }

    /// The marker file of this category.
    pub fn keyfile(&self) -> (name: &'static str)
        ensures
            name@ == self.keyfile_name(),
    {
        match self {
            ScanCate::Npm => "package.json",
            ScanCate::Cargo => "Cargo.toml",
        }
    }

    /// The junk directory's name of this category.
    pub fn junk_dir(&self) -> (name: &'static str)
        ensures
            name@ == self.junk_name(),
    {
        match self {
            ScanCate::Npm => "node_modules",
            ScanCate::Cargo => "target",
        }
    }

    /// Whether a directory with the entries `names` holds this category's
    /// marker file.
    pub fn access_keyfile(&self, names: &Vec<String>) -> (found: bool)
        ensures
            found == self.is_project_root(views(names@)),
    {
        holds_name(names, self.keyfile())
    }

    /// Whether `path` is disposable for this category.
    pub fn rm_keyfile(&self, path: &str) -> (hit: bool)
        ensures
            hit == self.is_disposable(path@),
    {
        let name = file_name(path);
        same_text(name.as_str(), self.junk_dir())
    }

    /// The display name of this category.
    pub fn ident(&self) -> (name: String)
        ensures
            name@ == self.ident_name(),
    {
        match self {
            ScanCate::Npm => String::from_str("NPM"),
            ScanCate::Cargo => String::from_str("Cargo"),
        }
    }
}

/// Whether `name` is among `names`.
pub fn holds_name(names: &Vec<String>, name: &str) -> (found: bool)
    ensures
        found == has_name(views(names@), name@),
{
    let mut i: usize = 0;
    while i < names.len()
        invariant
            i <= names.len(),
            forall|j: int| 0 <= j < i ==> views(names@)[j] != name@,
        decreases names.len() - i,
    {
        if same_text(names[i].as_str(), name) {
            assert(views(names@)[i as int] == name@);
            return true;
        }
        i += 1;
    }
    false
}

/// The registry of categories, in the order in which they are tried.
pub fn strategies() -> (cates: Vec<ScanCate>)
    ensures
        cates@ == registry(),
{
    let mut cates: Vec<ScanCate> = Vec::new();
    cates.push(ScanCate::Npm);
    cates.push(ScanCate::Cargo);
    assert(cates@ =~= registry());
    cates
}

/// The first category, in registry order, of which a directory with the
/// entries `names` is a project root.
pub fn find_matching(names: &Vec<String>) -> (found: Option<ScanCate>)
    ensures
        found == first_root(registry(), views(names@), 0),
{
    let cates = strategies();
    let mut i: usize = 0;
    while i < cates.len()
        invariant
            i <= cates.len(),
            cates@ == registry(),
            first_root(registry(), views(names@), 0) == first_root(
                registry(),
                views(names@),
                i as int,
            ),
        decreases cates.len() - i,
    {
        if cates[i].access_keyfile(names) {
            return Some(cates[i]);
        }
        i += 1;
    }
    None
}

/// The first category, in registry order, for which `path` is disposable.
pub fn find_disposable(path: &str) -> (found: Option<ScanCate>)
    ensures
        found == first_disposable(registry(), path@, 0),
{
    let cates = strategies();
    let mut i: usize = 0;
    while i < cates.len()
        invariant
            i <= cates.len(),
            cates@ == registry(),
            first_disposable(registry(), path@, 0) == first_disposable(registry(), path@, i as int),
        decreases cates.len() - i,
    {
        if cates[i].rm_keyfile(path) {
            return Some(cates[i]);
        }
        i += 1;
    }
    None
}

} // verus!
