use vstd::prelude::*;

verus! {

/// One entry of a directory, as whoever listed the directory saw it.
#[derive(Debug, Clone)]
pub struct Entry {
    /// The entry's own name inside its directory.
    pub name: String,
    /// The path under which the entry goes, as whoever listed the directory
    /// gives it. Entries that carry one path count as one place.
    pub path: String,
    /// Whether the entry is itself a directory.
    pub is_dir: bool,
    /// The entry's length in bytes, where it is a file; 0 where that could
    /// not be read.
    pub len: u64,
}

/// What a look at one path gave.
#[derive(Debug, Clone)]
pub enum Probe {
    /// The path is no directory (or is not there at all).
    NotDir,
    /// The path is a directory whose entries could not be listed.
    Unreadable,
    /// The path is a directory with these entries.
    Dir(Vec<Entry>),
}

/// The names of `entries`, in order.
pub open spec fn entry_names(entries: Seq<Entry>) -> Seq<Seq<char>> {
    Seq::new(entries.len(), |i: int| entries[i].name@)
}

/// The paths of `entries`, in order.
pub open spec fn entry_paths(entries: Seq<Entry>) -> Seq<Seq<char>> {
    Seq::new(entries.len(), |i: int| entries[i].path@)
}

/// The paths of those of `entries` that are directories, in order.
pub open spec fn dir_paths(entries: Seq<Entry>) -> Seq<Seq<char>>
    decreases entries.len(),
{
    if entries.len() == 0 {
        Seq::empty()
    } else if entries.last().is_dir {
        dir_paths(entries.drop_last()).push(entries.last().path@)
    } else {
        dir_paths(entries.drop_last())
    }
}

/// The bytes that the files among `entries` hold together.
pub open spec fn file_bytes(entries: Seq<Entry>) -> nat
    decreases entries.len(),
{
    if entries.len() == 0 {
        0
    } else if entries.last().is_dir {
        file_bytes(entries.drop_last())
    } else {
        file_bytes(entries.drop_last()) + entries.last().len as nat
    }
}

impl Probe {
    /// The entries that were seen: none unless the directory was listed.
    pub open spec fn entries(self) -> Seq<Entry> {
        match self {
            Probe::Dir(entries) => entries@,
            _ => Seq::empty(),
        }
    }

    /// Whether the path is a directory, listed or not.
    pub open spec fn is_dir(self) -> bool {
        !(self is NotDir)
    }

    /// The names of the entries that were seen.
    pub fn names(&self) -> (names: Vec<String>)
        ensures
            crate::text::views(names@) == entry_names(self.entries()),
    {
        let mut names: Vec<String> = Vec::new();
        match self {
            Probe::Dir(entries) => {
                let mut i: usize = 0;
                while i < entries.len()
                    invariant
                        i <= entries.len(),
                        names.len() == i,
                        forall|j: int| 0 <= j < i ==> names@[j]@ == entries@[j].name@,
                    decreases entries.len() - i,
                {
                    names.push(entries[i].name.clone());
                    i += 1;
                }
                assert(crate::text::views(names@) =~= entry_names(entries@));
            },
            _ => {
                assert(crate::text::views(names@) =~= entry_names(self.entries()));
            },
        }
        names
    }
}

} // verus!
