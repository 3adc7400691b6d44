//! The entries of a folder, and the catalog of series found among them.
//!
//! Reading a folder is left to the caller, who hands over what was found:
//! a name and a path for each entry that could be read.

use vstd::prelude::*;
use vstd::string::StrSliceExecFns;

verus! {

/// One child of a folder.
#[derive(Debug, Clone)]
pub struct FolderEntry {
    /// The name of the entry within its folder.
    pub name: String,
    /// Where the entry is found.
    pub path: String,
    /// Whether the entry is a folder itself.
    pub is_dir: bool,
}

/// What was found at a path.
#[derive(Debug, Clone)]
pub enum Listing {
    /// A folder with its children in the order in which they were met; a
    /// child that could not be read is `None`.
    Directory(Vec<Option<FolderEntry>>),
    /// A single file.
    File(FolderEntry),
    /// Neither a folder nor a file.
    Nothing,
}

/// Which children of a folder a scan accepts.
#[derive(Debug, Clone, Copy, PartialEq, Eq, Structural)]
pub enum ScanMode {
    /// Sub-folders only, one for each series.
    SubFolders,
    /// Every child: the files of one series.
    AnyEntry,
}

/// A hidden entry is one whose name starts with a dot.
pub open spec fn is_hidden_name(name: Seq<char>) -> bool {
    name.len() > 0 && name[0] == '.'
}

/// The name and path under which a scan lists an entry, or `None` where
/// it leaves the entry out: an entry that could not be read, a hidden
/// one, and, in a scan for sub-folders, anything but a folder.
pub open spec fn listed(entry: Option<FolderEntry>, mode: ScanMode) -> Option<
    (Seq<char>, Seq<char>),
> {
    match entry {
        Some(e) => if !is_hidden_name(e.name@) && (mode == ScanMode::AnyEntry || e.is_dir) {
            Some((e.name@, e.path@))
        } else {
            None
        },
        None => None,
    }
}

/// What a scan of a listing yields: the accepted children of a folder in
/// the order in which they were met, and nothing for anything but a
/// folder.
pub open spec fn scanned(listing: Listing, mode: ScanMode) -> Seq<(Seq<char>, Seq<char>)> {
    match listing {
        Listing::Directory(entries) => entries@.filter_map(
            |e: Option<FolderEntry>| listed(e, mode),
        ),
        _ => Seq::empty(),
    }
}

/// The path that a catalog holds for a name: that of the last entry of
/// that name.
pub open spec fn lookup(entries: Seq<(Seq<char>, Seq<char>)>, name: Seq<char>) -> Option<
    Seq<char>,
>
    decreases entries.len(),
{
    if entries.len() == 0 {
        None
    } else if entries.last().0 == name {
        Some(entries.last().1)
    } else {
        lookup(entries.drop_last(), name)
    }
}

/// A name has a path in a catalog exactly if an entry bears it, and then
/// the path is that of the last such entry.
pub proof fn lemma_lookup(entries: Seq<(Seq<char>, Seq<char>)>, name: Seq<char>)
    ensures
        lookup(entries, name) is None <==> forall|i: int|
            0 <= i < entries.len() ==> (#[trigger] entries[i]).0 != name,
        lookup(entries, name) matches Some(path) ==> exists|i: int|
            0 <= i < entries.len() && #[trigger] entries[i] == (name, path) && forall|j: int|
                i < j < entries.len() ==> (#[trigger] entries[j]).0 != name,
    decreases entries.len(),
{
    if entries.len() > 0 {
        let rest = entries.drop_last();
        lemma_lookup(rest, name);
        assert forall|i: int| 0 <= i < rest.len() implies #[trigger] rest[i] == entries[i] by {}
        if entries.last().0 == name {
            let last = entries.len() - 1;
            assert(entries[last] == (name, entries.last().1));
        } else {
            if lookup(rest, name) is Some {
                let path = lookup(rest, name).unwrap();
                let i = choose|i: int|
                    0 <= i < rest.len() && #[trigger] rest[i] == (name, path) && forall|j: int|
                        i < j < rest.len() ==> (#[trigger] rest[j]).0 != name;
                assert(entries[i] == (name, path));
                assert forall|j: int| i < j < entries.len() implies (#[trigger] entries[j]).0
                    != name by {
                    if j < rest.len() {
                        assert(rest[j] == entries[j]);
                    }
                }
            } else {
                assert forall|i: int| 0 <= i < entries.len() implies (#[trigger] entries[i]).0
                    != name by {
                    if i < rest.len() {
                        assert(rest[i] == entries[i]);
                    }
                }
            }
        }
    }
}

/// Tells whether an entry of this name is hidden.
pub fn is_hidden(name: &str) -> (hidden: bool)
    ensures
        hidden == is_hidden_name(name@),
{
    name.unicode_len() > 0 && name.get_char(0) == '.'
}

/// The series of a folder: display names in the order in which they were
/// met, each with the path where the series is found.
#[derive(Debug, Clone)]
pub struct SeriesCatalog {
    entries: Vec<(String, String)>,
}

impl View for SeriesCatalog {
    type V = Seq<(Seq<char>, Seq<char>)>;

    closed spec fn view(&self) -> Seq<(Seq<char>, Seq<char>)> {
        Seq::new(self.entries@.len(), |i: int| (self.entries@[i].0@, self.entries@[i].1@))
    }
}

impl SeriesCatalog {
    /// A catalog without series.
    pub fn new() -> (catalog: SeriesCatalog)
        ensures
            catalog@ == Seq::<(Seq<char>, Seq<char>)>::empty(),
    {
        SeriesCatalog { entries: Vec::new() }
    }

    /// The number of series.
    pub fn len(&self) -> (len: usize)
        ensures
            len == self@.len(),
    {
        self.entries.len()
    }

    /// The display names, in the order in which they were met.
    pub fn names(&self) -> (names: Vec<String>)
        ensures
            names@.len() == self@.len(),
            forall|i: int| 0 <= i < names@.len() ==> (#[trigger] names@[i])@ == self@[i].0,
    {
        let mut names: Vec<String> = Vec::new();
        let mut i: usize = 0;
        while i < self.entries.len()
            invariant
                i <= self.entries@.len(),
                names@.len() == i,
                forall|j: int| 0 <= j < i ==> (#[trigger] names@[j])@ == self@[j].0,
            decreases self.entries@.len() - i,
        {
            names.push(self.entries[i].0.clone());
            i = i + 1;
        }
        names
    }

    /// The display name of the series at place `index`.
    pub fn name_at(&self, index: usize) -> (name: &String)
        requires
            index < self@.len(),
        ensures
            name@ == self@[index as int].0,
    {
        &self.entries[index].0
    }

    /// Adds a series at the end.
    pub fn push(&mut self, name: String, path: String)
        ensures
            final(self)@ == old(self)@.push((name@, path@)),
    {
        self.entries.push((name, path));
    }

    /// Looks up the path of a series by its display name.
    pub fn path_of(&self, name: &String) -> (path: Option<&String>)
        ensures
            path is Some <==> lookup(self@, name@) is Some,
            path matches Some(p) ==> lookup(self@, name@) == Some(p@),
    {
        let mut i: usize = self.entries.len();
        assert(self@.take(i as int) =~= self@);
        while i > 0
            invariant
                i <= self.entries@.len(),
                lookup(self@, name@) == lookup(self@.take(i as int), name@),
            decreases i,
        {
            i = i - 1;
            proof {
                let upto = self@.take(i + 1);
                assert(upto.drop_last() =~= self@.take(i as int));
                assert(upto.last() == self@[i as int]);
            }
            if self.entries[i].0 == *name {
                return Some(&self.entries[i].1);
            }
        }
        None
    }
}

/// Lists the series of a folder. Hidden entries and entries that could
/// not be read are left out, and so is, in a scan for sub-folders,
/// whatever is not a folder. Anything but a folder has no series.
pub fn open_folder(listing: &Listing, mode: ScanMode) -> (catalog: SeriesCatalog)
    ensures
        catalog@ == scanned(*listing, mode),
{
    let mut catalog = SeriesCatalog::new();
    match listing {
        Listing::Directory(entries) => {
            let ghost pick = |e: Option<FolderEntry>| listed(e, mode);
            let mut i: usize = 0;
            while i < entries.len()
                invariant
                    i <= entries@.len(),
                    pick == |e: Option<FolderEntry>| listed(e, mode),
                    catalog@ == entries@.take(i as int).filter_map(pick),
                decreases entries@.len() - i,
            {
                proof {
                    let upto = entries@.take(i + 1);
                    assert(upto.drop_last() =~= entries@.take(i as int));
                    assert(upto.last() == entries@[i as int]);
                }
                match &entries[i] {
                    Some(entry) => {
                        let accepted = match mode {
                            ScanMode::AnyEntry => true,
                            ScanMode::SubFolders => entry.is_dir,
                        };
                        if accepted && !is_hidden(entry.name.as_str()) {
                            catalog.push(entry.name.clone(), entry.path.clone());
                        }
                    },
                    None => {},
                }
                i = i + 1;
            }
            proof {
                assert(entries@.take(i as int) =~= entries@);
            }
        },
        _ => {},
    }
    catalog
}

/// The entries that a load of a listing goes through: every child of a
/// folder that could be read, hidden or not, in the order in which they
/// were met; a file by itself; and nothing else.
pub open spec fn listed_files(listing: Listing) -> Seq<FolderEntry> {
    match listing {
        Listing::Directory(entries) => entries@.filter_map(|e: Option<FolderEntry>| e),
        Listing::File(entry) => seq![entry],
        Listing::Nothing => Seq::empty(),
    }
}

/// Lists the files that a load of a path goes through.
pub fn files_to_load(listing: Listing) -> (files: Vec<FolderEntry>)
    ensures
        files@ == listed_files(listing),
{
    let mut files: Vec<FolderEntry> = Vec::new();
    match listing {
        Listing::Directory(entries) => {
            let ghost pick = |e: Option<FolderEntry>| e;
            for entry in it: entries
                invariant
                    pick == |e: Option<FolderEntry>| e,
                    files@ == it.seq().take(it.index() as int).filter_map(pick),
            {
                proof {
                    let upto = it.seq().take(it.index() + 1);
                    assert(upto.drop_last() =~= it.seq().take(it.index() as int));
                    assert(upto.last() == entry);
                }
                match entry {
                    Some(found) => {
                        files.push(found);
                    },
                    None => {},
                }
            }
            proof {
                assert(entries@.take(entries@.len() as int) =~= entries@);
            }
        },
        Listing::File(entry) => {
            files.push(entry);
        },
        Listing::Nothing => {},
    }
    files
}

} // verus!
