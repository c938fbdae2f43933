//! What a directory listing says of each thing it names.

use vstd::prelude::*;

verus! {

/// What kind of thing a name in a directory stands for, without following
/// symbolic links.
#[derive(Clone, Copy, PartialEq, Eq, Structural, Debug)]
pub enum EntryKind {
    /// A directory of its own; never a link to one.
    Directory,
    /// A regular file.
    File,
    /// A symbolic link, whatever it points to.
    Symlink,
    /// Anything else, and anything whose kind could not be read.
    Other,
}

/// One name in a directory listing.
pub struct Entry {
    /// The name within its directory.
    pub name: String,
    pub kind: EntryKind,
    /// The length in bytes of a regular file; zero where it could not be
    /// read. It means nothing for the other kinds.
    pub len: u64,
}

/// An entry as contracts speak of it.
pub struct EntryView {
    pub name: Seq<char>,
    pub kind: EntryKind,
    pub len: u64,
}

impl View for Entry {
    type V = EntryView;

    open spec fn view(&self) -> EntryView {
        EntryView { name: self.name@, kind: self.kind, len: self.len }
    }
}

/// A listing as contracts speak of it: each entry by its view, in order.
pub open spec fn listing_view(entries: Seq<Entry>) -> Seq<EntryView> {
    entries.map_values(|e: Entry| e@)
}

impl Entry {
    /// The entry for a directory of the given name.
    pub fn directory(name: &str) -> (entry: Entry)
        ensures
            entry@ == (EntryView { name: name@, kind: EntryKind::Directory, len: 0 }),
    {
        Entry { name: name.to_owned(), kind: EntryKind::Directory, len: 0 }
    }

    /// The entry for a regular file of the given name and length.
    pub fn file(name: &str, len: u64) -> (entry: Entry)
        ensures
            entry@ == (EntryView { name: name@, kind: EntryKind::File, len }),
    {
        Entry { name: name.to_owned(), kind: EntryKind::File, len }
    }

    /// The entry for a symbolic link of the given name.
    pub fn symlink(name: &str) -> (entry: Entry)
        ensures
            entry@ == (EntryView { name: name@, kind: EntryKind::Symlink, len: 0 }),
    {
        Entry { name: name.to_owned(), kind: EntryKind::Symlink, len: 0 }
    }
}

impl Clone for Entry {
    fn clone(&self) -> (copy: Entry)
        ensures
            copy@ == self@,
    {
        Entry { name: self.name.clone(), kind: self.kind, len: self.len }
    }
}

} // verus!
