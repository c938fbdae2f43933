//! A file tree as a value, and what the walks of this library come to when
//! every answer they are given is read off such a tree.
//!
//! The walks themselves never see a tree: they see one listing at a time.
//! In the modules below a whole run is put together from those steps and
//! shown to reach what the tree, looked at as a whole, says it should.

use vstd::prelude::*;
use crate::entry::{EntryKind, EntryView};

pub mod size;
pub mod scan;
pub mod discover;

verus! {

/// A file, a directory with all that lies below it, a link, or anything
/// else that a directory can hold.
pub struct Tree {
    /// The name within the directory that holds it.
    pub name: Seq<char>,
    pub kind: EntryKind,
    /// The length of a regular file, as a listing gives it.
    pub len: u64,
    /// Whether a directory can be listed.
    pub readable: bool,
    /// What a directory holds, in the order of its listing.
    pub children: Seq<Tree>,
}

/// The entry under which a tree appears in the listing of its directory.
pub open spec fn entry_of(tree: Tree) -> EntryView {
    EntryView { name: tree.name, kind: tree.kind, len: tree.len }
}

/// The listing of a directory that holds `trees`.
pub open spec fn entries_of(trees: Seq<Tree>) -> Seq<EntryView> {
    trees.map_values(|t: Tree| entry_of(t))
}

/// What a directory answers when it is listed: its listing, or nothing
/// where it cannot be read.
pub open spec fn listing_of(dir: Tree) -> Option<Seq<EntryView>> {
    if dir.readable {
        Some(entries_of(dir.children))
    } else {
        None
    }
}

} // verus!
