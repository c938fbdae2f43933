//! The bytes held below a directory: the lengths of the regular files in it
//! and in the directories below it, links left aside.
//!
//! The accountant keeps a list of the directories that are still to be
//! read, so that no depth of nesting can exhaust it. Its caller reads the
//! directory it names and hands the listing back.

use vstd::prelude::*;
use crate::entry::{listing_view, Entry, EntryKind, EntryView};
use crate::path::RelPath;
use crate::scan::answer_view;

verus! {

/// The bytes of the regular files that a listing names.
pub open spec fn file_bytes(entries: Seq<EntryView>) -> nat
    decreases entries.len(),
{
    if entries.len() == 0 {
        0
    } else {
        let last = entries.last();
        file_bytes(entries.drop_last()) + if last.kind == EntryKind::File {
            last.len as nat
        } else {
            0
        }
    }
}

/// The directories that a listing of `dir` names, in the listing's order.
/// A link to a directory is none.
pub open spec fn subdirs(dir: Seq<Seq<char>>, entries: Seq<EntryView>) -> Seq<Seq<Seq<char>>>
    decreases entries.len(),
{
    if entries.len() == 0 {
        Seq::empty()
    } else {
        let last = entries.last();
        let before = subdirs(dir, entries.drop_last());
        if last.kind == EntryKind::Directory {
            before.push(dir.push(last.name))
        } else {
            before
        }
    }
}

/// The bytes of a listing grow with the listing.
pub proof fn lemma_file_bytes_grow(entries: Seq<EntryView>, n: int)
    requires
        0 <= n <= entries.len(),
    ensures
        file_bytes(entries.take(n)) <= file_bytes(entries),
    decreases entries.len(),
{
    if n < entries.len() {
        assert(entries.drop_last().take(n) =~= entries.take(n));
        lemma_file_bytes_grow(entries.drop_last(), n);
    } else {
        assert(entries.take(n) =~= entries);
    }
}

/// The state of a measurement.
pub struct SizeAccountant {
    total: u64,
    /// The directories still to be read; the last is read next.
    waiting: Vec<RelPath>,
}

/// The state of a measurement as contracts speak of it.
pub struct AccountView {
    /// The bytes counted so far.
    pub total: nat,
    /// The directories still to be read; the last is read next.
    pub waiting: Seq<Seq<Seq<char>>>,
}

impl AccountView {
    /// A measurement of `start` that has read nothing yet.
    pub open spec fn start(start: Seq<Seq<char>>) -> AccountView {
        AccountView { total: 0, waiting: seq![start] }
    }

    /// The state after the listing of the directory read next arrives: its
    /// regular files are counted and its directories are put on the list,
    /// in the listing's order. A directory that could not be read counts
    /// for nothing. Once nothing is waiting, nothing changes.
    pub open spec fn listed(self, entries: Option<Seq<EntryView>>) -> AccountView {
        if self.waiting.len() == 0 {
            self
        } else {
            match entries {
                Some(list) => AccountView {
                    total: self.total + file_bytes(list),
                    waiting: self.waiting.drop_last() + subdirs(self.waiting.last(), list),
                },
                None => AccountView { total: self.total, waiting: self.waiting.drop_last() },
            }
        }
    }
}

impl View for SizeAccountant {
    type V = AccountView;

    closed spec fn view(&self) -> AccountView {
        AccountView {
            total: self.total as nat,
            waiting: self.waiting@.map_values(|p: RelPath| p@),
        }
    }
}

impl SizeAccountant {
    /// A measurement of the directory `start`.
    pub fn new(start: RelPath) -> (account: SizeAccountant)
        ensures
            account@ == AccountView::start(start@),
    {
        let mut waiting: Vec<RelPath> = Vec::new();
        waiting.push(start);
        let account = SizeAccountant { total: 0, waiting };
        assert(account@.waiting =~= seq![start@]);
        account
    }

    /// The directory whose listing is needed next; `None` once the
    /// measurement is complete.
    pub fn request(&self) -> (dir: Option<&RelPath>)
        ensures
            self@.waiting.len() == 0 ==> dir is None,
            self@.waiting.len() > 0 ==> dir is Some && dir->0@ == self@.waiting.last(),
    {
        let n: usize = self.waiting.len();
        if n == 0 {
            None
        } else {
            Some(&self.waiting[n - 1])
        }
    }

    /// Whether every directory has been read.
    pub fn is_finished(&self) -> (done: bool)
        ensures
            done == (self@.waiting.len() == 0),
    {
        self.waiting.len() == 0
    }

    /// The bytes counted so far.
    pub fn total(&self) -> (bytes: u64)
        ensures
            bytes == self@.total,
    {
        self.total
    }

    /// Takes the listing of the directory named by [`Self::request`];
    /// `None` where that directory could not be read. Returns whether the
    /// count still fits its type; where it does not, nothing is changed.
    #[verifier::loop_isolation(false)]
    pub fn listed(&mut self, entries: Option<Vec<Entry>>) -> (fits: bool)
        ensures
            fits == (old(self)@.listed(answer_view(entries)).total <= u64::MAX),
            fits ==> final(self)@ == old(self)@.listed(answer_view(entries)),
            !fits ==> final(self)@ == old(self)@,
    {
        let ghost before = self@;
        let dir = match self.waiting.pop() {
            Some(dir) => dir,
            None => {
                assert(self@.waiting =~= before.waiting);
                return true;
            },
        };
        assert(self@.waiting =~= before.waiting.drop_last());
        assert(dir@ == before.waiting.last());
        let list = match entries {
            Some(list) => list,
            None => {
                return true;
            },
        };
        let ghost views = listing_view(list@);
        let mut total: u64 = self.total;
        let mut below: Vec<RelPath> = Vec::new();
        let mut i: usize = 0;
        while i < list.len()
            invariant
                i <= list.len(),
                views == listing_view(list@),
                self@.waiting == before.waiting.drop_last(),
                self@.total == before.total,
                total == before.total + file_bytes(views.take(i as int)),
                below@.map_values(|p: RelPath| p@) == subdirs(dir@, views.take(i as int)),
            decreases list.len() - i,
        {
            proof {
                assert(views.take(i + 1).drop_last() =~= views.take(i as int));
                assert(views.take(i + 1).last() == list@[i as int]@);
                lemma_file_bytes_grow(views, i + 1);
            }
            let ghost dirs = below@.map_values(|p: RelPath| p@);
            match list[i].kind {
                EntryKind::Directory => {
                    below.push(dir.child(list[i].name.as_str()));
                    assert(below@.map_values(|p: RelPath| p@) =~= dirs.push(
                        dir@.push(list@[i as int]@.name),
                    ));
                },
                EntryKind::File => {
                    match total.checked_add(list[i].len) {
                        Some(sum) => {
                            total = sum;
                        },
                        None => {
                            self.waiting.push(dir);
                            assert(self@.waiting =~= before.waiting.drop_last().push(dir@));
                            assert(self@.waiting =~= before.waiting);
                            return false;
                        },
                    }
                },
                _ => {},
            }
            i += 1;
        }
        assert(views.take(list.len() as int) =~= views);
        self.total = total;
        let ghost kept = self@.waiting;
        self.waiting.append(&mut below);
        assert(self@.waiting =~= kept + subdirs(dir@, views));
        true
    }
}

} // verus!
