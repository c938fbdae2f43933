//! Finding the repositories below a base directory, down to a given depth.
//!
//! A directory that holds the marker of version control is a repository,
//! and nothing below it is looked at. Any other directory is listed and its
//! directories are looked at in turn, links left aside. The discovery reads
//! nothing itself: it names the directory to probe or to list, and its
//! caller answers.

use vstd::prelude::*;
use vstd::relations::sorted_by;
use crate::entry::{listing_view, Entry, EntryKind, EntryView};
use crate::order::{path_order, paths_view, sort_paths};
use crate::path::RelPath;
use crate::scan::answer_view;
use crate::size::subdirs;

verus! {

/// The name of the directory that marks a repository.
pub open spec fn marker_name() -> Seq<char> {
    ".git"@
}

/// The name of the directory that marks a repository.
pub fn marker() -> (name: &'static str)
    ensures
        name@ == marker_name(),
{
    ".git"
}

/// What the discovery needs from its caller before it can go on.
pub enum DiscoveryRequest {
    /// Whether this directory holds the marker; answered with
    /// [`Discovery::probed`].
    Probe { dir: RelPath, depth: usize },
    /// The listing of this directory; answered with [`Discovery::listed`].
    List { dir: RelPath, depth: usize },
    /// Nothing: every directory within reach has been looked at.
    Finished,
}

/// A request as contracts speak of it.
pub enum DiscoveryRequestView {
    Probe { dir: Seq<Seq<char>>, depth: usize },
    List { dir: Seq<Seq<char>>, depth: usize },
    Finished,
}

impl View for DiscoveryRequest {
    type V = DiscoveryRequestView;

    open spec fn view(&self) -> DiscoveryRequestView {
        match self {
            DiscoveryRequest::Probe { dir, depth } => DiscoveryRequestView::Probe {
                dir: dir@,
                depth: *depth,
            },
            DiscoveryRequest::List { dir, depth } => DiscoveryRequestView::List {
                dir: dir@,
                depth: *depth,
            },
            DiscoveryRequest::Finished => DiscoveryRequestView::Finished,
        }
    }
}

/// A directory that is still to be probed, and how far below the base it
/// lies.
struct Waiting {
    dir: RelPath,
    depth: usize,
}

/// The state of a discovery.
pub struct Discovery {
    max_depth: usize,
    /// The directories still to be probed; the last is probed next.
    waiting: Vec<Waiting>,
    repos: Vec<RelPath>,
    pending: DiscoveryRequest,
}

/// The state of a discovery as contracts speak of it.
pub struct DiscoveryView {
    /// How far below the base a repository may lie.
    pub max_depth: usize,
    /// The directories still to be probed, each with its depth; the last is
    /// probed next.
    pub waiting: Seq<(Seq<Seq<char>>, usize)>,
    /// The repositories found so far, in the order in which they were found.
    pub repos: Seq<Seq<Seq<char>>>,
    /// What the discovery waits for.
    pub pending: DiscoveryRequestView,
}

/// The directories that a listing of `dir` names, each at the given depth.
pub open spec fn children(dir: Seq<Seq<char>>, depth: usize, entries: Seq<EntryView>) -> Seq<
    (Seq<Seq<char>>, usize),
> {
    subdirs(dir, entries).map_values(|path: Seq<Seq<char>>| (path, depth))
}

impl DiscoveryView {
    /// A discovery that has just begun: it asks whether the base itself is a
    /// repository.
    pub open spec fn start(max_depth: usize) -> DiscoveryView {
        DiscoveryView {
            max_depth,
            waiting: Seq::empty(),
            repos: Seq::empty(),
            pending: DiscoveryRequestView::Probe { dir: Seq::empty(), depth: 0 },
        }
    }

    /// The discovery turned to the directory that waits last, or finished
    /// where none waits.
    pub open spec fn next(
        max_depth: usize,
        waiting: Seq<(Seq<Seq<char>>, usize)>,
        repos: Seq<Seq<Seq<char>>>,
    ) -> DiscoveryView {
        if waiting.len() == 0 {
            DiscoveryView { max_depth, waiting, repos, pending: DiscoveryRequestView::Finished }
        } else {
            DiscoveryView {
                max_depth,
                waiting: waiting.drop_last(),
                repos,
                pending: DiscoveryRequestView::Probe {
                    dir: waiting.last().0,
                    depth: waiting.last().1,
                },
            }
        }
    }

    /// The state after a probe is answered. A directory with the marker is
    /// a repository and is not entered. One without it is listed if what it
    /// holds is still within the depth, and left alone otherwise. An answer
    /// that was not asked for changes nothing.
    pub open spec fn probed(self, has_marker: bool) -> DiscoveryView {
        match self.pending {
            DiscoveryRequestView::Probe { dir, depth } => if has_marker {
                Self::next(self.max_depth, self.waiting, self.repos.push(dir))
            } else if depth < self.max_depth {
                DiscoveryView {
                    max_depth: self.max_depth,
                    waiting: self.waiting,
                    repos: self.repos,
                    pending: DiscoveryRequestView::List { dir, depth },
                }
            } else {
                Self::next(self.max_depth, self.waiting, self.repos)
            },
            _ => self,
        }
    }

    /// The state after a listing arrives: the directories that it names
    /// wait to be probed, one level further down. A directory that could
    /// not be read contributes nothing.
    pub open spec fn listed(self, entries: Option<Seq<EntryView>>) -> DiscoveryView {
        match self.pending {
            DiscoveryRequestView::List { dir, depth } => match entries {
                Some(list) => if depth < self.max_depth {
                    Self::next(
                        self.max_depth,
                        self.waiting + children(dir, (depth + 1) as usize, list),
                        self.repos,
                    )
                } else {
                    Self::next(self.max_depth, self.waiting, self.repos)
                },
                None => Self::next(self.max_depth, self.waiting, self.repos),
            },
            _ => self,
        }
    }

    /// What holds of a discovery at every moment: nothing it has found, asks
    /// about or still means to probe lies deeper than the limit, and the
    /// depth it keeps for a directory is the length of its path.
    pub open spec fn sound(self) -> bool {
        &&& forall|i: int|
            0 <= i < self.waiting.len() ==> (#[trigger] self.waiting[i]).1 <= self.max_depth
                && self.waiting[i].0.len() == self.waiting[i].1
        &&& forall|i: int|
            0 <= i < self.repos.len() ==> (#[trigger] self.repos[i]).len() <= self.max_depth
        &&& match self.pending {
            DiscoveryRequestView::Probe { dir, depth } => depth <= self.max_depth && dir.len()
                == depth,
            DiscoveryRequestView::List { dir, depth } => depth < self.max_depth && dir.len()
                == depth,
            DiscoveryRequestView::Finished => true,
        }
    }
}

impl View for Discovery {
    type V = DiscoveryView;

    closed spec fn view(&self) -> DiscoveryView {
        DiscoveryView {
            max_depth: self.max_depth,
            waiting: self.waiting@.map_values(|w: Waiting| (w.dir@, w.depth)),
            repos: paths_view(self.repos@),
            pending: self.pending@,
        }
    }
}

impl Discovery {
    /// A discovery below a base directory, down to `max_depth` levels.
    pub fn new(max_depth: usize) -> (discovery: Discovery)
        ensures
            discovery@ == DiscoveryView::start(max_depth),
    {
        let discovery = Discovery {
            max_depth,
            waiting: Vec::new(),
            repos: Vec::new(),
            pending: DiscoveryRequest::Probe { dir: RelPath::base(), depth: 0 },
        };
        assert(discovery@.waiting =~= Seq::empty());
        assert(discovery@.repos =~= Seq::empty());
        discovery
    }

    /// What the discovery waits for.
    pub fn request(&self) -> (request: &DiscoveryRequest)
        ensures
            request@ == self@.pending,
    {
        &self.pending
    }

    /// Whether the discovery is over.
    pub fn is_finished(&self) -> (done: bool)
        ensures
            done == (self@.pending is Finished),
    {
        match self.pending {
            DiscoveryRequest::Finished => true,
            _ => false,
        }
    }

    /// Turns to the directory that waits last.
    fn next(&mut self)
        ensures
            final(self)@ == DiscoveryView::next(
                old(self)@.max_depth,
                old(self)@.waiting,
                old(self)@.repos,
            ),
    {
        let ghost before = self@;
        match self.waiting.pop() {
            Some(w) => {
                assert(self@.waiting =~= before.waiting.drop_last());
                self.pending = DiscoveryRequest::Probe { dir: w.dir, depth: w.depth };
            },
            None => {
                assert(self@.waiting =~= before.waiting);
                self.pending = DiscoveryRequest::Finished;
            },
        }
    }

    /// Answers a [`DiscoveryRequest::Probe`]: whether the directory holds
    /// the marker.
    pub fn probed(&mut self, has_marker: bool)
        ensures
            final(self)@ == old(self)@.probed(has_marker),
    {
        let mut pending = DiscoveryRequest::Finished;
        core::mem::swap(&mut self.pending, &mut pending);
        match pending {
            DiscoveryRequest::Probe { dir, depth } => {
                if has_marker {
                    let ghost before = self@.repos;
                    self.repos.push(dir);
                    assert(self@.repos =~= before.push(dir@));
                    self.next();
                } else if depth < self.max_depth {
                    self.pending = DiscoveryRequest::List { dir, depth };
                } else {
                    self.next();
                }
            },
            other => {
                self.pending = other;
            },
        }
    }

    /// Answers a [`DiscoveryRequest::List`]: `None` where the directory
    /// could not be read.
    pub fn listed(&mut self, entries: Option<Vec<Entry>>)
        ensures
            final(self)@ == old(self)@.listed(answer_view(entries)),
    {
        let mut pending = DiscoveryRequest::Finished;
        core::mem::swap(&mut self.pending, &mut pending);
        match pending {
            DiscoveryRequest::List { dir, depth } => {
                match entries {
                    Some(list) => {
                        if depth < self.max_depth {
                            self.enqueue(&dir, depth + 1, &list);
                        }
                    },
                    None => {},
                }
                self.next();
            },
            other => {
                self.pending = other;
            },
        }
    }

    /// Puts the directories that a listing of `dir` names on the list.
    fn enqueue(&mut self, dir: &RelPath, depth: usize, list: &Vec<Entry>)
        ensures
            final(self)@ == (DiscoveryView {
                waiting: old(self)@.waiting + children(
                    dir@,
                    depth,
                    listing_view(list@),
                ),
                ..old(self)@
            }),
    {
        let ghost before = self@;
        let ghost views = listing_view(list@);
        let mut i: usize = 0;
        assert(self@.waiting =~= before.waiting + children(dir@, depth, views.take(0)));
        while i < list.len()
            invariant
                i <= list.len(),
                views == listing_view(list@),
                self@ == (DiscoveryView {
                    waiting: before.waiting + children(dir@, depth, views.take(i as int)),
                    ..before
                }),
            decreases list.len() - i,
        {
            proof {
                assert(views.take(i + 1).drop_last() =~= views.take(i as int));
                assert(views.take(i + 1).last() == list@[i as int]@);
            }
            let ghost waiting = self@.waiting;
            match list[i].kind {
                EntryKind::Directory => {
                    self.waiting.push(
                        Waiting { dir: dir.child(list[i].name.as_str()), depth },
                    );
                    assert(self@.waiting =~= waiting.push(
                        (dir@.push(list@[i as int]@.name), depth),
                    ));
                    assert(self@.waiting =~= before.waiting + children(
                        dir@,
                        depth,
                        views.take(i + 1),
                    ));
                },
                _ => {
                    assert(self@.waiting =~= before.waiting + children(
                        dir@,
                        depth,
                        views.take(i + 1),
                    ));
                },
            }
            i += 1;
        }
        assert(views.take(list.len() as int) =~= views);
    }

    /// Ends the discovery and hands out the repositories found, in the
    /// order of reports.
    pub fn into_repos(self) -> (repos: Vec<RelPath>)
        ensures
            sorted_by(paths_view(repos@), path_order()),
            paths_view(repos@).to_multiset() == self@.repos.to_multiset(),
    {
        sort_paths(self.repos)
    }
}

/// The directories that a listing names lie one name below the listed one.
pub proof fn lemma_subdirs_one_below(dir: Seq<Seq<char>>, entries: Seq<EntryView>, i: int)
    requires
        0 <= i < subdirs(dir, entries).len(),
    ensures
        subdirs(dir, entries)[i].len() == dir.len() + 1,
    decreases entries.len(),
{
    if entries.len() > 0 {
        let before = subdirs(dir, entries.drop_last());
        if i < before.len() {
            lemma_subdirs_one_below(dir, entries.drop_last(), i);
        }
    }
}

/// A discovery is sound when it begins, and every answer keeps it sound:
/// no repository is reported from deeper than the limit.
pub proof fn lemma_discovery_sound(
    discovery: DiscoveryView,
    max_depth: usize,
    has_marker: bool,
    entries: Option<Seq<EntryView>>,
)
    requires
        discovery.sound(),
    ensures
        DiscoveryView::start(max_depth).sound(),
        discovery.probed(has_marker).sound(),
        discovery.listed(entries).sound(),
{
    match discovery.pending {
        DiscoveryRequestView::List { dir, depth } => {
            if let Some(list) = entries {
                let added = children(dir, (depth + 1) as usize, list);
                assert forall|i: int| 0 <= i < added.len() implies (#[trigger] added[i]).1
                    <= discovery.max_depth && added[i].0.len() == added[i].1 by {
                    lemma_subdirs_one_below(dir, list, i);
                }
            }
        },
        _ => {},
    }
}

} // verus!
