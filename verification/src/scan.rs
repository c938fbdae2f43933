//! The scan of one repository: a walk that stops at hidden directories and
//! at artefact directories, and keeps those of the latter that the ignore
//! rules exclude.
//!
//! The scanner reads nothing itself. It names what it needs next, and its
//! caller answers: with a directory's listing, with the verdict of the
//! ignore rules, or with the size of a subtree.

use vstd::prelude::*;
use crate::entry::{listing_view, Entry, EntryView};
use crate::path::RelPath;
use crate::path::strictly_above;
use crate::walk::{classify, is_plain, is_target, step_for, WalkStep};

verus! {

/// An artefact directory that the ignore rules exclude, with the bytes it
/// was found to hold.
pub struct Purge {
    /// Where the directory lies below the repository.
    pub path: RelPath,
    /// The bytes of the regular files below it, as measured during the scan.
    pub size: u64,
}

/// A candidate as contracts speak of it.
pub struct PurgeView {
    pub path: Seq<Seq<char>>,
    pub size: u64,
}

impl View for Purge {
    type V = PurgeView;

    open spec fn view(&self) -> PurgeView {
        PurgeView { path: self.path@, size: self.size }
    }
}

impl Clone for Purge {
    fn clone(&self) -> (copy: Purge)
        ensures
            copy@ == self@,
    {
        Purge { path: self.path.clone(), size: self.size }
    }
}

/// Candidates as contracts speak of them: each by its view, in order.
pub open spec fn purges_view(found: Seq<Purge>) -> Seq<PurgeView> {
    found.map_values(|p: Purge| p@)
}

/// What the scanner needs from its caller before it can go on.
pub enum ScanRequest {
    /// The listing of this directory; answered with [`Scanner::listed`].
    List { dir: RelPath },
    /// Whether the ignore rules exclude this directory; answered with
    /// [`Scanner::judged`].
    Judge { path: RelPath },
    /// The bytes held below this directory; answered with
    /// [`Scanner::measured`].
    Measure { path: RelPath },
    /// Nothing: the scan is over.
    Finished,
}

/// A request as contracts speak of it.
pub enum RequestView {
    List { dir: Seq<Seq<char>> },
    Judge { path: Seq<Seq<char>> },
    Measure { path: Seq<Seq<char>> },
    Finished,
}

impl View for ScanRequest {
    type V = RequestView;

    open spec fn view(&self) -> RequestView {
        match self {
            ScanRequest::List { dir } => RequestView::List { dir: dir@ },
            ScanRequest::Judge { path } => RequestView::Judge { path: path@ },
            ScanRequest::Measure { path } => RequestView::Measure { path: path@ },
            ScanRequest::Finished => RequestView::Finished,
        }
    }
}

/// A directory whose listing is being walked.
struct Frame {
    dir: RelPath,
    entries: Vec<Entry>,
    /// How many of the entries have been dealt with.
    next: usize,
}

/// A directory being walked, as contracts speak of it: where it lies, and
/// the entries that are still to be dealt with.
pub struct FrameView {
    pub dir: Seq<Seq<char>>,
    pub rest: Seq<EntryView>,
}

impl View for Frame {
    type V = FrameView;

    closed spec fn view(&self) -> FrameView {
        FrameView {
            dir: self.dir@,
            rest: if self.next <= self.entries@.len() {
                listing_view(self.entries@).skip(self.next as int)
            } else {
                Seq::empty()
            },
        }
    }
}

/// The state of a scan.
pub struct Scanner {
    /// The directories being walked, the innermost last.
    frames: Vec<Frame>,
    found: Vec<Purge>,
    pending: ScanRequest,
}

/// The state of a scan as contracts speak of it.
pub struct ScannerView {
    /// The directories being walked, the innermost last.
    pub frames: Seq<FrameView>,
    /// The candidates found so far, in the order of the walk.
    pub found: Seq<PurgeView>,
    /// What the scanner waits for.
    pub pending: RequestView,
}

/// A listing as the scanner receives it: `None` where the directory could
/// not be read.
pub open spec fn answer_view(entries: Option<Vec<Entry>>) -> Option<Seq<EntryView>> {
    match entries {
        Some(list) => Some(listing_view(list@)),
        None => None,
    }
}

impl ScannerView {
    /// A scan that has just begun: it asks for the repository's own listing.
    pub open spec fn start() -> ScannerView {
        ScannerView {
            frames: Seq::empty(),
            found: Seq::empty(),
            pending: RequestView::List { dir: Seq::empty() },
        }
    }

    /// The walk taken up again: entries are passed over until one needs an
    /// answer from outside, and a directory whose entries are used up is
    /// left for the one above it.
    pub open spec fn resume(frames: Seq<FrameView>, found: Seq<PurgeView>) -> ScannerView
        decreases
            frames.len(),
            (if frames.len() > 0 {
                frames.last().rest.len()
            } else {
                0
            }),
    {
        if frames.len() == 0 {
            ScannerView { frames, found, pending: RequestView::Finished }
        } else {
            let top = frames.last();
            if top.rest.len() == 0 {
                Self::resume(frames.drop_last(), found)
            } else {
                let entry = top.rest[0];
                let below = frames.drop_last().push(
                    FrameView { dir: top.dir, rest: top.rest.drop_first() },
                );
                let place = top.dir.push(entry.name);
                match step_for(entry) {
                    WalkStep::Skip => Self::resume(below, found),
                    WalkStep::Descend => ScannerView {
                        frames: below,
                        found,
                        pending: RequestView::List { dir: place },
                    },
                    WalkStep::Classify => ScannerView {
                        frames: below,
                        found,
                        pending: RequestView::Judge { path: place },
                    },
                }
            }
        }
    }

    /// The state after a listing arrives. A directory that could not be
    /// read contributes nothing. An answer that was not asked for changes
    /// nothing.
    pub open spec fn listed(self, entries: Option<Seq<EntryView>>) -> ScannerView {
        match self.pending {
            RequestView::List { dir } => match entries {
                Some(rest) => Self::resume(self.frames.push(FrameView { dir, rest }), self.found),
                None => Self::resume(self.frames, self.found),
            },
            _ => self,
        }
    }

    /// The state after the ignore rules have spoken. An ignored directory
    /// is measured next; one that is not ignored is left alone, and the
    /// walk goes on beside it.
    pub open spec fn judged(self, ignored: bool) -> ScannerView {
        match self.pending {
            RequestView::Judge { path } => if ignored {
                ScannerView {
                    frames: self.frames,
                    found: self.found,
                    pending: RequestView::Measure { path },
                }
            } else {
                Self::resume(self.frames, self.found)
            },
            _ => self,
        }
    }

    /// The state after a size arrives: the measured directory becomes a
    /// candidate.
    pub open spec fn measured(self, size: u64) -> ScannerView {
        match self.pending {
            RequestView::Measure { path } => Self::resume(
                self.frames,
                self.found.push(PurgeView { path, size }),
            ),
            _ => self,
        }
    }
}

impl View for Scanner {
    type V = ScannerView;

    closed spec fn view(&self) -> ScannerView {
        ScannerView {
            frames: self.frames@.map_values(|f: Frame| f@),
            found: purges_view(self.found@),
            pending: self.pending@,
        }
    }
}

impl Scanner {
    /// A scan of a repository, about to ask for the repository's listing.
    pub fn new() -> (scanner: Scanner)
        ensures
            scanner@ == ScannerView::start(),
    {
        let scanner = Scanner {
            frames: Vec::new(),
            found: Vec::new(),
            pending: ScanRequest::List { dir: RelPath::base() },
        };
        assert(scanner@.frames =~= Seq::empty());
        assert(scanner@.found =~= Seq::empty());
        scanner
    }

    /// What the scanner waits for.
    pub fn request(&self) -> (request: &ScanRequest)
        ensures
            request@ == self@.pending,
    {
        &self.pending
    }

    /// Whether the scan is over.
    pub fn is_finished(&self) -> (done: bool)
        ensures
            done == (self@.pending is Finished),
    {
        match self.pending {
            ScanRequest::Finished => true,
            _ => false,
        }
    }

    /// The candidates found so far, in the order of the walk.
    pub fn found(&self) -> (found: &Vec<Purge>)
        ensures
            purges_view(found@) == self@.found,
    {
        &self.found
    }

    /// Ends the scan and hands out the candidates found.
    pub fn into_found(self) -> (found: Vec<Purge>)
        ensures
            purges_view(found@) == self@.found,
    {
        self.found
    }

    /// Takes the walk up again after an answer has been dealt with.
    fn resume(&mut self)
        ensures
            final(self)@ == ScannerView::resume(old(self)@.frames, old(self)@.found),
    {
        loop
            invariant
                ScannerView::resume(self@.frames, self@.found) == ScannerView::resume(
                    old(self)@.frames,
                    old(self)@.found,
                ),
            decreases
                self@.frames.len(),
                (if self@.frames.len() > 0 {
                    self@.frames.last().rest.len()
                } else {
                    0
                }),
        {
            let ghost before = self@;
            let mut top = match self.frames.pop() {
                Some(frame) => frame,
                None => {
                    self.pending = ScanRequest::Finished;
                    assert(self@.frames =~= before.frames);
                    return;
                },
            };
            assert(self@.frames =~= before.frames.drop_last());
            assert(top@ == before.frames.last());
            if top.next >= top.entries.len() {
                continue;
            }
            let step = classify(&top.entries[top.next]);
            let place = match step {
                WalkStep::Skip => None,
                _ => Some(top.dir.child(top.entries[top.next].name.as_str())),
            };
            let ghost rest = top@.rest;
            assert(rest[0] == top.entries@[top.next as int]@);
            top.next = top.next + 1;
            assert(top@.rest =~= rest.drop_first());
            self.frames.push(top);
            assert(self@.frames =~= before.frames.drop_last().push(
                FrameView { dir: before.frames.last().dir, rest: rest.drop_first() },
            ));
            match (step, place) {
                (WalkStep::Descend, Some(dir)) => {
                    self.pending = ScanRequest::List { dir };
                    return;
                },
                (WalkStep::Classify, Some(path)) => {
                    self.pending = ScanRequest::Judge { path };
                    return;
                },
                _ => {},
            }
        }
    }

    /// Answers a [`ScanRequest::List`]: `None` where the directory could
    /// not be read.
    pub fn listed(&mut self, entries: Option<Vec<Entry>>)
        ensures
            final(self)@ == old(self)@.listed(answer_view(entries)),
    {
        let mut pending = ScanRequest::Finished;
        core::mem::swap(&mut self.pending, &mut pending);
        match pending {
            ScanRequest::List { dir } => {
                let ghost before = self@.frames;
                match entries {
                    Some(list) => {
                        let frame = Frame { dir, entries: list, next: 0 };
                        assert(frame@.rest =~= listing_view(list@));
                        self.frames.push(frame);
                        assert(self@.frames =~= before.push(
                            FrameView { dir: dir@, rest: listing_view(list@) },
                        ));
                    },
                    None => {},
                }
                self.resume();
            },
            other => {
                self.pending = other;
            },
        }
    }

    /// Answers a [`ScanRequest::Judge`] with the verdict of the ignore
    /// rules.
    pub fn judged(&mut self, ignored: bool)
        ensures
            final(self)@ == old(self)@.judged(ignored),
    {
        let mut pending = ScanRequest::Finished;
        core::mem::swap(&mut self.pending, &mut pending);
        match pending {
            ScanRequest::Judge { path } => {
                if ignored {
                    self.pending = ScanRequest::Measure { path };
                } else {
                    self.resume();
                }
            },
            other => {
                self.pending = other;
            },
        }
    }

    /// Answers a [`ScanRequest::Measure`] with the bytes found below the
    /// directory.
    pub fn measured(&mut self, size: u64)
        ensures
            final(self)@ == old(self)@.measured(size),
    {
        let mut pending = ScanRequest::Finished;
        core::mem::swap(&mut self.pending, &mut pending);
        match pending {
            ScanRequest::Measure { path } => {
                let ghost before = self@.found;
                self.found.push(Purge { path, size });
                assert(self@.found =~= before.push(PurgeView { path: path@, size }));
                self.resume();
            },
            other => {
                self.pending = other;
            },
        }
    }
}

/// A directory that a scan may walk: every name on the way to it is plain.
pub open spec fn walkable(dir: Seq<Seq<char>>) -> bool {
    forall|i: int| 0 <= i < dir.len() ==> is_plain(#[trigger] dir[i])
}

/// The shape of every candidate: an artefact name at the end of a walkable
/// directory.
pub open spec fn candidate_shaped(path: Seq<Seq<char>>) -> bool {
    path.len() > 0 && walkable(path.drop_last()) && is_target(path.last())
}

impl ScannerView {
    /// What holds of a scan at every moment: it walks only walkable
    /// directories, asks only about them and about artefact directories
    /// directly below them, and every candidate is such a directory.
    pub open spec fn sound(self) -> bool {
        &&& forall|i: int| 0 <= i < self.frames.len() ==> walkable(#[trigger] self.frames[i].dir)
        &&& forall|i: int| 0 <= i < self.found.len() ==> candidate_shaped(#[trigger] self.found[i].path)
        &&& match self.pending {
            RequestView::List { dir } => walkable(dir),
            RequestView::Judge { path } => candidate_shaped(path),
            RequestView::Measure { path } => candidate_shaped(path),
            RequestView::Finished => true,
        }
    }
}

/// Taking up the walk keeps the scan sound, adds no candidate, and never
/// asks for a size.
pub proof fn lemma_resume(frames: Seq<FrameView>, found: Seq<PurgeView>)
    requires
        forall|i: int| 0 <= i < frames.len() ==> walkable(#[trigger] frames[i].dir),
        forall|i: int| 0 <= i < found.len() ==> candidate_shaped(#[trigger] found[i].path),
    ensures
        ScannerView::resume(frames, found).sound(),
        ScannerView::resume(frames, found).found == found,
        !(ScannerView::resume(frames, found).pending is Measure),
    decreases
        frames.len(),
        (if frames.len() > 0 {
            frames.last().rest.len()
        } else {
            0
        }),
{
    if frames.len() > 0 {
        let top = frames.last();
        if top.rest.len() == 0 {
            lemma_resume(frames.drop_last(), found);
        } else {
            let entry = top.rest[0];
            let below = frames.drop_last().push(
                FrameView { dir: top.dir, rest: top.rest.drop_first() },
            );
            let place = top.dir.push(entry.name);
            assert(place.drop_last() =~= top.dir);
            match step_for(entry) {
                WalkStep::Skip => {
                    lemma_resume(below, found);
                },
                WalkStep::Descend => {},
                WalkStep::Classify => {},
            }
        }
    }
}

/// A scan is sound when it begins.
pub proof fn lemma_start_sound()
    ensures
        ScannerView::start().sound(),
{
}

/// Every answer keeps a sound scan sound, whatever is answered.
pub proof fn lemma_answers_keep_sound(
    scan: ScannerView,
    entries: Option<Seq<EntryView>>,
    ignored: bool,
    size: u64,
)
    requires
        scan.sound(),
    ensures
        scan.listed(entries).sound(),
        scan.judged(ignored).sound(),
        scan.measured(size).sound(),
{
    match scan.pending {
        RequestView::List { dir } => {
            lemma_resume(scan.frames, scan.found);
            if let Some(rest) = entries {
                lemma_resume(scan.frames.push(FrameView { dir, rest }), scan.found);
            }
        },
        RequestView::Judge { path } => {
            lemma_resume(scan.frames, scan.found);
        },
        RequestView::Measure { path } => {
            lemma_resume(scan.frames, scan.found.push(PurgeView { path, size }));
        },
        RequestView::Finished => {},
    }
}

/// A directory becomes a candidate only after the ignore rules have
/// excluded it. Listings and verdicts leave the candidates as they are;
/// only the answer to a request for a size adds one, and it adds the
/// measured directory and nothing else. A size is asked for only after a
/// verdict of "ignored", and about the very directory that the verdict
/// was about.
pub proof fn lemma_only_ignored_directories_are_kept(
    scan: ScannerView,
    entries: Option<Seq<EntryView>>,
    ignored: bool,
    size: u64,
)
    requires
        scan.sound(),
    ensures
        scan.listed(entries).found == scan.found,
        scan.judged(ignored).found == scan.found,
        scan.measured(size).found == match scan.pending {
            RequestView::Measure { path } => scan.found.push(PurgeView { path, size }),
            _ => scan.found,
        },
        scan.listed(entries).pending is Measure ==> scan.listed(entries) == scan,
        scan.measured(size).pending is Measure ==> scan.measured(size) == scan,
        scan.judged(ignored).pending matches RequestView::Measure { path } ==> scan.judged(ignored)
            == scan || (ignored && scan.pending == (RequestView::Judge { path })),
{
    match scan.pending {
        RequestView::List { dir } => {
            lemma_resume(scan.frames, scan.found);
            if let Some(rest) = entries {
                lemma_resume(scan.frames.push(FrameView { dir, rest }), scan.found);
            }
        },
        RequestView::Judge { path } => {
            lemma_resume(scan.frames, scan.found);
        },
        RequestView::Measure { path } => {
            lemma_resume(scan.frames, scan.found.push(PurgeView { path, size }));
        },
        RequestView::Finished => {},
    }
}

/// No candidate of a sound scan lies below another: a scan does not walk
/// into a directory that it has matched.
pub proof fn lemma_candidates_never_nested(scan: ScannerView, i: int, j: int)
    requires
        scan.sound(),
        0 <= i < scan.found.len(),
        0 <= j < scan.found.len(),
    ensures
        !strictly_above(scan.found[i].path, scan.found[j].path),
{
    let short = scan.found[i].path;
    let long = scan.found[j].path;
    if strictly_above(short, long) {
        let k: int = short.len() - 1;
        assert(long.subrange(0, short.len() as int)[k] == short[k]);
        assert(long.drop_last()[k] == long[k]);
        assert(is_plain(long.drop_last()[k]));
        assert(is_target(short.last()));
    }
}

} // verus!
