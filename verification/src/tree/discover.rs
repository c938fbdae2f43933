//! A discovery over a tree: it finds exactly the repositories that the
//! tree holds within the depth, none of them below another.

use vstd::prelude::*;
use vstd::relations::sorted_by;
use crate::discover::{children, DiscoveryRequestView, DiscoveryView};
use crate::entry::{EntryKind, EntryView};
use crate::order::{lemma_sorted_paths_unique, path_order};
use crate::path::strictly_above;
use crate::tree::{entries_of, entry_of, listing_of, Tree};

verus! {

/// An answer to a discovery.
pub enum DiscoveryAnswer {
    Marker(bool),
    Listing(Option<Seq<EntryView>>),
}

/// The discovery after one answer.
pub open spec fn discovery_answered(
    discovery: DiscoveryView,
    answer: DiscoveryAnswer,
) -> DiscoveryView {
    match answer {
        DiscoveryAnswer::Marker(has_marker) => discovery.probed(has_marker),
        DiscoveryAnswer::Listing(entries) => discovery.listed(entries),
    }
}

/// The discovery after a run of answers.
pub open spec fn replay_discovery(
    discovery: DiscoveryView,
    answers: Seq<DiscoveryAnswer>,
) -> DiscoveryView
    decreases answers.len(),
{
    if answers.len() == 0 {
        discovery
    } else {
        replay_discovery(discovery_answered(discovery, answers[0]), answers.drop_first())
    }
}

/// A run of answers can be given in two parts.
pub proof fn lemma_replay_discovery_parts(
    discovery: DiscoveryView,
    first: Seq<DiscoveryAnswer>,
    second: Seq<DiscoveryAnswer>,
)
    ensures
        replay_discovery(discovery, first + second) == replay_discovery(
            replay_discovery(discovery, first),
            second,
        ),
    decreases first.len(),
{
    if first.len() == 0 {
        assert(first + second =~= second);
    } else {
        assert((first + second).drop_first() =~= first.drop_first() + second);
        lemma_replay_discovery_parts(
            discovery_answered(discovery, first[0]),
            first.drop_first(),
            second,
        );
    }
}

/// The repositories at the directory `dir`, which lies at `place`, `depth`
/// levels below the base, and below it. A directory that holds the marker
/// is one, and nothing below it is looked at. Any other is looked into if
/// it can be read and what it holds is still within `max_depth`.
/// `marked` says which places hold the marker.
pub open spec fn repos_at(
    place: Seq<Seq<char>>,
    dir: Tree,
    depth: nat,
    max_depth: nat,
    marked: spec_fn(Seq<Seq<char>>) -> bool,
) -> Seq<Seq<Seq<char>>>
    decreases dir,
{
    if marked(place) {
        seq![place]
    } else if depth < max_depth && dir.readable {
        repos_below(place, dir.children, depth + 1, max_depth, marked)
    } else {
        Seq::empty()
    }
}

/// The repositories at the directories among `trees`, which the directory
/// at `place` holds, and below them, in the order in which a discovery
/// comes to them: the last directory of a listing first. Links are no
/// directories.
pub open spec fn repos_below(
    place: Seq<Seq<char>>,
    trees: Seq<Tree>,
    depth: nat,
    max_depth: nat,
    marked: spec_fn(Seq<Seq<char>>) -> bool,
) -> Seq<Seq<Seq<char>>>
    decreases trees,
{
    if trees.len() == 0 {
        Seq::empty()
    } else if trees.last().kind == EntryKind::Directory {
        repos_at(place.push(trees.last().name), trees.last(), depth, max_depth, marked)
            + repos_below(place, trees.drop_last(), depth, max_depth, marked)
    } else {
        repos_below(place, trees.drop_last(), depth, max_depth, marked)
    }
}

/// The answers that a discovery is given for the directory `dir` at
/// `place` and what lies below it, in the order in which it asks.
pub open spec fn discovery_answers(
    place: Seq<Seq<char>>,
    dir: Tree,
    depth: nat,
    max_depth: nat,
    marked: spec_fn(Seq<Seq<char>>) -> bool,
) -> Seq<DiscoveryAnswer>
    decreases dir,
{
    if marked(place) {
        seq![DiscoveryAnswer::Marker(true)]
    } else if depth < max_depth {
        if dir.readable {
            seq![DiscoveryAnswer::Marker(false), DiscoveryAnswer::Listing(listing_of(dir))]
                + discovery_answers_below(place, dir.children, depth + 1, max_depth, marked)
        } else {
            seq![DiscoveryAnswer::Marker(false), DiscoveryAnswer::Listing(listing_of(dir))]
        }
    } else {
        seq![DiscoveryAnswer::Marker(false)]
    }
}

/// The answers given for the directories among `trees`, the last first.
pub open spec fn discovery_answers_below(
    place: Seq<Seq<char>>,
    trees: Seq<Tree>,
    depth: nat,
    max_depth: nat,
    marked: spec_fn(Seq<Seq<char>>) -> bool,
) -> Seq<DiscoveryAnswer>
    decreases trees,
{
    if trees.len() == 0 {
        Seq::empty()
    } else if trees.last().kind == EntryKind::Directory {
        discovery_answers(place.push(trees.last().name), trees.last(), depth, max_depth, marked)
            + discovery_answers_below(place, trees.drop_last(), depth, max_depth, marked)
    } else {
        discovery_answers_below(place, trees.drop_last(), depth, max_depth, marked)
    }
}

/// A discovery that probes a directory read off a tree finds exactly the
/// repositories that the tree holds there within the depth: once it has
/// been given all the answers that the directory calls for, it turns to
/// what waited before, with those repositories found.
pub proof fn lemma_discovery_of_directory(
    max_depth: usize,
    waiting: Seq<(Seq<Seq<char>>, usize)>,
    repos: Seq<Seq<Seq<char>>>,
    place: Seq<Seq<char>>,
    dir: Tree,
    depth: usize,
    marked: spec_fn(Seq<Seq<char>>) -> bool,
)
    requires
        depth <= max_depth,
    ensures
        replay_discovery(
            DiscoveryView {
                max_depth,
                waiting,
                repos,
                pending: DiscoveryRequestView::Probe { dir: place, depth },
            },
            discovery_answers(place, dir, depth as nat, max_depth as nat, marked),
        ) == DiscoveryView::next(
            max_depth,
            waiting,
            repos + repos_at(place, dir, depth as nat, max_depth as nat, marked),
        ),
    decreases dir, 1nat,
{
    let begun = DiscoveryView {
        max_depth,
        waiting,
        repos,
        pending: DiscoveryRequestView::Probe { dir: place, depth },
    };
    let answers = discovery_answers(place, dir, depth as nat, max_depth as nat, marked);
    reveal_with_fuel(replay_discovery, 3);
    if marked(place) {
        assert(answers.drop_first() =~= Seq::empty());
        assert(repos + seq![place] =~= repos.push(place));
    } else if depth < max_depth {
        let asked = begun.probed(false);
        if dir.readable {
            let listing = entries_of(dir.children);
            let deeper = (depth + 1) as usize;
            let inner = discovery_answers_below(
                place,
                dir.children,
                (depth + 1) as nat,
                max_depth as nat,
                marked,
            );
            assert(answers.drop_first().drop_first() =~= inner);
            lemma_discovery_below(max_depth, waiting, repos, place, dir.children, deeper, marked);
        } else {
            assert(answers.drop_first().drop_first() =~= Seq::empty());
            assert(repos + Seq::<Seq<Seq<char>>>::empty() =~= repos);
        }
    } else {
        assert(answers.drop_first() =~= Seq::empty());
        assert(repos + Seq::<Seq<Seq<char>>>::empty() =~= repos);
    }
}

/// The same for the directories that a listing names: once each has been
/// dealt with, the discovery turns to what waited before, with the
/// repositories at and below those directories found.
pub proof fn lemma_discovery_below(
    max_depth: usize,
    waiting: Seq<(Seq<Seq<char>>, usize)>,
    repos: Seq<Seq<Seq<char>>>,
    place: Seq<Seq<char>>,
    trees: Seq<Tree>,
    depth: usize,
    marked: spec_fn(Seq<Seq<char>>) -> bool,
)
    requires
        depth <= max_depth,
    ensures
        replay_discovery(
            DiscoveryView::next(
                max_depth,
                waiting + children(place, depth, entries_of(trees)),
                repos,
            ),
            discovery_answers_below(place, trees, depth as nat, max_depth as nat, marked),
        ) == DiscoveryView::next(
            max_depth,
            waiting,
            repos + repos_below(place, trees, depth as nat, max_depth as nat, marked),
        ),
    decreases trees, 0nat,
{
    let listing = entries_of(trees);
    if trees.len() == 0 {
        assert(waiting + children(place, depth, listing) =~= waiting);
        assert(repos + Seq::<Seq<Seq<char>>>::empty() =~= repos);
    } else {
        let last = trees.last();
        let before = trees.drop_last();
        assert(listing.drop_last() =~= entries_of(before));
        assert(listing.last() == entry_of(last));
        let others = waiting + children(place, depth, entries_of(before));
        if last.kind == EntryKind::Directory {
            let below = place.push(last.name);
            let gain = repos_at(below, last, depth as nat, max_depth as nat, marked);
            assert(waiting + children(place, depth, listing) =~= others.push((below, depth)));
            assert(others.push((below, depth)).drop_last() =~= others);
            lemma_discovery_of_directory(max_depth, others, repos, below, last, depth, marked);
            lemma_replay_discovery_parts(
                DiscoveryView::next(max_depth, others.push((below, depth)), repos),
                discovery_answers(below, last, depth as nat, max_depth as nat, marked),
                discovery_answers_below(place, before, depth as nat, max_depth as nat, marked),
            );
            lemma_discovery_below(max_depth, waiting, repos + gain, place, before, depth, marked);
            assert(repos + repos_below(place, trees, depth as nat, max_depth as nat, marked) =~= (
            repos + gain) + repos_below(place, before, depth as nat, max_depth as nat, marked));
        } else {
            assert(waiting + children(place, depth, listing) =~= others);
            lemma_discovery_below(max_depth, waiting, repos, place, before, depth, marked);
        }
    }
}

/// A whole discovery below a base read off a tree finds exactly the
/// repositories that the tree holds within the depth, and then asks for
/// nothing more.
pub proof fn lemma_whole_discovery(
    max_depth: usize,
    base: Tree,
    marked: spec_fn(Seq<Seq<char>>) -> bool,
)
    ensures
        replay_discovery(
            DiscoveryView::start(max_depth),
            discovery_answers(Seq::empty(), base, 0, max_depth as nat, marked),
        ) == (DiscoveryView {
            max_depth,
            waiting: Seq::empty(),
            repos: repos_at(Seq::empty(), base, 0, max_depth as nat, marked),
            pending: DiscoveryRequestView::Finished,
        }),
{
    lemma_discovery_of_directory(
        max_depth,
        Seq::empty(),
        Seq::empty(),
        Seq::empty(),
        base,
        0,
        marked,
    );
    assert(Seq::<Seq<Seq<char>>>::empty() + repos_at(
        Seq::empty(),
        base,
        0,
        max_depth as nat,
        marked,
    ) =~= repos_at(Seq::empty(), base, 0, max_depth as nat, marked));
}

/// Whether none of the directories passed on the way from `place` down to
/// `repo`, `place` among them and `repo` not, holds the marker.
pub open spec fn reached_through_unmarked(
    place: Seq<Seq<char>>,
    repo: Seq<Seq<char>>,
    marked: spec_fn(Seq<Seq<char>>) -> bool,
) -> bool {
    forall|n: int| place.len() <= n < repo.len() ==> !marked(#[trigger] repo.take(n))
}

/// Every repository found at a directory or below it holds the marker,
/// lies at that directory or below it, and is reached only through
/// directories that do not hold the marker.
pub proof fn lemma_repos_at_are_outermost(
    place: Seq<Seq<char>>,
    dir: Tree,
    depth: nat,
    max_depth: nat,
    marked: spec_fn(Seq<Seq<char>>) -> bool,
    k: int,
)
    requires
        0 <= k < repos_at(place, dir, depth, max_depth, marked).len(),
    ensures
        marked(repos_at(place, dir, depth, max_depth, marked)[k]),
        repos_at(place, dir, depth, max_depth, marked)[k].len() >= place.len(),
        repos_at(place, dir, depth, max_depth, marked)[k].take(place.len() as int) == place,
        reached_through_unmarked(place, repos_at(place, dir, depth, max_depth, marked)[k], marked),
    decreases dir, 1nat,
{
    let repo = repos_at(place, dir, depth, max_depth, marked)[k];
    if marked(place) {
        assert(repo.take(place.len() as int) =~= place);
    } else {
        lemma_repos_below_are_outermost(place, dir.children, depth + 1, max_depth, marked, k);
        assert(repo.take(place.len() as int + 1).take(place.len() as int) =~= repo.take(
            place.len() as int,
        ));
        assert forall|n: int| place.len() <= n < repo.len() implies !marked(
            #[trigger] repo.take(n),
        ) by {
            if n == place.len() {
                assert(repo.take(n) =~= place);
            }
        }
    }
}

/// The same for the repositories at and below the directories that a
/// directory holds.
pub proof fn lemma_repos_below_are_outermost(
    place: Seq<Seq<char>>,
    trees: Seq<Tree>,
    depth: nat,
    max_depth: nat,
    marked: spec_fn(Seq<Seq<char>>) -> bool,
    k: int,
)
    requires
        0 <= k < repos_below(place, trees, depth, max_depth, marked).len(),
    ensures
        marked(repos_below(place, trees, depth, max_depth, marked)[k]),
        repos_below(place, trees, depth, max_depth, marked)[k].len() > place.len(),
        repos_below(place, trees, depth, max_depth, marked)[k].take(place.len() as int + 1).take(
            place.len() as int,
        ) == place,
        forall|n: int|
            place.len() < n < repos_below(place, trees, depth, max_depth, marked)[k].len()
                ==> !marked(
                #[trigger] repos_below(place, trees, depth, max_depth, marked)[k].take(n),
            ),
    decreases trees, 0nat,
{
    let last = trees.last();
    let before = trees.drop_last();
    let repo = repos_below(place, trees, depth, max_depth, marked)[k];
    if last.kind == EntryKind::Directory {
        let below = place.push(last.name);
        let first = repos_at(below, last, depth, max_depth, marked);
        if k < first.len() {
            lemma_repos_at_are_outermost(below, last, depth, max_depth, marked, k);
            assert(repo.take(below.len() as int) == below);
            assert(repo.take(place.len() as int + 1).take(place.len() as int) =~= below.take(
                place.len() as int,
            ));
            assert(below.take(place.len() as int) =~= place);
        } else {
            lemma_repos_below_are_outermost(
                place,
                before,
                depth,
                max_depth,
                marked,
                k - first.len(),
            );
        }
    } else {
        lemma_repos_below_are_outermost(place, before, depth, max_depth, marked, k);
    }
}

/// No repository found lies below another: what lies below a repository
/// is not looked at.
pub proof fn lemma_repos_never_nested(
    max_depth: usize,
    base: Tree,
    marked: spec_fn(Seq<Seq<char>>) -> bool,
    i: int,
    j: int,
)
    requires
        0 <= i < repos_at(Seq::empty(), base, 0, max_depth as nat, marked).len(),
        0 <= j < repos_at(Seq::empty(), base, 0, max_depth as nat, marked).len(),
    ensures
        !strictly_above(
            repos_at(Seq::empty(), base, 0, max_depth as nat, marked)[i],
            repos_at(Seq::empty(), base, 0, max_depth as nat, marked)[j],
        ),
{
    let repos = repos_at(Seq::empty(), base, 0, max_depth as nat, marked);
    lemma_repos_at_are_outermost(Seq::empty(), base, 0, max_depth as nat, marked, i);
    lemma_repos_at_are_outermost(Seq::empty(), base, 0, max_depth as nat, marked, j);
    if strictly_above(repos[i], repos[j]) {
        assert(repos[j].take(repos[i].len() as int) =~= repos[j].subrange(
            0,
            repos[i].len() as int,
        ));
        assert(!marked(repos[j].take(repos[i].len() as int)));
    }
}

/// A discovery can be repeated: two reports in the order of paths that
/// hold the repositories of one tree, each as often as it was found, are
/// the same report, in whatever order the repositories were come upon.
pub proof fn lemma_discovery_is_repeatable(
    max_depth: usize,
    base: Tree,
    marked: spec_fn(Seq<Seq<char>>) -> bool,
    first: Seq<Seq<Seq<char>>>,
    second: Seq<Seq<Seq<char>>>,
)
    requires
        sorted_by(first, path_order()),
        sorted_by(second, path_order()),
        first.to_multiset() == repos_at(
            Seq::empty(),
            base,
            0,
            max_depth as nat,
            marked,
        ).to_multiset(),
        second.to_multiset() == repos_at(
            Seq::empty(),
            base,
            0,
            max_depth as nat,
            marked,
        ).to_multiset(),
    ensures
        first == second,
{
    lemma_sorted_paths_unique(first, second);
}

} // verus!
