//! A scan over a tree: it finds exactly the artefact directories that the
//! ignore rules exclude and that no hidden directory, no artefact
//! directory and no link stands in the way of, each once.

use vstd::prelude::*;
use vstd::seq_lib::seq_to_set_is_finite;
use crate::entry::EntryView;
use crate::path::query_text;
use crate::scan::{FrameView, PurgeView, RequestView, ScannerView};
use crate::tree::{entries_of, entry_of, listing_of, Tree};
use crate::walk::{step_for, WalkStep};

verus! {

/// What a scan learns from outside the tree.
pub struct Outside {
    /// What the ignore rules say when asked with a given text.
    pub ignored: spec_fn(Seq<char>) -> bool,
    /// What measuring the directory at a given path comes to.
    pub sizes: spec_fn(Seq<Seq<char>>) -> u64,
}

/// An answer to a scan.
pub enum ScanAnswer {
    Listing(Option<Seq<EntryView>>),
    Verdict(bool),
    Size(u64),
}

/// The scan after one answer.
pub open spec fn answered(scan: ScannerView, answer: ScanAnswer) -> ScannerView {
    match answer {
        ScanAnswer::Listing(entries) => scan.listed(entries),
        ScanAnswer::Verdict(ignored) => scan.judged(ignored),
        ScanAnswer::Size(size) => scan.measured(size),
    }
}

/// The scan after a run of answers.
pub open spec fn replay_scan(scan: ScannerView, answers: Seq<ScanAnswer>) -> ScannerView
    decreases answers.len(),
{
    if answers.len() == 0 {
        scan
    } else {
        replay_scan(answered(scan, answers[0]), answers.drop_first())
    }
}

/// A run of answers can be given in two parts.
pub proof fn lemma_replay_scan_parts(
    scan: ScannerView,
    first: Seq<ScanAnswer>,
    second: Seq<ScanAnswer>,
)
    ensures
        replay_scan(scan, first + second) == replay_scan(replay_scan(scan, first), second),
    decreases first.len(),
{
    if first.len() == 0 {
        assert(first + second =~= second);
    } else {
        assert((first + second).drop_first() =~= first.drop_first() + second);
        lemma_replay_scan_parts(answered(scan, first[0]), first.drop_first(), second);
    }
}

/// The candidates among `trees`, which the directory `dir` holds, and
/// below them, in the order of the walk.
pub open spec fn harvest(dir: Seq<Seq<char>>, trees: Seq<Tree>, outside: Outside) -> Seq<PurgeView>
    decreases trees,
{
    if trees.len() == 0 {
        Seq::empty()
    } else {
        harvest_at(dir, trees[0], outside) + harvest(dir, trees.drop_first(), outside)
    }
}

/// The candidates that one tree in the directory `dir` gives. An artefact
/// directory is one if the ignore rules exclude it, asked about with the
/// separator after its path; nothing below it is looked at either way. A
/// plain directory gives what it holds, if it can be read. Anything else,
/// links and hidden directories among it, gives nothing.
pub open spec fn harvest_at(dir: Seq<Seq<char>>, tree: Tree, outside: Outside) -> Seq<PurgeView>
    decreases tree,
{
    let place = dir.push(tree.name);
    match step_for(entry_of(tree)) {
        WalkStep::Skip => Seq::empty(),
        WalkStep::Classify => if (outside.ignored)(query_text(place)) {
            seq![PurgeView { path: place, size: (outside.sizes)(place) }]
        } else {
            Seq::empty()
        },
        WalkStep::Descend => if tree.readable {
            harvest(place, tree.children, outside)
        } else {
            Seq::empty()
        },
    }
}

/// The answers that a scan is given while it deals with `trees`, which the
/// directory `dir` holds, in the order in which it asks.
pub open spec fn scan_answers(dir: Seq<Seq<char>>, trees: Seq<Tree>, outside: Outside) -> Seq<
    ScanAnswer,
>
    decreases trees,
{
    if trees.len() == 0 {
        Seq::empty()
    } else {
        scan_answers_at(dir, trees[0], outside) + scan_answers(dir, trees.drop_first(), outside)
    }
}

/// The answers that a scan is given for one tree in the directory `dir`:
/// none for what it passes over; a verdict for an artefact directory, and
/// a size after it where the verdict is "ignored"; a listing for a plain
/// directory, and what its entries call for.
pub open spec fn scan_answers_at(dir: Seq<Seq<char>>, tree: Tree, outside: Outside) -> Seq<
    ScanAnswer,
>
    decreases tree,
{
    let place = dir.push(tree.name);
    match step_for(entry_of(tree)) {
        WalkStep::Skip => Seq::empty(),
        WalkStep::Classify => if (outside.ignored)(query_text(place)) {
            seq![ScanAnswer::Verdict(true), ScanAnswer::Size((outside.sizes)(place))]
        } else {
            seq![ScanAnswer::Verdict(false)]
        },
        WalkStep::Descend => if tree.readable {
            seq![ScanAnswer::Listing(listing_of(tree))] + scan_answers(
                place,
                tree.children,
                outside,
            )
        } else {
            seq![ScanAnswer::Listing(listing_of(tree))]
        },
    }
}

/// A scan that walks a directory read off a tree leaves it with exactly
/// the candidates that the tree holds there: once it has been given all
/// the answers that the entries call for, it stands where it would stand
/// had the directory been empty and the candidates been found already.
pub proof fn lemma_scan_of_directory(
    frames: Seq<FrameView>,
    found: Seq<PurgeView>,
    dir: Seq<Seq<char>>,
    trees: Seq<Tree>,
    outside: Outside,
)
    ensures
        replay_scan(
            ScannerView::resume(frames.push(FrameView { dir, rest: entries_of(trees) }), found),
            scan_answers(dir, trees, outside),
        ) == ScannerView::resume(frames, found + harvest(dir, trees, outside)),
    decreases trees,
{
    let walking = frames.push(FrameView { dir, rest: entries_of(trees) });
    assert(walking.drop_last() =~= frames);
    if trees.len() == 0 {
        assert(found + harvest(dir, trees, outside) =~= found);
    } else {
        let tree = trees[0];
        let others = trees.drop_first();
        let place = dir.push(tree.name);
        let below = frames.push(FrameView { dir, rest: entries_of(others) });
        let begun = ScannerView::resume(walking, found);
        let first = scan_answers_at(dir, tree, outside);
        let second = scan_answers(dir, others, outside);
        let gain = harvest_at(dir, tree, outside);
        assert(entries_of(trees)[0] == entry_of(tree));
        assert(entries_of(trees).drop_first() =~= entries_of(others));
        assert(walking.drop_last().push(
            FrameView { dir, rest: entries_of(trees).drop_first() },
        ) =~= below);
        assert(found + harvest(dir, trees, outside) =~= (found + gain) + harvest(
            dir,
            others,
            outside,
        ));
        lemma_replay_scan_parts(begun, first, second);
        lemma_scan_of_directory(frames, found + gain, dir, others, outside);
        assert(replay_scan(begun, first) == ScannerView::resume(below, found + gain)) by {
            reveal_with_fuel(replay_scan, 3);
            match step_for(entry_of(tree)) {
                WalkStep::Skip => {
                    assert(found + gain =~= found);
                },
                WalkStep::Classify => {
                    if (outside.ignored)(query_text(place)) {
                        assert(first.drop_first() =~= seq![
                            ScanAnswer::Size((outside.sizes)(place)),
                        ]);
                        assert(first.drop_first().drop_first() =~= Seq::empty());
                        assert(found + gain =~= found.push(
                            PurgeView { path: place, size: (outside.sizes)(place) },
                        ));
                    } else {
                        assert(first.drop_first() =~= Seq::empty());
                        assert(found + gain =~= found);
                    }
                },
                WalkStep::Descend => {
                    if tree.readable {
                        let inner = scan_answers(place, tree.children, outside);
                        assert(first.drop_first() =~= inner);
                        lemma_scan_of_directory(below, found, place, tree.children, outside);
                    } else {
                        assert(first.drop_first() =~= Seq::empty());
                        assert(found + gain =~= found);
                    }
                },
            }
        }
    }
}

/// The answers that a whole scan of the repository `root` is given: the
/// listing of the repository itself, and what its entries call for.
pub open spec fn whole_scan_answers(root: Tree, outside: Outside) -> Seq<ScanAnswer> {
    if root.readable {
        seq![ScanAnswer::Listing(listing_of(root))] + scan_answers(
            Seq::empty(),
            root.children,
            outside,
        )
    } else {
        seq![ScanAnswer::Listing(listing_of(root))]
    }
}

/// The candidates that the repository `root` holds: none where it cannot
/// be read.
pub open spec fn whole_harvest(root: Tree, outside: Outside) -> Seq<PurgeView> {
    if root.readable {
        harvest(Seq::empty(), root.children, outside)
    } else {
        Seq::empty()
    }
}

/// A whole scan of a repository read off a tree finds exactly the
/// candidates that the tree holds, in the order of the walk, and then
/// asks for nothing more.
pub proof fn lemma_whole_scan(root: Tree, outside: Outside)
    ensures
        replay_scan(ScannerView::start(), whole_scan_answers(root, outside)) == (ScannerView {
            frames: Seq::empty(),
            found: whole_harvest(root, outside),
            pending: RequestView::Finished,
        }),
{
    let base = Seq::<Seq<char>>::empty();
    let first = seq![ScanAnswer::Listing(listing_of(root))];
    let none = Seq::<FrameView>::empty();
    reveal_with_fuel(replay_scan, 2);
    assert(first.drop_first() =~= Seq::empty());
    if root.readable {
        let second = scan_answers(base, root.children, outside);
        lemma_replay_scan_parts(ScannerView::start(), first, second);
        assert(replay_scan(ScannerView::start(), first) == ScannerView::resume(
            none.push(FrameView { dir: base, rest: entries_of(root.children) }),
            Seq::empty(),
        ));
        lemma_scan_of_directory(none, Seq::empty(), base, root.children, outside);
        assert(Seq::<PurgeView>::empty() + harvest(base, root.children, outside) =~= harvest(
            base,
            root.children,
            outside,
        ));
    }
}

/// Whether the directory at `rel` below `dir`, which holds `trees`, is one
/// that a scan is to keep: an artefact directory that the ignore rules
/// exclude, reached through directories that are plain and can be read.
/// However deep it lies does not matter; a hidden directory, an artefact
/// directory or a link on the way to it does.
pub open spec fn kept(
    dir: Seq<Seq<char>>,
    trees: Seq<Tree>,
    rel: Seq<Seq<char>>,
    outside: Outside,
) -> bool
    decreases rel.len(), 1nat,
{
    exists|i: int| 0 <= i < trees.len() && kept_through(dir, #[trigger] trees[i], rel, outside)
}

/// Whether `rel` is kept and leads through `tree`, or is `tree` itself.
pub open spec fn kept_through(
    dir: Seq<Seq<char>>,
    tree: Tree,
    rel: Seq<Seq<char>>,
    outside: Outside,
) -> bool
    decreases rel.len(), 0nat,
{
    if rel.len() == 0 || rel[0] != tree.name {
        false
    } else if rel.len() == 1 {
        step_for(entry_of(tree)) == WalkStep::Classify && (outside.ignored)(
            query_text(dir.push(tree.name)),
        )
    } else {
        step_for(entry_of(tree)) == WalkStep::Descend && tree.readable && kept(
            dir.push(tree.name),
            tree.children,
            rel.drop_first(),
            outside,
        )
    }
}

/// Whether one of the candidates lies at `path`.
pub open spec fn holds(found: Seq<PurgeView>, path: Seq<Seq<char>>) -> bool {
    exists|k: int| 0 <= k < found.len() && (#[trigger] found[k]).path == path
}

/// What one tree gives is among what its directory gives.
proof fn lemma_harvest_holds_each(
    dir: Seq<Seq<char>>,
    trees: Seq<Tree>,
    i: int,
    path: Seq<Seq<char>>,
    outside: Outside,
)
    requires
        0 <= i < trees.len(),
        holds(harvest_at(dir, trees[i], outside), path),
    ensures
        holds(harvest(dir, trees, outside), path),
    decreases i,
{
    let first = harvest_at(dir, trees[0], outside);
    let rest = harvest(dir, trees.drop_first(), outside);
    let all = harvest(dir, trees, outside);
    if i == 0 {
        let k = choose|k: int| 0 <= k < first.len() && (#[trigger] first[k]).path == path;
        assert(all[k].path == path);
    } else {
        assert(trees.drop_first()[i - 1] == trees[i]);
        lemma_harvest_holds_each(dir, trees.drop_first(), i - 1, path, outside);
        let k = choose|k: int| 0 <= k < rest.len() && (#[trigger] rest[k]).path == path;
        assert(all[first.len() + k].path == path);
    }
}

/// Every directory that is to be kept is found, at whatever depth it
/// lies.
pub proof fn lemma_kept_is_found(
    dir: Seq<Seq<char>>,
    trees: Seq<Tree>,
    rel: Seq<Seq<char>>,
    outside: Outside,
)
    requires
        kept(dir, trees, rel, outside),
    ensures
        holds(harvest(dir, trees, outside), dir + rel),
    decreases rel.len(),
{
    let i = choose|i: int|
        0 <= i < trees.len() && kept_through(dir, #[trigger] trees[i], rel, outside);
    let tree = trees[i];
    let place = dir.push(tree.name);
    let gain = harvest_at(dir, tree, outside);
    if rel.len() == 1 {
        assert(dir + rel =~= place);
        assert(gain[0].path == place);
    } else {
        lemma_kept_is_found(place, tree.children, rel.drop_first(), outside);
        assert(place + rel.drop_first() =~= dir + rel);
    }
    lemma_harvest_holds_each(dir, trees, i, dir + rel, outside);
}

/// Every candidate that one tree gives lies at that tree or below it, and
/// is to be kept.
pub proof fn lemma_found_at_is_kept(dir: Seq<Seq<char>>, tree: Tree, k: int, outside: Outside)
    requires
        0 <= k < harvest_at(dir, tree, outside).len(),
    ensures
        harvest_at(dir, tree, outside)[k].path.len() > dir.len(),
        harvest_at(dir, tree, outside)[k].path.take(dir.len() as int) == dir,
        kept_through(
            dir,
            tree,
            harvest_at(dir, tree, outside)[k].path.skip(dir.len() as int),
            outside,
        ),
    decreases tree, 0nat,
{
    let place = dir.push(tree.name);
    let path = harvest_at(dir, tree, outside)[k].path;
    let rel = path.skip(dir.len() as int);
    match step_for(entry_of(tree)) {
        WalkStep::Skip => {},
        WalkStep::Classify => {
            assert(path == place);
            assert(path.take(dir.len() as int) =~= dir);
            assert(rel =~= seq![tree.name]);
        },
        WalkStep::Descend => {
            lemma_found_is_kept(place, tree.children, k, outside);
            assert(path.take(place.len() as int).take(dir.len() as int) =~= path.take(
                dir.len() as int,
            ));
            assert(place.take(dir.len() as int) =~= dir);
            assert(path.take(place.len() as int)[dir.len() as int] == tree.name);
            assert(rel.drop_first() =~= path.skip(place.len() as int));
        },
    }
}

/// Every candidate found lies below the directory walked and is to be
/// kept: nothing is kept that the ignore rules do not exclude, that is no
/// artefact directory, or that lies below a hidden or an artefact
/// directory.
pub proof fn lemma_found_is_kept(dir: Seq<Seq<char>>, trees: Seq<Tree>, k: int, outside: Outside)
    requires
        0 <= k < harvest(dir, trees, outside).len(),
    ensures
        harvest(dir, trees, outside)[k].path.len() > dir.len(),
        harvest(dir, trees, outside)[k].path.take(dir.len() as int) == dir,
        kept(dir, trees, harvest(dir, trees, outside)[k].path.skip(dir.len() as int), outside),
    decreases trees, 1nat,
{
    let first = harvest_at(dir, trees[0], outside);
    let others = trees.drop_first();
    let rel = harvest(dir, trees, outside)[k].path.skip(dir.len() as int);
    if k < first.len() {
        lemma_found_at_is_kept(dir, trees[0], k, outside);
        assert(kept_through(dir, trees[0], rel, outside));
    } else {
        lemma_found_is_kept(dir, others, k - first.len(), outside);
        let i = choose|i: int|
            0 <= i < others.len() && kept_through(dir, #[trigger] others[i], rel, outside);
        assert(others[i] == trees[i + 1]);
        assert(kept_through(dir, trees[i + 1], rel, outside));
    }
}

/// Whether no directory holds two entries of one name, here and below.
pub open spec fn well_named(trees: Seq<Tree>) -> bool
    decreases trees,
{
    &&& forall|i: int, j: int|
        0 <= i < j < trees.len() ==> (#[trigger] trees[i]).name != (#[trigger] trees[j]).name
    &&& forall|i: int| 0 <= i < trees.len() ==> well_named((#[trigger] trees[i]).children)
}

/// No directory is found twice: where no directory holds two entries of
/// one name, the candidates lie at different places, so that there are as
/// many candidates as there are directories to keep.
pub proof fn lemma_no_candidate_twice(
    dir: Seq<Seq<char>>,
    trees: Seq<Tree>,
    a: int,
    b: int,
    outside: Outside,
)
    requires
        well_named(trees),
        0 <= a < b < harvest(dir, trees, outside).len(),
    ensures
        harvest(dir, trees, outside)[a].path != harvest(dir, trees, outside)[b].path,
    decreases trees,
{
    let tree = trees[0];
    let first = harvest_at(dir, tree, outside);
    let others = trees.drop_first();
    let all = harvest(dir, trees, outside);
    assert(well_named(others)) by {
        assert forall|i: int, j: int| 0 <= i < j < others.len() implies (#[trigger] others[i]).name
            != (#[trigger] others[j]).name by {
            assert(others[i] == trees[i + 1] && others[j] == trees[j + 1]);
        }
        assert forall|i: int| 0 <= i < others.len() implies well_named(
            (#[trigger] others[i]).children,
        ) by {
            assert(others[i] == trees[i + 1]);
        }
    }
    if b < first.len() {
        assert(step_for(entry_of(tree)) == WalkStep::Descend && tree.readable);
        assert(well_named(trees[0].children));
        lemma_no_candidate_twice(dir.push(tree.name), tree.children, a, b, outside);
    } else if a >= first.len() {
        lemma_no_candidate_twice(dir, others, a - first.len(), b - first.len(), outside);
    } else {
        lemma_found_at_is_kept(dir, tree, a, outside);
        lemma_found_is_kept(dir, others, b - first.len(), outside);
        let rel = all[b].path.skip(dir.len() as int);
        let i = choose|i: int|
            0 <= i < others.len() && kept_through(dir, #[trigger] others[i], rel, outside);
        assert(others[i] == trees[i + 1]);
        assert(all[a].path.skip(dir.len() as int)[0] == tree.name);
        assert(rel[0] == trees[i + 1].name);
        assert(trees[0].name != trees[i + 1].name);
    }
}

/// The places of candidates, in their order.
pub open spec fn places(found: Seq<PurgeView>) -> Seq<Seq<Seq<char>>> {
    found.map_values(|p: PurgeView| p.path)
}

/// The places below `dir`, which holds `trees`, that a scan is to keep.
pub open spec fn kept_places(dir: Seq<Seq<char>>, trees: Seq<Tree>, outside: Outside) -> Set<
    Seq<Seq<char>>,
> {
    Set::new(
        |path: Seq<Seq<char>>|
            path.len() >= dir.len() && path.take(dir.len() as int) == dir && kept(
                dir,
                trees,
                path.skip(dir.len() as int),
                outside,
            ),
    )
}

/// There is one candidate for each directory that is to be kept: where no
/// directory holds two entries of one name, the places found are the
/// places to keep, none of them twice, so that as many candidates are
/// found as there are directories to keep.
pub proof fn lemma_one_candidate_for_each(
    dir: Seq<Seq<char>>,
    trees: Seq<Tree>,
    outside: Outside,
)
    requires
        well_named(trees),
    ensures
        places(harvest(dir, trees, outside)).no_duplicates(),
        places(harvest(dir, trees, outside)).to_set() == kept_places(dir, trees, outside),
        kept_places(dir, trees, outside).finite(),
        kept_places(dir, trees, outside).len() == harvest(dir, trees, outside).len(),
{
    let found = harvest(dir, trees, outside);
    let at = places(found);
    assert forall|i: int, j: int| 0 <= i < at.len() && 0 <= j < at.len() && i != j implies at[i]
        != at[j] by {
        if i < j {
            lemma_no_candidate_twice(dir, trees, i, j, outside);
        } else {
            lemma_no_candidate_twice(dir, trees, j, i, outside);
        }
    }
    assert forall|path: Seq<Seq<char>>| at.to_set().contains(path) <==> kept_places(
        dir,
        trees,
        outside,
    ).contains(path) by {
        if at.contains(path) {
            let k = choose|k: int| 0 <= k < at.len() && at[k] == path;
            lemma_found_is_kept(dir, trees, k, outside);
        }
        if kept_places(dir, trees, outside).contains(path) {
            let rel = path.skip(dir.len() as int);
            lemma_kept_is_found(dir, trees, rel, outside);
            assert(dir + rel =~= path);
            let k = choose|k: int| 0 <= k < found.len() && (#[trigger] found[k]).path == path;
            assert(at[k] == path);
        }
    }
    assert(at.to_set() =~= kept_places(dir, trees, outside));
    seq_to_set_is_finite(at);
    at.unique_seq_to_set();
}

/// A whole scan finds an artefact directory that the ignore rules exclude
/// however deep it lies in the repository, provided the repository and
/// every directory on the way can be read and none of these is hidden, an
/// artefact directory or a link.
pub proof fn lemma_whole_scan_finds_nested(root: Tree, rel: Seq<Seq<char>>, outside: Outside)
    requires
        root.readable,
        kept(Seq::empty(), root.children, rel, outside),
    ensures
        holds(replay_scan(ScannerView::start(), whole_scan_answers(root, outside)).found, rel),
{
    lemma_whole_scan(root, outside);
    lemma_kept_is_found(Seq::empty(), root.children, rel, outside);
    assert(Seq::<Seq<char>>::empty() + rel =~= rel);
}

/// A scan can be repeated: two whole scans of one tree, under the same
/// ignore rules and with the same sizes, find the same candidates in the
/// same order, namely those that the tree holds.
pub proof fn lemma_scan_is_repeatable(
    root: Tree,
    outside: Outside,
    first: ScannerView,
    second: ScannerView,
)
    requires
        first == replay_scan(ScannerView::start(), whole_scan_answers(root, outside)),
        second == replay_scan(ScannerView::start(), whole_scan_answers(root, outside)),
    ensures
        first.found == second.found,
        first.found == whole_harvest(root, outside),
{
    lemma_whole_scan(root, outside);
}

} // verus!
