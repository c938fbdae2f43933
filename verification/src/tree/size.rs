//! A measurement over a tree: it counts exactly the bytes of the regular
//! files below the directory measured.

use vstd::prelude::*;
use crate::entry::{EntryKind, EntryView};
use crate::size::{file_bytes, subdirs, AccountView};
use crate::tree::{entries_of, entry_of, listing_of, Tree};

verus! {

/// The bytes of the regular files among `trees` and below them: a file
/// counts with its length, a directory with what it holds if it can be
/// read, a link and anything else with nothing.
pub open spec fn bytes_in(trees: Seq<Tree>) -> nat
    decreases trees,
{
    if trees.len() == 0 {
        0
    } else {
        bytes_in(trees.drop_last()) + bytes_at(trees.last())
    }
}

/// The bytes of one tree.
pub open spec fn bytes_at(tree: Tree) -> nat
    decreases tree,
{
    match tree.kind {
        EntryKind::File => tree.len as nat,
        EntryKind::Directory => if tree.readable {
            bytes_in(tree.children)
        } else {
            0
        },
        _ => 0,
    }
}

/// The bytes below the directories among `trees`, their own files left
/// aside.
pub open spec fn bytes_below_dirs(trees: Seq<Tree>) -> nat
    decreases trees.len(),
{
    if trees.len() == 0 {
        0
    } else {
        bytes_below_dirs(trees.drop_last()) + if trees.last().kind == EntryKind::Directory {
            bytes_at(trees.last())
        } else {
            0
        }
    }
}

/// What holds below some trees is what their files hold and what lies
/// below their directories.
pub proof fn lemma_bytes_split(trees: Seq<Tree>)
    ensures
        bytes_in(trees) == file_bytes(entries_of(trees)) + bytes_below_dirs(trees),
    decreases trees.len(),
{
    reveal_with_fuel(bytes_in, 2);
    if trees.len() > 0 {
        lemma_bytes_split(trees.drop_last());
        assert(entries_of(trees).drop_last() =~= entries_of(trees.drop_last()));
        assert(entries_of(trees).last() == entry_of(trees.last()));
    }
}

/// The account after a run of answers.
pub open spec fn replay_size(
    account: AccountView,
    answers: Seq<Option<Seq<EntryView>>>,
) -> AccountView
    decreases answers.len(),
{
    if answers.len() == 0 {
        account
    } else {
        replay_size(account.listed(answers[0]), answers.drop_first())
    }
}

/// A run of answers can be given in two parts.
pub proof fn lemma_replay_size_parts(
    account: AccountView,
    first: Seq<Option<Seq<EntryView>>>,
    second: Seq<Option<Seq<EntryView>>>,
)
    ensures
        replay_size(account, first + second) == replay_size(replay_size(account, first), second),
    decreases first.len(),
{
    if first.len() == 0 {
        assert(first + second =~= second);
    } else {
        assert((first + second).drop_first() =~= first.drop_first() + second);
        lemma_replay_size_parts(account.listed(first[0]), first.drop_first(), second);
    }
}

/// The answers that a measurement of the directory `dir` is given, in the
/// order in which it asks: the listing of `dir`, then what it is given
/// for the directories in that listing, the last of them first.
pub open spec fn size_answers(dir: Tree) -> Seq<Option<Seq<EntryView>>>
    decreases dir,
{
    if dir.readable {
        seq![listing_of(dir)] + size_answers_below(dir.children)
    } else {
        seq![listing_of(dir)]
    }
}

/// The answers given for the directories among `trees`, the last first.
pub open spec fn size_answers_below(trees: Seq<Tree>) -> Seq<Option<Seq<EntryView>>>
    decreases trees,
{
    if trees.len() == 0 {
        Seq::empty()
    } else if trees.last().kind == EntryKind::Directory {
        size_answers(trees.last()) + size_answers_below(trees.drop_last())
    } else {
        size_answers_below(trees.drop_last())
    }
}

/// A measurement that reads a directory off a tree counts exactly the bytes
/// of the regular files below it, at whatever depth, and nothing for links:
/// once it has been given all its answers, the directory no longer waits
/// and the count has grown by what the tree holds.
pub proof fn lemma_measurement_is_exact(
    total: nat,
    waiting: Seq<Seq<Seq<char>>>,
    place: Seq<Seq<char>>,
    dir: Tree,
)
    requires
        dir.kind == EntryKind::Directory,
    ensures
        replay_size(AccountView { total, waiting: waiting.push(place) }, size_answers(dir)) == (
        AccountView { total: total + bytes_at(dir), waiting }),
    decreases dir, 1nat,
{
    let begun = AccountView { total, waiting: waiting.push(place) };
    assert(waiting.push(place).drop_last() =~= waiting);
    let answers = size_answers(dir);
    assert(answers[0] == listing_of(dir));
    assert(replay_size(begun, answers) == replay_size(
        begun.listed(listing_of(dir)),
        answers.drop_first(),
    ));
    if dir.readable {
        let listing = entries_of(dir.children);
        let listed = begun.listed(Some(listing));
        assert(size_answers(dir).drop_first() =~= size_answers_below(dir.children));
        assert(listed == AccountView {
            total: total + file_bytes(listing),
            waiting: waiting + subdirs(place, listing),
        });
        lemma_measurement_below(total + file_bytes(listing), waiting, place, dir.children);
        lemma_bytes_split(dir.children);
    } else {
        assert(answers.drop_first() =~= Seq::empty());
        assert(begun.listed(None) == AccountView { total, waiting });
    }
}

/// The same for the directories that a listing names: once each has been
/// read, none of them waits and the count has grown by what lies below
/// them.
pub proof fn lemma_measurement_below(
    total: nat,
    waiting: Seq<Seq<Seq<char>>>,
    place: Seq<Seq<char>>,
    trees: Seq<Tree>,
)
    ensures
        replay_size(
            AccountView { total, waiting: waiting + subdirs(place, entries_of(trees)) },
            size_answers_below(trees),
        ) == (AccountView { total: total + bytes_below_dirs(trees), waiting }),
    decreases trees, 0nat,
{
    let listing = entries_of(trees);
    if trees.len() == 0 {
        assert(waiting + subdirs(place, listing) =~= waiting);
    } else {
        let last = trees.last();
        let before = trees.drop_last();
        assert(listing.drop_last() =~= entries_of(before));
        assert(listing.last() == entry_of(last));
        if last.kind == EntryKind::Directory {
            let others = waiting + subdirs(place, entries_of(before));
            assert(waiting + subdirs(place, listing) =~= others.push(place.push(last.name)));
            lemma_measurement_is_exact(total, others, place.push(last.name), last);
            lemma_replay_size_parts(
                AccountView { total, waiting: others.push(place.push(last.name)) },
                size_answers(last),
                size_answers_below(before),
            );
            lemma_measurement_below(total + bytes_at(last), waiting, place, before);
        } else {
            assert(waiting + subdirs(place, listing) =~= waiting + subdirs(
                place,
                entries_of(before),
            ));
            lemma_measurement_below(total, waiting, place, before);
        }
    }
}

/// A measurement of a directory, from its beginning to its end, comes to
/// the bytes of the regular files below that directory.
pub proof fn lemma_whole_measurement(place: Seq<Seq<char>>, dir: Tree)
    requires
        dir.kind == EntryKind::Directory,
    ensures
        replay_size(AccountView::start(place), size_answers(dir)) == (AccountView {
            total: bytes_at(dir),
            waiting: Seq::empty(),
        }),
{
    assert(seq![place] =~= Seq::<Seq<Seq<char>>>::empty().push(place));
    lemma_measurement_is_exact(0, Seq::empty(), place, dir);
}

} // verus!
