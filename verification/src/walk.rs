//! The rules of the pruned walk: which names are build artefacts, which are
//! hidden, and what a walk does on meeting an entry.

use vstd::prelude::*;
use crate::entry::{Entry, EntryKind, EntryView};
use crate::text::{starts_with_char, text_eq};

verus! {

/// The names of the directories that hold build output or caches, in the
/// order in which they are tried.
pub open spec fn target_names() -> Seq<Seq<char>> {
    seq![
        "build"@,
        ".gradle"@,
        "bin"@,
        "obj"@,
        "node_modules"@,
        "target"@,
        "__pycache__"@,
        ".mypy_cache"@,
        ".pytest_cache"@,
        ".ruff_cache"@,
        ".tox"@,
    ]
}

/// Whether a name is one of the artefact directory names.
pub open spec fn is_target(name: Seq<char>) -> bool {
    target_names().contains(name)
}

/// Whether a name marks its entry as hidden.
pub open spec fn is_hidden(name: Seq<char>) -> bool {
    name.len() > 0 && name[0] == '.'
}

/// A name that a scan walks through: neither an artefact name nor hidden.
pub open spec fn is_plain(name: Seq<char>) -> bool {
    !is_target(name) && !is_hidden(name)
}

/// What a scan does on meeting an entry.
#[derive(Clone, Copy, PartialEq, Eq, Structural, Debug)]
pub enum WalkStep {
    /// Walk the entry's own listing.
    Descend,
    /// Ask whether the entry is ignored, and go no deeper either way.
    Classify,
    /// Pass over the entry and everything below it.
    Skip,
}

/// The step a scan takes on an entry. Only directories that are no links
/// are looked at; an artefact name is classified even where it is hidden;
/// other hidden directories are passed over.
pub open spec fn step_for(entry: EntryView) -> WalkStep {
    if entry.kind != EntryKind::Directory {
        WalkStep::Skip
    } else if is_target(entry.name) {
        WalkStep::Classify
    } else if is_hidden(entry.name) {
        WalkStep::Skip
    } else {
        WalkStep::Descend
    }
}

/// The artefact directory names.
pub fn targets() -> (names: Vec<&'static str>)
    ensures
        names@.map_values(|name: &'static str| name@) == target_names(),
{
    let names = vec![
        "build",
        ".gradle",
        "bin",
        "obj",
        "node_modules",
        "target",
        "__pycache__",
        ".mypy_cache",
        ".pytest_cache",
        ".ruff_cache",
        ".tox",
    ];
    assert(names@.map_values(|name: &'static str| name@) =~= target_names());
    names
}

/// Whether `name` is one of the artefact directory names.
pub fn is_target_name(name: &str) -> (yes: bool)
    ensures
        yes == is_target(name@),
{
    let yes = text_eq(name, "build") || text_eq(name, ".gradle") || text_eq(name, "bin")
        || text_eq(name, "obj") || text_eq(name, "node_modules") || text_eq(name, "target")
        || text_eq(name, "__pycache__") || text_eq(name, ".mypy_cache") || text_eq(
        name,
        ".pytest_cache",
    ) || text_eq(name, ".ruff_cache") || text_eq(name, ".tox");
    proof {
        let names = target_names();
        if yes {
            let i: int = if name@ == names[0] {
                0
            } else if name@ == names[1] {
                1
            } else if name@ == names[2] {
                2
            } else if name@ == names[3] {
                3
            } else if name@ == names[4] {
                4
            } else if name@ == names[5] {
                5
            } else if name@ == names[6] {
                6
            } else if name@ == names[7] {
                7
            } else if name@ == names[8] {
                8
            } else if name@ == names[9] {
                9
            } else {
                10
            };
            assert(names[i] == name@);
        } else {
            assert forall|i: int| 0 <= i < names.len() implies names[i] != name@ by {}
        }
    }
    yes
}

/// Whether `name` marks its entry as hidden.
pub fn is_hidden_name(name: &str) -> (yes: bool)
    ensures
        yes == is_hidden(name@),
{
    starts_with_char(name, '.')
}

/// The step a scan takes on `entry`.
pub fn classify(entry: &Entry) -> (step: WalkStep)
    ensures
        step == step_for(entry@),
{
    if entry.kind != EntryKind::Directory {
        WalkStep::Skip
    } else if is_target_name(entry.name.as_str()) {
        WalkStep::Classify
    } else if is_hidden_name(entry.name.as_str()) {
        WalkStep::Skip
    } else {
        WalkStep::Descend
    }
}

} // verus!
