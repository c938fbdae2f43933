//! The order in which paths are reported: name by name from the base down,
//! each name by its bytes, a path before every path below it.

use vstd::prelude::*;
use vstd::multiset::*;
use vstd::relations::*;
use vstd::seq_lib::*;
use vstd::utf8::*;
use crate::path::RelPath;
use crate::text::text_eq;

verus! {

/// Whether `a` comes before `b` or equals it when the two are compared
/// item by item from the front: the first items that differ decide, and a
/// sequence comes before every longer one that begins with it.
pub open spec fn lex_le<T>(a: Seq<T>, b: Seq<T>, le: spec_fn(T, T) -> bool) -> bool
    decreases a.len(),
{
    if a.len() == 0 {
        true
    } else if b.len() == 0 {
        false
    } else if a[0] == b[0] {
        lex_le(a.drop_first(), b.drop_first(), le)
    } else {
        le(a[0], b[0])
    }
}

/// The order of bytes by their value.
pub open spec fn byte_order() -> spec_fn(u8, u8) -> bool {
    |x: u8, y: u8| x <= y
}

/// Whether the name `a` comes before the name `b` or equals it: the order
/// of their bytes in UTF-8.
pub open spec fn name_le(a: Seq<char>, b: Seq<char>) -> bool {
    lex_le(encode_utf8(a), encode_utf8(b), byte_order())
}

/// The order of names.
pub open spec fn name_order() -> spec_fn(Seq<char>, Seq<char>) -> bool {
    |a: Seq<char>, b: Seq<char>| name_le(a, b)
}

/// Whether the path `a` comes before the path `b` or equals it.
pub open spec fn path_le(a: Seq<Seq<char>>, b: Seq<Seq<char>>) -> bool {
    lex_le(a, b, name_order())
}

/// The order of paths.
pub open spec fn path_order() -> spec_fn(Seq<Seq<char>>, Seq<Seq<char>>) -> bool {
    |a: Seq<Seq<char>>, b: Seq<Seq<char>>| path_le(a, b)
}

/// Paths as contracts speak of them: each by its view, in order.
pub open spec fn paths_view(paths: Seq<RelPath>) -> Seq<Seq<Seq<char>>> {
    paths.map_values(|p: RelPath| p@)
}

/// Every sequence comes before or equals itself.
pub proof fn lemma_lex_reflexive<T>(a: Seq<T>, le: spec_fn(T, T) -> bool)
    ensures
        lex_le(a, a, le),
    decreases a.len(),
{
    if a.len() > 0 {
        lemma_lex_reflexive(a.drop_first(), le);
    }
}

/// Two sequences that each come before or equal the other are equal.
pub proof fn lemma_lex_antisymmetric<T>(a: Seq<T>, b: Seq<T>, le: spec_fn(T, T) -> bool)
    requires
        antisymmetric(le),
        lex_le(a, b, le),
        lex_le(b, a, le),
    ensures
        a == b,
    decreases a.len(),
{
    if a.len() == 0 {
        assert(a =~= b);
    } else {
        if a[0] == b[0] {
            lemma_lex_antisymmetric(a.drop_first(), b.drop_first(), le);
            assert(a =~= seq![a[0]] + a.drop_first());
            assert(b =~= seq![b[0]] + b.drop_first());
        } else {
            assert(le(a[0], b[0]) && le(b[0], a[0]));
        }
    }
}

/// Of any two sequences one comes before or equals the other.
pub proof fn lemma_lex_connected<T>(a: Seq<T>, b: Seq<T>, le: spec_fn(T, T) -> bool)
    requires
        strongly_connected(le),
    ensures
        lex_le(a, b, le) || lex_le(b, a, le),
    decreases a.len(),
{
    if a.len() > 0 && b.len() > 0 {
        if a[0] == b[0] {
            lemma_lex_connected(a.drop_first(), b.drop_first(), le);
        } else {
            assert(le(a[0], b[0]) || le(b[0], a[0]));
        }
    }
}

/// What comes before something that comes before a third comes before
/// the third.
pub proof fn lemma_lex_transitive<T>(a: Seq<T>, b: Seq<T>, c: Seq<T>, le: spec_fn(T, T) -> bool)
    requires
        antisymmetric(le),
        transitive(le),
        lex_le(a, b, le),
        lex_le(b, c, le),
    ensures
        lex_le(a, c, le),
    decreases a.len(),
{
    if a.len() > 0 {
        if a[0] == b[0] && b[0] == c[0] {
            lemma_lex_transitive(a.drop_first(), b.drop_first(), c.drop_first(), le);
        } else if a[0] != b[0] && b[0] != c[0] {
            assert(le(a[0], b[0]) && le(b[0], c[0]));
            assert(le(a[0], c[0]));
            if a[0] == c[0] {
                assert(le(b[0], a[0]));
            }
        }
    }
}

/// The order of bytes is total.
pub proof fn lemma_byte_order_total()
    ensures
        total_ordering(byte_order()),
{
    let le = byte_order();
    assert(reflexive(le)) by {
        assert forall|x: u8| #[trigger] le(x, x) by {}
    }
    assert(antisymmetric(le)) by {
        assert forall|x: u8, y: u8| #[trigger] le(x, y) && #[trigger] le(y, x) implies x == y by {}
    }
    assert(transitive(le)) by {
        assert forall|x: u8, y: u8, z: u8| #[trigger] le(x, y) && #[trigger] le(y, z) implies le(
            x,
            z,
        ) by {}
    }
    assert(strongly_connected(le)) by {
        assert forall|x: u8, y: u8| #[trigger] le(x, y) || #[trigger] le(y, x) by {}
    }
}

/// The order of names is total.
pub proof fn lemma_name_order_total()
    ensures
        total_ordering(name_order()),
{
    let le = name_order();
    lemma_byte_order_total();
    assert forall|x: Seq<char>| #[trigger] le(x, x) by {
        lemma_lex_reflexive(encode_utf8(x), byte_order());
    }
    assert forall|x: Seq<char>, y: Seq<char>| #[trigger] le(x, y) && #[trigger] le(
        y,
        x,
    ) implies x == y by {
        lemma_lex_antisymmetric(encode_utf8(x), encode_utf8(y), byte_order());
        encode_utf8_decode_utf8(x);
        encode_utf8_decode_utf8(y);
    }
    assert forall|x: Seq<char>, y: Seq<char>, z: Seq<char>| #[trigger] le(x, y) && #[trigger] le(
        y,
        z,
    ) implies le(x, z) by {
        lemma_lex_transitive(encode_utf8(x), encode_utf8(y), encode_utf8(z), byte_order());
    }
    assert forall|x: Seq<char>, y: Seq<char>| #[trigger] le(x, y) || #[trigger] le(y, x) by {
        lemma_lex_connected(encode_utf8(x), encode_utf8(y), byte_order());
    }
}

/// The order of paths is total: any two paths are ordered, only equal paths
/// both ways, and the order carries through.
pub proof fn lemma_path_order_total()
    ensures
        total_ordering(path_order()),
{
    let le = path_order();
    lemma_name_order_total();
    assert forall|x: Seq<Seq<char>>| #[trigger] le(x, x) by {
        lemma_lex_reflexive(x, name_order());
    }
    assert forall|x: Seq<Seq<char>>, y: Seq<Seq<char>>| #[trigger] le(x, y) && #[trigger] le(
        y,
        x,
    ) implies x == y by {
        lemma_lex_antisymmetric(x, y, name_order());
    }
    assert forall|x: Seq<Seq<char>>, y: Seq<Seq<char>>, z: Seq<Seq<char>>| #[trigger]
        le(x, y) && #[trigger] le(y, z) implies le(x, z) by {
        lemma_lex_transitive(x, y, z, name_order());
    }
    assert forall|x: Seq<Seq<char>>, y: Seq<Seq<char>>| #[trigger] le(x, y) || #[trigger] le(
        y,
        x,
    ) by {
        lemma_lex_connected(x, y, name_order());
    }
}

/// Whether the bytes `a` come before the bytes `b` or equal them.
fn bytes_le(a: &[u8], b: &[u8]) -> (le: bool)
    ensures
        le == lex_le(a@, b@, byte_order()),
{
    let mut i: usize = 0;
    assert(a@.skip(0) =~= a@ && b@.skip(0) =~= b@);
    loop
        invariant
            i <= a.len(),
            i <= b.len(),
            lex_le(a@, b@, byte_order()) == lex_le(
                a@.skip(i as int),
                b@.skip(i as int),
                byte_order(),
            ),
        decreases a.len() - i,
    {
        if i == a.len() {
            return true;
        }
        if i == b.len() {
            return false;
        }
        proof {
            assert(a@.skip(i as int).drop_first() =~= a@.skip(i + 1));
            assert(b@.skip(i as int).drop_first() =~= b@.skip(i + 1));
        }
        if a[i] != b[i] {
            return a[i] < b[i];
        }
        i += 1;
    }
}

/// Whether the path `a` comes before the path `b` in the order of reports,
/// or equals it.
pub fn path_before_or_equal(a: &RelPath, b: &RelPath) -> (le: bool)
    ensures
        le == path_le(a@, b@),
{
    let mut i: usize = 0;
    assert(a@.skip(0) =~= a@ && b@.skip(0) =~= b@);
    loop
        invariant
            i <= a.parts.len(),
            i <= b.parts.len(),
            path_le(a@, b@) == path_le(a@.skip(i as int), b@.skip(i as int)),
        decreases a.parts.len() - i,
    {
        if i == a.parts.len() {
            return true;
        }
        if i == b.parts.len() {
            return false;
        }
        proof {
            assert(a@.skip(i as int).drop_first() =~= a@.skip(i + 1));
            assert(b@.skip(i as int).drop_first() =~= b@.skip(i + 1));
        }
        let x = a.parts[i].as_str();
        let y = b.parts[i].as_str();
        if !text_eq(x, y) {
            return bytes_le(x.as_bytes(), y.as_bytes());
        }
        i += 1;
    }
}

/// A list without paths holds no path.
proof fn lemma_nothing_holds_nothing(paths: Seq<Seq<Seq<char>>>)
    requires
        paths.len() == 0,
    ensures
        paths.to_multiset() =~= Multiset::empty(),
{
    broadcast use {group_to_multiset_ensures, group_multiset_axioms};

    lemma_multiset_empty_len(paths.to_multiset());
}

/// The paths in the order of reports.
pub fn sort_paths(paths: Vec<RelPath>) -> (sorted: Vec<RelPath>)
    ensures
        sorted_by(paths_view(sorted@), path_order()),
        paths_view(sorted@).to_multiset() == paths_view(paths@).to_multiset(),
{
    let mut rest = paths;
    let mut sorted: Vec<RelPath> = Vec::new();
    proof {
        lemma_path_order_total();
        lemma_nothing_holds_nothing(paths_view(sorted@));
        assert(paths_view(sorted@).to_multiset().add(paths_view(rest@).to_multiset())
            =~= paths_view(paths@).to_multiset());
    }
    loop
        invariant
            total_ordering(path_order()),
            sorted_by(paths_view(sorted@), path_order()),
            paths_view(sorted@).to_multiset().add(paths_view(rest@).to_multiset()) == paths_view(
                paths@,
            ).to_multiset(),
        decreases rest.len(),
    {
        let ghost rest_before = paths_view(rest@);
        let ghost sorted_before = paths_view(sorted@);
        let path = match rest.pop() {
            Some(path) => path,
            None => {
                proof {
                    lemma_nothing_holds_nothing(paths_view(rest@));
                }
                assert(paths_view(sorted@).to_multiset() =~= paths_view(paths@).to_multiset());
                return sorted;
            },
        };
        proof {
            assert(rest_before =~= paths_view(rest@).push(path@));
            to_multiset_build(paths_view(rest@), path@);
        }
        let mut k: usize = 0;
        while k < sorted.len() && path_before_or_equal(&sorted[k], &path)
            invariant
                k <= sorted.len(),
                sorted_before == paths_view(sorted@),
                forall|j: int| 0 <= j < k ==> path_le(#[trigger] sorted_before[j], path@),
            decreases sorted.len() - k,
        {
            k += 1;
        }
        sorted.insert(k, path);
        proof {
            let le = path_order();
            let after = paths_view(sorted@);
            assert(after =~= sorted_before.insert(k as int, path@));
            to_multiset_insert(sorted_before, k as int, path@);
            assert forall|i: int, j: int| 0 <= i < j < after.len() implies #[trigger] le(
                after[i],
                after[j],
            ) by {
                if j == k {
                    assert(path_le(sorted_before[i], path@));
                } else if i == k {
                    assert(le(sorted_before[k as int], path@) || le(path@, sorted_before[k as int]));
                    assert(!path_le(sorted_before[k as int], path@));
                    if j - 1 > k {
                        assert(le(sorted_before[k as int], sorted_before[j - 1]));
                        assert(le(path@, sorted_before[k as int]) && le(
                            sorted_before[k as int],
                            sorted_before[j - 1],
                        ));
                    }
                } else if i < k && j < k {
                    assert(le(sorted_before[i], sorted_before[j]));
                } else if i < k && j > k {
                    assert(le(sorted_before[i], sorted_before[j - 1]));
                } else {
                    assert(le(sorted_before[i - 1], sorted_before[j - 1]));
                }
            }
            assert(paths_view(sorted@).to_multiset().add(paths_view(rest@).to_multiset())
                =~= paths_view(paths@).to_multiset());
        }
    }
}

/// A sorted list is decided by what it holds: two lists in the order of
/// reports that hold the same paths, each as often, are the same list,
/// in whatever order the paths were found.
pub proof fn lemma_sorted_paths_unique(a: Seq<Seq<Seq<char>>>, b: Seq<Seq<Seq<char>>>)
    requires
        sorted_by(a, path_order()),
        sorted_by(b, path_order()),
        a.to_multiset() == b.to_multiset(),
    ensures
        a == b,
{
    lemma_path_order_total();
    lemma_sorted_unique(a, b, path_order());
}

} // verus!
