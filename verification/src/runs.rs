//! Numbering the items of a sequence by runs: neighbours that count as the
//! same share a number, and each change of neighbour adds one.

use vstd::prelude::*;
use vstd::std_specs::cmp::PartialEqSpec;

verus! {

/// Number of positions `j` in `1..=i` at which `items[j]` differs from its
/// predecessor according to `same`.
pub open spec fn run_index<A>(items: Seq<A>, same: spec_fn(A, A) -> bool, i: int) -> nat
    decreases i,
{
    if i <= 0 {
        0
    } else {
        run_index(items, same, i - 1) + if same(items[i - 1], items[i]) {
            0nat
        } else {
            1nat
        }
    }
}

/// The items with their run numbers, counted from `base`.
pub open spec fn numbered<A>(items: Seq<A>, same: spec_fn(A, A) -> bool, base: nat) -> Seq<
    (usize, A),
> {
    Seq::new(items.len(), |i: int| ((base + run_index(items, same, i)) as usize, items[i]))
}

/// Items are the same when `==` says so.
pub open spec fn same_item<A: PartialEq>() -> spec_fn(A, A) -> bool {
    |a: A, b: A| a.eq_spec(&b)
}

/// The key that a projection gives for an item.
pub open spec fn key_of<A, R, F: Fn(&A) -> R>(proj: F, item: A) -> R {
    choose|key: R| call_ensures(proj, (&item,), key)
}

/// The projection has given, or could give, a key for the item.
pub open spec fn has_key<A, R, F: Fn(&A) -> R>(proj: F, item: A) -> bool {
    exists|key: R| call_ensures(proj, (&item,), key)
}

/// Items are the same when `==` says so of their keys.
pub open spec fn same_key<A, R: PartialEq, F: Fn(&A) -> R>(proj: F) -> spec_fn(A, A) -> bool {
    |a: A, b: A| key_of(proj, a).eq_spec(&key_of(proj, b))
}

/// A projection that may be called on every item and whose result is
/// determined by the item.
pub open spec fn is_projection<A, R, F: Fn(&A) -> R>(proj: F) -> bool {
    &&& forall|item: A| #[trigger] call_requires(proj, (&item,))
    &&& forall|item: A, key: R| #[trigger]
        call_ensures(proj, (&item,), key) ==> key == key_of(proj, item)
}

/// A run number never exceeds the position.
pub proof fn lemma_run_index_bounded<A>(items: Seq<A>, same: spec_fn(A, A) -> bool, i: int)
    ensures
        run_index(items, same, i) <= if i < 0 {
            0
        } else {
            i
        },
    decreases i,
{
    if i > 0 {
        lemma_run_index_bounded(items, same, i - 1);
    }
}

/// Run numbers never decrease along the sequence and grow by at most one
/// from an item to the next.
pub proof fn lemma_run_index_steps<A>(items: Seq<A>, same: spec_fn(A, A) -> bool, i: int)
    requires
        0 < i,
    ensures
        run_index(items, same, i - 1) <= run_index(items, same, i) <= run_index(
            items,
            same,
            i - 1,
        ) + 1,
        run_index(items, same, i) == run_index(items, same, i - 1) <==> same(
            items[i - 1],
            items[i],
        ),
{
}

/// Where all neighbours are the same, every item has number zero.
pub proof fn lemma_single_run<A>(items: Seq<A>, same: spec_fn(A, A) -> bool, i: int)
    requires
        forall|j: int| 0 < j < items.len() ==> same(#[trigger] items[j - 1], items[j]),
        i < items.len(),
    ensures
        run_index(items, same, i) == 0,
    decreases i,
{
    if i > 0 {
        lemma_single_run(items, same, i - 1);
        assert(same(items[i - 1], items[i]));
    }
}

/// The numbering looks at `same` on neighbours only: two relations that
/// agree on all neighbours give the same numbers.
pub proof fn lemma_run_index_congruent<A>(
    items: Seq<A>,
    same1: spec_fn(A, A) -> bool,
    same2: spec_fn(A, A) -> bool,
    i: int,
)
    requires
        i < items.len(),
        forall|j: int|
            0 < j < items.len() ==> same1(#[trigger] items[j - 1], items[j]) == same2(
                items[j - 1],
                items[j],
            ),
    ensures
        run_index(items, same1, i) == run_index(items, same2, i),
    decreases i,
{
    if i > 0 {
        lemma_run_index_congruent(items, same1, same2, i - 1);
        assert(same1(items[i - 1], items[i]) == same2(items[i - 1], items[i]));
    }
}

/// Dropping the first item leaves the numbering of the rest unchanged up
/// to the change, if any, between the first two items.
pub proof fn lemma_run_index_shift<A>(
    first: A,
    rest: Seq<A>,
    same: spec_fn(A, A) -> bool,
    i: int,
)
    requires
        0 <= i < rest.len(),
    ensures
        run_index(seq![first] + rest, same, i + 1) == run_index(rest, same, i) + if same(
            first,
            rest[0],
        ) {
            0nat
        } else {
            1nat
        },
    decreases i,
{
    let all = seq![first] + rest;
    assert(all[0] == first);
    assert(all[i + 1] == rest[i]);
    if i > 0 {
        assert(all[i] == rest[i - 1]);
        lemma_run_index_shift(first, rest, same, i - 1);
    } else {
        assert(run_index(all, same, 0) == 0);
    }
}

/// The numbering of a sequence, item by item: the first item has number
/// `base`, and the rest is numbered from `base`, plus one if the first two
/// items differ.
pub proof fn lemma_numbered_unfold<A>(
    first: A,
    rest: Seq<A>,
    same: spec_fn(A, A) -> bool,
    base: nat,
)
    requires
        base + rest.len() <= usize::MAX,
    ensures
        numbered(seq![first] + rest, same, base).len() == rest.len() + 1,
        numbered(seq![first] + rest, same, base)[0] == (base as usize, first),
        rest.len() > 0 ==> numbered(seq![first] + rest, same, base).drop_first() == numbered(
            rest,
            same,
            base + if same(first, rest[0]) {
                0nat
            } else {
                1nat
            },
        ),
        rest.len() == 0 ==> numbered(seq![first] + rest, same, base).drop_first() == Seq::<
            (usize, A),
        >::empty(),
{
    let all = seq![first] + rest;
    assert(all.len() == rest.len() + 1);
    assert(all[0] == first);
    if rest.len() > 0 {
        let d = if same(first, rest[0]) {
            0nat
        } else {
            1nat
        };
        assert forall|i: int| 0 <= i < rest.len() implies numbered(all, same, base).drop_first()[i]
            == numbered(rest, same, base + d)[i] by {
            lemma_run_index_shift(first, rest, same, i);
            lemma_run_index_bounded(rest, same, i);
            assert(all[i + 1] == rest[i]);
        }
        assert(numbered(all, same, base).drop_first() =~= numbered(rest, same, base + d));
    } else {
        assert(numbered(all, same, base).drop_first() =~= Seq::<(usize, A)>::empty());
    }
}

} // verus!
