//! Facts about mapping each item of a sequence to a sequence and joining
//! the results.

use vstd::prelude::*;
use vstd::seq_lib::lemma_flatten_concat;

verus! {

/// Nothing maps to nothing.
pub proof fn lemma_flat_map_empty<A, B>(f: spec_fn(A) -> Seq<B>)
    ensures
        Seq::<A>::empty().flat_map(f) == Seq::<B>::empty(),
{
    assert(Seq::<A>::empty().map_values(f) =~= Seq::<Seq<B>>::empty());
}

/// A single item maps to its image.
pub proof fn lemma_flat_map_one<A, B>(item: A, f: spec_fn(A) -> Seq<B>)
    ensures
        seq![item].flat_map(f) == f(item),
{
    seq![item].lemma_flat_map_singleton(f);
}

/// Two sequences joined map to their images joined.
pub proof fn lemma_flat_map_concat<A, B>(first: Seq<A>, second: Seq<A>, f: spec_fn(A) -> Seq<B>)
    ensures
        (first + second).flat_map(f) == first.flat_map(f) + second.flat_map(f),
{
    assert((first + second).map_values(f) =~= first.map_values(f) + second.map_values(f));
    lemma_flatten_concat(first.map_values(f), second.map_values(f));
}

/// Two maps that agree on every item of a sequence give the same result.
pub proof fn lemma_flat_map_agree<A, B>(
    items: Seq<A>,
    f: spec_fn(A) -> Seq<B>,
    g: spec_fn(A) -> Seq<B>,
)
    requires
        forall|i: int| 0 <= i < items.len() ==> f(#[trigger] items[i]) == g(items[i]),
    ensures
        items.flat_map(f) == items.flat_map(g),
{
    assert(items.map_values(f) =~= items.map_values(g));
}

/// A map that takes every item to the item alone gives the sequence back.
pub proof fn lemma_flat_map_identity<A>(items: Seq<A>, f: spec_fn(A) -> Seq<A>)
    requires
        forall|item: A| #[trigger] f(item) == seq![item],
    ensures
        items.flat_map(f) == items,
    decreases items.len(),
{
    if items.len() == 0 {
        lemma_flat_map_empty(f);
        assert(items =~= Seq::empty());
    } else {
        lemma_flat_map_identity(items.drop_last(), f);
        lemma_flat_map_concat(items.drop_last(), seq![items.last()], f);
        lemma_flat_map_one(items.last(), f);
        assert(items.drop_last() + seq![items.last()] =~= items);
    }
}

} // verus!
