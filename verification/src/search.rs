//! What the search for a point may skip: a subtree whose largest end lies
//! below the point, and everything to the right of a node that starts above
//! it.

use vstd::prelude::*;
use crate::interval::Span;
use crate::order::lemma_grown_holds;
use crate::shape::{stabbed, Shape};

verus! {

/// What covers `point` in two runs of items joined is what covers it in the
/// first, followed by what covers it in the second.
pub proof fn lemma_stabbed_concat(front: Seq<Span>, back: Seq<Span>, point: int)
    ensures
        stabbed(front + back, point) == stabbed(front, point) + stabbed(back, point),
{
    Seq::filter_distributes_over_add(front, back, |s: Span| s.covers(point));
}

/// Of a single item, what covers `point` is the item or nothing.
pub proof fn lemma_stabbed_one(item: Span, point: int)
    ensures
        stabbed(seq![item], point) == if item.covers(point) {
            seq![item]
        } else {
            Seq::<Span>::empty()
        },
{
    reveal_with_fuel(Seq::filter, 2);
    assert(stabbed(seq![item], point) =~= if item.covers(point) {
        seq![item]
    } else {
        Seq::<Span>::empty()
    });
}

/// Where no item covers `point`, nothing is found.
pub proof fn lemma_stabbed_none(items: Seq<Span>, point: int)
    requires
        forall|i: int| 0 <= i < items.len() ==> !(#[trigger] items[i]).covers(point),
    ensures
        stabbed(items, point) == Seq::<Span>::empty(),
    decreases items.len(),
{
    reveal(Seq::filter);
    if items.len() > 0 {
        lemma_stabbed_none(items.drop_last(), point);
    }
}

/// What covers `point` in a tree: what covers it on the left, then the
/// root's item if it does, then what covers it on the right.
pub proof fn lemma_stabbed_fork(tree: Shape, point: int)
    requires
        tree is Fork,
    ensures
        stabbed(tree.items(), point) == stabbed(tree->left.items(), point) + (if tree->item.covers(
            point,
        ) {
            seq![tree->item]
        } else {
            Seq::<Span>::empty()
        }) + stabbed(tree->right.items(), point),
{
    let lower = tree->left.items();
    let upper = tree->right.items();
    let one = seq![tree->item];
    assert(lower.push(tree->item) =~= lower + one);
    lemma_stabbed_concat(lower + one, upper, point);
    lemma_stabbed_concat(lower, one, point);
    lemma_stabbed_one(tree->item, point);
}

/// No item of a non-empty tree ends above the tree's largest end, and one
/// item ends there.
pub proof fn lemma_max_end(tree: Shape)
    requires
        tree is Fork,
    ensures
        forall|i: int| 0 <= i < tree.items().len() ==> (#[trigger] tree.items()[i]).end
            <= tree.max_end(),
        exists|i: int| 0 <= i < tree.items().len() && (#[trigger] tree.items()[i]).end
            == tree.max_end(),
    decreases tree,
{
    let lower = tree->left.items();
    let upper = tree->right.items();
    let all = tree.items();
    let middle = lower.len() as int;
    if *tree->left is Fork {
        lemma_max_end(*tree->left);
    }
    if *tree->right is Fork {
        lemma_max_end(*tree->right);
    }
    if tree.max_end() == tree->item.end {
        assert(all[middle].end == tree.max_end());
    } else if *tree->left is Fork && tree.max_end() == tree->left.max_end() {
        let i = choose|i: int| 0 <= i < lower.len() && (#[trigger] lower[i]).end
            == tree->left.max_end();
        assert(all[i] == lower[i]);
    } else {
        let i = choose|i: int| 0 <= i < upper.len() && (#[trigger] upper[i]).end
            == tree->right.max_end();
        assert(all[middle + 1 + i] == upper[i]);
    }
}

/// A tree whose largest end lies below `point` holds nothing that covers it.
pub proof fn lemma_skip_low_ends(tree: Shape, point: int)
    requires
        tree is Fork,
        tree.max_end() < point,
    ensures
        stabbed(tree.items(), point) == Seq::<Span>::empty(),
{
    lemma_max_end(tree);
    lemma_stabbed_none(tree.items(), point);
}

/// Items that all start above `point` hold nothing that covers it.
pub proof fn lemma_skip_late_starts(items: Seq<Span>, point: int)
    requires
        forall|i: int| 0 <= i < items.len() ==> (#[trigger] items[i]).start > point,
    ensures
        stabbed(items, point) == Seq::<Span>::empty(),
{
    lemma_stabbed_none(items, point);
}

/// What is found for `point` is exactly what covers it: every item of
/// `items` that covers `point` is found as often as it occurs among them,
/// and nothing else is found.
pub proof fn lemma_stabbed_exact(items: Seq<Span>, point: int)
    ensures
        forall|s: Span| #[trigger]
            stabbed(items, point).contains(s) <==> items.contains(s) && s.covers(point),
        forall|s: Span| #[trigger]
            stabbed(items, point).to_multiset().count(s) == if s.covers(point) {
                items.to_multiset().count(s)
            } else {
                0
            },
        stabbed(items, point).len() <= items.len(),
    decreases items.len(),
{
    reveal(Seq::filter);
    broadcast use vstd::seq_lib::group_to_multiset_ensures;

    if items.len() > 0 {
        let front = items.drop_last();
        lemma_stabbed_exact(front, point);
        assert(items =~= front.push(items.last()));
    }
    assert forall|s: Span| #[trigger]
        stabbed(items, point).contains(s) <==> items.contains(s) && s.covers(point) by {
        assert(stabbed(items, point).to_multiset().count(s) == if s.covers(point) {
            items.to_multiset().count(s)
        } else {
            0
        });
    }
}

/// Whatever was inserted, and in whatever order: what is found for `point`
/// in the tree that grew is what covers `point` among the inserted items,
/// all of it and nothing else.
pub proof fn lemma_found_in_grown(items: Seq<Span>, point: int)
    ensures
        forall|s: Span| #[trigger]
            stabbed(Shape::grown(items).items(), point).contains(s) <==> items.contains(s)
                && s.covers(point),
        forall|s: Span| #[trigger]
            stabbed(Shape::grown(items).items(), point).to_multiset().count(s) == if s.covers(
                point,
            ) {
                items.to_multiset().count(s)
            } else {
                0
            },
{
    lemma_grown_holds(items);
    lemma_stabbed_exact(Shape::grown(items).items(), point);
}

} // verus!
