//! Insertion keeps the items sorted by start, and says where the new item
//! comes to stand among them.

use vstd::prelude::*;
use crate::balance::lemma_insert_balanced;
use crate::interval::Span;
use crate::shape::{distinct_starts, rank, sorted, Shape};

verus! {

/// Where the first `position` items start below `key` and all others do not,
/// `position` is the rank of `key`.
pub proof fn lemma_rank_is(items: Seq<Span>, key: int, position: int)
    requires
        0 <= position <= items.len(),
        forall|i: int| 0 <= i < position ==> items[i].start < key,
        forall|i: int| position <= i < items.len() ==> items[i].start >= key,
    ensures
        rank(items, key) == position,
    decreases items.len(),
{
    if items.len() > 0 {
        let front = items.drop_last();
        if position == items.len() {
            lemma_rank_is(front, key, position - 1);
        } else {
            lemma_rank_is(front, key, position);
        }
    }
}

/// In sorted items the rank of `key` parts those that start below `key`
/// from those that do not.
pub proof fn lemma_rank_sorted(items: Seq<Span>, key: int)
    requires
        sorted(items),
    ensures
        rank(items, key) <= items.len(),
        forall|i: int| 0 <= i < rank(items, key) ==> items[i].start < key,
        forall|i: int| rank(items, key) <= i < items.len() ==> items[i].start >= key,
    decreases items.len(),
{
    if items.len() > 0 {
        let front = items.drop_last();
        let last = items.len() - 1;
        lemma_rank_sorted(front, key);
        if items.last().start < key {
            lemma_rank_is(front, key, front.len() as int);
        }
        assert forall|i: int| 0 <= i < rank(items, key) implies items[i].start < key by {
            if i < last {
                assert(front[i] == items[i]);
            }
        }
        assert forall|i: int| rank(items, key) <= i < items.len() implies items[i].start
            >= key by {
            if i < last {
                assert(front[i] == items[i]);
            }
        }
    }
}

/// Putting `item` at the rank of its start keeps sorted items sorted.
pub proof fn lemma_insert_at_rank_sorted(items: Seq<Span>, item: Span)
    requires
        sorted(items),
    ensures
        rank(items, item.start) <= items.len(),
        sorted(items.insert(rank(items, item.start) as int, item)),
{
    lemma_rank_sorted(items, item.start);
}

/// A rotation to the left changes no item and no order.
pub proof fn lemma_rotate_left_items(tree: Shape)
    ensures
        tree.rotate_left().items() == tree.items(),
{
    reveal_with_fuel(Shape::items, 3);
}

/// A rotation to the right changes no item and no order.
pub proof fn lemma_rotate_right_items(tree: Shape)
    ensures
        tree.rotate_right().items() == tree.items(),
{
    reveal_with_fuel(Shape::items, 3);
}

/// Rebalancing changes no item and no order.
pub proof fn lemma_rebalance_items(tree: Shape, key: int)
    ensures
        tree.rebalance(key).items() == tree.items(),
{
    match tree {
        Shape::Leaf => {},
        Shape::Fork { left, item, right } => {
            lemma_rotate_left_items(tree);
            lemma_rotate_right_items(tree);
            lemma_rotate_left_items(*left);
            lemma_rotate_right_items(*right);
            lemma_rotate_right_items(Shape::fork(left.rotate_left(), item, *right));
            lemma_rotate_left_items(Shape::fork(*left, item, right.rotate_right()));
        },
    }
}

/// The items of a tree over sorted items are sorted in each subtree, and the
/// root's start parts them.
pub proof fn lemma_sorted_parts(tree: Shape)
    requires
        tree is Fork,
        sorted(tree.items()),
    ensures
        sorted(tree->left.items()),
        sorted(tree->right.items()),
        forall|i: int|
            0 <= i < tree->left.items().len() ==> (#[trigger] tree->left.items()[i]).start
                <= tree->item.start,
        forall|i: int|
            0 <= i < tree->right.items().len() ==> tree->item.start <= (
            #[trigger] tree->right.items()[i]).start,
{
    let lower = tree->left.items();
    let upper = tree->right.items();
    let all = tree.items();
    let middle = lower.len() as int;
    assert(all[middle] == tree->item);
    assert forall|i: int| 0 <= i < lower.len() implies (#[trigger] lower[i]).start
        <= tree->item.start by {
        assert(all[i] == lower[i]);
    }
    assert forall|i: int| 0 <= i < upper.len() implies tree->item.start <= (
    #[trigger] upper[i]).start by {
        assert(all[middle + 1 + i] == upper[i]);
    }
    assert forall|i: int, j: int| 0 <= i < j < lower.len() implies lower[i].start
        <= lower[j].start by {
        assert(all[i] == lower[i]);
        assert(all[j] == lower[j]);
    }
    assert forall|i: int, j: int| 0 <= i < j < upper.len() implies upper[i].start
        <= upper[j].start by {
        assert(all[middle + 1 + i] == upper[i]);
        assert(all[middle + 1 + j] == upper[j]);
    }
}

/// Inserting into a tree over sorted items puts the new item at the rank of
/// its start: behind every item that starts below it and before all others.
/// The items stay sorted.
pub proof fn lemma_insert_items(tree: Shape, item: Span)
    requires
        sorted(tree.items()),
    ensures
        rank(tree.items(), item.start) <= tree.items().len(),
        tree.insert(item).items() == tree.items().insert(
            rank(tree.items(), item.start) as int,
            item,
        ),
        sorted(tree.insert(item).items()),
    decreases tree,
{
    let key = item.start;
    lemma_insert_at_rank_sorted(tree.items(), item);
    match tree {
        Shape::Leaf => {
            reveal_with_fuel(Shape::items, 2);
        },
        Shape::Fork { left, item: here, right } => {
            lemma_sorted_parts(tree);
            lemma_rank_sorted(tree.items(), key);
            let lower = left.items();
            let upper = right.items();
            let all = tree.items();
            let middle = lower.len() as int;
            if key <= here.start {
                lemma_insert_items(*left, item);
                lemma_rank_sorted(lower, key);
                let joined = Shape::fork(left.insert(item), here, *right);
                lemma_rebalance_items(joined, key);
                let position = rank(lower, key) as int;
                lemma_rank_is(all, key, position);
            } else {
                lemma_insert_items(*right, item);
                lemma_rank_sorted(upper, key);
                let joined = Shape::fork(*left, here, right.insert(item));
                lemma_rebalance_items(joined, key);
                let position = rank(upper, key) as int;
                lemma_rank_is(all, key, middle + 1 + position);
            }
        },
    }
}

/// The empty tree holds nothing, and a tree into which an item was inserted
/// is never empty.
pub proof fn lemma_insert_not_empty(tree: Shape, item: Span)
    ensures
        Shape::Leaf.len() == 0,
        tree.insert(item) is Fork,
        tree.insert(item).len() > 0,
{
    reveal_with_fuel(Shape::items, 2);
}

/// A tree over sorted items is a search tree: at every node the starts on
/// the left are at most the node's, and those on the right at least.
pub proof fn lemma_search_tree(tree: Shape)
    requires
        sorted(tree.items()),
    ensures
        tree.is_search_tree(),
    decreases tree,
{
    match tree {
        Shape::Leaf => {},
        Shape::Fork { left, item, right } => {
            lemma_sorted_parts(tree);
            lemma_search_tree(*left);
            lemma_search_tree(*right);
        },
    }
}

/// A tree over sorted items of which no two start at the same place is a
/// strict search tree: at every node the starts on the left are at most the
/// node's, and those on the right are above it.
pub proof fn lemma_strict_search_tree(tree: Shape)
    requires
        sorted(tree.items()),
        distinct_starts(tree.items()),
    ensures
        tree.is_strict_search_tree(),
    decreases tree,
{
    match tree {
        Shape::Leaf => {},
        Shape::Fork { left, item, right } => {
            lemma_sorted_parts(tree);
            let lower = left.items();
            let upper = right.items();
            let all = tree.items();
            let middle = lower.len() as int;
            assert(all[middle] == item);
            assert forall|i: int, j: int| 0 <= i < j < lower.len() implies lower[i].start
                != lower[j].start by {
                assert(all[i] == lower[i]);
                assert(all[j] == lower[j]);
            }
            assert forall|i: int, j: int| 0 <= i < j < upper.len() implies upper[i].start
                != upper[j].start by {
                assert(all[middle + 1 + i] == upper[i]);
                assert(all[middle + 1 + j] == upper[j]);
            }
            assert forall|i: int| 0 <= i < upper.len() implies item.start < (
            #[trigger] upper[i]).start by {
                assert(all[middle + 1 + i] == upper[i]);
            }
            lemma_strict_search_tree(*left);
            lemma_strict_search_tree(*right);
        },
    }
}

/// Whatever is inserted into the empty tree, in whatever order, the tree
/// that grows is balanced and its items are sorted: it is a search tree.
pub proof fn lemma_grown_sound(items: Seq<Span>)
    ensures
        Shape::grown(items).sound(),
        Shape::grown(items).is_search_tree(),
        Shape::grown(items).len() == items.len(),
    decreases items.len(),
{
    if items.len() > 0 {
        let before = Shape::grown(items.drop_last());
        lemma_grown_sound(items.drop_last());
        lemma_insert_balanced(before, items.last());
        lemma_insert_items(before, items.last());
    }
    lemma_search_tree(Shape::grown(items));
}

/// The tree that grows from `items` holds them all, each as often as it
/// occurs among them, and nothing else.
pub proof fn lemma_grown_holds(items: Seq<Span>)
    ensures
        Shape::grown(items).items().to_multiset() == items.to_multiset(),
        forall|s: Span| #[trigger]
            Shape::grown(items).items().contains(s) <==> items.contains(s),
    decreases items.len(),
{
    broadcast use {
        vstd::seq_lib::to_multiset_build,
        vstd::seq_lib::to_multiset_insert,
        vstd::seq_lib::to_multiset_contains,
    };

    if items.len() > 0 {
        let front = items.drop_last();
        let before = Shape::grown(front);
        lemma_grown_sound(front);
        lemma_grown_holds(front);
        lemma_insert_items(before, items.last());
        assert(items =~= front.push(items.last()));
    }
    assert forall|s: Span| #[trigger]
        Shape::grown(items).items().contains(s) <==> items.contains(s) by {
        assert(Shape::grown(items).items().to_multiset().count(s) == items.to_multiset().count(s));
    }
}

/// Where no two of the inserted items start at the same place, the tree
/// that grows is a strict search tree.
pub proof fn lemma_grown_strict(items: Seq<Span>)
    requires
        distinct_starts(items),
    ensures
        distinct_starts(Shape::grown(items).items()),
        Shape::grown(items).is_strict_search_tree(),
    decreases items.len(),
{
    lemma_grown_sound(items);
    if items.len() > 0 {
        let front = items.drop_last();
        let last = items.last();
        let before = Shape::grown(front);
        lemma_grown_strict(front);
        lemma_grown_sound(front);
        lemma_grown_holds(front);
        lemma_insert_items(before, last);
        assert forall|i: int| 0 <= i < before.items().len() implies (
        #[trigger] before.items()[i]).start != last.start by {
            assert(before.items().contains(before.items()[i]));
        }
    }
    lemma_strict_search_tree(Shape::grown(items));
}

} // verus!
