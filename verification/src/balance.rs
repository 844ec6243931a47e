//! Insertion keeps a tree balanced.

use vstd::prelude::*;
use vstd::arithmetic::power2::{lemma2_to64, lemma_pow2_strictly_increases, lemma_pow2_unfold, pow2};
use crate::interval::Span;
use crate::shape::Shape;

verus! {

/// The subtree into which an item that starts at `key` descends from the root
/// is higher than the other one.
pub open spec fn leans_towards(tree: Shape, key: int) -> bool {
    match tree {
        Shape::Leaf => false,
        Shape::Fork { left, item, right } => if key <= item.start {
            left.height() > right.height()
        } else {
            right.height() > left.height()
        },
    }
}

/// A node whose left side is two higher than its right side, over balanced
/// subtrees of which the left one leans towards `key`, is balanced again
/// after `rebalance`, and one lower.
pub proof fn lemma_rebalance_left_high(tree: Shape, key: int)
    requires
        tree is Fork,
        tree->left.balanced(),
        tree->right.balanced(),
        tree.balance() == 2,
        leans_towards(*tree->left, key),
    ensures
        tree.rebalance(key).balanced(),
        tree.rebalance(key).height() + 1 == tree.height(),
{
    reveal_with_fuel(Shape::height, 3);
    reveal_with_fuel(Shape::balanced, 3);
}

/// The mirror image of [`lemma_rebalance_left_high`].
pub proof fn lemma_rebalance_right_high(tree: Shape, key: int)
    requires
        tree is Fork,
        tree->left.balanced(),
        tree->right.balanced(),
        tree.balance() == -2,
        leans_towards(*tree->right, key),
    ensures
        tree.rebalance(key).balanced(),
        tree.rebalance(key).height() + 1 == tree.height(),
{
    reveal_with_fuel(Shape::height, 3);
    reveal_with_fuel(Shape::balanced, 3);
}

/// Inserting into a balanced tree gives a balanced tree that is as high as
/// before or one higher. Where a non-empty tree got higher, the new tree
/// leans towards the side that the item went to.
pub proof fn lemma_insert_balanced(tree: Shape, item: Span)
    requires
        tree.balanced(),
    ensures
        tree.insert(item).balanced(),
        tree.insert(item) is Fork,
        tree.height() <= tree.insert(item).height() <= tree.height() + 1,
        tree is Fork && tree.insert(item).height() == tree.height() + 1 ==> leans_towards(
            tree.insert(item),
            item.start,
        ),
    decreases tree,
{
    match tree {
        Shape::Leaf => {
            reveal_with_fuel(Shape::height, 2);
            reveal_with_fuel(Shape::balanced, 2);
        },
        Shape::Fork { left, item: here, right } => {
            if item.start <= here.start {
                lemma_insert_balanced(*left, item);
                let joined = Shape::fork(left.insert(item), here, *right);
                if joined.balance() > 1 {
                    lemma_rebalance_left_high(joined, item.start);
                }
            } else {
                lemma_insert_balanced(*right, item);
                let joined = Shape::fork(*left, here, right.insert(item));
                if joined.balance() < -1 {
                    lemma_rebalance_right_high(joined, item.start);
                }
            }
        },
    }
}

/// A balanced tree holds many nodes for its height: two to the power of half
/// its height, less one, or more.
pub proof fn lemma_balanced_len(tree: Shape)
    requires
        tree.balanced(),
    ensures
        pow2(tree.height() / 2) <= tree.len() + 1,
    decreases tree,
{
    let half = tree.height() / 2;
    match tree {
        Shape::Leaf => {
            lemma2_to64();
        },
        Shape::Fork { left, item, right } => {
            lemma_balanced_len(*left);
            lemma_balanced_len(*right);
            if tree.height() == 1 {
                lemma2_to64();
            } else {
                let below = (half - 1) as nat;
                lemma_pow2_unfold(half);
                if below < left.height() / 2 {
                    lemma_pow2_strictly_increases(below, left.height() / 2);
                }
                if below < right.height() / 2 {
                    lemma_pow2_strictly_increases(below, right.height() / 2);
                }
            }
        },
    }
}

/// A balanced tree whose nodes can be counted in a `usize` is less than 130
/// high.
pub proof fn lemma_height_limit(tree: Shape)
    requires
        tree.balanced(),
        tree.len() <= usize::MAX,
    ensures
        tree.height() < 130,
{
    lemma_balanced_len(tree);
    if tree.height() >= 130 {
        lemma2_to64();
        lemma_pow2_unfold(65);
        if 65 < tree.height() / 2 {
            lemma_pow2_strictly_increases(65, tree.height() / 2);
        }
    }
}

} // verus!
