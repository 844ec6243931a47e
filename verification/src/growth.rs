//! Items inserted in increasing order of their starts: the tree fills up
//! from the left and stays as low as a tree of its size can be.

use vstd::prelude::*;
use vstd::arithmetic::power2::{lemma2_to64, lemma_pow2_strictly_increases, lemma_pow2_unfold, pow2};
use crate::balance::lemma_insert_balanced;
use crate::interval::Span;
use crate::order::{lemma_grown_sound, lemma_insert_items, lemma_rank_is};
use crate::shape::{strictly_sorted, Shape};

verus! {

/// The least `k` with `2^k >= n`: the logarithm of `n` to the base 2,
/// rounded up. (0 for `n == 0`.)
pub open spec fn ceil_log2(n: nat) -> nat
    decreases n,
{
    if n <= 1 {
        0
    } else {
        1 + ceil_log2((n + 1) / 2)
    }
}

/// `ceil_log2(n)` is the least `k` with `2^k >= n`.
pub proof fn lemma_ceil_log2(n: nat)
    ensures
        n <= pow2(ceil_log2(n)),
        n > 1 ==> pow2((ceil_log2(n) - 1) as nat) < n,
    decreases n,
{
    lemma2_to64();
    if n > 1 {
        let half = (n + 1) / 2;
        lemma_ceil_log2(half);
        lemma_pow2_unfold(ceil_log2(n));
        if half > 1 {
            lemma_pow2_unfold(ceil_log2(half));
        }
    }
}

impl Shape {
    /// Every level of the tree is full: at every node the two subtrees are
    /// equally high.
    pub open spec fn perfect(self) -> bool
        decreases self,
    {
        match self {
            Shape::Leaf => true,
            Shape::Fork { left, item, right } => {
                &&& left.perfect()
                &&& right.perfect()
                &&& left.height() == right.height()
            },
        }
    }

    /// At the root and at every node reached from it by going right, the
    /// left subtree is perfect.
    pub open spec fn filled_from_left(self) -> bool
        decreases self,
    {
        match self {
            Shape::Leaf => true,
            Shape::Fork { left, item, right } => left.perfect() && right.filled_from_left(),
        }
    }
}

/// A perfect tree of height `h` has `2^h - 1` nodes.
pub proof fn lemma_perfect_len(tree: Shape)
    requires
        tree.perfect(),
    ensures
        tree.len() + 1 == pow2(tree.height()),
    decreases tree,
{
    match tree {
        Shape::Leaf => {
            lemma2_to64();
        },
        Shape::Fork { left, item, right } => {
            lemma_perfect_len(*left);
            lemma_perfect_len(*right);
            lemma_pow2_unfold(tree.height());
        },
    }
}

/// A balanced tree of height `h > 0` that is filled from the left has
/// `2^(h-1)` nodes or more.
pub proof fn lemma_filled_len(tree: Shape)
    requires
        tree is Fork,
        tree.balanced(),
        tree.filled_from_left(),
    ensures
        pow2((tree.height() - 1) as nat) <= tree.len(),
    decreases tree,
{
    let left = *tree->left;
    let right = *tree->right;
    lemma_perfect_len(left);
    if right.height() > left.height() {
        lemma_filled_len(right);
        lemma_pow2_unfold((tree.height() - 1) as nat);
    }
}

/// Inserting an item that starts above all others keeps a balanced tree
/// filled from the left. Unless the tree was empty, the item does not come
/// to stand at the root.
pub proof fn lemma_insert_last(tree: Shape, item: Span)
    requires
        tree.balanced(),
        tree.filled_from_left(),
        forall|i: int| 0 <= i < tree.items().len() ==> (#[trigger] tree.items()[i]).start
            < item.start,
    ensures
        tree.insert(item).filled_from_left(),
        tree is Fork ==> tree.insert(item)->item.start < item.start,
    decreases tree,
{
    match tree {
        Shape::Leaf => {
            reveal_with_fuel(Shape::perfect, 2);
            reveal_with_fuel(Shape::filled_from_left, 2);
        },
        Shape::Fork { left, item: here, right } => {
            let lower = left.items();
            let upper = right.items();
            let all = tree.items();
            let middle = lower.len() as int;
            assert(all[middle] == here);
            assert forall|i: int| 0 <= i < upper.len() implies (#[trigger] upper[i]).start
                < item.start by {
                assert(all[middle + 1 + i] == upper[i]);
            }
            lemma_insert_last(*right, item);
            lemma_insert_balanced(*right, item);
            let joined = Shape::fork(*left, here, right.insert(item));
            if joined.balance() < -1 {
                reveal_with_fuel(Shape::height, 3);
                reveal_with_fuel(Shape::balanced, 2);
                reveal_with_fuel(Shape::perfect, 2);
                reveal_with_fuel(Shape::filled_from_left, 3);
            }
        },
    }
}

/// Items inserted in increasing order of their starts stand in the tree in
/// the order in which they came, and the tree is filled from the left.
pub proof fn lemma_grown_in_order(items: Seq<Span>)
    requires
        strictly_sorted(items),
    ensures
        Shape::grown(items).items() == items,
        Shape::grown(items).balanced(),
        Shape::grown(items).filled_from_left(),
    decreases items.len(),
{
    lemma_grown_sound(items);
    if items.len() > 0 {
        let front = items.drop_last();
        let last = items.last();
        let before = Shape::grown(front);
        lemma_grown_in_order(front);
        lemma_grown_sound(front);
        lemma_rank_is(front, last.start, front.len() as int);
        lemma_insert_items(before, last);
        lemma_insert_last(before, last);
    }
}

/// A tree into which `n` items were inserted in increasing order of their
/// starts is at most `ceil(log2(n + 1))` high, which is the least height
/// that a binary tree of `n` nodes can have; so it is never higher than
/// `ceil(log2(n + 1)) + 1`.
pub proof fn lemma_increasing_height(items: Seq<Span>)
    requires
        strictly_sorted(items),
    ensures
        Shape::grown(items).height() <= ceil_log2(items.len() + 1),
        Shape::grown(items).height() <= ceil_log2(items.len() + 1) + 1,
{
    let tree = Shape::grown(items);
    let bound = ceil_log2(items.len() + 1);
    lemma_grown_in_order(items);
    lemma_ceil_log2(items.len() + 1);
    if tree is Fork {
        lemma_filled_len(tree);
        let below = (tree.height() - 1) as nat;
        if bound < below {
            lemma_pow2_strictly_increases(bound, below);
        }
    }
}

} // verus!
