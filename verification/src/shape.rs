//! The mathematical model of the tree: its structure as a ghost datatype,
//! and the functions on it that the contracts of the executable tree use.

use vstd::prelude::*;
use crate::interval::Span;

verus! {

/// The structure of a tree: which item sits at which node.
pub enum Shape {
    Leaf,
    Fork { left: Box<Shape>, item: Span, right: Box<Shape> },
}

/// The larger of two integers.
pub open spec fn larger(a: int, b: int) -> int {
    if a > b {
        a
    } else {
        b
    }
}

/// Items are sorted when their starts never decrease from left to right.
pub open spec fn sorted(items: Seq<Span>) -> bool {
    forall|i: int, j: int| 0 <= i < j < items.len() ==> items[i].start <= items[j].start
}

/// Items are strictly sorted when their starts increase from left to right.
pub open spec fn strictly_sorted(items: Seq<Span>) -> bool {
    forall|i: int, j: int| 0 <= i < j < items.len() ==> items[i].start < items[j].start
}

/// No two items start at the same place.
pub open spec fn distinct_starts(items: Seq<Span>) -> bool {
    forall|i: int, j: int| 0 <= i < j < items.len() ==> items[i].start != items[j].start
}

/// The number of items that start below `key`.
pub open spec fn rank(items: Seq<Span>, key: int) -> nat
    decreases items.len(),
{
    if items.len() == 0 {
        0
    } else {
        rank(items.drop_last(), key) + if items.last().start < key {
            1nat
        } else {
            0nat
        }
    }
}

/// The items that cover `point`, in their order in `items`.
pub open spec fn stabbed(items: Seq<Span>, point: int) -> Seq<Span> {
    items.filter(|s: Span| s.covers(point))
}

impl Shape {
    /// A single node without children.
    pub open spec fn single(item: Span) -> Shape {
        Shape::Fork { left: Box::new(Shape::Leaf), item, right: Box::new(Shape::Leaf) }
    }

    /// A node over two subtrees.
    pub open spec fn fork(left: Shape, item: Span, right: Shape) -> Shape {
        Shape::Fork { left: Box::new(left), item, right: Box::new(right) }
    }

    /// The number of nodes on the longest path from the root down; 0 for the
    /// empty tree, 1 for a single node.
    pub open spec fn height(self) -> nat
        decreases self,
    {
        match self {
            Shape::Leaf => 0,
            Shape::Fork { left, item, right } => 1 + larger(
                left.height() as int,
                right.height() as int,
            ) as nat,
        }
    }

    /// The items in left-self-right order.
    pub open spec fn items(self) -> Seq<Span>
        decreases self,
    {
        match self {
            Shape::Leaf => Seq::empty(),
            Shape::Fork { left, item, right } => left.items().push(item) + right.items(),
        }
    }

    /// The number of nodes.
    pub open spec fn len(self) -> nat {
        self.items().len()
    }

    /// The largest `end` in a non-empty tree, found by visiting every node.
    /// (Of the empty tree, which has no item, this is 0.)
    pub open spec fn max_end(self) -> int
        decreases self,
    {
        match self {
            Shape::Leaf => 0,
            Shape::Fork { left, item, right } => {
                let with_left = if *left is Fork {
                    larger(item.end, left.max_end())
                } else {
                    item.end
                };
                if *right is Fork {
                    larger(with_left, right.max_end())
                } else {
                    with_left
                }
            },
        }
    }

    /// Height of the left subtree minus height of the right one; 0 for the
    /// empty tree.
    pub open spec fn balance(self) -> int {
        match self {
            Shape::Leaf => 0,
            Shape::Fork { left, item, right } => left.height() - right.height(),
        }
    }

    /// At every node the heights of the two subtrees differ by at most one.
    pub open spec fn balanced(self) -> bool
        decreases self,
    {
        match self {
            Shape::Leaf => true,
            Shape::Fork { left, item, right } => {
                &&& left.balanced()
                &&& right.balanced()
                &&& -1 <= self.balance() <= 1
            },
        }
    }

    /// At every node, no start in the left subtree is above the node's and
    /// no start in the right subtree is below it.
    pub open spec fn is_search_tree(self) -> bool
        decreases self,
    {
        match self {
            Shape::Leaf => true,
            Shape::Fork { left, item, right } => {
                &&& left.is_search_tree()
                &&& right.is_search_tree()
                &&& forall|i: int|
                    0 <= i < left.items().len() ==> (#[trigger] left.items()[i]).start
                        <= item.start
                &&& forall|i: int|
                    0 <= i < right.items().len() ==> item.start <= (
                    #[trigger] right.items()[i]).start
            },
        }
    }

    /// At every node, no start in the left subtree is above the node's and
    /// every start in the right subtree is above it.
    pub open spec fn is_strict_search_tree(self) -> bool
        decreases self,
    {
        match self {
            Shape::Leaf => true,
            Shape::Fork { left, item, right } => {
                &&& left.is_strict_search_tree()
                &&& right.is_strict_search_tree()
                &&& forall|i: int|
                    0 <= i < left.items().len() ==> (#[trigger] left.items()[i]).start
                        <= item.start
                &&& forall|i: int|
                    0 <= i < right.items().len() ==> item.start < (
                    #[trigger] right.items()[i]).start
            },
        }
    }

    /// What every tree of this library is: balanced, with its items sorted
    /// by start.
    pub open spec fn sound(self) -> bool {
        self.balanced() && sorted(self.items())
    }

    /// The root's right child becomes the root; the old root becomes its left
    /// child and takes over the new root's former left subtree as its right
    /// one. A tree without a right child is left as it is.
    pub open spec fn rotate_left(self) -> Shape {
        match self {
            Shape::Leaf => self,
            Shape::Fork { left, item, right } => match *right {
                Shape::Leaf => self,
                Shape::Fork { left: inner, item: pivot, right: outer } => Shape::Fork {
                    left: Box::new(Shape::Fork { left, item, right: inner }),
                    item: pivot,
                    right: outer,
                },
            },
        }
    }

    /// The mirror image of [`Shape::rotate_left`].
    pub open spec fn rotate_right(self) -> Shape {
        match self {
            Shape::Leaf => self,
            Shape::Fork { left, item, right } => match *left {
                Shape::Leaf => self,
                Shape::Fork { left: outer, item: pivot, right: inner } => Shape::Fork {
                    left: outer,
                    item: pivot,
                    right: Box::new(Shape::Fork { left: inner, item, right }),
                },
            },
        }
    }

    /// Restores the balance at the root after an item that starts at `key`
    /// went into one of the subtrees. Which of the four rotations is made
    /// depends on the side that is too high and on where `key` stands
    /// relative to the start at that side's root.
    pub open spec fn rebalance(self, key: int) -> Shape {
        match self {
            Shape::Leaf => self,
            Shape::Fork { left, item, right } => {
                if self.balance() > 1 && *left is Fork {
                    if key <= left->item.start {
                        self.rotate_right()
                    } else {
                        Shape::fork(left.rotate_left(), item, *right).rotate_right()
                    }
                } else if self.balance() < -1 && *right is Fork {
                    if key > right->item.start {
                        self.rotate_left()
                    } else {
                        Shape::fork(*left, item, right.rotate_right()).rotate_left()
                    }
                } else {
                    self
                }
            },
        }
    }

    /// The tree after `item` is inserted: it descends to the left where its
    /// start is at most the node's, else to the right, takes the empty place
    /// it reaches, and every node on the way back up is rebalanced.
    pub open spec fn insert(self, item: Span) -> Shape
        decreases self,
    {
        match self {
            Shape::Leaf => Shape::single(item),
            Shape::Fork { left, item: here, right } => {
                if item.start <= here.start {
                    Shape::fork(left.insert(item), here, *right).rebalance(item.start)
                } else {
                    Shape::fork(*left, here, right.insert(item)).rebalance(item.start)
                }
            },
        }
    }

    /// The tree that grows from the empty one when `items` are inserted one
    /// after the other, first to last.
    pub open spec fn grown(items: Seq<Span>) -> Shape
        decreases items.len(),
    {
        if items.len() == 0 {
            Shape::Leaf
        } else {
            Shape::grown(items.drop_last()).insert(items.last())
        }
    }
}

} // verus!
