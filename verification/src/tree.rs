//! The executable tree: nodes that own their children, each with the height
//! and the largest end of its subtree, and the insertion that keeps them
//! balanced.

use vstd::prelude::*;
use crate::balance::{lemma_height_limit, lemma_insert_balanced};
use crate::interval::{Interval, Span};
use crate::order::{lemma_insert_items, lemma_search_tree, lemma_sorted_parts};
use crate::outline::{rows_text, rows_to_string, Branch, Row, RowView};
use crate::search::{lemma_skip_late_starts, lemma_skip_low_ends, lemma_stabbed_fork};
use crate::shape::{larger, rank, sorted, stabbed, Shape};

verus! {

/// A node with its interval, its two subtrees, and what it remembers of the
/// subtree below it.
struct AVLNode {
    interval: Interval,
    left: Option<Box<AVLNode>>,
    right: Option<Box<AVLNode>>,
    height: i32,
    max_end: i64,
}

/// The structure of the subtree that hangs on `link`.
spec fn shape_of(link: Option<Box<AVLNode>>) -> Shape
    decreases link,
{
    match link {
        None => Shape::Leaf,
        Some(node) => node.shape(),
    }
}

/// Every node under `link` remembers the height and the largest end of its
/// subtree rightly.
spec fn cached(link: Option<Box<AVLNode>>) -> bool
    decreases link,
{
    match link {
        None => true,
        Some(node) => node.cached(),
    }
}

impl AVLNode {
    /// The structure of the subtree of which this node is the root.
    spec fn shape(self) -> Shape
        decreases self,
    {
        Shape::fork(shape_of(self.left), self.interval@, shape_of(self.right))
    }

    /// This node and every node below it remember the height and the
    /// largest end of their subtrees rightly.
    spec fn cached(self) -> bool
        decreases self,
    {
        &&& cached(self.left)
        &&& cached(self.right)
        &&& self.height == self.shape().height()
        &&& self.max_end == self.shape().max_end()
    }

    fn new(interval: Interval) -> (node: Self)
        ensures
            node.cached(),
            node.shape() == Shape::single(interval@),
    {
        let max_end = interval.end();
        let node = AVLNode { interval, left: None, right: None, height: 1, max_end };
        proof {
            reveal_with_fuel(Shape::height, 2);
            reveal_with_fuel(Shape::max_end, 2);
        }
        node
    }
}

fn max_i64(a: i64, b: i64) -> (m: i64)
    ensures
        m == larger(a as int, b as int),
{
    if a > b {
        a
    } else {
        b
    }
}

/// An interval tree: intervals kept in an AVL tree by their starts, where
/// every node knows the largest end below it, so that the intervals that
/// cover a point are found without visiting the whole tree.
pub struct IntervalTree {
    root: Option<Box<AVLNode>>,
    count: usize,
}

impl View for IntervalTree {
    type V = Seq<Span>;

    /// The stored intervals, sorted by start.
    open spec fn view(&self) -> Seq<Span> {
        self.shape().items()
    }
}

impl IntervalTree {
    #[verifier::type_invariant]
    spec fn well_formed(self) -> bool {
        &&& cached(self.root)
        &&& shape_of(self.root).sound()
        &&& self.count == shape_of(self.root).len()
    }

    /// The structure of the tree.
    pub closed spec fn shape(&self) -> Shape {
        shape_of(self.root)
    }

    /// An empty tree.
    pub fn new() -> (tree: IntervalTree)
        ensures
            tree.shape() == Shape::Leaf,
            tree@ == Seq::<Span>::empty(),
    {
        IntervalTree { root: None, count: 0 }
    }

    /// Stores the interval `[start, end]` with `data`. The tree is
    /// rebalanced on the way; among the stored intervals the new one comes
    /// to stand behind those that start below `start` and before all others.
    pub fn insert(&mut self, start: i64, end: i64, data: String)
        requires
            old(self)@.len() < usize::MAX,
        ensures
            final(self).shape() == old(self).shape().insert(
                Span { start: start as int, end: end as int, data: data@ },
            ),
            final(self)@ == old(self)@.insert(
                rank(old(self)@, start as int) as int,
                Span { start: start as int, end: end as int, data: data@ },
            ),
            final(self)@.len() == old(self)@.len() + 1,
            final(self).shape().balanced(),
            final(self).shape().is_search_tree(),
            sorted(final(self)@),
    {
        let interval = Interval::new(start, end, data);
        let mut taken = IntervalTree { root: None, count: 0 };
        core::mem::swap(self, &mut taken);
        proof {
            use_type_invariant(&taken);
            lemma_height_limit(shape_of(taken.root));
            lemma_insert_balanced(shape_of(taken.root), interval@);
            lemma_insert_items(shape_of(taken.root), interval@);
            lemma_search_tree(shape_of(taken.root).insert(interval@));
        }
        let IntervalTree { root, count } = taken;
        *self = IntervalTree { root: Self::insert_recursive(root, interval), count: count + 1 };
    }

    /// The stored intervals that cover `point`, sorted by start: those
    /// whose start is at most `point` and whose end is at least `point`.
    pub fn find_overlapping(&self, point: i64) -> (found: Vec<Interval>)
        ensures
            found.deep_view() == stabbed(self@, point as int),
    {
        proof {
            use_type_invariant(self);
        }
        let mut result = Vec::new();
        Self::search_overlapping_recursive(&self.root, point, &mut result);
        result
    }

    /// All stored intervals, sorted by start. Of intervals with the same
    /// start, one that was inserted later comes earlier.
    pub fn get_all_intervals(&self) -> (all: Vec<Interval>)
        ensures
            all.deep_view() == self@,
            sorted(self@),
    {
        proof {
            use_type_invariant(self);
        }
        let mut result = Vec::new();
        Self::inorder_recursive(&self.root, &mut result);
        result
    }

    /// The rows of a dump of the tree, from the root down: every node with
    /// its interval and the largest end in its subtree.
    pub fn outline(&self) -> (rows: Vec<Row>)
        ensures
            rows.deep_view() == self.shape().outline(0, Branch::Root),
    {
        proof {
            use_type_invariant(self);
            lemma_height_limit(shape_of(self.root));
        }
        let mut rows = Vec::new();
        Self::print_tree_recursive(&self.root, 0, Branch::Root, &mut rows);
        rows
    }

    /// A dump of the tree for diagnosis: `Empty tree`, or one line for each
    /// row of [`IntervalTree::outline`].
    pub fn print_tree(&self) -> (text: String)
        ensures
            text@ == if self@.len() == 0 {
                seq!['E', 'm', 'p', 't', 'y', ' ', 't', 'r', 'e', 'e']
            } else {
                rows_text(self.shape().outline(0, Branch::Root))
            },
    {
        if self.is_empty() {
            proof {
                reveal_strlit("Empty tree");
            }
            String::from_str("Empty tree")
        } else {
            rows_to_string(&self.outline())
        }
    }

    /// The height of the tree: the number of nodes on the longest way from
    /// the root down, 0 for the empty tree.
    pub fn height(&self) -> (height: i32)
        ensures
            height == self.shape().height(),
            self.shape().balanced(),
    {
        proof {
            use_type_invariant(self);
        }
        Self::get_height(&self.root)
    }

    /// Whether the tree holds no interval.
    pub fn is_empty(&self) -> (empty: bool)
        ensures
            empty == (self@.len() == 0),
            empty == (self.shape() is Leaf),
    {
        proof {
            use_type_invariant(self);
        }
        self.root.is_none()
    }

    /// The number of stored intervals.
    pub fn len(&self) -> (count: usize)
        ensures
            count == self@.len(),
    {
        proof {
            use_type_invariant(self);
        }
        self.count
    }

    /// The number of stored intervals as a 32-bit integer: the number
    /// itself where it is at most `i32::MAX`, else its low 32 bits.
    pub fn size(&self) -> (size: i32)
        ensures
            size == self@.len() as i32,
            self@.len() <= i32::MAX ==> size == self@.len(),
    {
        #[verifier::truncate]
        (self.len() as i32)
    }

    fn get_height(node: &Option<Box<AVLNode>>) -> (height: i32)
        requires
            cached(*node),
        ensures
            height == shape_of(*node).height(),
    {
        match node {
            Some(n) => n.height,
            None => 0,
        }
    }

    fn get_balance(node: &Option<&Box<AVLNode>>) -> (balance: i32)
        requires
            node matches Some(n) ==> cached(n.left) && cached(n.right),
        ensures
            balance == match *node {
                Some(n) => n.shape().balance(),
                None => 0,
            },
    {
        match node {
            Some(n) => Self::get_height(&n.left) - Self::get_height(&n.right),
            None => 0,
        }
    }

    fn update_height(node: &mut Box<AVLNode>)
        requires
            cached(old(node).left),
            cached(old(node).right),
            old(node).shape().height() <= i32::MAX,
        ensures
            final(node).height == old(node).shape().height(),
            final(node).interval == old(node).interval,
            final(node).left == old(node).left,
            final(node).right == old(node).right,
            final(node).max_end == old(node).max_end,
    {
        let left = Self::get_height(&node.left);
        let right = Self::get_height(&node.right);
        node.height = 1 + if left > right {
            left
        } else {
            right
        };
    }

    fn update_max_end(node: &mut Box<AVLNode>)
        requires
            cached(old(node).left),
            cached(old(node).right),
        ensures
            final(node).max_end == old(node).shape().max_end(),
            final(node).interval == old(node).interval,
            final(node).left == old(node).left,
            final(node).right == old(node).right,
            final(node).height == old(node).height,
    {
        node.max_end = node.interval.end();
        if let Some(ref left) = node.left {
            node.max_end = max_i64(node.max_end, left.max_end);
        }
        if let Some(ref right) = node.right {
            node.max_end = max_i64(node.max_end, right.max_end);
        }
    }

    fn rotate_left(mut z: Box<AVLNode>) -> (y: Box<AVLNode>)
        requires
            cached(z.left),
            cached(z.right),
            z.right is Some,
            z.shape().height() < i32::MAX,
        ensures
            y.cached(),
            y.shape() == z.shape().rotate_left(),
    {
        proof {
            reveal_with_fuel(Shape::height, 3);
            reveal_with_fuel(cached, 3);
            reveal_with_fuel(AVLNode::cached, 3);
            reveal_with_fuel(shape_of, 3);
            reveal_with_fuel(AVLNode::shape, 3);
        }
        let mut y = z.right.take().unwrap();
        z.right = y.left.take();

        Self::update_height(&mut z);
        Self::update_max_end(&mut z);
        y.left = Some(z);
        Self::update_height(&mut y);
        Self::update_max_end(&mut y);
        y
    }

    fn rotate_right(mut z: Box<AVLNode>) -> (y: Box<AVLNode>)
        requires
            cached(z.left),
            cached(z.right),
            z.left is Some,
            z.shape().height() < i32::MAX,
        ensures
            y.cached(),
            y.shape() == z.shape().rotate_right(),
    {
        proof {
            reveal_with_fuel(Shape::height, 3);
            reveal_with_fuel(cached, 3);
            reveal_with_fuel(AVLNode::cached, 3);
            reveal_with_fuel(shape_of, 3);
            reveal_with_fuel(AVLNode::shape, 3);
        }
        let mut y = z.left.take().unwrap();
        z.left = y.right.take();

        Self::update_height(&mut z);
        Self::update_max_end(&mut z);
        y.right = Some(z);
        Self::update_height(&mut y);
        Self::update_max_end(&mut y);
        y
    }

    fn insert_recursive(root: Option<Box<AVLNode>>, interval: Interval) -> (out: Option<
        Box<AVLNode>,
    >)
        requires
            cached(root),
            shape_of(root).balanced(),
            shape_of(root).height() + 2 < i32::MAX,
        ensures
            cached(out),
            shape_of(out) == shape_of(root).insert(interval@),
        decreases root,
    {
        let interval_start = interval.start();

        // Descend as in any search tree; an equal start goes to the left.
        let mut root = match root {
            Some(mut node) => {
                if interval_start <= node.interval.start() {
                    proof {
                        lemma_insert_balanced(shape_of(node.left), interval@);
                    }
                    node.left = Self::insert_recursive(node.left.take(), interval);
                } else {
                    proof {
                        lemma_insert_balanced(shape_of(node.right), interval@);
                    }
                    node.right = Self::insert_recursive(node.right.take(), interval);
                }
                node
            },
            None => return Some(Box::new(AVLNode::new(interval))),
        };

        Self::update_height(&mut root);
        Self::update_max_end(&mut root);

        let balance = Self::get_balance(&Some(&root));

        // Left side too high, item went to the left of the left child.
        if balance > 1 {
            if let Some(ref left) = root.left {
                if interval_start <= left.interval.start() {
                    return Some(Self::rotate_right(root));
                }
            }
        }
        // Right side too high, item went to the right of the right child.
        if balance < -1 {
            if let Some(ref right) = root.right {
                if interval_start > right.interval.start() {
                    return Some(Self::rotate_left(root));
                }
            }
        }
        // Left side too high, item went to the right of the left child.
        if balance > 1 {
            if let Some(ref left) = root.left {
                if interval_start > left.interval.start() {
                    proof {
                        reveal_with_fuel(Shape::height, 3);
                    }
                    root.left = Some(Self::rotate_left(root.left.take().unwrap()));
                    return Some(Self::rotate_right(root));
                }
            }
        }
        // Right side too high, item went to the left of the right child.
        if balance < -1 {
            if let Some(ref right) = root.right {
                if interval_start <= right.interval.start() {
                    proof {
                        reveal_with_fuel(Shape::height, 3);
                    }
                    root.right = Some(Self::rotate_right(root.right.take().unwrap()));
                    return Some(Self::rotate_left(root));
                }
            }
        }
        Some(root)
    }

    fn search_overlapping_recursive(
        root: &Option<Box<AVLNode>>,
        point: i64,
        result: &mut Vec<Interval>,
    )
        requires
            cached(*root),
            sorted(shape_of(*root).items()),
        ensures
            final(result).deep_view() == old(result).deep_view() + stabbed(
                shape_of(*root).items(),
                point as int,
            ),
        decreases *root,
    {
        if let Some(node) = root {
            proof {
                lemma_sorted_parts(shape_of(*root));
                lemma_stabbed_fork(shape_of(*root), point as int);
            }
            // Nothing on the left reaches the point if the largest end there
            // lies below it.
            if let Some(ref left) = node.left {
                if left.max_end >= point {
                    Self::search_overlapping_recursive(&node.left, point, result);
                } else {
                    proof {
                        assert(cached(node.left));
                        lemma_skip_low_ends(shape_of(node.left), point as int);
                    }
                }
            }
            let ghost before = result.deep_view();
            if node.interval.start() <= point && point <= node.interval.end() {
                result.push(node.interval.clone());
                assert(result.deep_view() =~= before.push(node.interval@));
            }
            // Everything on the right starts no earlier than this node.
            if node.interval.start() <= point {
                Self::search_overlapping_recursive(&node.right, point, result);
            } else {
                proof {
                    lemma_skip_late_starts(shape_of(node.right).items(), point as int);
                }
            }
            assert(result.deep_view() =~= old(result).deep_view() + stabbed(
                shape_of(*root).items(),
                point as int,
            ));
        } else {
            assert(stabbed(shape_of(*root).items(), point as int) =~= Seq::<Span>::empty()) by {
                reveal(Seq::filter);
            }
        }
    }

    fn inorder_recursive(root: &Option<Box<AVLNode>>, result: &mut Vec<Interval>)
        requires
            cached(*root),
        ensures
            final(result).deep_view() == old(result).deep_view() + shape_of(*root).items(),
        decreases *root,
    {
        if let Some(node) = root {
            Self::inorder_recursive(&node.left, result);
            let ghost before = result.deep_view();
            result.push(node.interval.clone());
            assert(result.deep_view() =~= before.push(node.interval@));
            Self::inorder_recursive(&node.right, result);
        }
    }

    fn print_tree_recursive(
        root: &Option<Box<AVLNode>>,
        level: usize,
        branch: Branch,
        rows: &mut Vec<Row>,
    )
        requires
            cached(*root),
            level + shape_of(*root).height() <= usize::MAX,
        ensures
            final(rows).deep_view() == old(rows).deep_view() + shape_of(*root).outline(
                level as nat,
                branch,
            ),
        decreases *root,
    {
        match root {
            Some(node) => {
                rows.push(Row { level, branch, node: Some((node.interval.clone(), node.max_end)) });

                if node.left.is_some() || node.right.is_some() {
                    let ghost before_left = rows.deep_view();
                    if let Some(ref _left) = node.left {
                        Self::print_tree_recursive(&node.left, level + 1, Branch::Left, rows);
                    } else {
                        rows.push(Row { level: level + 1, branch: Branch::Left, node: None });
                        assert(rows.deep_view() =~= before_left + seq![
                            RowView { level: (level + 1) as nat, branch: Branch::Left, node: None },
                        ]);
                    }
                    let ghost before_right = rows.deep_view();
                    if let Some(ref _right) = node.right {
                        Self::print_tree_recursive(&node.right, level + 1, Branch::Right, rows);
                    } else {
                        rows.push(Row { level: level + 1, branch: Branch::Right, node: None });
                        assert(rows.deep_view() =~= before_right + seq![
                            RowView {
                                level: (level + 1) as nat,
                                branch: Branch::Right,
                                node: None,
                            },
                        ]);
                    }
                }
                assert(rows.deep_view() =~= old(rows).deep_view() + shape_of(*root).outline(
                    level as nat,
                    branch,
                ));
            },
            None => {},
        }
    }
}

} // verus!
