//! The tree laid out row by row, as a diagnostic dump shows it: every node
//! on a row of its own, children below their parent and one level deeper,
//! and a row for each child that a node with one child lacks.

use vstd::prelude::*;
use crate::interval::{Interval, Span};
use crate::shape::Shape;
use crate::text::{decimal, decimal_string, push_spaces, spaces};

verus! {

/// Where a row's node hangs: at the top, or to the left or right of the
/// node on the nearest row above that is one level higher.
#[derive(Clone, Copy, Debug, PartialEq, Eq)]
pub enum Branch {
    Root,
    Left,
    Right,
}

impl Branch {
    /// What a row starts with, after its indentation.
    pub open spec fn label(self) -> Seq<char> {
        match self {
            Branch::Root => seq!['R', 'o', 'o', 't', ':', ' '],
            Branch::Left => seq!['L', '-', '-', '-', ' '],
            Branch::Right => seq!['R', '-', '-', '-', ' '],
        }
    }

    /// What a row starts with, after its indentation.
    pub fn label_str(&self) -> (label: &'static str)
        ensures
            label@ == self.label(),
    {
        proof {
            reveal_strlit("Root: ");
            reveal_strlit("L--- ");
            reveal_strlit("R--- ");
        }
        let label = match self {
            Branch::Root => "Root: ",
            Branch::Left => "L--- ",
            Branch::Right => "R--- ",
        };
        label
    }
}

/// The mathematical value of a [`Row`].
pub struct RowView {
    pub level: nat,
    pub branch: Branch,
    pub node: Option<(Span, int)>,
}

impl RowView {
    /// The row as a line of text: four spaces for each level, the branch's
    /// label, then the interval and the largest end below it, or `None`
    /// where there is no node.
    pub open spec fn text(self) -> Seq<char> {
        spaces(4 * self.level) + self.branch.label() + match self.node {
            Some((item, max_end)) => item.text() + seq![
                ' ',
                '(',
                'm',
                'a',
                'x',
                '_',
                'e',
                'n',
                'd',
                ':',
                ' ',
            ] + decimal(max_end) + seq![')', '\n'],
            None => seq!['N', 'o', 'n', 'e', '\n'],
        }
    }
}

/// The lines of `rows`, one after the other.
pub open spec fn rows_text(rows: Seq<RowView>) -> Seq<char>
    decreases rows.len(),
{
    if rows.len() == 0 {
        Seq::empty()
    } else {
        rows_text(rows.drop_last()) + rows.last().text()
    }
}

/// One row of the dump: how deep it stands, on which side of its parent,
/// and the node's interval with the largest end in the node's subtree, or
/// nothing where the parent has no child on that side.
#[derive(Debug)]
pub struct Row {
    pub level: usize,
    pub branch: Branch,
    pub node: Option<(Interval, i64)>,
}

impl View for Row {
    type V = RowView;

    open spec fn view(&self) -> RowView {
        RowView {
            level: self.level as nat,
            branch: self.branch,
            node: match self.node {
                Some((interval, max_end)) => Some((interval@, max_end as int)),
                None => None,
            },
        }
    }
}

impl DeepView for Row {
    type V = RowView;

    open spec fn deep_view(&self) -> RowView {
        self@
    }
}

impl Row {
    /// The row as a line of text that ends in a line feed.
    pub fn to_string(&self) -> (text: String)
        ensures
            text@ == self@.text(),
    {
        let mut text = String::new();
        let mut done: usize = 0;
        while done < self.level
            invariant
                done <= self.level,
                text@ == spaces(4 * (done as nat)),
            decreases self.level - done,
        {
            push_spaces(&mut text, 4);
            done = done + 1;
        }
        text.append(self.branch.label_str());
        match &self.node {
            Some((interval, max_end)) => {
                text.append(interval.to_string().as_str());
                text.append(" (max_end: ");
                text.append(decimal_string(*max_end).as_str());
                text.append(")\n");
                proof {
                    reveal_strlit(" (max_end: ");
                    reveal_strlit(")\n");
                    assert(" (max_end: "@ =~= seq![
                        ' ',
                        '(',
                        'm',
                        'a',
                        'x',
                        '_',
                        'e',
                        'n',
                        'd',
                        ':',
                        ' ',
                    ]);
                }
            },
            None => {
                text.append("None\n");
                proof {
                    reveal_strlit("None\n");
                }
            },
        }
        text
    }
}

impl Shape {
    /// The rows of the tree when its root stands at `level` on `branch`:
    /// the root's row, then, if it has a child, the rows of what hangs on
    /// its left and of what hangs on its right, one level deeper. A side
    /// without a child gets one row without a node. A node without children
    /// has no rows below it, and the empty tree has no row.
    pub open spec fn outline(self, level: nat, branch: Branch) -> Seq<RowView>
        decreases self,
    {
        match self {
            Shape::Leaf => Seq::empty(),
            Shape::Fork { left, item, right } => {
                let head = seq![RowView { level, branch, node: Some((item, self.max_end())) }];
                if *left is Leaf && *right is Leaf {
                    head
                } else {
                    head + (if *left is Leaf {
                        seq![RowView { level: level + 1, branch: Branch::Left, node: None }]
                    } else {
                        left.outline(level + 1, Branch::Left)
                    }) + (if *right is Leaf {
                        seq![RowView { level: level + 1, branch: Branch::Right, node: None }]
                    } else {
                        right.outline(level + 1, Branch::Right)
                    })
                }
            },
        }
    }
}

/// The lines of `rows` as one text.
pub fn rows_to_string(rows: &Vec<Row>) -> (text: String)
    ensures
        text@ == rows_text(rows.deep_view()),
{
    let mut text = String::new();
    let mut i: usize = 0;
    while i < rows.len()
        invariant
            i <= rows.len(),
            text@ == rows_text(rows.deep_view().take(i as int)),
        decreases rows.len() - i,
    {
        text.append(rows[i].to_string().as_str());
        proof {
            let next = rows.deep_view().take(i + 1);
            assert(next.drop_last() =~= rows.deep_view().take(i as int));
        }
        i = i + 1;
    }
    proof {
        assert(rows.deep_view().take(i as int) =~= rows.deep_view());
    }
    text
}

} // verus!
