//! Closed intervals with an opaque payload.

use vstd::prelude::*;
use crate::text::{decimal, decimal_string};

verus! {

/// The mathematical value of an [`Interval`]: a closed range `[start, end]`
/// of integers together with the characters of its payload.
pub struct Span {
    pub start: int,
    pub end: int,
    pub data: Seq<char>,
}

impl Span {
    /// Whether `point` lies in the closed range `[start, end]`.
    pub open spec fn covers(self, point: int) -> bool {
        self.start <= point <= self.end
    }

    /// The interval in words: `[start, end] (data)`, the bounds in decimal
    /// notation.
    pub open spec fn text(self) -> Seq<char> {
        seq!['['] + decimal(self.start) + seq![',', ' '] + decimal(self.end) + seq![
            ']',
            ' ',
            '(',
        ] + self.data + seq![')']
    }
}

/// A closed interval `[start, end]` on the integer line with a payload that
/// is stored and handed back, never inspected.
///
/// Coordinates are 64-bit integers. A host whose coordinates are of another
/// totally ordered type maps them to integers in a way that keeps their
/// order. Nothing asks that `start <= end`: an interval with `start > end`
/// covers no point.
#[derive(Debug)]
pub struct Interval {
    start: i64,
    end: i64,
    data: String,
}

impl View for Interval {
    type V = Span;

    closed spec fn view(&self) -> Span {
        Span { start: self.start as int, end: self.end as int, data: self.data@ }
    }
}

impl DeepView for Interval {
    type V = Span;

    open spec fn deep_view(&self) -> Span {
        self@
    }
}

impl Clone for Interval {
    fn clone(&self) -> (copy: Self)
        ensures
            copy == *self,
    {
        Interval { start: self.start, end: self.end, data: self.data.clone() }
    }
}

impl Interval {
    /// An interval from `start` to `end`, both included, that carries `data`.
    pub fn new(start: i64, end: i64, data: String) -> (interval: Interval)
        ensures
            interval@ == (Span { start: start as int, end: end as int, data: data@ }),
    {
        Interval { start, end, data }
    }

    /// The lower bound.
    pub fn start(&self) -> (start: i64)
        ensures
            start == self@.start,
    {
        self.start
    }

    /// The upper bound.
    pub fn end(&self) -> (end: i64)
        ensures
            end == self@.end,
    {
        self.end
    }

    /// A copy of the payload.
    pub fn data(&self) -> (data: String)
        ensures
            data@ == self@.data,
    {
        self.data.clone()
    }

    /// The interval in words: `[start, end] (data)`.
    pub fn to_string(&self) -> (text: String)
        ensures
            text@ == self@.text(),
    {
        let mut text = String::from_str("[");
        text.append(decimal_string(self.start).as_str());
        text.append(", ");
        text.append(decimal_string(self.end).as_str());
        text.append("] (");
        text.append(self.data.as_str());
        text.append(")");
        proof {
            reveal_strlit("[");
            reveal_strlit(", ");
            reveal_strlit("] (");
            reveal_strlit(")");
        }
        text
    }
}

} // verus!
