//! What device programs compute, number by number.
//!
//! A program for an array of rows and columns is read here with any arithmetic:
//! `entry` is the number that a result holds in a row and a column.

use crate::plan::{Literal, Term};
use crate::single::Single;
use vstd::prelude::*;

verus! {

/// The arithmetic of a device.
#[verifier::reject_recursive_types(T)]
pub struct Numbers<T> {
    pub single: spec_fn(Single) -> T,
    pub integer: spec_fn(int) -> T,
    /// The distance from the first number to the second; where it is widened, the
    /// second counts as a thousandth more than it is.
    pub span: spec_fn(int, int, bool) -> T,
    pub plus: spec_fn(T, T) -> T,
    pub minus: spec_fn(T, T) -> T,
    pub times: spec_fn(T, T) -> T,
    pub over: spec_fn(T, T) -> T,
    pub power: spec_fn(T, T) -> T,
    pub less: spec_fn(T, T) -> bool,
    /// The nearest number between zero and one.
    pub clip: spec_fn(T) -> T,
    /// What stands where an array has no entry.
    pub nothing: T,
}

/// A program read with some arithmetic: what it is run on, by row and column.
#[verifier::reject_recursive_types(T)]
pub struct Reading<T> {
    pub numbers: Numbers<T>,
    pub input: spec_fn(int, int) -> T,
    pub rows: int,
    pub columns: int,
}

impl<T> Reading<T> {
    /// Number of columns of a result.
    pub open spec fn width(self, t: Term) -> int
        decreases t,
    {
        match t {
            Term::Constant { values, .. } => values.len() as int,
            Term::Scale { x, .. } => self.width(*x),
            Term::Range { start, end, .. } => end - start,
            Term::Concat { x, y } => self.width(*x) + self.width(*y),
            _ => self.columns,
        }
    }

    /// The number of a result in row `i` and column `j`.
    pub open spec fn entry(self, t: Term, i: int, j: int) -> T
        decreases t,
    {
        let n = self.numbers;
        match t {
            Term::Input => (self.input)(i, j),
            Term::Scalar { value } => match value {
                Literal::Single(x) => (n.single)(x),
                Literal::Integer(x) => (n.integer)(x as int),
                Literal::Span { low, high, widened } => (n.span)(low as int, high as int, widened),
            },
            Term::Constant { values, shape } => if shape.len() == 2 && shape[0] == 1 && shape[1]
                == values.len() && 0 <= j < values.len() {
                (n.single)(values[j])
            } else {
                n.nothing
            },
            Term::Arange { start, stop, step } => if start + step * j < stop {
                (n.integer)(start + step * j)
            } else {
                n.nothing
            },
            Term::Add { x, y } => (n.plus)(self.entry(*x, i, j), self.entry(*y, i, j)),
            Term::Subtract { x, y } => (n.minus)(self.entry(*x, i, j), self.entry(*y, i, j)),
            Term::Multiply { x, y } => (n.times)(self.entry(*x, i, j), self.entry(*y, i, j)),
            Term::Divide { x, y } => (n.over)(self.entry(*x, i, j), self.entry(*y, i, j)),
            Term::Power { x, y } => (n.power)(self.entry(*x, i, j), self.entry(*y, i, j)),
            Term::Select { when, x, y } => if self.holds(*when, i, j) {
                self.entry(*x, i, j)
            } else {
                self.entry(*y, i, j)
            },
            Term::ClipUnit { x } => (n.clip)(self.entry(*x, i, j)),
            Term::Scale { x, by } => (n.times)(self.entry(*x, i, j), (n.single)(by)),
            Term::Range { x, start, end } => if 0 <= j < end - start {
                self.entry(*x, i, start + j)
            } else {
                n.nothing
            },
            Term::Concat { x, y } => if j < self.width(*x) {
                self.entry(*x, i, j)
            } else {
                self.entry(*y, i, j - self.width(*x))
            },
            Term::LastPosition { x } => self.entry(*x, self.rows - 1, j),
            _ => n.nothing,
        }
    }

    /// Whether a comparison holds in row `i` and column `j`.
    pub open spec fn holds(self, t: Term, i: int, j: int) -> bool
        decreases t,
    {
        match t {
            Term::Less { x, y } => (self.numbers.less)(
                self.entry(*x, i, j),
                self.entry(*y, i, j),
            ),
            _ => false,
        }
    }
}

} // verus!
