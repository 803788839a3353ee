//! Symbolic expressions over trace variables.

use vstd::prelude::*;

verus! {

/// Where a symbolic variable points.
#[derive(Clone, Copy, PartialEq, Eq, Structural, Debug)]
pub enum Entry {
    Preprocessed { offset: usize },
    Main { part_index: usize, offset: usize },
    Public,
    Challenge,
}

/// A variable of a trace: its kind of entry and its column index.
#[derive(Clone, Copy, PartialEq, Eq, Structural, Debug)]
pub struct SymbolicVariable {
    pub entry: Entry,
    pub index: usize,
}

impl SymbolicVariable {
    pub fn new(entry: Entry, index: usize) -> (v: Self)
        ensures
            v.entry == entry,
            v.index == index,
    {
        SymbolicVariable { entry, index }
    }
}

/// A symbolic field expression. A constant holds the canonical integer value
/// of its field element.
#[derive(Debug)]
pub enum SymbolicExpression {
    Variable(SymbolicVariable),
    IsFirstRow,
    IsLastRow,
    IsTransition,
    Constant(u64),
    Add(Box<SymbolicExpression>, Box<SymbolicExpression>),
    Sub(Box<SymbolicExpression>, Box<SymbolicExpression>),
    Neg(Box<SymbolicExpression>),
    Mul(Box<SymbolicExpression>, Box<SymbolicExpression>),
}

/// Values for everything that a symbolic expression can mention.
pub struct Assignment {
    pub var: spec_fn(SymbolicVariable) -> int,
    pub is_first_row: int,
    pub is_last_row: int,
    pub is_transition: int,
}

/// The height of an expression tree: zero for a leaf.
pub open spec fn height(e: SymbolicExpression) -> nat
    decreases e,
{
    match e {
        SymbolicExpression::Add(x, y) => 1 + max_nat(height(*x), height(*y)),
        SymbolicExpression::Sub(x, y) => 1 + max_nat(height(*x), height(*y)),
        SymbolicExpression::Neg(x) => 1 + height(*x),
        SymbolicExpression::Mul(x, y) => 1 + max_nat(height(*x), height(*y)),
        _ => 0,
    }
}

pub open spec fn max_nat(a: nat, b: nat) -> nat {
    if a >= b { a } else { b }
}

/// The value of an expression in the ring of integers under an assignment.
pub open spec fn eval(e: SymbolicExpression, a: Assignment) -> int
    decreases e,
{
    match e {
        SymbolicExpression::Variable(v) => (a.var)(v),
        SymbolicExpression::IsFirstRow => a.is_first_row,
        SymbolicExpression::IsLastRow => a.is_last_row,
        SymbolicExpression::IsTransition => a.is_transition,
        SymbolicExpression::Constant(c) => c as int,
        SymbolicExpression::Add(x, y) => eval(*x, a) + eval(*y, a),
        SymbolicExpression::Sub(x, y) => eval(*x, a) - eval(*y, a),
        SymbolicExpression::Neg(x) => -eval(*x, a),
        SymbolicExpression::Mul(x, y) => eval(*x, a) * eval(*y, a),
    }
}

impl SymbolicExpression {
    /// The height of the tree, saturated at `usize::MAX`.
    pub fn height(&self) -> (h: usize)
        ensures
            h as nat == if height(*self) <= usize::MAX { height(*self) } else { usize::MAX as nat },
        decreases self,
    {
        match self {
            SymbolicExpression::Add(x, y) | SymbolicExpression::Sub(x, y) | SymbolicExpression::Mul(x, y) => {
                let hx = x.height();
                let hy = y.height();
                let m = if hx >= hy { hx } else { hy };
                m.saturating_add(1)
            },
            SymbolicExpression::Neg(x) => x.height().saturating_add(1),
            _ => 0,
        }
    }
}

} // verus!
