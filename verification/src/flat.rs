//! Flattened expressions: chains of additions and of multiplications are
//! collected into one node with a list of operands.

use vstd::prelude::*;
use crate::expr::{SymbolicVariable, SymbolicExpression, Assignment, height, max_nat, eval};

verus! {

/// The mathematical value of a flattened expression.
pub enum Flat {
    Variable(SymbolicVariable),
    IsFirstRow,
    IsLastRow,
    IsTransition,
    Constant(u64),
    Add(Seq<Flat>),
    Sub(Box<Flat>, Box<Flat>),
    Neg(Box<Flat>),
    Mul(Seq<Flat>),
}

/// A symbolic expression in which the operands of a sum (and of a product)
/// are listed side by side.
#[derive(Debug)]
pub enum FlatSymbolicExpression {
    Variable(SymbolicVariable),
    IsFirstRow,
    IsLastRow,
    IsTransition,
    Constant(u64),
    Add(Vec<FlatSymbolicExpression>),
    Sub(Box<FlatSymbolicExpression>, Box<FlatSymbolicExpression>),
    Neg(Box<FlatSymbolicExpression>),
    Mul(Vec<FlatSymbolicExpression>),
}

impl FlatSymbolicExpression {
    pub open spec fn to_flat(&self) -> Flat
        decreases self,
    {
        match self {
            FlatSymbolicExpression::Variable(v) => Flat::Variable(*v),
            FlatSymbolicExpression::IsFirstRow => Flat::IsFirstRow,
            FlatSymbolicExpression::IsLastRow => Flat::IsLastRow,
            FlatSymbolicExpression::IsTransition => Flat::IsTransition,
            FlatSymbolicExpression::Constant(c) => Flat::Constant(*c),
            FlatSymbolicExpression::Add(xs) => Flat::Add(Self::seq_to_flat(xs@)),
            FlatSymbolicExpression::Sub(x, y) => Flat::Sub(Box::new(x.to_flat()), Box::new(y.to_flat())),
            FlatSymbolicExpression::Neg(x) => Flat::Neg(Box::new(x.to_flat())),
            FlatSymbolicExpression::Mul(xs) => Flat::Mul(Self::seq_to_flat(xs@)),
        }
    }

    pub open spec fn seq_to_flat(xs: Seq<FlatSymbolicExpression>) -> Seq<Flat>
        decreases xs,
    {
        if xs.len() == 0 {
            Seq::empty()
        } else {
            Self::seq_to_flat(xs.subrange(0, xs.len() - 1)).push(xs[xs.len() - 1].to_flat())
        }
    }
}


/// The operands that a sum contributes when it is added to another term: a sum
/// gives its own operands, anything else gives itself.
pub open spec fn summands(f: Flat) -> Seq<Flat> {
    match f {
        Flat::Add(xs) => xs,
        _ => seq![f],
    }
}

/// The operands that a product contributes when it is multiplied by another term.
pub open spec fn factors(f: Flat) -> Seq<Flat> {
    match f {
        Flat::Mul(xs) => xs,
        _ => seq![f],
    }
}

/// The flattening of an expression: a sum of two terms lists the summands of
/// both, a product of two terms lists the factors of both; every other node
/// keeps its shape.
pub open spec fn flatten(e: SymbolicExpression) -> Flat
    decreases e,
{
    match e {
        SymbolicExpression::Variable(v) => Flat::Variable(v),
        SymbolicExpression::IsFirstRow => Flat::IsFirstRow,
        SymbolicExpression::IsLastRow => Flat::IsLastRow,
        SymbolicExpression::IsTransition => Flat::IsTransition,
        SymbolicExpression::Constant(c) => Flat::Constant(c),
        SymbolicExpression::Add(x, y) => Flat::Add(summands(flatten(*x)) + summands(flatten(*y))),
        SymbolicExpression::Sub(x, y) => Flat::Sub(Box::new(flatten(*x)), Box::new(flatten(*y))),
        SymbolicExpression::Neg(x) => Flat::Neg(Box::new(flatten(*x))),
        SymbolicExpression::Mul(x, y) => Flat::Mul(factors(flatten(*x)) + factors(flatten(*y))),
    }
}

pub proof fn lemma_seq_to_flat_push(xs: Seq<FlatSymbolicExpression>, x: FlatSymbolicExpression)
    ensures
        FlatSymbolicExpression::seq_to_flat(xs.push(x)) == FlatSymbolicExpression::seq_to_flat(xs).push(x.to_flat()),
{
    assert(xs.push(x).subrange(0, xs.len() as int) =~= xs);
}

pub proof fn lemma_seq_to_flat_append(xs: Seq<FlatSymbolicExpression>, ys: Seq<FlatSymbolicExpression>)
    ensures
        FlatSymbolicExpression::seq_to_flat(xs + ys) == FlatSymbolicExpression::seq_to_flat(xs)
            + FlatSymbolicExpression::seq_to_flat(ys),
    decreases ys.len(),
{
    if ys.len() == 0 {
        assert(xs + ys =~= xs);
        assert(FlatSymbolicExpression::seq_to_flat(xs) + FlatSymbolicExpression::seq_to_flat(ys)
            =~= FlatSymbolicExpression::seq_to_flat(xs));
    } else {
        let init = ys.subrange(0, ys.len() - 1);
        let last = ys[ys.len() - 1];
        lemma_seq_to_flat_append(xs, init);
        assert(xs + ys =~= (xs + init).push(last));
        assert(ys =~= init.push(last));
        lemma_seq_to_flat_push(xs + init, last);
        lemma_seq_to_flat_push(init, last);
        assert(FlatSymbolicExpression::seq_to_flat(xs + ys) =~= FlatSymbolicExpression::seq_to_flat(xs)
            + FlatSymbolicExpression::seq_to_flat(ys));
    }
}

pub proof fn lemma_seq_to_flat_single(x: FlatSymbolicExpression)
    ensures
        FlatSymbolicExpression::seq_to_flat(seq![x]) == seq![x.to_flat()],
{
    lemma_seq_to_flat_push(Seq::empty(), x);
    assert(Seq::<FlatSymbolicExpression>::empty().push(x) =~= seq![x]);
    assert(Seq::<Flat>::empty().push(x.to_flat()) =~= seq![x.to_flat()]);
}

pub proof fn lemma_seq_to_flat_len(xs: Seq<FlatSymbolicExpression>)
    ensures
        FlatSymbolicExpression::seq_to_flat(xs).len() == xs.len(),
        forall|i: int| 0 <= i < xs.len() ==> #[trigger] FlatSymbolicExpression::seq_to_flat(xs)[i] == xs[i].to_flat(),
    decreases xs.len(),
{
    if xs.len() > 0 {
        let init = xs.subrange(0, xs.len() - 1);
        lemma_seq_to_flat_len(init);
        assert forall|i: int| 0 <= i < xs.len() implies #[trigger] FlatSymbolicExpression::seq_to_flat(xs)[i]
            == xs[i].to_flat() by {
            if i < xs.len() - 1 {
                assert(init[i] == xs[i]);
            }
        }
    }
}

impl FlatSymbolicExpression {
    /// The operands of the sum `x + y`, with nested sums opened.
    fn join_summands(x: FlatSymbolicExpression, y: FlatSymbolicExpression) -> (v: Vec<FlatSymbolicExpression>)
        ensures
            Self::seq_to_flat(v@) == summands(x.to_flat()) + summands(y.to_flat()),
    {
        proof {
            lemma_seq_to_flat_single(x);
            lemma_seq_to_flat_single(y);
        }
        match x {
            FlatSymbolicExpression::Add(mut xs) => match y {
                FlatSymbolicExpression::Add(mut ys) => {
                    let ghost (a, b) = (xs@, ys@);
                    xs.append(&mut ys);
                    proof { lemma_seq_to_flat_append(a, b); }
                    xs
                },
                other => {
                    let ghost a = xs@;
                    xs.push(other);
                    proof {
                        lemma_seq_to_flat_append(a, seq![other]);
                        assert(a.push(other) =~= a + seq![other]);
                    }
                    xs
                },
            },
            first => match y {
                FlatSymbolicExpression::Add(mut ys) => {
                    let mut v = Vec::new();
                    v.push(first);
                    let ghost b = ys@;
                    v.append(&mut ys);
                    proof {
                        assert(Seq::<FlatSymbolicExpression>::empty().push(first) =~= seq![first]);
                        lemma_seq_to_flat_append(seq![first], b);
                    }
                    v
                },
                other => {
                    let mut v = Vec::new();
                    v.push(first);
                    v.push(other);
                    proof {
                        assert(v@ =~= seq![first] + seq![other]);
                        lemma_seq_to_flat_append(seq![first], seq![other]);
                    }
                    v
                },
            },
        }
    }

    /// The operands of the product `x * y`, with nested products opened.
    fn join_factors(x: FlatSymbolicExpression, y: FlatSymbolicExpression) -> (v: Vec<FlatSymbolicExpression>)
        ensures
            Self::seq_to_flat(v@) == factors(x.to_flat()) + factors(y.to_flat()),
    {
        proof {
            lemma_seq_to_flat_single(x);
            lemma_seq_to_flat_single(y);
        }
        match x {
            FlatSymbolicExpression::Mul(mut xs) => match y {
                FlatSymbolicExpression::Mul(mut ys) => {
                    let ghost (a, b) = (xs@, ys@);
                    xs.append(&mut ys);
                    proof { lemma_seq_to_flat_append(a, b); }
                    xs
                },
                other => {
                    let ghost a = xs@;
                    xs.push(other);
                    proof {
                        lemma_seq_to_flat_append(a, seq![other]);
                        assert(a.push(other) =~= a + seq![other]);
                    }
                    xs
                },
            },
            first => match y {
                FlatSymbolicExpression::Mul(mut ys) => {
                    let mut v = Vec::new();
                    v.push(first);
                    let ghost b = ys@;
                    v.append(&mut ys);
                    proof {
                        assert(Seq::<FlatSymbolicExpression>::empty().push(first) =~= seq![first]);
                        lemma_seq_to_flat_append(seq![first], b);
                    }
                    v
                },
                other => {
                    let mut v = Vec::new();
                    v.push(first);
                    v.push(other);
                    proof {
                        assert(v@ =~= seq![first] + seq![other]);
                        lemma_seq_to_flat_append(seq![first], seq![other]);
                    }
                    v
                },
            },
        }
    }

    /// Flattens `expr`: see [`flatten`].
    pub fn from_symbolic_expression(expr: &SymbolicExpression) -> (r: FlatSymbolicExpression)
        ensures
            r.to_flat() == flatten(*expr),
        decreases expr,
    {
        match expr {
            SymbolicExpression::Variable(v) => FlatSymbolicExpression::Variable(*v),
            SymbolicExpression::IsFirstRow => FlatSymbolicExpression::IsFirstRow,
            SymbolicExpression::IsLastRow => FlatSymbolicExpression::IsLastRow,
            SymbolicExpression::IsTransition => FlatSymbolicExpression::IsTransition,
            SymbolicExpression::Constant(c) => FlatSymbolicExpression::Constant(*c),
            SymbolicExpression::Add(x, y) => {
                let x = Self::from_symbolic_expression(x);
                let y = Self::from_symbolic_expression(y);
                FlatSymbolicExpression::Add(Self::join_summands(x, y))
            },
            SymbolicExpression::Sub(x, y) => {
                let x = Self::from_symbolic_expression(x);
                let y = Self::from_symbolic_expression(y);
                FlatSymbolicExpression::Sub(Box::new(x), Box::new(y))
            },
            SymbolicExpression::Neg(x) => {
                let x = Self::from_symbolic_expression(x);
                FlatSymbolicExpression::Neg(Box::new(x))
            },
            SymbolicExpression::Mul(x, y) => {
                let x = Self::from_symbolic_expression(x);
                let y = Self::from_symbolic_expression(y);
                FlatSymbolicExpression::Mul(Self::join_factors(x, y))
            },
        }
    }
}


/// The value of a flattened expression in the ring of integers.
pub open spec fn eval_flat(f: Flat, a: Assignment) -> int
    decreases f,
{
    match f {
        Flat::Variable(v) => (a.var)(v),
        Flat::IsFirstRow => a.is_first_row,
        Flat::IsLastRow => a.is_last_row,
        Flat::IsTransition => a.is_transition,
        Flat::Constant(c) => c as int,
        Flat::Add(xs) => sum_flats(xs, a),
        Flat::Sub(x, y) => eval_flat(*x, a) - eval_flat(*y, a),
        Flat::Neg(x) => -eval_flat(*x, a),
        Flat::Mul(xs) => product_flats(xs, a),
    }
}

/// The sum of the values of a list of flattened expressions.
pub open spec fn sum_flats(xs: Seq<Flat>, a: Assignment) -> int
    decreases xs,
{
    if xs.len() == 0 {
        0
    } else {
        sum_flats(xs.subrange(0, xs.len() - 1), a) + eval_flat(xs[xs.len() - 1], a)
    }
}

/// The product of the values of a list of flattened expressions.
pub open spec fn product_flats(xs: Seq<Flat>, a: Assignment) -> int
    decreases xs,
{
    if xs.len() == 0 {
        1
    } else {
        product_flats(xs.subrange(0, xs.len() - 1), a) * eval_flat(xs[xs.len() - 1], a)
    }
}

/// A flattened expression is in normal form when every sum and every product
/// has at least two operands and no operand of a sum is a sum, no operand of a
/// product a product.
pub open spec fn is_flat(f: Flat) -> bool
    decreases f,
{
    match f {
        Flat::Add(xs) => xs.len() >= 2 && forall|i: int|
            0 <= i < xs.len() ==> !(#[trigger] xs[i] is Add) && is_flat(xs[i]),
        Flat::Mul(xs) => xs.len() >= 2 && forall|i: int|
            0 <= i < xs.len() ==> !(#[trigger] xs[i] is Mul) && is_flat(xs[i]),
        Flat::Sub(x, y) => is_flat(*x) && is_flat(*y),
        Flat::Neg(x) => is_flat(*x),
        _ => true,
    }
}

/// The leaves of an expression (variables, row selectors and constants) from
/// left to right.
pub open spec fn leaves(e: SymbolicExpression) -> Seq<Flat>
    decreases e,
{
    match e {
        SymbolicExpression::Add(x, y) => leaves(*x) + leaves(*y),
        SymbolicExpression::Sub(x, y) => leaves(*x) + leaves(*y),
        SymbolicExpression::Neg(x) => leaves(*x),
        SymbolicExpression::Mul(x, y) => leaves(*x) + leaves(*y),
        _ => seq![flatten(e)],
    }
}

/// The leaves of a flattened expression from left to right.
pub open spec fn flat_leaves(f: Flat) -> Seq<Flat>
    decreases f,
{
    match f {
        Flat::Add(xs) => flat_leaves_seq(xs),
        Flat::Mul(xs) => flat_leaves_seq(xs),
        Flat::Sub(x, y) => flat_leaves(*x) + flat_leaves(*y),
        Flat::Neg(x) => flat_leaves(*x),
        _ => seq![f],
    }
}

pub open spec fn flat_leaves_seq(xs: Seq<Flat>) -> Seq<Flat>
    decreases xs,
{
    if xs.len() == 0 {
        Seq::empty()
    } else {
        flat_leaves_seq(xs.subrange(0, xs.len() - 1)) + flat_leaves(xs[xs.len() - 1])
    }
}

/// The height of a flattened expression: zero for a leaf.
pub open spec fn flat_height(f: Flat) -> nat
    decreases f,
{
    match f {
        Flat::Add(xs) => 1 + max_height(xs),
        Flat::Mul(xs) => 1 + max_height(xs),
        Flat::Sub(x, y) => 1 + max_nat(flat_height(*x), flat_height(*y)),
        Flat::Neg(x) => 1 + flat_height(*x),
        _ => 0,
    }
}

/// The greatest height in a list of flattened expressions (zero if empty).
pub open spec fn max_height(xs: Seq<Flat>) -> nat
    decreases xs,
{
    if xs.len() == 0 {
        0
    } else {
        max_nat(max_height(xs.subrange(0, xs.len() - 1)), flat_height(xs[xs.len() - 1]))
    }
}

proof fn lemma_sum_append(xs: Seq<Flat>, ys: Seq<Flat>, a: Assignment)
    ensures
        sum_flats(xs + ys, a) == sum_flats(xs, a) + sum_flats(ys, a),
    decreases ys.len(),
{
    if ys.len() == 0 {
        assert(xs + ys =~= xs);
    } else {
        let init = ys.subrange(0, ys.len() - 1);
        lemma_sum_append(xs, init, a);
        assert((xs + ys).subrange(0, (xs + ys).len() - 1) =~= xs + init);
    }
}

proof fn lemma_product_append(xs: Seq<Flat>, ys: Seq<Flat>, a: Assignment)
    ensures
        product_flats(xs + ys, a) == product_flats(xs, a) * product_flats(ys, a),
    decreases ys.len(),
{
    if ys.len() == 0 {
        assert(xs + ys =~= xs);
    } else {
        let init = ys.subrange(0, ys.len() - 1);
        lemma_product_append(xs, init, a);
        assert((xs + ys).subrange(0, (xs + ys).len() - 1) =~= xs + init);
        vstd::arithmetic::mul::lemma_mul_is_associative(
            product_flats(xs, a),
            product_flats(init, a),
            eval_flat(ys[ys.len() - 1], a),
        );
    }
}

proof fn lemma_leaves_append(xs: Seq<Flat>, ys: Seq<Flat>)
    ensures
        flat_leaves_seq(xs + ys) == flat_leaves_seq(xs) + flat_leaves_seq(ys),
    decreases ys.len(),
{
    if ys.len() == 0 {
        assert(xs + ys =~= xs);
        assert(flat_leaves_seq(xs) + flat_leaves_seq(ys) =~= flat_leaves_seq(xs));
    } else {
        let init = ys.subrange(0, ys.len() - 1);
        lemma_leaves_append(xs, init);
        assert((xs + ys).subrange(0, (xs + ys).len() - 1) =~= xs + init);
        assert(flat_leaves_seq(xs + ys) =~= flat_leaves_seq(xs) + flat_leaves_seq(ys));
    }
}

proof fn lemma_max_height_append(xs: Seq<Flat>, ys: Seq<Flat>)
    ensures
        max_height(xs + ys) == max_nat(max_height(xs), max_height(ys)),
    decreases ys.len(),
{
    if ys.len() == 0 {
        assert(xs + ys =~= xs);
    } else {
        let init = ys.subrange(0, ys.len() - 1);
        lemma_max_height_append(xs, init);
        assert((xs + ys).subrange(0, (xs + ys).len() - 1) =~= xs + init);
    }
}

/// Every operand is at most as high as the highest operand.
pub proof fn lemma_max_height_bounds(xs: Seq<Flat>, i: int)
    requires
        0 <= i < xs.len(),
    ensures
        flat_height(xs[i]) <= max_height(xs),
    decreases xs.len(),
{
    if i < xs.len() - 1 {
        lemma_max_height_bounds(xs.subrange(0, xs.len() - 1), i);
    }
}

proof fn lemma_summands(f: Flat, a: Assignment)
    ensures
        sum_flats(summands(f), a) == eval_flat(f, a),
        flat_leaves_seq(summands(f)) == flat_leaves(f),
        max_height(summands(f)) <= flat_height(f),
        is_flat(f) ==> summands(f).len() >= 1 && forall|i: int|
            0 <= i < summands(f).len() ==> !(#[trigger] summands(f)[i] is Add) && is_flat(summands(f)[i]),
{
    match f {
        Flat::Add(_) => {},
        _ => {
            let s = seq![f];
            let e = Seq::<Flat>::empty();
            assert(s.subrange(0, 0) =~= e);
            assert(s[0] == f);
            assert(sum_flats(e, a) == 0);
            assert(flat_leaves_seq(e) =~= e);
            assert(max_height(e) == 0);
            assert(e + flat_leaves(f) =~= flat_leaves(f));
        },
    }
}

proof fn lemma_factors(f: Flat, a: Assignment)
    ensures
        product_flats(factors(f), a) == eval_flat(f, a),
        flat_leaves_seq(factors(f)) == flat_leaves(f),
        max_height(factors(f)) <= flat_height(f),
        is_flat(f) ==> factors(f).len() >= 1 && forall|i: int|
            0 <= i < factors(f).len() ==> !(#[trigger] factors(f)[i] is Mul) && is_flat(factors(f)[i]),
{
    match f {
        Flat::Mul(_) => {},
        _ => {
            let s = seq![f];
            let e = Seq::<Flat>::empty();
            assert(s.subrange(0, 0) =~= e);
            assert(s[0] == f);
            assert(product_flats(e, a) == 1);
            assert(flat_leaves_seq(e) =~= e);
            assert(max_height(e) == 0);
            assert(e + flat_leaves(f) =~= flat_leaves(f));
        },
    }
}

/// Flattening keeps the value of an expression: under every assignment of the
/// variables and row selectors, the flattened expression evaluates to what the
/// expression evaluates to.
pub proof fn theorem_flatten_preserves_value(e: SymbolicExpression, a: Assignment)
    ensures
        eval_flat(flatten(e), a) == eval(e, a),
    decreases e,
{
    match e {
        SymbolicExpression::Add(x, y) => {
            theorem_flatten_preserves_value(*x, a);
            theorem_flatten_preserves_value(*y, a);
            lemma_summands(flatten(*x), a);
            lemma_summands(flatten(*y), a);
            lemma_sum_append(summands(flatten(*x)), summands(flatten(*y)), a);
        },
        SymbolicExpression::Sub(x, y) => {
            theorem_flatten_preserves_value(*x, a);
            theorem_flatten_preserves_value(*y, a);
        },
        SymbolicExpression::Neg(x) => {
            theorem_flatten_preserves_value(*x, a);
        },
        SymbolicExpression::Mul(x, y) => {
            theorem_flatten_preserves_value(*x, a);
            theorem_flatten_preserves_value(*y, a);
            lemma_factors(flatten(*x), a);
            lemma_factors(flatten(*y), a);
            lemma_product_append(factors(flatten(*x)), factors(flatten(*y)), a);
        },
        _ => {},
    }
}

/// Flattening yields the normal form: no sum directly inside a sum, no product
/// directly inside a product, and every sum and product with two or more operands.
pub proof fn theorem_flatten_is_flat(e: SymbolicExpression)
    ensures
        is_flat(flatten(e)),
    decreases e,
{
    let a = Assignment { var: |v: SymbolicVariable| 0int, is_first_row: 0, is_last_row: 0, is_transition: 0 };
    match e {
        SymbolicExpression::Add(x, y) => {
            theorem_flatten_is_flat(*x);
            theorem_flatten_is_flat(*y);
            lemma_summands(flatten(*x), a);
            lemma_summands(flatten(*y), a);
            let sx = summands(flatten(*x));
            let sy = summands(flatten(*y));
            assert forall|i: int| 0 <= i < (sx + sy).len() implies !(#[trigger] (sx + sy)[i] is Add)
                && is_flat((sx + sy)[i]) by {
                if i >= sx.len() {
                    assert((sx + sy)[i] == sy[i - sx.len()]);
                }
            }
        },
        SymbolicExpression::Sub(x, y) => {
            theorem_flatten_is_flat(*x);
            theorem_flatten_is_flat(*y);
        },
        SymbolicExpression::Neg(x) => {
            theorem_flatten_is_flat(*x);
        },
        SymbolicExpression::Mul(x, y) => {
            theorem_flatten_is_flat(*x);
            theorem_flatten_is_flat(*y);
            lemma_factors(flatten(*x), a);
            lemma_factors(flatten(*y), a);
            let sx = factors(flatten(*x));
            let sy = factors(flatten(*y));
            assert forall|i: int| 0 <= i < (sx + sy).len() implies !(#[trigger] (sx + sy)[i] is Mul)
                && is_flat((sx + sy)[i]) by {
                if i >= sx.len() {
                    assert((sx + sy)[i] == sy[i - sx.len()]);
                }
            }
        },
        _ => {},
    }
}

/// Flattening keeps every leaf of an expression, in the same left-to-right order.
pub proof fn theorem_flatten_keeps_leaves(e: SymbolicExpression)
    ensures
        flat_leaves(flatten(e)) == leaves(e),
    decreases e,
{
    let a = Assignment { var: |v: SymbolicVariable| 0int, is_first_row: 0, is_last_row: 0, is_transition: 0 };
    match e {
        SymbolicExpression::Add(x, y) => {
            theorem_flatten_keeps_leaves(*x);
            theorem_flatten_keeps_leaves(*y);
            lemma_summands(flatten(*x), a);
            lemma_summands(flatten(*y), a);
            lemma_leaves_append(summands(flatten(*x)), summands(flatten(*y)));
        },
        SymbolicExpression::Sub(x, y) => {
            theorem_flatten_keeps_leaves(*x);
            theorem_flatten_keeps_leaves(*y);
        },
        SymbolicExpression::Neg(x) => {
            theorem_flatten_keeps_leaves(*x);
        },
        SymbolicExpression::Mul(x, y) => {
            theorem_flatten_keeps_leaves(*x);
            theorem_flatten_keeps_leaves(*y);
            lemma_factors(flatten(*x), a);
            lemma_factors(flatten(*y), a);
            lemma_leaves_append(factors(flatten(*x)), factors(flatten(*y)));
        },
        _ => {},
    }
}

/// Flattening never makes an expression higher.
pub proof fn theorem_flatten_height(e: SymbolicExpression)
    ensures
        flat_height(flatten(e)) <= height(e),
    decreases e,
{
    let a = Assignment { var: |v: SymbolicVariable| 0int, is_first_row: 0, is_last_row: 0, is_transition: 0 };
    match e {
        SymbolicExpression::Add(x, y) => {
            theorem_flatten_height(*x);
            theorem_flatten_height(*y);
            lemma_summands(flatten(*x), a);
            lemma_summands(flatten(*y), a);
            lemma_max_height_append(summands(flatten(*x)), summands(flatten(*y)));
        },
        SymbolicExpression::Sub(x, y) => {
            theorem_flatten_height(*x);
            theorem_flatten_height(*y);
        },
        SymbolicExpression::Neg(x) => {
            theorem_flatten_height(*x);
        },
        SymbolicExpression::Mul(x, y) => {
            theorem_flatten_height(*x);
            theorem_flatten_height(*y);
            lemma_factors(flatten(*x), a);
            lemma_factors(flatten(*y), a);
            lemma_max_height_append(factors(flatten(*x)), factors(flatten(*y)));
        },
        _ => {},
    }
}


/// The number of negation nodes (`negations`) or of difference nodes
/// (`!negations`) in an expression.
pub open spec fn count_nodes(e: SymbolicExpression, negations: bool) -> nat
    decreases e,
{
    match e {
        SymbolicExpression::Add(x, y) => count_nodes(*x, negations) + count_nodes(*y, negations),
        SymbolicExpression::Mul(x, y) => count_nodes(*x, negations) + count_nodes(*y, negations),
        SymbolicExpression::Sub(x, y) => (if negations { 0nat } else { 1nat }) + count_nodes(*x, negations)
            + count_nodes(*y, negations),
        SymbolicExpression::Neg(x) => (if negations { 1nat } else { 0nat }) + count_nodes(*x, negations),
        _ => 0,
    }
}

/// The number of negation nodes (`negations`) or of difference nodes
/// (`!negations`) in a flattened expression.
pub open spec fn flat_count_nodes(f: Flat, negations: bool) -> nat
    decreases f,
{
    match f {
        Flat::Add(xs) => flat_count_nodes_seq(xs, negations),
        Flat::Mul(xs) => flat_count_nodes_seq(xs, negations),
        Flat::Sub(x, y) => (if negations { 0nat } else { 1nat }) + flat_count_nodes(*x, negations)
            + flat_count_nodes(*y, negations),
        Flat::Neg(x) => (if negations { 1nat } else { 0nat }) + flat_count_nodes(*x, negations),
        _ => 0,
    }
}

pub open spec fn flat_count_nodes_seq(xs: Seq<Flat>, negations: bool) -> nat
    decreases xs,
{
    if xs.len() == 0 {
        0
    } else {
        flat_count_nodes_seq(xs.subrange(0, xs.len() - 1), negations) + flat_count_nodes(
            xs[xs.len() - 1],
            negations,
        )
    }
}

proof fn lemma_count_append(xs: Seq<Flat>, ys: Seq<Flat>, negations: bool)
    ensures
        flat_count_nodes_seq(xs + ys, negations) == flat_count_nodes_seq(xs, negations)
            + flat_count_nodes_seq(ys, negations),
    decreases ys.len(),
{
    if ys.len() == 0 {
        assert(xs + ys =~= xs);
    } else {
        let init = ys.subrange(0, ys.len() - 1);
        lemma_count_append(xs, init, negations);
        assert((xs + ys).subrange(0, (xs + ys).len() - 1) =~= xs + init);
    }
}

proof fn lemma_count_operands(f: Flat, negations: bool)
    ensures
        flat_count_nodes_seq(summands(f), negations) == flat_count_nodes(f, negations),
        flat_count_nodes_seq(factors(f), negations) == flat_count_nodes(f, negations),
{
    let s = seq![f];
    let e = Seq::<Flat>::empty();
    assert(s.subrange(0, 0) =~= e);
    assert(s[0] == f);
    assert(flat_count_nodes_seq(e, negations) == 0);
    assert(flat_count_nodes_seq(s, negations) == flat_count_nodes_seq(e, negations) + flat_count_nodes(
        f,
        negations,
    ));
}

/// Flattening only merges sums into sums and products into products: every
/// negation and every difference of the expression is kept, and no other is
/// made, so the flattened expression has exactly as many negation nodes, and
/// exactly as many difference nodes, as the expression.
pub proof fn theorem_flatten_keeps_negations_and_differences(e: SymbolicExpression)
    ensures
        flat_count_nodes(flatten(e), true) == count_nodes(e, true),
        flat_count_nodes(flatten(e), false) == count_nodes(e, false),
    decreases e,
{
    match e {
        SymbolicExpression::Add(x, y) => {
            theorem_flatten_keeps_negations_and_differences(*x);
            theorem_flatten_keeps_negations_and_differences(*y);
            lemma_count_operands(flatten(*x), true);
            lemma_count_operands(flatten(*y), true);
            lemma_count_operands(flatten(*x), false);
            lemma_count_operands(flatten(*y), false);
            lemma_count_append(summands(flatten(*x)), summands(flatten(*y)), true);
            lemma_count_append(summands(flatten(*x)), summands(flatten(*y)), false);
        },
        SymbolicExpression::Mul(x, y) => {
            theorem_flatten_keeps_negations_and_differences(*x);
            theorem_flatten_keeps_negations_and_differences(*y);
            lemma_count_operands(flatten(*x), true);
            lemma_count_operands(flatten(*y), true);
            lemma_count_operands(flatten(*x), false);
            lemma_count_operands(flatten(*y), false);
            lemma_count_append(factors(flatten(*x)), factors(flatten(*y)), true);
            lemma_count_append(factors(flatten(*x)), factors(flatten(*y)), false);
        },
        SymbolicExpression::Sub(x, y) => {
            theorem_flatten_keeps_negations_and_differences(*x);
            theorem_flatten_keeps_negations_and_differences(*y);
        },
        SymbolicExpression::Neg(x) => {
            theorem_flatten_keeps_negations_and_differences(*x);
        },
        _ => {},
    }
}

} // verus!
