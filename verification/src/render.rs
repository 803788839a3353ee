//! The text form of expressions: one line per node, children indented by two
//! more blanks than their parent.

use vstd::prelude::*;
use crate::expr::{SymbolicExpression, height};
use crate::flat::{
    Flat, FlatSymbolicExpression, flatten, summands, factors, flat_height, max_height, lemma_max_height_bounds,
    lemma_seq_to_flat_len, theorem_flatten_height,
};
use crate::text::{
    spaces, line, decimal, lines_of, push_line, push_numbered_line, joined, offset,
    lemma_joined_positions,
};

verus! {

/// The lines of a flattened expression at `indent`.
pub open spec fn flat_lines(f: Flat, indent: nat) -> Seq<Seq<char>>
    decreases f,
{
    match f {
        Flat::Variable(v) => seq![line(indent, "Variable: "@ + decimal(v.index as nat))],
        Flat::IsFirstRow => seq![line(indent, "IsFirstRow"@)],
        Flat::IsLastRow => seq![line(indent, "IsLastRow"@)],
        Flat::IsTransition => seq![line(indent, "IsTransition"@)],
        Flat::Constant(c) => seq![line(indent, "Constant: "@ + decimal(c as nat))],
        Flat::Add(xs) => seq![line(indent, "Add:"@)] + flat_lines_seq(xs, indent + 2),
        Flat::Sub(x, y) => seq![line(indent, "Sub:"@)] + flat_lines(*x, indent + 2) + flat_lines(
            *y,
            indent + 2,
        ),
        Flat::Neg(x) => seq![line(indent, "Neg:"@)] + flat_lines(*x, indent + 2),
        Flat::Mul(xs) => seq![line(indent, "Mul:"@)] + flat_lines_seq(xs, indent + 2),
    }
}

/// The lines of each expression of a list, one after the other.
pub open spec fn flat_lines_seq(xs: Seq<Flat>, indent: nat) -> Seq<Seq<char>>
    decreases xs,
{
    if xs.len() == 0 {
        Seq::empty()
    } else {
        flat_lines_seq(xs.subrange(0, xs.len() - 1), indent) + flat_lines(xs[xs.len() - 1], indent)
    }
}

/// The lines of a symbolic expression: those of its flattening.
pub open spec fn expr_lines(e: SymbolicExpression, indent: nat) -> Seq<Seq<char>> {
    flat_lines(flatten(e), indent)
}

/// The lines of each expression of a list, one after the other.
pub open spec fn exprs_lines(es: Seq<SymbolicExpression>, indent: nat) -> Seq<Seq<char>>
    decreases es.len(),
{
    if es.len() == 0 {
        Seq::empty()
    } else {
        exprs_lines(es.subrange(0, es.len() - 1), indent) + expr_lines(es[es.len() - 1], indent)
    }
}

/// The lines of an optional expression.
pub open spec fn option_lines(o: Option<SymbolicExpression>, indent: nat) -> Seq<Seq<char>> {
    match o {
        Some(t) => seq![line(indent, "Some:"@)] + expr_lines(t, indent + 2),
        None => seq![line(indent, "None"@)],
    }
}

/// The lines of an array of expressions.
pub open spec fn array_lines(es: Seq<SymbolicExpression>, indent: nat) -> Seq<Seq<char>> {
    seq![line(indent, "Array:"@)] + exprs_lines(es, indent + 2)
}

/// The lines of each row of an array of arrays, one after the other.
pub open spec fn rows_lines(rows: Seq<Vec<SymbolicExpression>>, indent: nat) -> Seq<Seq<char>>
    decreases rows.len(),
{
    if rows.len() == 0 {
        Seq::empty()
    } else {
        rows_lines(rows.subrange(0, rows.len() - 1), indent) + array_lines(
            rows[rows.len() - 1]@,
            indent,
        )
    }
}

/// The lines of an array of arrays of expressions.
pub open spec fn nested_array_lines(rows: Seq<Vec<SymbolicExpression>>, indent: nat) -> Seq<Seq<char>> {
    seq![line(indent, "Array:"@)] + rows_lines(rows, indent + 2)
}

/// An expression rendered at `indent` indents no line past `usize::MAX` blanks.
pub open spec fn fits(e: SymbolicExpression, indent: nat) -> bool {
    indent + 2 * height(e) <= usize::MAX
}

pub open spec fn all_fit(es: Seq<SymbolicExpression>, indent: nat) -> bool {
    forall|i: int| 0 <= i < es.len() ==> fits(#[trigger] es[i], indent)
}

pub open spec fn rows_fit(rows: Seq<Vec<SymbolicExpression>>, indent: nat) -> bool {
    forall|i: int| 0 <= i < rows.len() ==> all_fit(#[trigger] rows[i]@, indent)
}

impl FlatSymbolicExpression {
    /// Appends the lines of this expression at `indent`.
    pub fn write_rocq(&self, indent: usize, out: &mut Vec<String>)
        requires
            indent + 2 * flat_height(self.to_flat()) <= usize::MAX,
        ensures
            lines_of(final(out)@) == lines_of(old(out)@) + flat_lines(self.to_flat(), indent as nat),
        decreases self,
    {
        let ghost before = lines_of(out@);
        match self {
            FlatSymbolicExpression::Variable(v) => {
                push_numbered_line(out, indent, "Variable: ", v.index as u64);
            },
            FlatSymbolicExpression::IsFirstRow => {
                push_line(out, indent, "IsFirstRow");
            },
            FlatSymbolicExpression::IsLastRow => {
                push_line(out, indent, "IsLastRow");
            },
            FlatSymbolicExpression::IsTransition => {
                push_line(out, indent, "IsTransition");
            },
            FlatSymbolicExpression::Constant(c) => {
                push_numbered_line(out, indent, "Constant: ", *c);
            },
            FlatSymbolicExpression::Add(xs) => {
                push_line(out, indent, "Add:");
                Self::write_all(xs, indent + 2, out);
            },
            FlatSymbolicExpression::Sub(x, y) => {
                push_line(out, indent, "Sub:");
                x.write_rocq(indent + 2, out);
                y.write_rocq(indent + 2, out);
            },
            FlatSymbolicExpression::Neg(x) => {
                push_line(out, indent, "Neg:");
                x.write_rocq(indent + 2, out);
            },
            FlatSymbolicExpression::Mul(xs) => {
                push_line(out, indent, "Mul:");
                Self::write_all(xs, indent + 2, out);
            },
        }
        assert(lines_of(out@) =~= before + flat_lines(self.to_flat(), indent as nat));
    }

    fn write_all(xs: &Vec<FlatSymbolicExpression>, indent: usize, out: &mut Vec<String>)
        requires
            indent + 2 * max_height(Self::seq_to_flat(xs@)) <= usize::MAX,
        ensures
            lines_of(final(out)@) == lines_of(old(out)@) + flat_lines_seq(
                Self::seq_to_flat(xs@),
                indent as nat,
            ),
        decreases xs,
    {
        let ghost before = lines_of(out@);
        let ghost fs = Self::seq_to_flat(xs@);
        proof {
            lemma_seq_to_flat_len(xs@);
            assert(fs.subrange(0, 0) =~= Seq::<Flat>::empty());
            assert(before + flat_lines_seq(fs.subrange(0, 0), indent as nat) =~= before);
        }
        let mut i: usize = 0;
        while i < xs.len()
            invariant
                i <= xs.len(),
                fs == Self::seq_to_flat(xs@),
                fs.len() == xs.len(),
                forall|j: int| 0 <= j < xs.len() ==> #[trigger] fs[j] == xs@[j].to_flat(),
                indent + 2 * max_height(fs) <= usize::MAX,
                lines_of(out@) == before + flat_lines_seq(fs.subrange(0, i as int), indent as nat),
            decreases xs.len() - i,
        {
            proof {
                lemma_max_height_bounds(fs, i as int);
            }
            xs[i].write_rocq(indent, out);
            proof {
                assert(fs.subrange(0, i + 1).subrange(0, i as int) =~= fs.subrange(0, i as int));
                assert(lines_of(out@) =~= before + flat_lines_seq(fs.subrange(0, i + 1), indent as nat));
            }
            i = i + 1;
        }
        assert(fs.subrange(0, xs.len() as int) =~= fs);
    }

    /// The lines of this expression at `indent`.
    pub fn to_rocq(&self, indent: usize) -> (lines: Vec<String>)
        requires
            indent + 2 * flat_height(self.to_flat()) <= usize::MAX,
        ensures
            lines_of(lines@) == flat_lines(self.to_flat(), indent as nat),
    {
        let mut out = Vec::new();
        proof {
            assert(lines_of(out@) =~= Seq::empty());
        }
        self.write_rocq(indent, &mut out);
        assert(lines_of(out@) =~= flat_lines(self.to_flat(), indent as nat));
        out
    }
}


impl SymbolicExpression {
    /// Appends the lines of this expression at `indent`: those of its flattening.
    pub fn write_rocq(&self, indent: usize, out: &mut Vec<String>)
        requires
            fits(*self, indent as nat),
        ensures
            lines_of(final(out)@) == lines_of(old(out)@) + expr_lines(*self, indent as nat),
    {
        let flat = FlatSymbolicExpression::from_symbolic_expression(self);
        proof {
            theorem_flatten_height(*self);
        }
        flat.write_rocq(indent, out);
    }

    /// The lines of this expression at `indent`.
    pub fn to_rocq(&self, indent: usize) -> (lines: Vec<String>)
        requires
            fits(*self, indent as nat),
        ensures
            lines_of(lines@) == expr_lines(*self, indent as nat),
    {
        let mut out = Vec::new();
        proof {
            assert(lines_of(out@) =~= Seq::empty());
        }
        self.write_rocq(indent, &mut out);
        assert(lines_of(out@) =~= expr_lines(*self, indent as nat));
        out
    }
}

/// Appends the lines of each expression of `es` at `indent`.
pub fn write_exprs(es: &Vec<SymbolicExpression>, indent: usize, out: &mut Vec<String>)
    requires
        all_fit(es@, indent as nat),
    ensures
        lines_of(final(out)@) == lines_of(old(out)@) + exprs_lines(es@, indent as nat),
{
    let ghost before = lines_of(out@);
    proof {
        assert(es@.subrange(0, 0) =~= Seq::<SymbolicExpression>::empty());
        assert(before + exprs_lines(es@.subrange(0, 0), indent as nat) =~= before);
    }
    let mut i: usize = 0;
    while i < es.len()
        invariant
            i <= es.len(),
            all_fit(es@, indent as nat),
            lines_of(out@) == before + exprs_lines(es@.subrange(0, i as int), indent as nat),
        decreases es.len() - i,
    {
        es[i].write_rocq(indent, out);
        proof {
            assert(es@.subrange(0, i + 1).subrange(0, i as int) =~= es@.subrange(0, i as int));
            assert(lines_of(out@) =~= before + exprs_lines(es@.subrange(0, i + 1), indent as nat));
        }
        i = i + 1;
    }
    assert(es@.subrange(0, es.len() as int) =~= es@);
}

/// Appends the lines of an optional expression at `indent`.
pub fn write_option(o: &Option<SymbolicExpression>, indent: usize, out: &mut Vec<String>)
    requires
        match o {
            Some(t) => fits(*t, (indent + 2) as nat),
            None => true,
        },
    ensures
        lines_of(final(out)@) == lines_of(old(out)@) + option_lines(*o, indent as nat),
{
    let ghost before = lines_of(out@);
    match o {
        Some(t) => {
            push_line(out, indent, "Some:");
            t.write_rocq(indent + 2, out);
        },
        None => {
            push_line(out, indent, "None");
        },
    }
    assert(lines_of(out@) =~= before + option_lines(*o, indent as nat));
}

/// Appends the lines of an array of expressions at `indent`.
pub fn write_array(es: &Vec<SymbolicExpression>, indent: usize, out: &mut Vec<String>)
    requires
        indent + 2 <= usize::MAX,
        all_fit(es@, (indent + 2) as nat),
    ensures
        lines_of(final(out)@) == lines_of(old(out)@) + array_lines(es@, indent as nat),
{
    let ghost before = lines_of(out@);
    push_line(out, indent, "Array:");
    write_exprs(es, indent + 2, out);
    assert(lines_of(out@) =~= before + array_lines(es@, indent as nat));
}

/// Appends the lines of an array of arrays of expressions at `indent`.
pub fn write_nested_array(rows: &Vec<Vec<SymbolicExpression>>, indent: usize, out: &mut Vec<String>)
    requires
        indent + 4 <= usize::MAX,
        rows_fit(rows@, (indent + 4) as nat),
    ensures
        lines_of(final(out)@) == lines_of(old(out)@) + nested_array_lines(rows@, indent as nat),
{
    let ghost before = lines_of(out@);
    push_line(out, indent, "Array:");
    let ghost header = lines_of(out@);
    proof {
        assert(rows@.subrange(0, 0) =~= Seq::<Vec<SymbolicExpression>>::empty());
        assert(header + rows_lines(rows@.subrange(0, 0), (indent + 2) as nat) =~= header);
    }
    let mut i: usize = 0;
    while i < rows.len()
        invariant
            i <= rows.len(),
            indent + 4 <= usize::MAX,
            rows_fit(rows@, (indent + 4) as nat),
            lines_of(out@) == header + rows_lines(rows@.subrange(0, i as int), (indent + 2) as nat),
        decreases rows.len() - i,
    {
        proof {
            assert(all_fit(rows@[i as int]@, (indent + 4) as nat));
        }
        write_array(&rows[i], indent + 2, out);
        proof {
            assert(rows@.subrange(0, i + 1).subrange(0, i as int) =~= rows@.subrange(0, i as int));
            assert(lines_of(out@) =~= header + rows_lines(rows@.subrange(0, i + 1), (indent + 2) as nat));
        }
        i = i + 1;
    }
    assert(rows@.subrange(0, rows.len() as int) =~= rows@);
    assert(lines_of(out@) =~= before + nested_array_lines(rows@, indent as nat));
}


/// Whether `e` rendered at `indent` indents no line past `usize::MAX` blanks.
pub fn fits_at(e: &SymbolicExpression, indent: usize) -> (b: bool)
    ensures
        b == fits(*e, indent as nat),
{
    let h = e.height();
    h <= (usize::MAX - indent) / 2
}

/// Whether every expression of `es` fits at `indent`.
pub fn all_fit_at(es: &Vec<SymbolicExpression>, indent: usize) -> (b: bool)
    ensures
        b == all_fit(es@, indent as nat),
{
    let mut i: usize = 0;
    while i < es.len()
        invariant
            i <= es.len(),
            forall|j: int| 0 <= j < i ==> fits(#[trigger] es@[j], indent as nat),
        decreases es.len() - i,
    {
        if !fits_at(&es[i], indent) {
            return false;
        }
        i = i + 1;
    }
    true
}


/// Whether every expression of every row of `rows` fits at `indent`.
pub fn rows_fit_at(rows: &Vec<Vec<SymbolicExpression>>, indent: usize) -> (b: bool)
    ensures
        b == rows_fit(rows@, indent as nat),
{
    let mut i: usize = 0;
    while i < rows.len()
        invariant
            i <= rows.len(),
            forall|j: int| 0 <= j < i ==> all_fit(#[trigger] rows@[j]@, indent as nat),
        decreases rows.len() - i,
    {
        if !all_fit_at(&rows[i], indent) {
            return false;
        }
        i = i + 1;
    }
    true
}


/// Lines with `k` more blanks in front of each.
pub open spec fn shifted(ls: Seq<Seq<char>>, k: nat) -> Seq<Seq<char>> {
    ls.map_values(|l: Seq<char>| spaces(k) + l)
}

proof fn lemma_line_shift(i: nat, k: nat, t: Seq<char>)
    ensures
        line(i + k, t) == spaces(k) + line(i, t),
{
    assert(spaces(i + k) =~= spaces(k) + spaces(i));
    assert(line(i + k, t) =~= spaces(k) + line(i, t));
}

proof fn lemma_shifted_append(a: Seq<Seq<char>>, b: Seq<Seq<char>>, k: nat)
    ensures
        shifted(a + b, k) == shifted(a, k) + shifted(b, k),
{
    assert(shifted(a + b, k) =~= shifted(a, k) + shifted(b, k));
}

proof fn lemma_shifted_line(i: nat, k: nat, t: Seq<char>)
    ensures
        seq![line(i + k, t)] == shifted(seq![line(i, t)], k),
{
    lemma_line_shift(i, k, t);
    assert(seq![line(i + k, t)] =~= shifted(seq![line(i, t)], k));
}

/// The text of an expression moves right as a block: rendered `k` blanks
/// deeper, every line is the same line with `k` more blanks in front.
pub proof fn theorem_flat_lines_shift(f: Flat, i: nat, k: nat)
    ensures
        flat_lines(f, i + k) == shifted(flat_lines(f, i), k),
    decreases f,
{
    match f {
        Flat::Variable(v) => lemma_shifted_line(i, k, "Variable: "@ + decimal(v.index as nat)),
        Flat::IsFirstRow => lemma_shifted_line(i, k, "IsFirstRow"@),
        Flat::IsLastRow => lemma_shifted_line(i, k, "IsLastRow"@),
        Flat::IsTransition => lemma_shifted_line(i, k, "IsTransition"@),
        Flat::Constant(c) => lemma_shifted_line(i, k, "Constant: "@ + decimal(c as nat)),
        Flat::Add(xs) => {
            lemma_shifted_line(i, k, "Add:"@);
            theorem_flat_lines_seq_shift(xs, i + 2, k);
            assert(i + k + 2 == (i + 2) + k);
            lemma_shifted_append(seq![line(i, "Add:"@)], flat_lines_seq(xs, i + 2), k);
        },
        Flat::Mul(xs) => {
            lemma_shifted_line(i, k, "Mul:"@);
            theorem_flat_lines_seq_shift(xs, i + 2, k);
            lemma_shifted_append(seq![line(i, "Mul:"@)], flat_lines_seq(xs, i + 2), k);
        },
        Flat::Sub(x, y) => {
            lemma_shifted_line(i, k, "Sub:"@);
            theorem_flat_lines_shift(*x, i + 2, k);
            theorem_flat_lines_shift(*y, i + 2, k);
            lemma_shifted_append(seq![line(i, "Sub:"@)], flat_lines(*x, i + 2), k);
            lemma_shifted_append(
                seq![line(i, "Sub:"@)] + flat_lines(*x, i + 2),
                flat_lines(*y, i + 2),
                k,
            );
        },
        Flat::Neg(x) => {
            lemma_shifted_line(i, k, "Neg:"@);
            theorem_flat_lines_shift(*x, i + 2, k);
            lemma_shifted_append(seq![line(i, "Neg:"@)], flat_lines(*x, i + 2), k);
        },
    }
}

/// The list form of [`theorem_flat_lines_shift`].
pub proof fn theorem_flat_lines_seq_shift(xs: Seq<Flat>, i: nat, k: nat)
    ensures
        flat_lines_seq(xs, i + k) == shifted(flat_lines_seq(xs, i), k),
    decreases xs,
{
    if xs.len() == 0 {
        assert(shifted(Seq::empty(), k) =~= Seq::<Seq<char>>::empty());
    } else {
        let init = xs.subrange(0, xs.len() - 1);
        theorem_flat_lines_seq_shift(init, i, k);
        theorem_flat_lines_shift(xs[xs.len() - 1], i, k);
        lemma_shifted_append(flat_lines_seq(init, i), flat_lines(xs[xs.len() - 1], i), k);
    }
}

/// Every line of the text of an expression rendered at `indent` begins with
/// `indent` blanks.
pub proof fn theorem_flat_lines_indented(f: Flat, indent: nat, j: int)
    requires
        0 <= j < flat_lines(f, indent).len(),
    ensures
        flat_lines(f, indent)[j].subrange(0, indent as int) == spaces(indent),
{
    theorem_flat_lines_shift(f, 0, indent);
    let l = flat_lines(f, 0)[j];
    assert(flat_lines(f, indent)[j] == spaces(indent) + l);
    assert((spaces(indent) + l).subrange(0, indent as int) =~= spaces(indent));
}


/// Regrouping a sum of three terms, or a product of three terms, changes
/// neither its flattening nor its text.
pub proof fn theorem_regrouping_prints_the_same(
    a: SymbolicExpression,
    b: SymbolicExpression,
    c: SymbolicExpression,
    indent: nat,
)
    ensures
        ({
            let left = SymbolicExpression::Add(
                Box::new(SymbolicExpression::Add(Box::new(a), Box::new(b))),
                Box::new(c),
            );
            let right = SymbolicExpression::Add(
                Box::new(a),
                Box::new(SymbolicExpression::Add(Box::new(b), Box::new(c))),
            );
            flatten(left) == flatten(right) && expr_lines(left, indent) == expr_lines(right, indent)
        }),
        ({
            let left = SymbolicExpression::Mul(
                Box::new(SymbolicExpression::Mul(Box::new(a), Box::new(b))),
                Box::new(c),
            );
            let right = SymbolicExpression::Mul(
                Box::new(a),
                Box::new(SymbolicExpression::Mul(Box::new(b), Box::new(c))),
            );
            flatten(left) == flatten(right) && expr_lines(left, indent) == expr_lines(right, indent)
        }),
{
    let (fa, fb, fc) = (flatten(a), flatten(b), flatten(c));
    let ab = SymbolicExpression::Add(Box::new(a), Box::new(b));
    let bc = SymbolicExpression::Add(Box::new(b), Box::new(c));
    assert(flatten(ab) == Flat::Add(summands(fa) + summands(fb)));
    assert(flatten(bc) == Flat::Add(summands(fb) + summands(fc)));
    assert((summands(fa) + summands(fb)) + summands(fc) =~= summands(fa) + (summands(fb) + summands(fc)));
    let mab = SymbolicExpression::Mul(Box::new(a), Box::new(b));
    let mbc = SymbolicExpression::Mul(Box::new(b), Box::new(c));
    assert(flatten(mab) == Flat::Mul(factors(fa) + factors(fb)));
    assert(flatten(mbc) == Flat::Mul(factors(fb) + factors(fc)));
    assert((factors(fa) + factors(fb)) + factors(fc) =~= factors(fa) + (factors(fb) + factors(fc)));
}


/// The lines of each expression of a list, as separate lists.
pub open spec fn expr_parts(es: Seq<SymbolicExpression>, indent: nat) -> Seq<Seq<Seq<char>>> {
    es.map_values(|e: SymbolicExpression| expr_lines(e, indent))
}

/// The lines of each flattened expression of a list, as separate lists.
pub open spec fn flat_parts(xs: Seq<Flat>, indent: nat) -> Seq<Seq<Seq<char>>> {
    xs.map_values(|x: Flat| flat_lines(x, indent))
}

/// The lines of each row of an array of arrays, as separate lists.
pub open spec fn row_parts(rows: Seq<Vec<SymbolicExpression>>, indent: nat) -> Seq<Seq<Seq<char>>> {
    rows.map_values(|r: Vec<SymbolicExpression>| array_lines(r@, indent))
}

proof fn lemma_exprs_lines_joined(es: Seq<SymbolicExpression>, indent: nat)
    ensures
        exprs_lines(es, indent) == joined(expr_parts(es, indent)),
    decreases es.len(),
{
    if es.len() > 0 {
        let init = es.subrange(0, es.len() - 1);
        lemma_exprs_lines_joined(init, indent);
        assert(expr_parts(es, indent).subrange(0, es.len() - 1) =~= expr_parts(init, indent));
    }
}

proof fn lemma_flat_lines_seq_joined(xs: Seq<Flat>, indent: nat)
    ensures
        flat_lines_seq(xs, indent) == joined(flat_parts(xs, indent)),
    decreases xs.len(),
{
    if xs.len() > 0 {
        let init = xs.subrange(0, xs.len() - 1);
        lemma_flat_lines_seq_joined(init, indent);
        assert(flat_parts(xs, indent).subrange(0, xs.len() - 1) =~= flat_parts(init, indent));
    }
}

proof fn lemma_rows_lines_joined(rows: Seq<Vec<SymbolicExpression>>, indent: nat)
    ensures
        rows_lines(rows, indent) == joined(row_parts(rows, indent)),
    decreases rows.len(),
{
    if rows.len() > 0 {
        let init = rows.subrange(0, rows.len() - 1);
        lemma_rows_lines_joined(init, indent);
        assert(row_parts(rows, indent).subrange(0, rows.len() - 1) =~= row_parts(init, indent));
    }
}

/// Every operand of a sum or a product is printed, in order, two blanks
/// deeper than the `Add:` or `Mul:` line: operand `k` takes the lines that
/// follow the header and the lines of the operands before it, and there are no
/// other lines.
pub proof fn theorem_operands_positions(f: Flat, indent: nat)
    requires
        f is Add || f is Mul,
    ensures
        ({
            let xs = match f {
                Flat::Add(xs) => xs,
                Flat::Mul(xs) => xs,
                _ => Seq::empty(),
            };
            let ls = flat_lines(f, indent);
            let parts = flat_parts(xs, indent + 2);
            &&& ls[0] == line(indent, if f is Add { "Add:"@ } else { "Mul:"@ })
            &&& ls.len() == 1 + offset(parts, xs.len() as int)
            &&& forall|k: int|
                0 <= k < xs.len() ==> ls.subrange(1 + offset(parts, k), 1 + #[trigger] offset(parts, k + 1))
                    == flat_lines(xs[k], indent + 2)
        }),
{
    let xs = match f {
        Flat::Add(xs) => xs,
        Flat::Mul(xs) => xs,
        _ => Seq::empty(),
    };
    let ls = flat_lines(f, indent);
    let parts = flat_parts(xs, indent + 2);
    let body = flat_lines_seq(xs, indent + 2);
    lemma_flat_lines_seq_joined(xs, indent + 2);
    lemma_joined_positions(parts);
    assert(ls =~= seq![line(indent, if f is Add { "Add:"@ } else { "Mul:"@ })] + body);
    assert forall|k: int| 0 <= k < xs.len() implies ls.subrange(1 + offset(parts, k), 1 + #[trigger] offset(parts, k + 1))
        == flat_lines(xs[k], indent + 2) by {
        crate::text::lemma_offset_monotone(parts, k, k + 1);
        crate::text::lemma_offset_monotone(parts, k + 1, xs.len() as int);
        crate::text::lemma_offset_monotone(parts, 0, k);
        assert(ls.subrange(1 + offset(parts, k), 1 + offset(parts, k + 1)) =~= body.subrange(
            offset(parts, k),
            offset(parts, k + 1),
        ));
    }
}

/// Every expression of a list is printed, in order: expression `k` takes the
/// lines that follow those of the expressions before it, and there are no
/// other lines.
pub proof fn theorem_exprs_lines_positions(es: Seq<SymbolicExpression>, indent: nat)
    ensures
        exprs_lines(es, indent).len() == offset(expr_parts(es, indent), es.len() as int),
        forall|k: int|
            0 <= k < es.len() ==> exprs_lines(es, indent).subrange(
                offset(expr_parts(es, indent), k),
                #[trigger] offset(expr_parts(es, indent), k + 1),
            ) == expr_lines(es[k], indent),
{
    lemma_exprs_lines_joined(es, indent);
    lemma_joined_positions(expr_parts(es, indent));
}

/// An array prints `Array:` and then every element, in order, two blanks
/// deeper: element `k` takes the lines that follow the header and the lines of
/// the elements before it, and there are no other lines.
pub proof fn theorem_array_lines_positions(es: Seq<SymbolicExpression>, indent: nat)
    ensures
        array_lines(es, indent)[0] == line(indent, "Array:"@),
        array_lines(es, indent).len() == 1 + offset(expr_parts(es, indent + 2), es.len() as int),
        forall|k: int|
            0 <= k < es.len() ==> array_lines(es, indent).subrange(
                1 + offset(expr_parts(es, indent + 2), k),
                1 + #[trigger] offset(expr_parts(es, indent + 2), k + 1),
            ) == expr_lines(es[k], indent + 2),
{
    let parts = expr_parts(es, indent + 2);
    let ls = array_lines(es, indent);
    let body = exprs_lines(es, indent + 2);
    theorem_exprs_lines_positions(es, indent + 2);
    assert forall|k: int| 0 <= k < es.len() implies ls.subrange(1 + offset(parts, k), 1 + #[trigger] offset(parts, k + 1))
        == expr_lines(es[k], indent + 2) by {
        crate::text::lemma_offset_monotone(parts, k, k + 1);
        crate::text::lemma_offset_monotone(parts, k + 1, es.len() as int);
        crate::text::lemma_offset_monotone(parts, 0, k);
        assert(ls.subrange(1 + offset(parts, k), 1 + offset(parts, k + 1)) =~= body.subrange(
            offset(parts, k),
            offset(parts, k + 1),
        ));
    }
}

/// An array of arrays prints `Array:` and then every row, in order, as an
/// array two blanks deeper: row `k` takes the lines that follow the header and
/// the lines of the rows before it, and there are no other lines.
pub proof fn theorem_nested_array_lines_positions(rows: Seq<Vec<SymbolicExpression>>, indent: nat)
    ensures
        nested_array_lines(rows, indent)[0] == line(indent, "Array:"@),
        nested_array_lines(rows, indent).len() == 1 + offset(row_parts(rows, indent + 2), rows.len() as int),
        forall|k: int|
            0 <= k < rows.len() ==> nested_array_lines(rows, indent).subrange(
                1 + offset(row_parts(rows, indent + 2), k),
                1 + #[trigger] offset(row_parts(rows, indent + 2), k + 1),
            ) == array_lines(rows[k]@, indent + 2),
{
    let parts = row_parts(rows, indent + 2);
    let ls = nested_array_lines(rows, indent);
    let body = rows_lines(rows, indent + 2);
    lemma_rows_lines_joined(rows, indent + 2);
    lemma_joined_positions(parts);
    assert forall|k: int| 0 <= k < rows.len() implies ls.subrange(1 + offset(parts, k), 1 + #[trigger] offset(parts, k + 1))
        == array_lines(rows[k]@, indent + 2) by {
        crate::text::lemma_offset_monotone(parts, k, k + 1);
        crate::text::lemma_offset_monotone(parts, k + 1, rows.len() as int);
        crate::text::lemma_offset_monotone(parts, 0, k);
        assert(ls.subrange(1 + offset(parts, k), 1 + offset(parts, k + 1)) =~= body.subrange(
            offset(parts, k),
            offset(parts, k + 1),
        ));
    }
}


/// An optional expression prints `Some:` and then the expression two blanks
/// deeper, or the single line `None`.
pub proof fn theorem_option_lines(o: Option<SymbolicExpression>, indent: nat)
    ensures
        match o {
            Some(t) => {
                &&& option_lines(o, indent).len() == 1 + expr_lines(t, indent + 2).len()
                &&& option_lines(o, indent)[0] == line(indent, "Some:"@)
                &&& option_lines(o, indent).subrange(1, option_lines(o, indent).len() as int)
                    == expr_lines(t, indent + 2)
            },
            None => option_lines(o, indent) == seq![line(indent, "None"@)],
        },
{
    match o {
        Some(t) => {
            let ls = option_lines(o, indent);
            assert(ls.subrange(1, ls.len() as int) =~= expr_lines(t, indent + 2));
        },
        None => {},
    }
}

/// Each node prints one line: its label at the indentation (with the decimal
/// numeral of the index of a variable, or of the value of a constant), and a
/// difference or a negation then prints its operands, first to last, two
/// blanks deeper; there are no other lines.
pub proof fn theorem_node_lines(f: Flat, indent: nat)
    ensures
        match f {
            Flat::Variable(v) => flat_lines(f, indent) == seq![
                line(indent, "Variable: "@ + decimal(v.index as nat)),
            ],
            Flat::Constant(c) => flat_lines(f, indent) == seq![line(indent, "Constant: "@ + decimal(c as nat))],
            Flat::IsFirstRow => flat_lines(f, indent) == seq![line(indent, "IsFirstRow"@)],
            Flat::IsLastRow => flat_lines(f, indent) == seq![line(indent, "IsLastRow"@)],
            Flat::IsTransition => flat_lines(f, indent) == seq![line(indent, "IsTransition"@)],
            Flat::Sub(x, y) => {
                let (a, b) = (flat_lines(*x, indent + 2), flat_lines(*y, indent + 2));
                &&& flat_lines(f, indent).len() == 1 + a.len() + b.len()
                &&& flat_lines(f, indent)[0] == line(indent, "Sub:"@)
                &&& flat_lines(f, indent).subrange(1, 1 + a.len() as int) == a
                &&& flat_lines(f, indent).subrange(1 + a.len() as int, flat_lines(f, indent).len() as int) == b
            },
            Flat::Neg(x) => {
                &&& flat_lines(f, indent).len() == 1 + flat_lines(*x, indent + 2).len()
                &&& flat_lines(f, indent)[0] == line(indent, "Neg:"@)
                &&& flat_lines(f, indent).subrange(1, flat_lines(f, indent).len() as int) == flat_lines(
                    *x,
                    indent + 2,
                )
            },
            _ => true,
        },
{
    let ls = flat_lines(f, indent);
    match f {
        Flat::Sub(x, y) => {
            let (a, b) = (flat_lines(*x, indent + 2), flat_lines(*y, indent + 2));
            assert(ls.subrange(1, 1 + a.len() as int) =~= a);
            assert(ls.subrange(1 + a.len() as int, ls.len() as int) =~= b);
        },
        Flat::Neg(x) => {
            assert(ls.subrange(1, ls.len() as int) =~= flat_lines(*x, indent + 2));
        },
        _ => {},
    }
}

/// An expression prints as its flattening: the same lines as the flattened
/// expression that `FlatSymbolicExpression::from_symbolic_expression` returns.
pub proof fn theorem_expr_lines_are_flat_lines(e: SymbolicExpression, indent: nat)
    ensures
        expr_lines(e, indent) == flat_lines(flatten(e), indent),
{
}

} // verus!
