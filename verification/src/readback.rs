//! The printed text of a flattened expression can be read back: two
//! expressions that print alike are the same tree, apart from the entries of
//! their variables, which are not printed.

use vstd::prelude::*;
use crate::flat::Flat;
use crate::render::{flat_lines, flat_lines_seq};
use crate::text::{line, decimal, lemma_decimal_injective};

verus! {

/// The same tree, with the same operators, constants and variable indices;
/// only the entries of the variables may differ.
pub open spec fn same_up_to_entries(f1: Flat, f2: Flat) -> bool
    decreases f1,
{
    match f1 {
        Flat::Variable(a) => match f2 {
            Flat::Variable(b) => a.index == b.index,
            _ => false,
        },
        Flat::IsFirstRow => f2 is IsFirstRow,
        Flat::IsLastRow => f2 is IsLastRow,
        Flat::IsTransition => f2 is IsTransition,
        Flat::Constant(a) => match f2 {
            Flat::Constant(b) => a == b,
            _ => false,
        },
        Flat::Add(xs) => match f2 {
            Flat::Add(ys) => xs.len() == ys.len() && forall|k: int|
                0 <= k < xs.len() ==> same_up_to_entries(#[trigger] xs[k], ys[k]),
            _ => false,
        },
        Flat::Mul(xs) => match f2 {
            Flat::Mul(ys) => xs.len() == ys.len() && forall|k: int|
                0 <= k < xs.len() ==> same_up_to_entries(#[trigger] xs[k], ys[k]),
            _ => false,
        },
        Flat::Sub(x1, y1) => match f2 {
            Flat::Sub(x2, y2) => same_up_to_entries(*x1, *x2) && same_up_to_entries(*y1, *y2),
            _ => false,
        },
        Flat::Neg(x1) => match f2 {
            Flat::Neg(x2) => same_up_to_entries(*x1, *x2),
            _ => false,
        },
    }
}

/// The text of the first line of an expression, after its indentation.
pub open spec fn head_text(f: Flat) -> Seq<char> {
    match f {
        Flat::Variable(v) => "Variable: "@ + decimal(v.index as nat),
        Flat::IsFirstRow => "IsFirstRow"@,
        Flat::IsLastRow => "IsLastRow"@,
        Flat::IsTransition => "IsTransition"@,
        Flat::Constant(c) => "Constant: "@ + decimal(c as nat),
        Flat::Add(_) => "Add:"@,
        Flat::Sub(_, _) => "Sub:"@,
        Flat::Neg(_) => "Neg:"@,
        Flat::Mul(_) => "Mul:"@,
    }
}

/// A line that goes on a node begun at an earlier line indented by `i`: it
/// has a blank at position `i`.
pub open spec fn continues(l: Seq<char>, i: nat) -> bool {
    l.len() > i && l[i as int] == ' '
}

/// Lines that end a node indented by `i`: none, or a first line that does not
/// continue it.
pub open spec fn stops(r: Seq<Seq<char>>, i: nat) -> bool {
    r.len() == 0 || !continues(r[0], i)
}

/// A line indented by at least `j` blanks.
pub open spec fn deep(l: Seq<char>, j: nat) -> bool {
    l.len() > j && forall|m: int| 0 <= m < j ==> l[m] == ' '
}

proof fn lemma_head_text(f: Flat)
    ensures
        head_text(f).len() >= 1,
        head_text(f)[0] != ' ',
{
    reveal_strlit("Variable: ");
    reveal_strlit("IsFirstRow");
    reveal_strlit("IsLastRow");
    reveal_strlit("IsTransition");
    reveal_strlit("Constant: ");
    reveal_strlit("Add:");
    reveal_strlit("Sub:");
    reveal_strlit("Neg:");
    reveal_strlit("Mul:");
}

proof fn lemma_head_injective(f1: Flat, f2: Flat)
    requires
        head_text(f1) == head_text(f2),
    ensures
        f1 is Variable <==> f2 is Variable,
        f1 is IsFirstRow <==> f2 is IsFirstRow,
        f1 is IsLastRow <==> f2 is IsLastRow,
        f1 is IsTransition <==> f2 is IsTransition,
        f1 is Constant <==> f2 is Constant,
        f1 is Add <==> f2 is Add,
        f1 is Sub <==> f2 is Sub,
        f1 is Neg <==> f2 is Neg,
        f1 is Mul <==> f2 is Mul,
        (f1 is Variable || f1 is IsFirstRow || f1 is IsLastRow || f1 is IsTransition || f1 is Constant)
            ==> same_up_to_entries(f1, f2),
{
    reveal_strlit("Variable: ");
    reveal_strlit("IsFirstRow");
    reveal_strlit("IsLastRow");
    reveal_strlit("IsTransition");
    reveal_strlit("Constant: ");
    reveal_strlit("Add:");
    reveal_strlit("Sub:");
    reveal_strlit("Neg:");
    reveal_strlit("Mul:");
    let t = head_text(f1);
    assert(t[0] == head_text(f2)[0]);
    if t.len() > 2 {
        assert(t[2] == head_text(f2)[2]);
    }
    match f1 {
        Flat::Variable(a) => match f2 {
            Flat::Variable(b) => {
                assert(t.subrange(10, t.len() as int) =~= decimal(a.index as nat));
                assert(t.subrange(10, t.len() as int) =~= decimal(b.index as nat));
                lemma_decimal_injective(a.index as nat, b.index as nat);
            },
            _ => {},
        },
        Flat::Constant(a) => match f2 {
            Flat::Constant(b) => {
                assert(t.subrange(10, t.len() as int) =~= decimal(a as nat));
                assert(t.subrange(10, t.len() as int) =~= decimal(b as nat));
                lemma_decimal_injective(a as nat, b as nat);
            },
            _ => {},
        },
        _ => {},
    }
}

/// Every line of a list is indented by at least `j` blanks.
pub open spec fn all_deep(ls: Seq<Seq<char>>, j: nat) -> bool {
    forall|k: int| 0 <= k < ls.len() ==> deep(#[trigger] ls[k], j)
}

proof fn lemma_all_deep_concat(a: Seq<Seq<char>>, b: Seq<Seq<char>>, j: nat)
    requires
        all_deep(a, j),
        all_deep(b, j),
    ensures
        all_deep(a + b, j),
{
    assert forall|k: int| 0 <= k < (a + b).len() implies deep(#[trigger] (a + b)[k], j) by {
        if k < a.len() {
            assert((a + b)[k] == a[k]);
        } else {
            assert((a + b)[k] == b[k - a.len()]);
        }
    }
}

proof fn lemma_all_deeper(ls: Seq<Seq<char>>, j: nat)
    requires
        all_deep(ls, j + 2),
    ensures
        all_deep(ls, j),
{
    assert forall|k: int| 0 <= k < ls.len() implies deep(#[trigger] ls[k], j) by {
        assert(deep(ls[k], j + 2));
    }
}

/// Every line of an expression rendered at `j` is indented by at least `j`
/// blanks, and every line after the first by at least `j + 2`.
proof fn lemma_all_deep(f: Flat, j: nat)
    ensures
        flat_lines(f, j).len() >= 1,
        flat_lines(f, j)[0] == line(j, head_text(f)),
        all_deep(flat_lines(f, j), j),
        all_deep(flat_lines(f, j).subrange(1, flat_lines(f, j).len() as int), j + 2),
    decreases f,
{
    lemma_head_text(f);
    let ls = flat_lines(f, j);
    let h = seq![line(j, head_text(f))];
    assert(deep(line(j, head_text(f)), j));
    assert(all_deep(h, j));
    let c: Seq<Seq<char>> = match f {
        Flat::Add(xs) => {
            lemma_all_deep_seq(xs, j + 2);
            flat_lines_seq(xs, j + 2)
        },
        Flat::Mul(xs) => {
            lemma_all_deep_seq(xs, j + 2);
            flat_lines_seq(xs, j + 2)
        },
        Flat::Sub(x, y) => {
            lemma_all_deep(*x, j + 2);
            lemma_all_deep(*y, j + 2);
            lemma_all_deep_concat(flat_lines(*x, j + 2), flat_lines(*y, j + 2), j + 2);
            flat_lines(*x, j + 2) + flat_lines(*y, j + 2)
        },
        Flat::Neg(x) => {
            lemma_all_deep(*x, j + 2);
            flat_lines(*x, j + 2)
        },
        _ => Seq::empty(),
    };
    assert(ls =~= h + c);
    assert(ls.subrange(1, ls.len() as int) =~= c);
    lemma_all_deeper(c, j);
    lemma_all_deep_concat(h, c, j);
}

proof fn lemma_all_deep_seq(xs: Seq<Flat>, j: nat)
    ensures
        all_deep(flat_lines_seq(xs, j), j),
    decreases xs,
{
    if xs.len() > 0 {
        let init = xs.subrange(0, xs.len() - 1);
        lemma_all_deep_seq(init, j);
        lemma_all_deep(xs[xs.len() - 1], j);
        lemma_all_deep_concat(flat_lines_seq(init, j), flat_lines(xs[xs.len() - 1], j), j);
    }
}

/// The lines of an expression rendered at `i`: the first is its head indented
/// by exactly `i`, all others go on it.
proof fn lemma_shape(f: Flat, i: nat)
    ensures
        flat_lines(f, i).len() >= 1,
        flat_lines(f, i)[0] == line(i, head_text(f)),
        !continues(flat_lines(f, i)[0], i),
        forall|k: int| 1 <= k < flat_lines(f, i).len() ==> continues(#[trigger] flat_lines(f, i)[k], i),
{
    lemma_head_text(f);
    lemma_all_deep(f, i);
    let ls = flat_lines(f, i);
    assert(ls[0][i as int] == head_text(f)[0]);
    let rest = ls.subrange(1, ls.len() as int);
    assert forall|k: int| 1 <= k < ls.len() implies continues(#[trigger] ls[k], i) by {
        assert(rest[k - 1] == ls[k]);
        assert(deep(rest[k - 1], i + 2));
    }
}

/// The lines of a list of expressions are those of its first element followed
/// by those of the rest.
proof fn lemma_seq_front(xs: Seq<Flat>, j: nat)
    requires
        xs.len() > 0,
    ensures
        flat_lines_seq(xs, j) == flat_lines(xs[0], j) + flat_lines_seq(xs.subrange(1, xs.len() as int), j),
    decreases xs.len(),
{
    let rest = xs.subrange(1, xs.len() as int);
    if xs.len() == 1 {
        assert(xs.subrange(0, 0) =~= Seq::<Flat>::empty());
        assert(rest =~= Seq::<Flat>::empty());
        assert(flat_lines_seq(xs, j) =~= flat_lines(xs[0], j) + flat_lines_seq(rest, j));
    } else {
        let init = xs.subrange(0, xs.len() - 1);
        lemma_seq_front(init, j);
        assert(init[0] == xs[0]);
        assert(rest.subrange(0, rest.len() - 1) =~= init.subrange(1, init.len() as int));
        assert(rest[rest.len() - 1] == xs[xs.len() - 1]);
        assert(flat_lines_seq(xs, j) =~= flat_lines(xs[0], j) + flat_lines_seq(rest, j));
    }
}

proof fn lemma_seq_stops(ys: Seq<Flat>, j: nat)
    ensures
        stops(flat_lines_seq(ys, j), j),
        ys.len() > 0 ==> flat_lines_seq(ys, j).len() >= 1,
{
    if ys.len() > 0 {
        lemma_seq_front(ys, j);
        lemma_shape(ys[0], j);
        let a = flat_lines(ys[0], j);
        let b = flat_lines_seq(ys.subrange(1, ys.len() as int), j);
        assert((a + b)[0] == a[0]);
    }
}

proof fn lemma_unique(f1: Flat, f2: Flat, r1: Seq<Seq<char>>, r2: Seq<Seq<char>>, i: nat)
    requires
        flat_lines(f1, i) + r1 == flat_lines(f2, i) + r2,
        stops(r1, i),
        stops(r2, i),
    ensures
        same_up_to_entries(f1, f2),
        flat_lines(f1, i) == flat_lines(f2, i),
        r1 == r2,
    decreases f1,
{
    let l1 = flat_lines(f1, i);
    let l2 = flat_lines(f2, i);
    let all = l1 + r1;
    lemma_shape(f1, i);
    lemma_shape(f2, i);
    if l1.len() < l2.len() {
        assert(all[l1.len() as int] == r1[0]);
        assert(all[l1.len() as int] == (l2 + r2)[l1.len() as int]);
        assert(continues(l2[l1.len() as int], i));
    }
    if l2.len() < l1.len() {
        assert((l2 + r2)[l2.len() as int] == r2[0]);
        assert(all[l2.len() as int] == l1[l2.len() as int]);
        assert(continues(l1[l2.len() as int], i));
    }
    assert(l1.len() == l2.len());
    assert(l1 =~= all.subrange(0, l1.len() as int));
    assert(l2 =~= (l2 + r2).subrange(0, l2.len() as int));
    assert(r1 =~= all.subrange(l1.len() as int, all.len() as int));
    assert(r2 =~= (l2 + r2).subrange(l2.len() as int, all.len() as int));
    assert(l1[0] == l2[0]);
    assert(head_text(f1) =~= l1[0].subrange(i as int, l1[0].len() as int));
    assert(head_text(f2) =~= l2[0].subrange(i as int, l2[0].len() as int));
    lemma_head_injective(f1, f2);
    let e = Seq::<Seq<char>>::empty();
    match f1 {
        Flat::Add(xs1) => match f2 {
            Flat::Add(xs2) => {
                assert(flat_lines_seq(xs1, i + 2) =~= l1.subrange(1, l1.len() as int));
                assert(flat_lines_seq(xs2, i + 2) =~= l2.subrange(1, l2.len() as int));
                lemma_unique_seq(xs1, xs2, i + 2);
            },
            _ => {},
        },
        Flat::Mul(xs1) => match f2 {
            Flat::Mul(xs2) => {
                assert(flat_lines_seq(xs1, i + 2) =~= l1.subrange(1, l1.len() as int));
                assert(flat_lines_seq(xs2, i + 2) =~= l2.subrange(1, l2.len() as int));
                lemma_unique_seq(xs1, xs2, i + 2);
            },
            _ => {},
        },
        Flat::Sub(x1, y1) => match f2 {
            Flat::Sub(x2, y2) => {
                let (a1, b1) = (flat_lines(*x1, i + 2), flat_lines(*y1, i + 2));
                let (a2, b2) = (flat_lines(*x2, i + 2), flat_lines(*y2, i + 2));
                assert(a1 + b1 =~= l1.subrange(1, l1.len() as int));
                assert(a2 + b2 =~= l2.subrange(1, l2.len() as int));
                lemma_shape(*y1, i + 2);
                lemma_shape(*y2, i + 2);
                lemma_unique(*x1, *x2, b1, b2, i + 2);
                assert(b1 + e =~= b1);
                assert(b2 + e =~= b2);
                lemma_unique(*y1, *y2, e, e, i + 2);
            },
            _ => {},
        },
        Flat::Neg(x1) => match f2 {
            Flat::Neg(x2) => {
                let (a1, a2) = (flat_lines(*x1, i + 2), flat_lines(*x2, i + 2));
                assert(a1 =~= l1.subrange(1, l1.len() as int));
                assert(a2 =~= l2.subrange(1, l2.len() as int));
                assert(a1 + e =~= a1);
                assert(a2 + e =~= a2);
                lemma_unique(*x1, *x2, e, e, i + 2);
            },
            _ => {},
        },
        _ => {},
    }
}

proof fn lemma_unique_seq(xs1: Seq<Flat>, xs2: Seq<Flat>, j: nat)
    requires
        flat_lines_seq(xs1, j) == flat_lines_seq(xs2, j),
    ensures
        xs1.len() == xs2.len(),
        forall|k: int| 0 <= k < xs1.len() ==> same_up_to_entries(#[trigger] xs1[k], xs2[k]),
    decreases xs1,
{
    lemma_seq_stops(xs1, j);
    lemma_seq_stops(xs2, j);
    if xs1.len() == 0 {
        assert(flat_lines_seq(xs1, j).len() == 0);
    } else if xs2.len() == 0 {
        assert(flat_lines_seq(xs2, j).len() == 0);
    } else {
        let t1 = xs1.subrange(1, xs1.len() as int);
        let t2 = xs2.subrange(1, xs2.len() as int);
        lemma_seq_front(xs1, j);
        lemma_seq_front(xs2, j);
        lemma_seq_stops(t1, j);
        lemma_seq_stops(t2, j);
        lemma_unique(xs1[0], xs2[0], flat_lines_seq(t1, j), flat_lines_seq(t2, j), j);
        lemma_unique_seq(t1, t2, j);
        assert forall|k: int| 0 <= k < xs1.len() implies same_up_to_entries(#[trigger] xs1[k], xs2[k]) by {
            if k > 0 {
                assert(t1[k - 1] == xs1[k]);
                assert(t2[k - 1] == xs2[k]);
            }
        }
    }
}

/// The printed text determines the flattened expression: two expressions
/// whose lines at the same indentation are equal are the same tree, with the
/// same operators, constants and variable indices (the entries of variables
/// are not printed).
pub proof fn theorem_flat_lines_determine_tree(f1: Flat, f2: Flat, indent: nat)
    requires
        flat_lines(f1, indent) == flat_lines(f2, indent),
    ensures
        same_up_to_entries(f1, f2),
{
    let e = Seq::<Seq<char>>::empty();
    assert(flat_lines(f1, indent) + e =~= flat_lines(f1, indent));
    assert(flat_lines(f2, indent) + e =~= flat_lines(f2, indent));
    lemma_unique(f1, f2, e, e, indent);
}

} // verus!
