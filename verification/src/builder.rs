//! A constraint builder that records, in order, what an AIR asserts while it is
//! evaluated over symbolic trace variables, and renders the recorded trace.

use vstd::prelude::*;
use crate::expr::{Entry, SymbolicVariable, SymbolicExpression};
use crate::render::{
    expr_lines, exprs_lines, fits, all_fit, fits_at, all_fit_at, write_exprs, expr_parts,
    theorem_exprs_lines_positions,
};
use crate::text::{
    line, decimal, lines_of, push_line, push_number_line, joined, offset, lemma_joined_positions,
    lemma_offset_monotone,
};

verus! {

/// A matrix of symbolic variables stored row after row.
#[derive(Debug)]
pub struct RowMajorMatrix {
    pub values: Vec<SymbolicVariable>,
    pub width: usize,
}

/// A message sent to (or received from) a bus: the fields, the multiplicity
/// `count`, the bus and the weight of the count.
#[derive(Debug)]
pub struct Interaction {
    pub message: Vec<SymbolicExpression>,
    pub count: SymbolicExpression,
    pub bus_index: u16,
    pub count_weight: u32,
}

/// One recorded item of a trace.
#[derive(Debug)]
pub enum Constraint {
    /// The expression must vanish.
    AssertZero(SymbolicExpression),
    /// A note that the AIR logged.
    Message(String),
    /// A bus interaction.
    Interaction(Interaction),
}

/// Records the constraints of an AIR evaluated over symbolic variables.
#[derive(Debug)]
pub struct RocqAirBuilder {
    main: RowMajorMatrix,
    constraints: Vec<Constraint>,
}

/// The lines of an interaction at `indent`.
pub open spec fn interaction_lines(i: Interaction, indent: nat) -> Seq<Seq<char>> {
    seq![line(indent, "Interaction:"@), line(indent + 2, "message:"@)]
        + exprs_lines(i.message@, indent + 4)
        + seq![line(indent + 2, "count:"@)]
        + expr_lines(i.count, indent + 4)
        + seq![
        line(indent + 2, "bus_index:"@),
        line(indent + 4, decimal(i.bus_index as nat)),
        line(indent + 2, "count_weight:"@),
        line(indent + 4, decimal(i.count_weight as nat)),
    ]
}

/// The lines of one recorded item at `indent`.
pub open spec fn constraint_lines(c: Constraint, indent: nat) -> Seq<Seq<char>> {
    match c {
        Constraint::AssertZero(e) => seq![line(indent, "AssertZero:"@)] + expr_lines(e, indent + 2),
        Constraint::Message(m) => seq![line(indent, "Message 🦜"@), line(indent + 2, m@)],
        Constraint::Interaction(i) => interaction_lines(i, indent),
    }
}

/// The lines of each recorded item, one after the other.
pub open spec fn constraints_lines(cs: Seq<Constraint>, indent: nat) -> Seq<Seq<char>>
    decreases cs.len(),
{
    if cs.len() == 0 {
        Seq::empty()
    } else {
        constraints_lines(cs.subrange(0, cs.len() - 1), indent) + constraint_lines(
            cs[cs.len() - 1],
            indent,
        )
    }
}

/// The lines of a recorded trace at `indent`.
pub open spec fn trace_lines(cs: Seq<Constraint>, indent: nat) -> Seq<Seq<char>> {
    seq![line(indent, "Trace 🐾"@)] + constraints_lines(cs, indent + 2)
}

/// An interaction rendered at `indent` indents no line past `usize::MAX` blanks.
pub open spec fn interaction_fits(i: Interaction, indent: nat) -> bool {
    &&& indent + 4 <= usize::MAX
    &&& all_fit(i.message@, indent + 4)
    &&& fits(i.count, indent + 4)
}

/// A recorded item rendered at `indent` indents no line past `usize::MAX` blanks.
pub open spec fn constraint_fits(c: Constraint, indent: nat) -> bool {
    &&& indent + 2 <= usize::MAX
    &&& match c {
        Constraint::AssertZero(e) => fits(e, indent + 2),
        Constraint::Message(_) => true,
        Constraint::Interaction(i) => interaction_fits(i, indent),
    }
}

/// A trace rendered at `indent` indents no line past `usize::MAX` blanks.
pub open spec fn trace_fits(cs: Seq<Constraint>, indent: nat) -> bool {
    forall|i: int| 0 <= i < cs.len() ==> constraint_fits(#[trigger] cs[i], indent + 2)
}

/// Recording an item never changes the text of what was recorded before: the
/// trace with one more item renders as the earlier trace followed by the lines
/// of the new item.
pub proof fn theorem_trace_lines_push(cs: Seq<Constraint>, c: Constraint, indent: nat)
    ensures
        trace_lines(cs.push(c), indent) == trace_lines(cs, indent) + constraint_lines(c, indent + 2),
{
    assert(cs.push(c).subrange(0, cs.len() as int) =~= cs);
    assert(trace_lines(cs.push(c), indent) =~= trace_lines(cs, indent) + constraint_lines(c, indent + 2));
}

/// An interaction prints `Interaction:`, then under `message:` every field of
/// the message in order (field `k` right after the lines of the fields before
/// it), then under `count:` the count, then its bus index and its count weight
/// as decimal numerals; there are no other lines.
pub proof fn theorem_interaction_lines_positions(it: Interaction, indent: nat)
    ensures
        ({
            let ls = interaction_lines(it, indent);
            let parts = expr_parts(it.message@, indent + 4);
            let m = offset(parts, it.message@.len() as int);
            let c = expr_lines(it.count, indent + 4);
            &&& ls.len() == 7 + m + c.len()
            &&& ls[0] == line(indent, "Interaction:"@)
            &&& ls[1] == line(indent + 2, "message:"@)
            &&& forall|k: int|
                0 <= k < it.message@.len() ==> ls.subrange(2 + offset(parts, k), 2 + #[trigger] offset(parts, k + 1))
                    == expr_lines(it.message@[k], indent + 4)
            &&& ls[2 + m] == line(indent + 2, "count:"@)
            &&& ls.subrange(3 + m, 3 + m + c.len()) == c
            &&& ls[3 + m + c.len()] == line(indent + 2, "bus_index:"@)
            &&& ls[4 + m + c.len()] == line(indent + 4, decimal(it.bus_index as nat))
            &&& ls[5 + m + c.len()] == line(indent + 2, "count_weight:"@)
            &&& ls[6 + m + c.len()] == line(indent + 4, decimal(it.count_weight as nat))
        }),
{
    let ls = interaction_lines(it, indent);
    let n = it.message@.len() as int;
    let parts = expr_parts(it.message@, indent + 4);
    let m = offset(parts, n);
    let c = expr_lines(it.count, indent + 4);
    let head = seq![line(indent, "Interaction:"@), line(indent + 2, "message:"@)];
    let fields = exprs_lines(it.message@, indent + 4);
    let tail = seq![
        line(indent + 2, "bus_index:"@),
        line(indent + 4, decimal(it.bus_index as nat)),
        line(indent + 2, "count_weight:"@),
        line(indent + 4, decimal(it.count_weight as nat)),
    ];
    theorem_exprs_lines_positions(it.message@, indent + 4);
    assert(ls =~= head + fields + seq![line(indent + 2, "count:"@)] + c + tail);
    assert(ls.subrange(3 + m, 3 + m + c.len()) =~= c);
    assert forall|k: int| 0 <= k < n implies ls.subrange(2 + offset(parts, k), 2 + #[trigger] offset(parts, k + 1))
        == expr_lines(it.message@[k], indent + 4) by {
        lemma_offset_monotone(parts, k, k + 1);
        lemma_offset_monotone(parts, k + 1, n);
        lemma_offset_monotone(parts, 0, k);
        assert(ls.subrange(2 + offset(parts, k), 2 + offset(parts, k + 1)) =~= fields.subrange(
            offset(parts, k),
            offset(parts, k + 1),
        ));
    }
}

/// A recorded item prints its label at the indentation and its content two
/// blanks deeper: `AssertZero:` then the expression, `Message 🦜` then the
/// message as written, or the lines of the interaction; there are no other
/// lines.
pub proof fn theorem_constraint_lines(c: Constraint, indent: nat)
    ensures
        match c {
            Constraint::AssertZero(e) => {
                &&& constraint_lines(c, indent).len() == 1 + expr_lines(e, indent + 2).len()
                &&& constraint_lines(c, indent)[0] == line(indent, "AssertZero:"@)
                &&& constraint_lines(c, indent).subrange(1, constraint_lines(c, indent).len() as int)
                    == expr_lines(e, indent + 2)
            },
            Constraint::Message(m) => constraint_lines(c, indent) == seq![
                line(indent, "Message 🦜"@),
                line(indent + 2, m@),
            ],
            Constraint::Interaction(it) => constraint_lines(c, indent) == interaction_lines(it, indent),
        },
{
    match c {
        Constraint::AssertZero(e) => {
            let ls = constraint_lines(c, indent);
            assert(ls.subrange(1, ls.len() as int) =~= expr_lines(e, indent + 2));
        },
        _ => {},
    }
}

/// The lines of each recorded item, as separate lists.
pub open spec fn constraint_parts(cs: Seq<Constraint>, indent: nat) -> Seq<Seq<Seq<char>>> {
    cs.map_values(|c: Constraint| constraint_lines(c, indent))
}

proof fn lemma_constraints_lines_joined(cs: Seq<Constraint>, indent: nat)
    ensures
        constraints_lines(cs, indent) == joined(constraint_parts(cs, indent)),
    decreases cs.len(),
{
    if cs.len() > 0 {
        let init = cs.subrange(0, cs.len() - 1);
        lemma_constraints_lines_joined(init, indent);
        assert(constraint_parts(cs, indent).subrange(0, cs.len() - 1) =~= constraint_parts(init, indent));
    }
}

/// A trace prints `Trace 🐾` and then every recorded item, in the order
/// recorded, two blanks deeper: item `k` takes the lines that follow the
/// header and the lines of the items before it, and there are no other lines.
pub proof fn theorem_trace_lines_positions(cs: Seq<Constraint>, indent: nat)
    ensures
        trace_lines(cs, indent)[0] == line(indent, "Trace 🐾"@),
        trace_lines(cs, indent).len() == 1 + offset(constraint_parts(cs, indent + 2), cs.len() as int),
        forall|k: int|
            0 <= k < cs.len() ==> trace_lines(cs, indent).subrange(
                1 + offset(constraint_parts(cs, indent + 2), k),
                1 + #[trigger] offset(constraint_parts(cs, indent + 2), k + 1),
            ) == constraint_lines(cs[k], indent + 2),
{
    let parts = constraint_parts(cs, indent + 2);
    let ls = trace_lines(cs, indent);
    let body = constraints_lines(cs, indent + 2);
    lemma_constraints_lines_joined(cs, indent + 2);
    lemma_joined_positions(parts);
    assert forall|k: int| 0 <= k < cs.len() implies ls.subrange(1 + offset(parts, k), 1 + #[trigger] offset(parts, k + 1))
        == constraint_lines(cs[k], indent + 2) by {
        lemma_offset_monotone(parts, k, k + 1);
        lemma_offset_monotone(parts, k + 1, cs.len() as int);
        lemma_offset_monotone(parts, 0, k);
        assert(ls.subrange(1 + offset(parts, k), 1 + offset(parts, k + 1)) =~= body.subrange(
            offset(parts, k),
            offset(parts, k + 1),
        ));
    }
}

impl Interaction {
    /// Appends the lines of this interaction at `indent`.
    pub fn write_rocq(&self, indent: usize, out: &mut Vec<String>)
        requires
            interaction_fits(*self, indent as nat),
        ensures
            lines_of(final(out)@) == lines_of(old(out)@) + interaction_lines(*self, indent as nat),
    {
        let ghost before = lines_of(out@);
        push_line(out, indent, "Interaction:");
        push_line(out, indent + 2, "message:");
        write_exprs(&self.message, indent + 4, out);
        push_line(out, indent + 2, "count:");
        self.count.write_rocq(indent + 4, out);
        push_line(out, indent + 2, "bus_index:");
        push_number_line(out, indent + 4, self.bus_index as u64);
        push_line(out, indent + 2, "count_weight:");
        push_number_line(out, indent + 4, self.count_weight as u64);
        assert(lines_of(out@) =~= before + interaction_lines(*self, indent as nat));
    }

    /// Whether this interaction fits at `indent`.
    pub fn fits_at(&self, indent: usize) -> (b: bool)
        ensures
            b == interaction_fits(*self, indent as nat),
    {
        indent <= usize::MAX - 4 && all_fit_at(&self.message, indent + 4) && fits_at(
            &self.count,
            indent + 4,
        )
    }
}

impl Constraint {
    /// Appends the lines of this item at `indent`.
    pub fn write_rocq(&self, indent: usize, out: &mut Vec<String>)
        requires
            constraint_fits(*self, indent as nat),
        ensures
            lines_of(final(out)@) == lines_of(old(out)@) + constraint_lines(*self, indent as nat),
    {
        let ghost before = lines_of(out@);
        match self {
            Constraint::AssertZero(e) => {
                push_line(out, indent, "AssertZero:");
                e.write_rocq(indent + 2, out);
            },
            Constraint::Message(m) => {
                push_line(out, indent, "Message 🦜");
                push_line(out, indent + 2, m.as_str());
            },
            Constraint::Interaction(i) => {
                i.write_rocq(indent, out);
            },
        }
        assert(lines_of(out@) =~= before + constraint_lines(*self, indent as nat));
    }

    /// Whether this item fits at `indent`.
    pub fn fits_at(&self, indent: usize) -> (b: bool)
        ensures
            b == constraint_fits(*self, indent as nat),
    {
        if indent > usize::MAX - 2 {
            return false;
        }
        match self {
            Constraint::AssertZero(e) => fits_at(e, indent + 2),
            Constraint::Message(_) => true,
            Constraint::Interaction(i) => i.fits_at(indent),
        }
    }
}

/// `after` is `before` with one more item recorded at the end and the same
/// main trace.
pub open spec fn records_one_more(before: RocqAirBuilder, after: RocqAirBuilder) -> bool {
    &&& after.recorded().len() == before.recorded().len() + 1
    &&& after.recorded().subrange(0, before.recorded().len() as int) == before.recorded()
    &&& after.main_values() == before.main_values()
    &&& after.main_width() == before.main_width()
}

/// Recording only appends: along any run of recording calls (each of which
/// records one more item, as `assert_zero`, `log_in_constraints` and
/// `push_interaction` ensure), the main trace never changes, the items recorded
/// before the run stay first and in place, and the `k`-th item recorded during
/// the run is the item that the `k`-th call recorded.
#[verifier::spinoff_prover]
#[verifier::rlimit(40)]
pub proof fn theorem_recording_only_appends(states: Seq<RocqAirBuilder>)
    requires
        states.len() >= 1,
        forall|k: int| 0 <= k < states.len() - 1 ==> records_one_more(#[trigger] states[k], states[k + 1]),
    ensures
        states.last().main_values() == states[0].main_values(),
        states.last().main_width() == states[0].main_width(),
        states.last().recorded().len() == states[0].recorded().len() + states.len() - 1,
        states.last().recorded().subrange(0, states[0].recorded().len() as int) == states[0].recorded(),
        forall|k: int|
            0 <= k < states.len() - 1 ==> states.last().recorded()[states[0].recorded().len() + k]
                == (#[trigger] states[k + 1]).recorded().last(),
    decreases states.len(),
{
    if states.len() > 1 {
        let init = states.subrange(0, states.len() - 1);
        assert forall|k: int| 0 <= k < init.len() - 1 implies records_one_more(#[trigger] init[k], init[k + 1]) by {
            assert(init[k] == states[k] && init[k + 1] == states[k + 1]);
            assert(records_one_more(states[k], states[k + 1]));
        }
        theorem_recording_only_appends(init);
        let n0 = states[0].recorded().len();
        let prev = init.last();
        let last = states.last();
        assert(prev == states[states.len() - 2]);
        assert(records_one_more(states[states.len() - 2], states[states.len() - 2 + 1]));
        assert(last.recorded().subrange(0, n0 as int) =~= prev.recorded().subrange(0, n0 as int));
        assert forall|k: int| 0 <= k < states.len() - 1 implies last.recorded()[n0 + k]
            == (#[trigger] states[k + 1]).recorded().last() by {
            if k < states.len() - 2 {
                assert(init[k + 1] == states[k + 1]);
                assert(last.recorded()[n0 + k] == prev.recorded()[n0 + k]);
            }
        }
    }
}

/// A builder with nothing recorded prints a single line, `Trace 🐾`, whatever
/// the size of its main trace.
pub proof fn theorem_empty_trace_lines(indent: nat)
    ensures
        trace_fits(Seq::empty(), indent),
        trace_lines(Seq::empty(), indent) == seq![line(indent, "Trace 🐾"@)],
{
    assert(trace_lines(Seq::empty(), indent) =~= seq![line(indent, "Trace 🐾"@)]);
}

/// The public variable numbered `i`.
pub open spec fn public_variable(i: int) -> SymbolicVariable {
    SymbolicVariable { entry: Entry::Public, index: i as usize }
}

impl RocqAirBuilder {
    /// The variables of the main trace, row after row.
    pub closed spec fn main_values(&self) -> Seq<SymbolicVariable> {
        self.main.values@
    }

    /// The width of the main trace.
    pub closed spec fn main_width(&self) -> usize {
        self.main.width
    }

    /// What has been recorded so far, in order.
    pub closed spec fn recorded(&self) -> Seq<Constraint> {
        self.constraints@
    }

    /// A builder over a `width` by `height` main trace whose cell in row `h`
    /// and column `w` is the public variable numbered `h * width + w`, with
    /// nothing recorded yet.
    pub fn new(width: usize, height: usize) -> (b: Self)
        requires
            width * height <= usize::MAX,
        ensures
            b.main_width() == width,
            b.main_values().len() == width * height,
            forall|i: int|
                0 <= i < width * height ==> #[trigger] b.main_values()[i] == public_variable(i),
            b.recorded() == Seq::<Constraint>::empty(),
    {
        let n = width * height;
        let mut values = vec![SymbolicVariable::new(Entry::Public, 0); n];
        let mut h: usize = 0;
        while h < height
            invariant
                h <= height,
                n == width * height,
                values@.len() == n,
                forall|i: int|
                    0 <= i < h * width ==> #[trigger] values@[i] == public_variable(i),
            decreases height - h,
        {
            proof {
                assert((h + 1) * width == h * width + width) by (nonlinear_arith);
                assert((h + 1) * width <= width * height) by (nonlinear_arith)
                    requires
                        h < height,
                ;
            }
            let mut w: usize = 0;
            while w < width
                invariant
                    h < height,
                    w <= width,
                    n == width * height,
                    (h + 1) * width <= n,
                    (h + 1) * width == h * width + width,
                    values@.len() == n,
                    forall|i: int|
                        0 <= i < h * width + w ==> #[trigger] values@[i] == public_variable(i),
                decreases width - w,
            {
                let idx = h * width + w;
                values.set(idx, SymbolicVariable::new(Entry::Public, idx));
                w = w + 1;
            }
            h = h + 1;
        }
        assert(h * width == width * height) by (nonlinear_arith)
            requires
                h == height,
        ;
        RocqAirBuilder { main: RowMajorMatrix { values, width }, constraints: Vec::new() }
    }

    /// A copy of the main trace.
    pub fn main(&self) -> (m: RowMajorMatrix)
        ensures
            m.values@ == self.main_values(),
            m.width == self.main_width(),
    {
        let mut values: Vec<SymbolicVariable> = Vec::new();
        let mut i: usize = 0;
        while i < self.main.values.len()
            invariant
                i <= self.main.values.len(),
                values@ == self.main.values@.subrange(0, i as int),
            decreases self.main.values.len() - i,
        {
            values.push(self.main.values[i]);
            i = i + 1;
            assert(values@ =~= self.main.values@.subrange(0, i as int));
        }
        assert(self.main.values@.subrange(0, i as int) =~= self.main.values@);
        RowMajorMatrix { values, width: self.main.width }
    }

    /// The selector of the first row.
    pub fn is_first_row(&self) -> (e: SymbolicExpression)
        ensures
            e == SymbolicExpression::IsFirstRow,
    {
        SymbolicExpression::IsFirstRow
    }

    /// The selector of the last row.
    pub fn is_last_row(&self) -> (e: SymbolicExpression)
        ensures
            e == SymbolicExpression::IsLastRow,
    {
        SymbolicExpression::IsLastRow
    }

    /// The selector of the transition rows, whatever the window size.
    pub fn is_transition_window(&self, size: usize) -> (e: SymbolicExpression)
        ensures
            e == SymbolicExpression::IsTransition,
    {
        SymbolicExpression::IsTransition
    }

    /// Records that `expr` must vanish.
    pub fn assert_zero(&mut self, expr: SymbolicExpression)
        ensures
            final(self).recorded() == old(self).recorded().push(Constraint::AssertZero(expr)),
            final(self).main_values() == old(self).main_values(),
            final(self).main_width() == old(self).main_width(),
            records_one_more(*old(self), *final(self)),
    {
        let ghost before = self.constraints@;
        self.constraints.push(Constraint::AssertZero(expr));
        assert(self.constraints@.subrange(0, before.len() as int) =~= before);
    }

    /// Records a bus interaction.
    pub fn push_interaction(
        &mut self,
        bus_index: u16,
        fields: Vec<SymbolicExpression>,
        count: SymbolicExpression,
        count_weight: u32,
    )
        ensures
            final(self).recorded() == old(self).recorded().push(
                Constraint::Interaction((Interaction { message: fields, count, bus_index, count_weight })),
            ),
            final(self).main_values() == old(self).main_values(),
            final(self).main_width() == old(self).main_width(),
            records_one_more(*old(self), *final(self)),
    {
        let ghost before = self.constraints@;
        self.constraints.push(
            Constraint::Interaction(Interaction { message: fields, count, bus_index, count_weight }),
        );
        assert(self.constraints@.subrange(0, before.len() as int) =~= before);
    }

    /// Records a logged message.
    pub fn log_in_constraints(&mut self, message: &str)
        ensures
            final(self).recorded().len() == old(self).recorded().len() + 1,
            final(self).recorded().subrange(0, old(self).recorded().len() as int) == old(self).recorded(),
            (final(self).recorded().last() matches Constraint::Message(m) && m@ == message@),
            final(self).main_values() == old(self).main_values(),
            final(self).main_width() == old(self).main_width(),
            records_one_more(*old(self), *final(self)),
    {
        let ghost before = self.constraints@;
        self.constraints.push(Constraint::Message(String::from_str(message)));
        assert(self.constraints@.subrange(0, before.len() as int) =~= before);
    }

    /// Whether the trace rendered at `indent` indents no line past `usize::MAX` blanks.
    pub fn fits_at(&self, indent: usize) -> (b: bool)
        ensures
            b == trace_fits(self.recorded(), indent as nat),
    {
        let mut i: usize = 0;
        while i < self.constraints.len()
            invariant
                i <= self.constraints.len(),
                forall|j: int| 0 <= j < i ==> constraint_fits(#[trigger] self.constraints@[j], (indent + 2) as nat),
            decreases self.constraints.len() - i,
        {
            if indent > usize::MAX - 2 {
                assert(!constraint_fits(self.constraints@[i as int], (indent + 2) as nat));
                return false;
            }
            if !self.constraints[i].fits_at(indent + 2) {
                return false;
            }
            i = i + 1;
        }
        true
    }

    /// Appends the lines of the recorded trace at `indent`.
    pub fn write_rocq(&self, indent: usize, out: &mut Vec<String>)
        requires
            trace_fits(self.recorded(), indent as nat),
        ensures
            lines_of(final(out)@) == lines_of(old(out)@) + trace_lines(self.recorded(), indent as nat),
    {
        let ghost before = lines_of(out@);
        let ghost cs = self.constraints@;
        push_line(out, indent, "Trace 🐾");
        let ghost header = lines_of(out@);
        proof {
            assert(cs.subrange(0, 0) =~= Seq::<Constraint>::empty());
            assert(header + constraints_lines(cs.subrange(0, 0), (indent + 2) as nat) =~= header);
        }
        let mut i: usize = 0;
        while i < self.constraints.len()
            invariant
                i <= self.constraints.len(),
                cs == self.constraints@,
                trace_fits(cs, indent as nat),
                lines_of(out@) == header + constraints_lines(cs.subrange(0, i as int), (indent + 2) as nat),
            decreases self.constraints.len() - i,
        {
            proof {
                assert(constraint_fits(cs[i as int], (indent + 2) as nat));
            }
            self.constraints[i].write_rocq(indent + 2, out);
            proof {
                assert(cs.subrange(0, i + 1).subrange(0, i as int) =~= cs.subrange(0, i as int));
                assert(lines_of(out@) =~= header + constraints_lines(cs.subrange(0, i + 1), (indent + 2) as nat));
            }
            i = i + 1;
        }
        assert(cs.subrange(0, cs.len() as int) =~= cs);
        assert(lines_of(out@) =~= before + trace_lines(cs, indent as nat));
    }

    /// The lines of the recorded trace at `indent`.
    pub fn to_rocq(&self, indent: usize) -> (lines: Vec<String>)
        requires
            trace_fits(self.recorded(), indent as nat),
        ensures
            lines_of(lines@) == trace_lines(self.recorded(), indent as nat),
    {
        let mut out = Vec::new();
        proof {
            assert(lines_of(out@) =~= Seq::empty());
        }
        self.write_rocq(indent, &mut out);
        assert(lines_of(out@) =~= trace_lines(self.recorded(), indent as nat));
        out
    }
}

} // verus!
