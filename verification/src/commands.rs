//! The `print-circuit` command: which circuit to evaluate, how to set up its
//! evaluation, and the text that is printed once it has been evaluated.

use vstd::prelude::*;
use crate::expr::{Entry, SymbolicVariable};
use crate::builder::{RocqAirBuilder, trace_lines, trace_fits, public_variable};
use crate::adapter::{AdapterAirContext, context_lines, context_fits};
use crate::text::{line, lines_of, push_line};

verus! {

/// The circuits that can be printed.
#[derive(Clone, Copy, Debug, PartialEq, Eq, Structural)]
pub enum CircuitType {
    /// The core of the RISC-V `BEQ`/`BNE` chip.
    BranchEq,
}

/// The arguments of the `print-circuit` command.
#[derive(Clone, Copy, Debug)]
pub struct PrintCircuitArgs {
    /// The type of circuit to print.
    pub circuit_type: CircuitType,
}

/// How to evaluate the branch-equality core: its parameters, the builder that
/// records its constraints, its columns and the `from_pc` variable.
#[derive(Debug)]
pub struct BranchEqJob {
    pub num_limbs: usize,
    pub offset: usize,
    pub pc_step: u32,
    pub builder: RocqAirBuilder,
    pub local: Vec<SymbolicVariable>,
    pub from_pc: SymbolicVariable,
}

/// The evaluation that `print_circuit` asks for.
#[derive(Debug)]
pub enum CircuitJob {
    BranchEq(BranchEqJob),
}

/// The columns given to the branch-equality core: public variables 0 to 15.
pub open spec fn branch_eq_columns() -> Seq<SymbolicVariable> {
    Seq::new(16, |i: int| public_variable(i))
}

/// The job for the branch-equality core with four limbs, opcode offset 12 and
/// program-counter step 23, evaluated with an empty builder over an empty main
/// trace, on columns 0 to 15 and with `from_pc` the public variable 16.
pub open spec fn is_branch_eq_job(job: BranchEqJob) -> bool {
    &&& job.num_limbs == 4
    &&& job.offset == 12
    &&& job.pc_step == 23
    &&& job.builder.main_width() == 0
    &&& job.builder.main_values() == Seq::<SymbolicVariable>::empty()
    &&& job.builder.recorded().len() == 0
    &&& job.local@ == branch_eq_columns()
    &&& job.from_pc == public_variable(16)
}

/// Decides what to evaluate for the requested circuit.
pub fn print_circuit(args: PrintCircuitArgs) -> (job: CircuitJob)
    ensures
        match args.circuit_type {
            CircuitType::BranchEq => job matches CircuitJob::BranchEq(j) && is_branch_eq_job(j),
        },
{
    match args.circuit_type {
        CircuitType::BranchEq => CircuitJob::BranchEq(branch_eq_job()),
    }
}

/// The evaluation of the branch-equality core with four limbs.
pub fn branch_eq_job() -> (job: BranchEqJob)
    ensures
        is_branch_eq_job(job),
{
    let builder = RocqAirBuilder::new(0, 0);
    let mut local: Vec<SymbolicVariable> = Vec::new();
    let mut i: usize = 0;
    while i < 16
        invariant
            i <= 16,
            local@ == branch_eq_columns().subrange(0, i as int),
        decreases 16 - i,
    {
        local.push(SymbolicVariable::new(Entry::Public, i));
        i = i + 1;
        assert(local@ =~= branch_eq_columns().subrange(0, i as int));
    }
    assert(branch_eq_columns().subrange(0, 16) =~= branch_eq_columns());
    assert(builder.main_values() =~= Seq::<SymbolicVariable>::empty());
    BranchEqJob {
        num_limbs: 4,
        offset: 12,
        pc_step: 23,
        builder,
        local,
        from_pc: SymbolicVariable::new(Entry::Public, 16),
    }
}

/// The text printed for the branch-equality core: its trace, the word
/// `Result 🛍️`, then the adapter context it returned, indented by two.
pub open spec fn branch_eq_text(builder: RocqAirBuilder, context: AdapterAirContext) -> Seq<
    Seq<char>,
> {
    trace_lines(builder.recorded(), 0) + seq![line(0, "Result 🛍️"@)] + context_lines(context, 2)
}

/// The text printed for the SHA-256 circuit: its trace, the word `Result 🛍️`,
/// then `tt` indented by two.
pub open spec fn sha256_text(builder: RocqAirBuilder) -> Seq<Seq<char>> {
    trace_lines(builder.recorded(), 0) + seq![line(0, "Result 🛍️"@), line(2, "tt"@)]
}

/// The report for the branch-equality core is what printing the trace at
/// indent 0 gives, then the line `Result 🛍️`, then what printing the adapter
/// context at indent 2 gives (`AdapterAirContext::to_rocq(2)`); there are no
/// other lines.
pub proof fn theorem_branch_eq_text_parts(builder: RocqAirBuilder, context: AdapterAirContext)
    ensures
        ({
            let x = branch_eq_text(builder, context);
            let t = trace_lines(builder.recorded(), 0);
            let c = context_lines(context, 2);
            &&& x.len() == t.len() + 1 + c.len()
            &&& x.subrange(0, t.len() as int) == t
            &&& x[t.len() as int] == line(0, "Result 🛍️"@)
            &&& x.subrange(t.len() as int + 1, x.len() as int) == c
        }),
{
    let x = branch_eq_text(builder, context);
    let t = trace_lines(builder.recorded(), 0);
    let c = context_lines(context, 2);
    assert(x.subrange(0, t.len() as int) =~= t);
    assert(x.subrange(t.len() as int + 1, x.len() as int) =~= c);
}

/// The report for the SHA-256 circuit is what printing the trace at indent 0
/// gives, then the lines `Result 🛍️` and `  tt`; there are no other lines.
pub proof fn theorem_sha256_text_parts(builder: RocqAirBuilder)
    ensures
        ({
            let x = sha256_text(builder);
            let t = trace_lines(builder.recorded(), 0);
            &&& x.len() == t.len() + 2
            &&& x.subrange(0, t.len() as int) == t
            &&& x[t.len() as int] == line(0, "Result 🛍️"@)
            &&& x[t.len() as int + 1] == line(2, "tt"@)
        }),
{
    let x = sha256_text(builder);
    let t = trace_lines(builder.recorded(), 0);
    assert(x.subrange(0, t.len() as int) =~= t);
}

/// The lines printed for the evaluated branch-equality core, or `None` where a
/// line would be indented past `usize::MAX` blanks.
pub fn branch_eq_report(builder: &RocqAirBuilder, context: &AdapterAirContext) -> (r: Option<
    Vec<String>,
>)
    ensures
        r is Some <==> trace_fits(builder.recorded(), 0) && context_fits(*context, 2),
        r matches Some(lines) ==> lines_of(lines@) == branch_eq_text(*builder, *context),
{
    if !builder.fits_at(0) || !context.fits_at(2) {
        return None;
    }
    let mut out = builder.to_rocq(0);
    push_line(&mut out, 0, "Result 🛍️");
    context.write_rocq(2, &mut out);
    assert(lines_of(out@) =~= branch_eq_text(*builder, *context));
    Some(out)
}

/// The builder for the SHA-256 circuit: a main trace two rows high and as
/// wide as the wider of a digest row and a round row.
pub fn sha256_builder(digest_width: usize, round_width: usize) -> (b: RocqAirBuilder)
    requires
        2 * digest_width <= usize::MAX,
        2 * round_width <= usize::MAX,
    ensures
        b.main_width() == if digest_width >= round_width { digest_width } else { round_width },
        b.main_values().len() == 2 * b.main_width(),
        forall|i: int| 0 <= i < 2 * b.main_width() ==> #[trigger] b.main_values()[i] == public_variable(i),
        b.recorded().len() == 0,
{
    let width = if digest_width >= round_width { digest_width } else { round_width };
    RocqAirBuilder::new(width, 2)
}

/// The lines printed for the evaluated SHA-256 circuit, or `None` where a line
/// would be indented past `usize::MAX` blanks.
pub fn sha256_report(builder: &RocqAirBuilder) -> (r: Option<Vec<String>>)
    ensures
        r is Some <==> trace_fits(builder.recorded(), 0),
        r matches Some(lines) ==> lines_of(lines@) == sha256_text(*builder),
{
    if !builder.fits_at(0) {
        return None;
    }
    let mut out = builder.to_rocq(0);
    push_line(&mut out, 0, "Result 🛍️");
    push_line(&mut out, 2, "tt");
    assert(lines_of(out@) =~= sha256_text(*builder));
    Some(out)
}

} // verus!
