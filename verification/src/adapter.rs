//! What the core of a VM chip hands to its adapter, and its text form.

use vstd::prelude::*;
use crate::expr::SymbolicExpression;
use crate::render::{
    expr_lines, option_lines, nested_array_lines, fits, rows_fit, fits_at, rows_fit_at,
    write_option, write_nested_array,
};
use crate::text::{line, lines_of, push_line};

verus! {

/// A processed instruction with an immediate operand.
#[derive(Debug)]
pub struct ImmInstruction {
    pub is_valid: SymbolicExpression,
    /// Absolute opcode number.
    pub opcode: SymbolicExpression,
    pub immediate: SymbolicExpression,
}

/// The context that a chip's core gives its adapter: the next program counter
/// (or `None` to let the adapter choose it), the batches of reads and writes,
/// and the processed instruction.
#[derive(Debug)]
pub struct AdapterAirContext {
    pub to_pc: Option<SymbolicExpression>,
    pub reads: Vec<Vec<SymbolicExpression>>,
    pub writes: Vec<Vec<SymbolicExpression>>,
    pub instruction: ImmInstruction,
}

/// The lines of an instruction at `indent`.
pub open spec fn instruction_lines(ins: ImmInstruction, indent: nat) -> Seq<Seq<char>> {
    seq![line(indent, "ImmInstruction:"@), line(indent + 2, "is_valid:"@)]
        + expr_lines(ins.is_valid, indent + 4)
        + seq![line(indent + 2, "opcode:"@)]
        + expr_lines(ins.opcode, indent + 4)
        + seq![line(indent + 2, "immediate:"@)]
        + expr_lines(ins.immediate, indent + 4)
}

/// The lines of an adapter context at `indent`.
pub open spec fn context_lines(c: AdapterAirContext, indent: nat) -> Seq<Seq<char>> {
    seq![line(indent, "AdapterAirContext:"@), line(indent + 2, "to_pc:"@)]
        + option_lines(c.to_pc, indent + 4)
        + seq![line(indent + 2, "reads:"@)]
        + nested_array_lines(c.reads@, indent + 4)
        + seq![line(indent + 2, "writes:"@)]
        + nested_array_lines(c.writes@, indent + 4)
        + seq![line(indent + 2, "instruction:"@)]
        + instruction_lines(c.instruction, indent + 4)
}

/// An instruction rendered at `indent` indents no line past `usize::MAX` blanks.
pub open spec fn instruction_fits(ins: ImmInstruction, indent: nat) -> bool {
    &&& indent + 4 <= usize::MAX
    &&& fits(ins.is_valid, indent + 4)
    &&& fits(ins.opcode, indent + 4)
    &&& fits(ins.immediate, indent + 4)
}

/// An adapter context rendered at `indent` indents no line past `usize::MAX` blanks.
pub open spec fn context_fits(c: AdapterAirContext, indent: nat) -> bool {
    &&& indent + 8 <= usize::MAX
    &&& match c.to_pc {
        Some(t) => fits(t, indent + 6),
        None => true,
    }
    &&& rows_fit(c.reads@, indent + 8)
    &&& rows_fit(c.writes@, indent + 8)
    &&& instruction_fits(c.instruction, indent + 4)
}

/// An instruction prints `ImmInstruction:`, then `is_valid:` with its
/// validity flag, `opcode:` with its opcode and `immediate:` with its immediate,
/// each two blanks deeper than its label; there are no other lines.
pub proof fn theorem_instruction_lines_positions(ins: ImmInstruction, indent: nat)
    ensures
        ({
            let ls = instruction_lines(ins, indent);
            let a = expr_lines(ins.is_valid, indent + 4);
            let b = expr_lines(ins.opcode, indent + 4);
            let c = expr_lines(ins.immediate, indent + 4);
            &&& ls.len() == 4 + a.len() as int + b.len() as int + c.len()
            &&& ls[0] == line(indent, "ImmInstruction:"@)
            &&& ls[1] == line(indent + 2, "is_valid:"@)
            &&& ls.subrange(2, 2 + a.len() as int) == a
            &&& ls[2 + a.len() as int] == line(indent + 2, "opcode:"@)
            &&& ls.subrange(3 + a.len() as int, 3 + a.len() as int + b.len() as int) == b
            &&& ls[3 + a.len() as int + b.len() as int] == line(indent + 2, "immediate:"@)
            &&& ls.subrange(4 + a.len() as int + b.len() as int, ls.len() as int) == c
        }),
{
    let ls = instruction_lines(ins, indent);
    let a = expr_lines(ins.is_valid, indent + 4);
    let b = expr_lines(ins.opcode, indent + 4);
    let c = expr_lines(ins.immediate, indent + 4);
    assert(ls.subrange(2, 2 + a.len() as int) =~= a);
    assert(ls.subrange(3 + a.len() as int, 3 + a.len() as int + b.len() as int) =~= b);
    assert(ls.subrange(4 + a.len() as int + b.len() as int, ls.len() as int) =~= c);
}

/// An adapter context prints `AdapterAirContext:`, then two blanks deeper the
/// labels `to_pc:`, `reads:`, `writes:` and `instruction:`, each followed,
/// two more blanks deeper, by the text of that part of the context: the
/// optional next program counter, the read rows, the write rows and the
/// instruction. There are no other lines.
pub proof fn theorem_context_lines_positions(c: AdapterAirContext, indent: nat)
    ensures
        ({
            let ls = context_lines(c, indent);
            let o = option_lines(c.to_pc, indent + 4);
            let r = nested_array_lines(c.reads@, indent + 4);
            let w = nested_array_lines(c.writes@, indent + 4);
            let n = instruction_lines(c.instruction, indent + 4);
            let (ro, wo, io) = (2 + o.len() as int, 3 + o.len() as int + r.len() as int, 4 + o.len() as int + r.len() as int + w.len() as int);
            &&& ls.len() == io + 1 + n.len() as int
            &&& ls[0] == line(indent, "AdapterAirContext:"@)
            &&& ls[1] == line(indent + 2, "to_pc:"@)
            &&& ls.subrange(2, ro) == o
            &&& ls[ro] == line(indent + 2, "reads:"@)
            &&& ls.subrange(ro + 1, wo) == r
            &&& ls[wo] == line(indent + 2, "writes:"@)
            &&& ls.subrange(wo + 1, io) == w
            &&& ls[io] == line(indent + 2, "instruction:"@)
            &&& ls.subrange(io + 1, ls.len() as int) == n
        }),
{
    let ls = context_lines(c, indent);
    let o = option_lines(c.to_pc, indent + 4);
    let r = nested_array_lines(c.reads@, indent + 4);
    let w = nested_array_lines(c.writes@, indent + 4);
    let n = instruction_lines(c.instruction, indent + 4);
    let (ro, wo, io) = (2 + o.len() as int, 3 + o.len() as int + r.len() as int, 4 + o.len() as int + r.len() as int + w.len() as int);
    assert(ls.subrange(2, ro) =~= o);
    assert(ls.subrange(ro + 1, wo) =~= r);
    assert(ls.subrange(wo + 1, io) =~= w);
    assert(ls.subrange(io + 1, ls.len() as int) =~= n);
}

impl ImmInstruction {
    /// Appends the lines of this instruction at `indent`.
    pub fn write_rocq(&self, indent: usize, out: &mut Vec<String>)
        requires
            instruction_fits(*self, indent as nat),
        ensures
            lines_of(final(out)@) == lines_of(old(out)@) + instruction_lines(*self, indent as nat),
    {
        let ghost before = lines_of(out@);
        push_line(out, indent, "ImmInstruction:");
        push_line(out, indent + 2, "is_valid:");
        self.is_valid.write_rocq(indent + 4, out);
        push_line(out, indent + 2, "opcode:");
        self.opcode.write_rocq(indent + 4, out);
        push_line(out, indent + 2, "immediate:");
        self.immediate.write_rocq(indent + 4, out);
        assert(lines_of(out@) =~= before + instruction_lines(*self, indent as nat));
    }

    /// Whether this instruction fits at `indent`.
    pub fn fits_at(&self, indent: usize) -> (b: bool)
        ensures
            b == instruction_fits(*self, indent as nat),
    {
        indent <= usize::MAX - 4 && fits_at(&self.is_valid, indent + 4) && fits_at(
            &self.opcode,
            indent + 4,
        ) && fits_at(&self.immediate, indent + 4)
    }
}

impl AdapterAirContext {
    /// Appends the lines of this context at `indent`.
    pub fn write_rocq(&self, indent: usize, out: &mut Vec<String>)
        requires
            context_fits(*self, indent as nat),
        ensures
            lines_of(final(out)@) == lines_of(old(out)@) + context_lines(*self, indent as nat),
    {
        let ghost before = lines_of(out@);
        push_line(out, indent, "AdapterAirContext:");
        let indent = indent + 2;
        push_line(out, indent, "to_pc:");
        write_option(&self.to_pc, indent + 2, out);
        push_line(out, indent, "reads:");
        write_nested_array(&self.reads, indent + 2, out);
        push_line(out, indent, "writes:");
        write_nested_array(&self.writes, indent + 2, out);
        push_line(out, indent, "instruction:");
        self.instruction.write_rocq(indent + 2, out);
        assert(lines_of(out@) =~= before + context_lines(*self, (indent - 2) as nat));
    }

    /// Whether this context fits at `indent`.
    pub fn fits_at(&self, indent: usize) -> (b: bool)
        ensures
            b == context_fits(*self, indent as nat),
    {
        if indent > usize::MAX - 8 {
            return false;
        }
        let to_pc_fits = match &self.to_pc {
            Some(t) => fits_at(t, indent + 6),
            None => true,
        };
        to_pc_fits && rows_fit_at(&self.reads, indent + 8) && rows_fit_at(&self.writes, indent + 8)
            && self.instruction.fits_at(indent + 4)
    }

    /// The lines of this context at `indent`.
    pub fn to_rocq(&self, indent: usize) -> (lines: Vec<String>)
        requires
            context_fits(*self, indent as nat),
        ensures
            lines_of(lines@) == context_lines(*self, indent as nat),
    {
        let mut out = Vec::new();
        proof {
            assert(lines_of(out@) =~= Seq::empty());
        }
        self.write_rocq(indent, &mut out);
        assert(lines_of(out@) =~= context_lines(*self, indent as nat));
        out
    }
}

} // verus!
