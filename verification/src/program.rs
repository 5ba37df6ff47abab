use vstd::prelude::*;
use crate::ast::Operator;
use crate::lexer::literal_shape;
use crate::semantics::{PrimOp, UnaryFn};

verus! {

/// One instruction of a straight-line numeric program. Each instruction
/// writes one fresh register, numbered by its position; operands name earlier
/// registers. `Lit` reads a numeric literal, `Bits` loads a known bit
/// pattern, `Bin` applies a binary operator, `Call` applies a built-in unary
/// function.
#[derive(Debug, Clone)]
pub enum Instr {
    Lit(String),
    Bits(u64),
    Bin(Operator, usize, usize),
    Call(UnaryFn, usize),
}

/// The mathematical model of an instruction.
pub enum InstrV {
    Lit(Seq<char>),
    Bits(u64),
    Bin(Operator, int, int),
    Call(UnaryFn, int),
}

impl View for Instr {
    type V = InstrV;

    open spec fn view(&self) -> InstrV {
        match self {
            Instr::Lit(s) => InstrV::Lit(s@),
            Instr::Bits(k) => InstrV::Bits(*k),
            Instr::Bin(op, a, b) => InstrV::Bin(*op, *a as int, *b as int),
            Instr::Call(f, a) => InstrV::Call(*f, *a as int),
        }
    }
}

pub open spec fn prog_view(p: Seq<Instr>) -> Seq<InstrV> {
    p.map_values(|i: Instr| i@)
}

/// The value an instruction writes, given the registers before it and an
/// interpretation of the primitive operations.
pub open spec fn instr_val(ins: InstrV, prior: Seq<u64>, sem: spec_fn(PrimOp) -> u64) -> u64 {
    match ins {
        InstrV::Lit(s) => sem(PrimOp::Lit(s)),
        InstrV::Bits(k) => k,
        InstrV::Bin(op, a, b) => sem(PrimOp::Bin(op, prior[a], prior[b])),
        InstrV::Call(f, a) => sem(PrimOp::Un(f, prior[a])),
    }
}

/// The registers a program computes, one per instruction, under an
/// interpretation of the primitive operations.
pub open spec fn regs_spec(p: Seq<InstrV>, sem: spec_fn(PrimOp) -> u64) -> Seq<u64>
    decreases p.len(),
{
    if p.len() == 0 {
        Seq::empty()
    } else {
        let prior = regs_spec(p.drop_last(), sem);
        prior.push(instr_val(p.last(), prior, sem))
    }
}

/// An instruction at position `bound` may only read earlier registers, and a
/// literal instruction carries text of the lexer's numeric shape, which the
/// host can always read as a number.
pub open spec fn instr_wf(ins: InstrV, bound: int) -> bool {
    match ins {
        InstrV::Lit(s) => literal_shape(s),
        InstrV::Bits(_) => true,
        InstrV::Bin(_, a, b) => 0 <= a < bound && 0 <= b < bound,
        InstrV::Call(_, a) => 0 <= a < bound,
    }
}

pub open spec fn prog_wf(p: Seq<InstrV>) -> bool {
    forall|k: int| 0 <= k < p.len() ==> instr_wf(#[trigger] p[k], k)
}

pub proof fn lemma_regs_len(p: Seq<InstrV>, sem: spec_fn(PrimOp) -> u64)
    ensures
        regs_spec(p, sem).len() == p.len(),
    decreases p.len(),
{
    if p.len() > 0 {
        lemma_regs_len(p.drop_last(), sem);
    }
}

pub proof fn lemma_regs_push(p: Seq<InstrV>, ins: InstrV, sem: spec_fn(PrimOp) -> u64)
    ensures
        regs_spec(p.push(ins), sem) == regs_spec(p, sem).push(
            instr_val(ins, regs_spec(p, sem), sem),
        ),
{
    assert(p.push(ins).drop_last() =~= p);
    assert(p.push(ins).last() == ins);
}

/// Appending instructions does not change the registers that the earlier
/// instructions compute.
pub proof fn lemma_regs_prefix(p: Seq<InstrV>, q: Seq<InstrV>, sem: spec_fn(PrimOp) -> u64)
    requires
        p.len() <= q.len(),
        q.subrange(0, p.len() as int) =~= p,
    ensures
        forall|k: int|
            0 <= k < p.len() ==> regs_spec(q, sem)[k] == #[trigger] regs_spec(p, sem)[k],
    decreases q.len(),
{
    lemma_regs_len(p, sem);
    lemma_regs_len(q, sem);
    if q.len() == 0 {
    } else {
        if p.len() == q.len() {
            assert(p =~= q);
        } else {
            lemma_regs_prefix(p, q.drop_last(), sem);
            lemma_regs_len(q.drop_last(), sem);
        }
    }
}

} // verus!
