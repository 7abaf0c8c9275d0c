//! The target machine: its instructions and what running them does.
use vstd::prelude::*;

verus! {

/// One machine instruction. Slots are named by their byte offset below the
/// stack pointer; `rax` is the accumulator and `rbx` the scratch register.
#[derive(Clone, Copy, Debug, PartialEq, Eq, Structural)]
pub enum Instr {
    /// `mov rax, n`
    LoadImm(i32),
    /// `mov rax, [rsp - k]`
    Load(u64),
    /// `mov [rsp - k], rax`
    Store(u64),
    /// `add rax, 1`
    Inc,
    /// `sub rax, 1`
    Dec,
    /// `imul rax, -1`
    Neg,
    /// `add rax, [rsp - k]`
    AddSlot(u64),
    /// `imul rax, [rsp - k]`
    MulSlot(u64),
    /// `mov rbx, [rsp - k]`
    LoadScratch(u64),
    /// `sub rbx, rax`
    SubScratch,
    /// `mov rax, rbx`
    MoveScratch,
}

/// A machine state, with registers holding unbounded integers.
pub struct Machine {
    pub acc: int,
    pub scratch: int,
    pub slots: spec_fn(int) -> int,
}

/// The state after one instruction.
pub open spec fn step(m: Machine, i: Instr) -> Machine {
    match i {
        Instr::LoadImm(n) => Machine { acc: n as int, ..m },
        Instr::Load(k) => Machine { acc: (m.slots)(k as int), ..m },
        Instr::Store(k) => Machine {
            slots: |j: int| if j == k as int { m.acc } else { (m.slots)(j) },
            ..m
        },
        Instr::Inc => Machine { acc: m.acc + 1, ..m },
        Instr::Dec => Machine { acc: m.acc - 1, ..m },
        Instr::Neg => Machine { acc: -m.acc, ..m },
        Instr::AddSlot(k) => Machine { acc: m.acc + (m.slots)(k as int), ..m },
        Instr::MulSlot(k) => Machine { acc: m.acc * (m.slots)(k as int), ..m },
        Instr::LoadScratch(k) => Machine { scratch: (m.slots)(k as int), ..m },
        Instr::SubScratch => Machine { scratch: m.scratch - m.acc, ..m },
        Instr::MoveScratch => Machine { acc: m.scratch, ..m },
    }
}

/// The state after running `code` in order from `m`.
pub open spec fn run(m: Machine, code: Seq<Instr>) -> Machine
    decreases code.len(),
{
    if code.len() == 0 {
        m
    } else {
        run(step(m, code[0]), code.drop_first())
    }
}

/// The slot an instruction writes, if any.
pub open spec fn written_slot(i: Instr) -> Option<int> {
    match i {
        Instr::Store(k) => Some(k as int),
        _ => None,
    }
}

/// Running two pieces of code one after the other is running their concatenation.
pub proof fn lemma_run_concat(m: Machine, a: Seq<Instr>, b: Seq<Instr>)
    ensures
        run(m, a + b) == run(run(m, a), b),
    decreases a.len(),
{
    if a.len() == 0 {
        assert(a + b =~= b);
    } else {
        assert((a + b).drop_first() =~= a.drop_first() + b);
        lemma_run_concat(step(m, a[0]), a.drop_first(), b);
    }
}

/// Running code leaves every slot that it does not write unchanged.
pub proof fn lemma_run_keeps_unwritten(m: Machine, code: Seq<Instr>, k: int)
    requires
        forall|j: int| 0 <= j < code.len() ==> written_slot(#[trigger] code[j]) != Some(k),
    ensures
        (run(m, code).slots)(k) == (m.slots)(k),
    decreases code.len(),
{
    if code.len() > 0 {
        assert forall|j: int| 0 <= j < code.drop_first().len() implies written_slot(
            #[trigger] code.drop_first()[j],
        ) != Some(k) by {
            assert(code.drop_first()[j] == code[j + 1]);
        }
        lemma_run_keeps_unwritten(step(m, code[0]), code.drop_first(), k);
    }
}

} // verus!
