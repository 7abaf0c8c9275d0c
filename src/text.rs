//! The assembly text of instructions and of whole programs.
use vstd::prelude::*;
use crate::machine::Instr;

verus! {

/// The character of decimal digit `d`.
pub open spec fn digit_char(d: nat) -> char {
    if d == 0 { '0' } else if d == 1 { '1' } else if d == 2 { '2' } else if d == 3 { '3' }
    else if d == 4 { '4' } else if d == 5 { '5' } else if d == 6 { '6' } else if d == 7 { '7' }
    else if d == 8 { '8' } else { '9' }
}

/// The decimal digits of `n`, most significant first.
pub open spec fn digits(n: nat) -> Seq<char>
    decreases n,
{
    if n < 10 {
        seq![digit_char(n)]
    } else {
        digits(n / 10) + seq![digit_char(n % 10)]
    }
}

/// The decimal text of `n`, with a leading `-` when it is negative.
pub open spec fn int_text(n: int) -> Seq<char> {
    if n < 0 {
        seq!['-'] + digits((-n) as nat)
    } else {
        digits(n as nat)
    }
}

/// The operand naming the slot `k` bytes below the stack pointer.
pub open spec fn slot_text(k: u64) -> Seq<char> {
    "[rsp - "@ + digits(k as nat) + "]"@
}

/// The assembly text of one instruction.
pub open spec fn instr_text(i: Instr) -> Seq<char> {
    match i {
        Instr::LoadImm(n) => "mov rax, "@ + int_text(n as int),
        Instr::Load(k) => "mov rax, "@ + slot_text(k),
        Instr::Store(k) => "mov "@ + slot_text(k) + ", rax"@,
        Instr::Inc => "add rax, 1"@,
        Instr::Dec => "sub rax, 1"@,
        Instr::Neg => "imul rax, -1"@,
        Instr::AddSlot(k) => "add rax, "@ + slot_text(k),
        Instr::MulSlot(k) => "imul rax, "@ + slot_text(k),
        Instr::LoadScratch(k) => "mov rbx, "@ + slot_text(k),
        Instr::SubScratch => "sub rbx, rax"@,
        Instr::MoveScratch => "mov rax, rbx"@,
    }
}

/// The lines of `code`, each indented by two spaces.
pub open spec fn lines_text(code: Seq<Instr>) -> Seq<char>
    decreases code.len(),
{
    if code.len() == 0 {
        Seq::empty()
    } else {
        lines_text(code.drop_last()) + "  "@ + instr_text(code.last()) + "\n"@
    }
}

/// The text that opens every program.
pub open spec fn header_text() -> Seq<char> {
    "section .text\nglobal our_code_starts_here\nour_code_starts_here:\n"@
}

/// A complete assembly unit whose entry point runs `code` and returns.
pub open spec fn program_text(code: Seq<Instr>) -> Seq<char> {
    header_text() + lines_text(code) + "  ret\n"@
}

/// The one-character text of decimal digit `d`.
fn digit_str(d: u64) -> (r: &'static str)
    requires
        d < 10,
    ensures
        r@ == seq![digit_char(d as nat)],
{
    proof {
        reveal_strlit("0");
        reveal_strlit("1");
        reveal_strlit("2");
        reveal_strlit("3");
        reveal_strlit("4");
        reveal_strlit("5");
        reveal_strlit("6");
        reveal_strlit("7");
        reveal_strlit("8");
        reveal_strlit("9");
    }
    if d == 0 { "0" } else if d == 1 { "1" } else if d == 2 { "2" } else if d == 3 { "3" }
    else if d == 4 { "4" } else if d == 5 { "5" } else if d == 6 { "6" } else if d == 7 { "7" }
    else if d == 8 { "8" } else { "9" }
}

/// Appends the decimal digits of `n` to `out`.
fn push_digits(out: &mut String, n: u64)
    ensures
        final(out)@ == old(out)@ + digits(n as nat),
    decreases n,
{
    if n < 10 {
        out.append(digit_str(n));
    } else {
        push_digits(out, n / 10);
        out.append(digit_str(n % 10));
        assert(final(out)@ =~= old(out)@ + digits(n as nat));
    }
}

/// Appends the operand naming slot `k` to `out`.
fn push_slot(out: &mut String, k: u64)
    ensures
        final(out)@ == old(out)@ + slot_text(k),
{
    out.append("[rsp - ");
    push_digits(out, k);
    out.append("]");
    assert(final(out)@ =~= old(out)@ + slot_text(k));
}

impl Instr {
    /// Appends the assembly text of this instruction to `out`.
    pub fn write_text(&self, out: &mut String)
        ensures
            final(out)@ == old(out)@ + instr_text(*self),
    {
        let ghost start = out@;
        match *self {
            Instr::LoadImm(n) => {
                out.append("mov rax, ");
                if n < 0 {
                    out.append("-");
                    proof {
                        reveal_strlit("-");
                    }
                    push_digits(out, (-(n as i64)) as u64);
                } else {
                    push_digits(out, n as u64);
                }
            },
            Instr::Load(k) => {
                out.append("mov rax, ");
                push_slot(out, k);
            },
            Instr::Store(k) => {
                out.append("mov ");
                push_slot(out, k);
                out.append(", rax");
            },
            Instr::Inc => out.append("add rax, 1"),
            Instr::Dec => out.append("sub rax, 1"),
            Instr::Neg => out.append("imul rax, -1"),
            Instr::AddSlot(k) => {
                out.append("add rax, ");
                push_slot(out, k);
            },
            Instr::MulSlot(k) => {
                out.append("imul rax, ");
                push_slot(out, k);
            },
            Instr::LoadScratch(k) => {
                out.append("mov rbx, ");
                push_slot(out, k);
            },
            Instr::SubScratch => out.append("sub rbx, rax"),
            Instr::MoveScratch => out.append("mov rax, rbx"),
        }
        assert(out@ =~= start + instr_text(*self));
    }

    /// The assembly text of this instruction.
    pub fn text(&self) -> (r: String)
        ensures
            r@ == instr_text(*self),
    {
        let mut out = String::new();
        self.write_text(&mut out);
        assert(out@ =~= instr_text(*self));
        out
    }
}

/// The assembly unit for `code`: the fixed header, each instruction on a
/// line of its own, then `ret`.
pub fn assemble(code: &Vec<Instr>) -> (r: String)
    ensures
        r@ == program_text(code@),
{
    let mut out = String::new();
    out.append("section .text\nglobal our_code_starts_here\nour_code_starts_here:\n");
    let mut i: usize = 0;
    while i < code.len()
        invariant
            i <= code@.len(),
            out@ == header_text() + lines_text(code@.take(i as int)),
        decreases code@.len() - i,
    {
        let ghost before = out@;
        out.append("  ");
        code[i].write_text(&mut out);
        out.append("\n");
        proof {
            assert(code@.take(i + 1).drop_last() =~= code@.take(i as int));
            assert(out@ =~= header_text() + lines_text(code@.take(i + 1)));
        }
        i = i + 1;
    }
    out.append("  ret\n");
    assert(code@.take(code@.len() as int) =~= code@);
    out
}

} // verus!
