//! Postfix instruction programs, the compiler's output.
//!
//! An expression compiles to a sequence of stack instructions: `Push`
//! places the numeric value of a literal on the stack, `Neg` flips the
//! sign of the top value, and each binary instruction replaces the top two
//! values `a, b` (with `b` on top) by `a op b`.  Running the instructions
//! in order performs exactly the operations the grammar prescribes, in the
//! order a left-to-right evaluator would perform them.

use vstd::prelude::*;

verus! {

/// One stack instruction.  The literal of `Push` is kept as text; its
/// numeric reading belongs to the embedding that runs the program.
#[derive(Debug, Clone, PartialEq, Eq)]
pub enum Instr {
    Push(Vec<char>),
    Add,
    Sub,
    Mul,
    Div,
    Neg,
}

/// The shape of an [`Instr`] in specifications.
pub enum SpecInstr {
    Push(Seq<char>),
    Add,
    Sub,
    Mul,
    Div,
    Neg,
}

impl View for Instr {
    type V = SpecInstr;

    open spec fn view(&self) -> SpecInstr {
        match self {
            Instr::Push(lit) => SpecInstr::Push(lit@),
            Instr::Add => SpecInstr::Add,
            Instr::Sub => SpecInstr::Sub,
            Instr::Mul => SpecInstr::Mul,
            Instr::Div => SpecInstr::Div,
            Instr::Neg => SpecInstr::Neg,
        }
    }
}

impl DeepView for Instr {
    type V = SpecInstr;

    open spec fn deep_view(&self) -> SpecInstr {
        self.view()
    }
}

/// How many stack values an instruction consumes.
pub open spec fn stack_needs(i: SpecInstr) -> int {
    match i {
        SpecInstr::Push(_) => 0,
        SpecInstr::Neg => 1,
        _ => 2,
    }
}

/// How an instruction changes the stack height.
pub open spec fn stack_delta(i: SpecInstr) -> int {
    match i {
        SpecInstr::Push(_) => 1,
        SpecInstr::Neg => 0,
        _ => -1,
    }
}

/// Whether a program runs from stack height `h` without ever asking for
/// more values than the stack holds.
pub open spec fn runs_from(p: Seq<SpecInstr>, h: int) -> bool
    decreases p.len(),
{
    p.len() == 0 || (h >= stack_needs(p[0]) && runs_from(p.drop_first(), h + stack_delta(p[0])))
}

/// The stack height after a program run from height `h`.
pub open spec fn height_after(p: Seq<SpecInstr>, h: int) -> int
    decreases p.len(),
{
    if p.len() == 0 {
        h
    } else {
        height_after(p.drop_first(), h + stack_delta(p[0]))
    }
}

/// Two programs one after the other: the first runs, then the second runs
/// from the height the first left behind.
pub proof fn lemma_run_concat(a: Seq<SpecInstr>, b: Seq<SpecInstr>, h: int)
    ensures
        runs_from(a + b, h) == (runs_from(a, h) && runs_from(b, height_after(a, h))),
        height_after(a + b, h) == height_after(b, height_after(a, h)),
    decreases a.len(),
{
    if a.len() == 0 {
        assert(a + b =~= b);
    } else {
        assert((a + b)[0] == a[0]);
        assert((a + b).drop_first() =~= a.drop_first() + b);
        lemma_run_concat(a.drop_first(), b, h + stack_delta(a[0]));
    }
}

/// A single instruction at the end of a program.
pub proof fn lemma_run_push(a: Seq<SpecInstr>, i: SpecInstr, h: int)
    ensures
        runs_from(a.push(i), h) == (runs_from(a, h) && height_after(a, h) >= stack_needs(i)),
        height_after(a.push(i), h) == height_after(a, h) + stack_delta(i),
{
    assert(a.push(i) =~= a + seq![i]);
    lemma_run_concat(a, seq![i], h);
    let h2 = height_after(a, h);
    assert(seq![i].drop_first() =~= Seq::<SpecInstr>::empty());
    assert(runs_from(Seq::<SpecInstr>::empty(), h2 + stack_delta(i)));
    assert(height_after(Seq::<SpecInstr>::empty(), h2 + stack_delta(i)) == h2 + stack_delta(i));
    assert(runs_from(seq![i], h2) == (h2 >= stack_needs(i)));
    assert(height_after(seq![i], h2) == h2 + stack_delta(i));
}

} // verus!
