//! The top level: from text to a compiled program, and the laws that hold
//! of every compilation.

use vstd::prelude::*;
use crate::lexer::{chars_of, remove_spaces, spec_tokenize, strip_spaces, tokenize};
use crate::parser::{parse_expression, sp_expression, sp_expr_rest, sp_factor, sp_term,
    sp_term_rest, lemma_factor_bounds, lemma_term_bounds};
use crate::program::{
    height_after, lemma_run_concat, lemma_run_push, runs_from, Instr, SpecInstr,
};
use crate::token::{CalcError, SpecError, SpecToken};

verus! {

/// The outcome of compiling an expression: the instructions for the
/// operations a left-to-right evaluator performs, and the first structural
/// error, if one was found.
///
/// When `err` is `None` the expression was well formed and `instrs` is its
/// whole program.  When `err` is `Some`, `instrs` still holds the
/// operations that come before the failure point: a runner executes them
/// first, because a division by zero among them strikes before the
/// structural error is ever reached, and reports `err` only if no such
/// division occurs.
pub struct Compiled {
    pub instrs: Vec<Instr>,
    pub err: Option<CalcError>,
}

/// The outcome of a compilation, seen mathematically.
#[verifier::ext_equal]
pub ghost struct SpecCompiled {
    pub prog: Seq<SpecInstr>,
    pub err: Option<SpecError>,
}

impl View for Compiled {
    type V = SpecCompiled;

    open spec fn view(&self) -> SpecCompiled {
        SpecCompiled { prog: self.instrs.deep_view(), err: self.err.deep_view() }
    }
}

/// What compiling `s` yields: spaces are removed, an empty remainder is
/// rejected, the characters are tokenized, one whole expression is parsed,
/// and leftover tokens are an error.
pub open spec fn spec_compile(s: Seq<char>) -> SpecCompiled {
    let t = strip_spaces(s);
    if t.len() == 0 {
        SpecCompiled { prog: Seq::empty(), err: Some(SpecError::EmptyExpression) }
    } else {
        match spec_tokenize(t, 0) {
            Err(e) => SpecCompiled { prog: Seq::empty(), err: Some(e) },
            Ok(toks) => {
                let r = sp_expression(toks, 0);
                if r.err is Some {
                    SpecCompiled { prog: r.prog, err: r.err }
                } else if r.pos < toks.len() {
                    SpecCompiled { prog: r.prog, err: Some(SpecError::TrailingTokens) }
                } else {
                    SpecCompiled { prog: r.prog, err: None }
                }
            },
        }
    }
}

/// Compiles an expression.  The outcome is exactly `spec_compile` of the
/// input text — a pure function of the characters alone, so compiling the
/// same text twice yields the same outcome.
pub fn compile(expression: &str) -> (out: Compiled)
    ensures
        out@ == spec_compile(expression@),
{
    let cs = chars_of(expression);
    let stripped = remove_spaces(&cs);
    if stripped.len() == 0 {
        let out = Compiled { instrs: Vec::new(), err: Some(CalcError::EmptyExpression) };
        proof {
            assert(out@ =~= spec_compile(expression@));
        }
        return out;
    }
    match tokenize(&stripped) {
        Err(e) => {
            let out = Compiled { instrs: Vec::new(), err: Some(e) };
            proof {
                assert(out@ =~= spec_compile(expression@));
            }
            out
        },
        Ok(toks) => {
            let r = parse_expression(&toks, 0);
            if r.err.is_some() {
                let out = Compiled { instrs: r.prog, err: r.err };
                proof {
                    assert(out@ =~= spec_compile(expression@));
                }
                out
            } else if r.pos < toks.len() {
                let out = Compiled { instrs: r.prog, err: Some(CalcError::TrailingTokens) };
                proof {
                    assert(out@ =~= spec_compile(expression@));
                }
                out
            } else {
                let out = Compiled { instrs: r.prog, err: None };
                proof {
                    assert(out@ =~= spec_compile(expression@));
                }
                out
            }
        },
    }
}

/// Removing spaces is idempotent.
pub proof fn lemma_strip_spaces_idempotent(s: Seq<char>)
    ensures
        strip_spaces(strip_spaces(s)) == strip_spaces(s),
    decreases s.len(),
{
    if s.len() == 0 {
    } else if s[0] == ' ' {
        lemma_strip_spaces_idempotent(s.drop_first());
    } else {
        lemma_strip_spaces_idempotent(s.drop_first());
        let t = strip_spaces(s.drop_first());
        assert((seq![s[0]] + t).drop_first() =~= t);
    }
}

/// Spaces do not matter: two expressions whose space-free characters agree
/// compile to the very same outcome — in particular, an expression and its
/// space-free form do.
pub proof fn lemma_space_insensitive(s1: Seq<char>, s2: Seq<char>)
    requires
        strip_spaces(s1) == strip_spaces(s2),
    ensures
        spec_compile(s1) == spec_compile(s2),
{
}

/// An expression compiles to the same outcome as its space-free form.
pub proof fn lemma_space_invariance(s: Seq<char>)
    ensures
        spec_compile(s) == spec_compile(strip_spaces(s)),
{
    lemma_strip_spaces_idempotent(s);
}

proof fn lemma_factor_prog(toks: Seq<SpecToken>, pos: int, h: int)
    requires
        0 <= pos <= toks.len(),
        0 <= h,
    ensures
        ({
            let f = sp_factor(toks, pos);
            &&& runs_from(f.prog, h)
            &&& (f.err is None ==> height_after(f.prog, h) == h + 1)
        }),
    decreases toks.len() - pos, 0int,
{
    assert(runs_from(Seq::<SpecInstr>::empty(), h));
    if pos < toks.len() {
        match toks[pos] {
            SpecToken::Number(lit) => {
                let p = seq![SpecInstr::Push(lit)];
                assert(p.drop_first() =~= Seq::<SpecInstr>::empty());
                assert(runs_from(p.drop_first(), h + 1));
                assert(height_after(p.drop_first(), h + 1) == h + 1);
                assert(height_after(p, h) == h + 1);
            },
            SpecToken::Minus => {
                lemma_factor_prog(toks, pos + 1, h);
                let f = sp_factor(toks, pos + 1);
                if f.err is None {
                    lemma_run_push(f.prog, SpecInstr::Neg, h);
                }
            },
            SpecToken::Plus => {
                lemma_factor_prog(toks, pos + 1, h);
            },
            SpecToken::LeftParen => {
                lemma_expression_prog(toks, pos + 1, h);
            },
            _ => {},
        }
    }
}

proof fn lemma_term_rest_prog(toks: Seq<SpecToken>, pos: int, h: int)
    requires
        0 <= pos <= toks.len(),
        1 <= h,
    ensures
        ({
            let r = sp_term_rest(toks, pos);
            &&& runs_from(r.prog, h)
            &&& (r.err is None ==> height_after(r.prog, h) == h)
        }),
    decreases toks.len() - pos, 3int,
{
    if 0 <= pos < toks.len() && (toks[pos] is Multiply || toks[pos] is Divide) {
        let op = if toks[pos] is Multiply {
            SpecInstr::Mul
        } else {
            SpecInstr::Div
        };
        lemma_factor_prog(toks, pos + 1, h);
        lemma_factor_bounds(toks, pos + 1);
        let f = sp_factor(toks, pos + 1);
        if f.err is None {
            lemma_run_push(f.prog, op, h);
            lemma_term_rest_prog(toks, f.pos, h);
            let r = sp_term_rest(toks, f.pos);
            lemma_run_concat(f.prog.push(op), r.prog, h);
        }
    }
}

proof fn lemma_term_prog(toks: Seq<SpecToken>, pos: int, h: int)
    requires
        0 <= pos <= toks.len(),
        0 <= h,
    ensures
        ({
            let t = sp_term(toks, pos);
            &&& runs_from(t.prog, h)
            &&& (t.err is None ==> height_after(t.prog, h) == h + 1)
        }),
    decreases toks.len() - pos, 1int,
{
    lemma_factor_prog(toks, pos, h);
    lemma_factor_bounds(toks, pos);
    let f = sp_factor(toks, pos);
    if f.err is None {
        lemma_term_rest_prog(toks, f.pos, h + 1);
        let r = sp_term_rest(toks, f.pos);
        lemma_run_concat(f.prog, r.prog, h);
    }
}

proof fn lemma_expr_rest_prog(toks: Seq<SpecToken>, pos: int, h: int)
    requires
        0 <= pos <= toks.len(),
        1 <= h,
    ensures
        ({
            let r = sp_expr_rest(toks, pos);
            &&& runs_from(r.prog, h)
            &&& (r.err is None ==> height_after(r.prog, h) == h)
        }),
    decreases toks.len() - pos, 4int,
{
    if 0 <= pos < toks.len() && (toks[pos] is Plus || toks[pos] is Minus) {
        let op = if toks[pos] is Plus {
            SpecInstr::Add
        } else {
            SpecInstr::Sub
        };
        lemma_term_prog(toks, pos + 1, h);
        lemma_term_bounds(toks, pos + 1);
        let t = sp_term(toks, pos + 1);
        if t.err is None {
            lemma_run_push(t.prog, op, h);
            lemma_expr_rest_prog(toks, t.pos, h);
            let r = sp_expr_rest(toks, t.pos);
            lemma_run_concat(t.prog.push(op), r.prog, h);
        }
    }
}

proof fn lemma_expression_prog(toks: Seq<SpecToken>, pos: int, h: int)
    requires
        0 <= pos <= toks.len(),
        0 <= h,
    ensures
        ({
            let e = sp_expression(toks, pos);
            &&& runs_from(e.prog, h)
            &&& (e.err is None ==> height_after(e.prog, h) == h + 1)
        }),
    decreases toks.len() - pos, 2int,
{
    lemma_term_prog(toks, pos, h);
    lemma_term_bounds(toks, pos);
    let t = sp_term(toks, pos);
    if t.err is None {
        lemma_expr_rest_prog(toks, t.pos, h + 1);
        let r = sp_expr_rest(toks, t.pos);
        lemma_run_concat(t.prog, r.prog, h);
    }
}

/// Every compiled program, partial ones included, runs from the empty
/// stack without ever asking for a value the stack does not hold; and a
/// complete one — compiled without error — leaves exactly the one result
/// value behind.  A runner may therefore pop blindly and, on a complete
/// program, report the single value that remains.
pub proof fn theorem_program_wellformed(s: Seq<char>)
    ensures
        ({
            let c = spec_compile(s);
            &&& runs_from(c.prog, 0)
            &&& (c.err is None ==> height_after(c.prog, 0) == 1)
        }),
{
    let t = strip_spaces(s);
    if t.len() == 0 {
    } else {
        match spec_tokenize(t, 0) {
            Err(_) => {},
            Ok(toks) => {
                lemma_expression_prog(toks, 0, 0);
            },
        }
    }
}

} // verus!
