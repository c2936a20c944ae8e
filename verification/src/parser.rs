//! The parser/compiler: recursive descent over three precedence levels.
//!
//! ```text
//! expression := term (('+' | '-') term)*      // left-associative
//! term       := factor (('*' | '/') factor)*  // left-associative
//! factor     := NUMBER | ('+' | '-') factor | '(' expression ')'
//! ```
//!
//! Each function consumes tokens from a cursor position and emits the
//! instructions for the operations a left-to-right evaluator would perform,
//! in the order it would perform them.  When parsing fails, the
//! instructions emitted up to the failure are kept: they are exactly the
//! operations such an evaluator had already carried out, and a runner needs
//! them to decide whether a division by zero struck first.
//!
//! The specification functions `sp_*` below are the mathematical parser;
//! each executable function is proved to return precisely its value.

use vstd::prelude::*;
use crate::program::{Instr, SpecInstr};
use crate::token::{CalcError, SpecError, SpecToken, Token};

verus! {

/// Where one parsing step ended: the next cursor position, the
/// instructions emitted so far, and the first structural error, if any.
#[verifier::ext_equal]
pub ghost struct SpecStep {
    pub pos: int,
    pub prog: Seq<SpecInstr>,
    pub err: Option<SpecError>,
}

/// Instructions already emitted, placed before the outcome of a later step.
pub open spec fn join_rest(prefix: Seq<SpecInstr>, r: SpecStep) -> SpecStep {
    SpecStep { pos: r.pos, prog: prefix + r.prog, err: r.err }
}

/// One factor: a literal, a signed factor, or a parenthesised expression.
///
/// The bound checks written into the branches below (`pos < f.pos`, and so
/// on) make termination evident from the text alone; `lemma_factor_bounds`
/// and its companions show that they always hold.
pub open spec fn sp_factor(toks: Seq<SpecToken>, pos: int) -> SpecStep
    decreases toks.len() - pos, 0int,
{
    if pos < 0 || pos >= toks.len() {
        SpecStep { pos, prog: Seq::empty(), err: Some(SpecError::UnexpectedEndOfExpression) }
    } else {
        match toks[pos] {
            SpecToken::Number(lit) => SpecStep {
                pos: pos + 1,
                prog: seq![SpecInstr::Push(lit)],
                err: None,
            },
            SpecToken::Minus => {
                let f = sp_factor(toks, pos + 1);
                if f.err is Some {
                    f
                } else {
                    SpecStep { pos: f.pos, prog: f.prog.push(SpecInstr::Neg), err: None }
                }
            },
            SpecToken::Plus => sp_factor(toks, pos + 1),
            SpecToken::LeftParen => {
                let e = sp_expression(toks, pos + 1);
                if e.err is Some {
                    e
                } else if e.pos < toks.len() && toks[e.pos] is RightParen {
                    SpecStep { pos: e.pos + 1, prog: e.prog, err: None }
                } else {
                    SpecStep { pos: e.pos, prog: e.prog, err: Some(SpecError::MissingClosingParen) }
                }
            },
            _ => SpecStep { pos, prog: Seq::empty(), err: Some(SpecError::UnexpectedToken) },
        }
    }
}

/// The `(('*' | '/') factor)*` tail of a term, folded left to right.
pub open spec fn sp_term_rest(toks: Seq<SpecToken>, pos: int) -> SpecStep
    decreases toks.len() - pos, 3int,
{
    if 0 <= pos < toks.len() && (toks[pos] is Multiply || toks[pos] is Divide) {
        let op = if toks[pos] is Multiply {
            SpecInstr::Mul
        } else {
            SpecInstr::Div
        };
        let f = sp_factor(toks, pos + 1);
        if f.err is Some {
            f
        } else if pos < f.pos <= toks.len() {
            let r = sp_term_rest(toks, f.pos);
            SpecStep { pos: r.pos, prog: f.prog.push(op) + r.prog, err: r.err }
        } else {
            f
        }
    } else {
        SpecStep { pos, prog: Seq::empty(), err: None }
    }
}

/// One term: a factor followed by its `*`/`/` tail.
pub open spec fn sp_term(toks: Seq<SpecToken>, pos: int) -> SpecStep
    decreases toks.len() - pos, 1int,
{
    let f = sp_factor(toks, pos);
    if f.err is Some {
        f
    } else if pos < f.pos <= toks.len() {
        let r = sp_term_rest(toks, f.pos);
        SpecStep { pos: r.pos, prog: f.prog + r.prog, err: r.err }
    } else {
        f
    }
}

/// The `(('+' | '-') term)*` tail of an expression, folded left to right.
pub open spec fn sp_expr_rest(toks: Seq<SpecToken>, pos: int) -> SpecStep
    decreases toks.len() - pos, 4int,
{
    if 0 <= pos < toks.len() && (toks[pos] is Plus || toks[pos] is Minus) {
        let op = if toks[pos] is Plus {
            SpecInstr::Add
        } else {
            SpecInstr::Sub
        };
        let t = sp_term(toks, pos + 1);
        if t.err is Some {
            t
        } else if pos < t.pos <= toks.len() {
            let r = sp_expr_rest(toks, t.pos);
            SpecStep { pos: r.pos, prog: t.prog.push(op) + r.prog, err: r.err }
        } else {
            t
        }
    } else {
        SpecStep { pos, prog: Seq::empty(), err: None }
    }
}

/// One expression: a term followed by its `+`/`-` tail.
pub open spec fn sp_expression(toks: Seq<SpecToken>, pos: int) -> SpecStep
    decreases toks.len() - pos, 2int,
{
    let t = sp_term(toks, pos);
    if t.err is Some {
        t
    } else if pos < t.pos <= toks.len() {
        let r = sp_expr_rest(toks, t.pos);
        SpecStep { pos: r.pos, prog: t.prog + r.prog, err: r.err }
    } else {
        t
    }
}

/// A factor stays within the tokens and, on success, consumes at least one.
pub proof fn lemma_factor_bounds(toks: Seq<SpecToken>, pos: int)
    requires
        0 <= pos <= toks.len(),
    ensures
        ({
            let f = sp_factor(toks, pos);
            &&& pos <= f.pos <= toks.len()
            &&& (f.err is None ==> pos < f.pos)
        }),
    decreases toks.len() - pos, 0int,
{
    if pos < toks.len() {
        match toks[pos] {
            SpecToken::Minus => {
                lemma_factor_bounds(toks, pos + 1);
            },
            SpecToken::Plus => {
                lemma_factor_bounds(toks, pos + 1);
            },
            SpecToken::LeftParen => {
                lemma_expression_bounds(toks, pos + 1);
            },
            _ => {},
        }
    }
}

/// A term tail stays within the tokens and never moves backwards.
pub proof fn lemma_term_rest_bounds(toks: Seq<SpecToken>, pos: int)
    requires
        0 <= pos <= toks.len(),
    ensures
        pos <= sp_term_rest(toks, pos).pos <= toks.len(),
    decreases toks.len() - pos, 3int,
{
    if 0 <= pos < toks.len() && (toks[pos] is Multiply || toks[pos] is Divide) {
        lemma_factor_bounds(toks, pos + 1);
        let f = sp_factor(toks, pos + 1);
        if f.err is None {
            lemma_term_rest_bounds(toks, f.pos);
        }
    }
}

/// A term stays within the tokens and, on success, consumes at least one.
pub proof fn lemma_term_bounds(toks: Seq<SpecToken>, pos: int)
    requires
        0 <= pos <= toks.len(),
    ensures
        ({
            let t = sp_term(toks, pos);
            &&& pos <= t.pos <= toks.len()
            &&& (t.err is None ==> pos < t.pos)
        }),
    decreases toks.len() - pos, 1int,
{
    lemma_factor_bounds(toks, pos);
    let f = sp_factor(toks, pos);
    if f.err is None {
        lemma_term_rest_bounds(toks, f.pos);
    }
}

/// An expression tail stays within the tokens and never moves backwards.
pub proof fn lemma_expr_rest_bounds(toks: Seq<SpecToken>, pos: int)
    requires
        0 <= pos <= toks.len(),
    ensures
        pos <= sp_expr_rest(toks, pos).pos <= toks.len(),
    decreases toks.len() - pos, 4int,
{
    if 0 <= pos < toks.len() && (toks[pos] is Plus || toks[pos] is Minus) {
        lemma_term_bounds(toks, pos + 1);
        let t = sp_term(toks, pos + 1);
        if t.err is None {
            lemma_expr_rest_bounds(toks, t.pos);
        }
    }
}

/// An expression stays within the tokens and, on success, consumes at
/// least one.
pub proof fn lemma_expression_bounds(toks: Seq<SpecToken>, pos: int)
    requires
        0 <= pos <= toks.len(),
    ensures
        ({
            let e = sp_expression(toks, pos);
            &&& pos <= e.pos <= toks.len()
            &&& (e.err is None ==> pos < e.pos)
        }),
    decreases toks.len() - pos, 2int,
{
    lemma_term_bounds(toks, pos);
    let t = sp_term(toks, pos);
    if t.err is None {
        lemma_expr_rest_bounds(toks, t.pos);
    }
}

/// Where one executable parsing step ended.
pub struct ParseStep {
    pub pos: usize,
    pub prog: Vec<Instr>,
    pub err: Option<CalcError>,
}

impl View for ParseStep {
    type V = SpecStep;

    open spec fn view(&self) -> SpecStep {
        SpecStep {
            pos: self.pos as int,
            prog: self.prog.deep_view(),
            err: self.err.deep_view(),
        }
    }
}

/// Parses one factor starting at `pos`.
pub fn parse_factor(toks: &Vec<Token>, pos: usize) -> (r: ParseStep)
    requires
        pos <= toks@.len(),
    ensures
        r@ == sp_factor(toks.deep_view(), pos as int),
        r.pos <= toks@.len(),
    decreases toks@.len() - pos, 0int,
{
    let ghost tv = toks.deep_view();
    proof {
        lemma_factor_bounds(tv, pos as int);
    }
    if pos == toks.len() {
        let r = ParseStep {
            pos,
            prog: Vec::new(),
            err: Some(CalcError::UnexpectedEndOfExpression),
        };
        proof {
            assert(r@ =~= sp_factor(tv, pos as int));
        }
        return r;
    }
    proof {
        assert(tv[pos as int] == toks@[pos as int]@);
    }
    match &toks[pos] {
        Token::Number(lit) => {
            let text = lit.clone();
            proof {
                assert forall|k: int| 0 <= k < lit@.len() implies text@[k] == lit@[k] by {
                    assert(cloned::<char>(lit@[k], text@[k]));
                }
                assert(text@ =~= lit@);
            }
            let mut prog: Vec<Instr> = Vec::new();
            prog.push(Instr::Push(text));
            let r = ParseStep { pos: pos + 1, prog, err: None };
            proof {
                assert(r.prog.deep_view() =~= seq![SpecInstr::Push(lit@)]);
                assert(r@ =~= sp_factor(tv, pos as int));
            }
            r
        },
        Token::Minus => {
            let mut f = parse_factor(toks, pos + 1);
            if f.err.is_some() {
                proof {
                    assert(f@ == sp_factor(tv, pos as int));
                }
                return f;
            }
            let ghost a = f.prog.deep_view();
            f.prog.push(Instr::Neg);
            let r = ParseStep { pos: f.pos, prog: f.prog, err: None };
            proof {
                assert(r.prog.deep_view() =~= a.push(SpecInstr::Neg));
                assert(r@ =~= sp_factor(tv, pos as int));
            }
            r
        },
        Token::Plus => {
            let f = parse_factor(toks, pos + 1);
            proof {
                assert(f@ == sp_factor(tv, pos as int));
            }
            f
        },
        Token::LeftParen => {
            let e = parse_expression(toks, pos + 1);
            if e.err.is_some() {
                proof {
                    assert(e@ == sp_factor(tv, pos as int));
                }
                return e;
            }
            if e.pos < toks.len() && matches!(&toks[e.pos], Token::RightParen) {
                proof {
                    assert(tv[e.pos as int] == toks@[e.pos as int]@);
                }
                let r = ParseStep { pos: e.pos + 1, prog: e.prog, err: None };
                proof {
                    assert(r@ =~= sp_factor(tv, pos as int));
                }
                r
            } else {
                proof {
                    if e.pos < toks.len() {
                        assert(tv[e.pos as int] == toks@[e.pos as int]@);
                    }
                }
                let r = ParseStep {
                    pos: e.pos,
                    prog: e.prog,
                    err: Some(CalcError::MissingClosingParen),
                };
                proof {
                    assert(r@ =~= sp_factor(tv, pos as int));
                }
                r
            }
        },
        _ => {
            let r = ParseStep { pos, prog: Vec::new(), err: Some(CalcError::UnexpectedToken) };
            proof {
                assert(r@ =~= sp_factor(tv, pos as int));
            }
            r
        },
    }
}

/// Parses the `*`/`/` tail of a term, folding factors in from the left.
pub fn parse_term_rest(toks: &Vec<Token>, pos: usize) -> (r: ParseStep)
    requires
        pos <= toks@.len(),
    ensures
        r@ == sp_term_rest(toks.deep_view(), pos as int),
        r.pos <= toks@.len(),
    decreases toks@.len() - pos, 3int,
{
    let ghost tv = toks.deep_view();
    let mut prog: Vec<Instr> = Vec::new();
    let mut p: usize = pos;
    proof {
        assert(prog.deep_view() =~= Seq::<SpecInstr>::empty());
        assert(join_rest(prog.deep_view(), sp_term_rest(tv, pos as int)) =~= sp_term_rest(
            tv,
            pos as int,
        ));
    }
    loop
        invariant
            pos <= p <= toks@.len(),
            tv == toks.deep_view(),
            tv.len() == toks@.len(),
            sp_term_rest(tv, pos as int) == join_rest(prog.deep_view(), sp_term_rest(tv, p as int)),
        decreases toks@.len() - p,
    {
        if p == toks.len() {
            let r = ParseStep { pos: p, prog, err: None };
            proof {
                assert(r@ =~= join_rest(r.prog.deep_view(), sp_term_rest(tv, p as int)));
            }
            return r;
        }
        proof {
            assert(tv[p as int] == toks@[p as int]@);
        }
        let is_mul = matches!(&toks[p], Token::Multiply);
        let is_div = matches!(&toks[p], Token::Divide);
        if !(is_mul || is_div) {
            let r = ParseStep { pos: p, prog, err: None };
            proof {
                assert(r@ =~= join_rest(r.prog.deep_view(), sp_term_rest(tv, p as int)));
            }
            return r;
        }
        let ghost sop = if tv[p as int] is Multiply {
            SpecInstr::Mul
        } else {
            SpecInstr::Div
        };
        let mut f = parse_factor(toks, p + 1);
        proof {
            lemma_factor_bounds(tv, p as int + 1);
        }
        if f.err.is_some() {
            let ghost a = prog.deep_view();
            let ghost b = f.prog.deep_view();
            prog.append(&mut f.prog);
            let r = ParseStep { pos: f.pos, prog, err: f.err };
            proof {
                assert(r.prog.deep_view() =~= a + b);
                assert(r@ =~= join_rest(a, sp_term_rest(tv, p as int)));
            }
            return r;
        }
        let ghost a = prog.deep_view();
        let ghost b = f.prog.deep_view();
        prog.append(&mut f.prog);
        prog.push(if is_mul { Instr::Mul } else { Instr::Div });
        proof {
            assert(prog.deep_view() =~= a + b.push(sop));
            let rest = sp_term_rest(tv, f.pos as int);
            assert(sp_term_rest(tv, p as int) == join_rest(b.push(sop), rest));
            assert(a + (b.push(sop) + rest.prog) =~= (a + b.push(sop)) + rest.prog);
            assert(join_rest(a, sp_term_rest(tv, p as int)) =~= join_rest(
                prog.deep_view(),
                rest,
            ));
        }
        p = f.pos;
    }
}

/// Parses one term starting at `pos`.
pub fn parse_term(toks: &Vec<Token>, pos: usize) -> (r: ParseStep)
    requires
        pos <= toks@.len(),
    ensures
        r@ == sp_term(toks.deep_view(), pos as int),
        r.pos <= toks@.len(),
    decreases toks@.len() - pos, 1int,
{
    let ghost tv = toks.deep_view();
    let f = parse_factor(toks, pos);
    if f.err.is_some() {
        proof {
            assert(f@ == sp_term(tv, pos as int));
        }
        return f;
    }
    proof {
        lemma_factor_bounds(tv, pos as int);
    }
    let mut rest = parse_term_rest(toks, f.pos);
    let mut prog = f.prog;
    let ghost a = prog.deep_view();
    let ghost b = rest.prog.deep_view();
    prog.append(&mut rest.prog);
    let out = ParseStep { pos: rest.pos, prog, err: rest.err };
    proof {
        assert(out.prog.deep_view() =~= a + b);
        assert(out@ =~= sp_term(tv, pos as int));
    }
    out
}

/// Parses the `+`/`-` tail of an expression, folding terms in from the
/// left: this is what makes subtraction and division left-associative.
pub fn parse_expr_rest(toks: &Vec<Token>, pos: usize) -> (r: ParseStep)
    requires
        pos <= toks@.len(),
    ensures
        r@ == sp_expr_rest(toks.deep_view(), pos as int),
        r.pos <= toks@.len(),
    decreases toks@.len() - pos, 4int,
{
    let ghost tv = toks.deep_view();
    let mut prog: Vec<Instr> = Vec::new();
    let mut p: usize = pos;
    proof {
        assert(prog.deep_view() =~= Seq::<SpecInstr>::empty());
        assert(join_rest(prog.deep_view(), sp_expr_rest(tv, pos as int)) =~= sp_expr_rest(
            tv,
            pos as int,
        ));
    }
    loop
        invariant
            pos <= p <= toks@.len(),
            tv == toks.deep_view(),
            tv.len() == toks@.len(),
            sp_expr_rest(tv, pos as int) == join_rest(prog.deep_view(), sp_expr_rest(tv, p as int)),
        decreases toks@.len() - p,
    {
        if p == toks.len() {
            let r = ParseStep { pos: p, prog, err: None };
            proof {
                assert(r@ =~= join_rest(r.prog.deep_view(), sp_expr_rest(tv, p as int)));
            }
            return r;
        }
        proof {
            assert(tv[p as int] == toks@[p as int]@);
        }
        let is_add = matches!(&toks[p], Token::Plus);
        let is_sub = matches!(&toks[p], Token::Minus);
        if !(is_add || is_sub) {
            let r = ParseStep { pos: p, prog, err: None };
            proof {
                assert(r@ =~= join_rest(r.prog.deep_view(), sp_expr_rest(tv, p as int)));
            }
            return r;
        }
        let ghost sop = if tv[p as int] is Plus {
            SpecInstr::Add
        } else {
            SpecInstr::Sub
        };
        let mut t = parse_term(toks, p + 1);
        proof {
            lemma_term_bounds(tv, p as int + 1);
        }
        if t.err.is_some() {
            let ghost a = prog.deep_view();
            let ghost b = t.prog.deep_view();
            prog.append(&mut t.prog);
            let r = ParseStep { pos: t.pos, prog, err: t.err };
            proof {
                assert(r.prog.deep_view() =~= a + b);
                assert(r@ =~= join_rest(a, sp_expr_rest(tv, p as int)));
            }
            return r;
        }
        let ghost a = prog.deep_view();
        let ghost b = t.prog.deep_view();
        prog.append(&mut t.prog);
        prog.push(if is_add { Instr::Add } else { Instr::Sub });
        proof {
            assert(prog.deep_view() =~= a + b.push(sop));
            let rest = sp_expr_rest(tv, t.pos as int);
            assert(sp_expr_rest(tv, p as int) == join_rest(b.push(sop), rest));
            assert(a + (b.push(sop) + rest.prog) =~= (a + b.push(sop)) + rest.prog);
            assert(join_rest(a, sp_expr_rest(tv, p as int)) =~= join_rest(
                prog.deep_view(),
                rest,
            ));
        }
        p = t.pos;
    }
}

/// Parses one expression starting at `pos`.
pub fn parse_expression(toks: &Vec<Token>, pos: usize) -> (r: ParseStep)
    requires
        pos <= toks@.len(),
    ensures
        r@ == sp_expression(toks.deep_view(), pos as int),
        r.pos <= toks@.len(),
    decreases toks@.len() - pos, 2int,
{
    let ghost tv = toks.deep_view();
    let t = parse_term(toks, pos);
    if t.err.is_some() {
        proof {
            assert(t@ == sp_expression(tv, pos as int));
        }
        return t;
    }
    proof {
        lemma_term_bounds(tv, pos as int);
    }
    let mut rest = parse_expr_rest(toks, t.pos);
    let mut prog = t.prog;
    let ghost a = prog.deep_view();
    let ghost b = rest.prog.deep_view();
    prog.append(&mut rest.prog);
    let out = ParseStep { pos: rest.pos, prog, err: rest.err };
    proof {
        assert(out.prog.deep_view() =~= a + b);
        assert(out@ =~= sp_expression(tv, pos as int));
    }
    out
}

} // verus!
