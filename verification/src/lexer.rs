//! The lexer: from characters to tokens.
//!
//! The input is scanned left to right.  A digit or `.` starts a numeric
//! run, consumed greedily; the run must hold at least one digit and at
//! most one decimal point, else it is an invalid number.  Each of
//! `+ - * / ( )` is one token; any other character is an error.

use vstd::prelude::*;
use vstd::string::StrSliceExecFns;
use crate::token::{CalcError, SpecError, SpecToken, Token};

verus! {

/// A decimal digit.
pub open spec fn is_digit(c: char) -> bool {
    48 <= c as u32 <= 57
}

/// A character that may stand inside a numeric literal.
pub open spec fn is_num_char(c: char) -> bool {
    is_digit(c) || c == '.'
}

/// Where the numeric run that starts at `pos` ends: the first position at
/// or after `pos` that does not hold a digit or `.`.
pub open spec fn num_end(s: Seq<char>, pos: int) -> int
    decreases s.len() - pos,
{
    if pos < s.len() && is_num_char(s[pos]) {
        num_end(s, pos + 1)
    } else {
        pos
    }
}

pub proof fn lemma_num_end(s: Seq<char>, pos: int)
    requires
        pos <= s.len(),
    ensures
        pos <= num_end(s, pos) <= s.len(),
        pos < s.len() && is_num_char(s[pos]) ==> num_end(s, pos) >= pos + 1,
    decreases s.len() - pos,
{
    if pos < s.len() && is_num_char(s[pos]) {
        lemma_num_end(s, pos + 1);
    }
}

/// How many digits `s` holds.
pub open spec fn digit_count(s: Seq<char>) -> int
    decreases s.len(),
{
    if s.len() == 0 {
        0
    } else {
        digit_count(s.drop_last()) + if is_digit(s.last()) {
            1int
        } else {
            0int
        }
    }
}

/// How many decimal points `s` holds.
pub open spec fn dot_count(s: Seq<char>) -> int
    decreases s.len(),
{
    if s.len() == 0 {
        0
    } else {
        dot_count(s.drop_last()) + if s.last() == '.' {
            1int
        } else {
            0int
        }
    }
}

/// What makes a run of digits and `.` a number: at least one digit and at
/// most one decimal point.  For strings over this alphabet that is exactly
/// the documented grammar of Rust's float parsing,
/// `Digit+ ('.' Digit*)? | '.' Digit+`, so a literal passes here if and
/// only if the embedding can read a numeric value out of it.
pub open spec fn valid_number(s: Seq<char>) -> bool {
    digit_count(s) >= 1 && dot_count(s) <= 1
}

/// A token placed before the outcome of lexing the rest.
pub open spec fn cons_tok(
    t: SpecToken,
    rest: Result<Seq<SpecToken>, SpecError>,
) -> Result<Seq<SpecToken>, SpecError> {
    match rest {
        Ok(ts) => Ok(seq![t] + ts),
        Err(e) => Err(e),
    }
}

/// The tokens of `s` from `pos` on, or the first lexical error.
pub open spec fn spec_tokenize(s: Seq<char>, pos: int) -> Result<Seq<SpecToken>, SpecError>
    decreases s.len() - pos,
        via spec_tokenize_dec
{
    if pos < 0 || pos >= s.len() {
        Ok(Seq::empty())
    } else {
        let c = s[pos];
        if is_num_char(c) {
            let lit = s.subrange(pos, num_end(s, pos));
            if !valid_number(lit) {
                Err(SpecError::InvalidNumber(lit))
            } else {
                cons_tok(SpecToken::Number(lit), spec_tokenize(s, num_end(s, pos)))
            }
        } else if c == '+' {
            cons_tok(SpecToken::Plus, spec_tokenize(s, pos + 1))
        } else if c == '-' {
            cons_tok(SpecToken::Minus, spec_tokenize(s, pos + 1))
        } else if c == '*' {
            cons_tok(SpecToken::Multiply, spec_tokenize(s, pos + 1))
        } else if c == '/' {
            cons_tok(SpecToken::Divide, spec_tokenize(s, pos + 1))
        } else if c == '(' {
            cons_tok(SpecToken::LeftParen, spec_tokenize(s, pos + 1))
        } else if c == ')' {
            cons_tok(SpecToken::RightParen, spec_tokenize(s, pos + 1))
        } else {
            Err(SpecError::UnexpectedCharacter(c))
        }
    }
}

#[via_fn]
proof fn spec_tokenize_dec(s: Seq<char>, pos: int) {
    if 0 <= pos < s.len() && is_num_char(s[pos]) {
        lemma_num_end(s, pos);
    }
}

/// `s` with every space removed, order kept.
pub open spec fn strip_spaces(s: Seq<char>) -> Seq<char>
    decreases s.len(),
{
    if s.len() == 0 {
        Seq::empty()
    } else if s[0] == ' ' {
        strip_spaces(s.drop_first())
    } else {
        seq![s[0]] + strip_spaces(s.drop_first())
    }
}

/// The characters of `s`, in order.
pub fn chars_of(s: &str) -> (r: Vec<char>)
    ensures
        r@ == s@,
{
    let n = s.unicode_len();
    let mut r: Vec<char> = Vec::new();
    let mut i: usize = 0;
    while i < n
        invariant
            i <= n,
            n == s@.len(),
            r@ == s@.subrange(0, i as int),
        decreases n - i,
    {
        let c = s.get_char(i);
        r.push(c);
        proof {
            assert(r@ =~= s@.subrange(0, i as int + 1));
        }
        i += 1;
    }
    proof {
        assert(s@.subrange(0, n as int) =~= s@);
    }
    r
}

/// `s` with every space removed, order kept.
pub fn remove_spaces(s: &Vec<char>) -> (r: Vec<char>)
    ensures
        r@ == strip_spaces(s@),
{
    let mut r: Vec<char> = Vec::new();
    let mut i: usize = 0;
    proof {
        assert(s@.skip(0) =~= s@);
    }
    while i < s.len()
        invariant
            i <= s@.len(),
            strip_spaces(s@) == r@ + strip_spaces(s@.skip(i as int)),
        decreases s@.len() - i,
    {
        let ghost tail = s@.skip(i as int);
        proof {
            assert(tail[0] == s@[i as int]);
            assert(tail.drop_first() =~= s@.skip(i as int + 1));
        }
        let c = s[i];
        if c != ' ' {
            let ghost prefix = r@;
            r.push(c);
            proof {
                assert(prefix + (seq![c] + strip_spaces(s@.skip(i as int + 1)))
                    =~= r@ + strip_spaces(s@.skip(i as int + 1)));
            }
        }
        i += 1;
    }
    proof {
        assert(s@.skip(s@.len() as int) =~= Seq::<char>::empty());
        assert(r@ + strip_spaces(Seq::<char>::empty()) =~= r@);
    }
    r
}

/// The result of the lexer, seen mathematically.
pub open spec fn lex_view(r: Result<Vec<Token>, CalcError>) -> Result<Seq<SpecToken>, SpecError> {
    match r {
        Ok(toks) => Ok(toks.deep_view()),
        Err(e) => Err(e@),
    }
}

/// A digit or `.`, decided in code.
fn num_char(c: char) -> (b: bool)
    ensures
        b == is_num_char(c),
{
    let u = c as u32;
    (48 <= u && u <= 57) || c == '.'
}

/// Tokens already produced, placed before the outcome of the rest.
pub open spec fn lex_join(
    prefix: Seq<SpecToken>,
    r: Result<Seq<SpecToken>, SpecError>,
) -> Result<Seq<SpecToken>, SpecError> {
    match r {
        Ok(rest) => Ok(prefix + rest),
        Err(e) => Err(e),
    }
}

proof fn lemma_lex_step(
    prefix: Seq<SpecToken>,
    t: SpecToken,
    rest: Result<Seq<SpecToken>, SpecError>,
    total: Result<Seq<SpecToken>, SpecError>,
)
    requires
        lex_join(prefix, cons_tok(t, rest)) == total,
    ensures
        lex_join(prefix.push(t), rest) == total,
{
    match rest {
        Ok(ts) => {
            assert(prefix + (seq![t] + ts) =~= prefix.push(t) + ts);
        },
        Err(_) => {},
    }
}

/// Turns a space-free string of characters into tokens, scanning left to
/// right, or reports the first lexical error.
pub fn tokenize(s: &Vec<char>) -> (r: Result<Vec<Token>, CalcError>)
    ensures
        lex_view(r) == spec_tokenize(s@, 0),
{
    let mut toks: Vec<Token> = Vec::new();
    let mut i: usize = 0;
    proof {
        assert(lex_join(toks.deep_view(), spec_tokenize(s@, 0)) == spec_tokenize(s@, 0)) by {
            match spec_tokenize(s@, 0) {
                Ok(rest) => {
                    assert(toks.deep_view() + rest =~= rest);
                },
                Err(_) => {},
            }
        }
    }
    while i < s.len()
        invariant
            i <= s@.len(),
            lex_join(toks.deep_view(), spec_tokenize(s@, i as int)) == spec_tokenize(s@, 0),
        decreases s@.len() - i,
    {
        let c = s[i];
        let ghost prefix = toks.deep_view();
        if num_char(c) {
            // scan the numeric run
            let mut j: usize = i;
            while j < s.len() && num_char(s[j])
                invariant
                    i <= j <= s@.len(),
                    num_end(s@, i as int) == num_end(s@, j as int),
                decreases s@.len() - j,
            {
                proof {
                    assert(num_end(s@, j as int) == num_end(s@, j as int + 1));
                }
                j += 1;
            }
            proof {
                assert(num_end(s@, j as int) == j as int);
                lemma_num_end(s@, i as int);
            }
            // copy the run out
            let mut lit: Vec<char> = Vec::new();
            let mut k: usize = i;
            while k < j
                invariant
                    i <= k <= j <= s@.len(),
                    lit@ == s@.subrange(i as int, k as int),
                decreases j - k,
            {
                lit.push(s[k]);
                proof {
                    assert(lit@ =~= s@.subrange(i as int, k as int + 1));
                }
                k += 1;
            }
            // count its digits and decimal points
            let mut digits: usize = 0;
            let mut dots: usize = 0;
            let mut m: usize = 0;
            while m < lit.len()
                invariant
                    m <= lit@.len(),
                    digits <= m,
                    dots <= m,
                    digit_count(lit@.subrange(0, m as int)) == digits as int,
                    dot_count(lit@.subrange(0, m as int)) == dots as int,
                decreases lit@.len() - m,
            {
                let ghost longer = lit@.subrange(0, m as int + 1);
                proof {
                    assert(longer.drop_last() =~= lit@.subrange(0, m as int));
                    assert(longer.last() == lit@[m as int]);
                }
                let cm = lit[m];
                let um = cm as u32;
                if 48 <= um && um <= 57 {
                    digits += 1;
                } else if cm == '.' {
                    dots += 1;
                }
                m += 1;
            }
            proof {
                assert(lit@.subrange(0, lit@.len() as int) =~= lit@);
            }
            let ghost run = s@.subrange(i as int, num_end(s@, i as int));
            proof {
                assert(run == lit@);
            }
            if digits >= 1 && dots <= 1 {
                proof {
                    assert(spec_tokenize(s@, i as int)
                        == cons_tok(SpecToken::Number(run), spec_tokenize(s@, num_end(s@, i as int))));
                    lemma_lex_step(
                        prefix,
                        SpecToken::Number(run),
                        spec_tokenize(s@, j as int),
                        spec_tokenize(s@, 0),
                    );
                }
                toks.push(Token::Number(lit));
                proof {
                    assert(toks.deep_view() =~= prefix.push(SpecToken::Number(run)));
                }
                i = j;
            } else {
                proof {
                    assert(spec_tokenize(s@, i as int) == Err::<Seq<SpecToken>, SpecError>(
                        SpecError::InvalidNumber(run),
                    ));
                }
                return Err(CalcError::InvalidNumber(lit));
            }
        } else {
            let tok: Token;
            let ghost spec_tok: SpecToken;
            if c == '+' {
                tok = Token::Plus;
                proof { spec_tok = SpecToken::Plus; }
            } else if c == '-' {
                tok = Token::Minus;
                proof { spec_tok = SpecToken::Minus; }
            } else if c == '*' {
                tok = Token::Multiply;
                proof { spec_tok = SpecToken::Multiply; }
            } else if c == '/' {
                tok = Token::Divide;
                proof { spec_tok = SpecToken::Divide; }
            } else if c == '(' {
                tok = Token::LeftParen;
                proof { spec_tok = SpecToken::LeftParen; }
            } else if c == ')' {
                tok = Token::RightParen;
                proof { spec_tok = SpecToken::RightParen; }
            } else {
                proof {
                    assert(spec_tokenize(s@, i as int) == Err::<Seq<SpecToken>, SpecError>(
                        SpecError::UnexpectedCharacter(c),
                    ));
                }
                return Err(CalcError::UnexpectedCharacter(c));
            }
            proof {
                assert(tok@ == spec_tok);
                assert(spec_tokenize(s@, i as int)
                    == cons_tok(spec_tok, spec_tokenize(s@, i as int + 1)));
                lemma_lex_step(prefix, spec_tok, spec_tokenize(s@, i as int + 1), spec_tokenize(s@, 0));
            }
            toks.push(tok);
            proof {
                assert(toks.deep_view() =~= prefix.push(spec_tok));
            }
            i += 1;
        }
    }
    proof {
        assert(spec_tokenize(s@, s@.len() as int) == Ok::<Seq<SpecToken>, SpecError>(Seq::empty()));
        assert(toks.deep_view() + Seq::<SpecToken>::empty() =~= toks.deep_view());
    }
    Ok(toks)
}

} // verus!
