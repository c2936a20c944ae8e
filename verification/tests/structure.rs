//! Tests of the pieces: the lexer's tokens and the compiler's programs.

use calculator::compile::compile;
use calculator::lexer::{chars_of, remove_spaces, tokenize};
use calculator::program::Instr;
use calculator::token::{CalcError, Token};

fn chars(text: &str) -> Vec<char> {
    chars_of(text)
}

#[test]
fn chars_of_lists_the_characters() {
    assert_eq!(chars_of("1+é"), vec!['1', '+', 'é']);
    assert_eq!(chars_of(""), Vec::<char>::new());
}

#[test]
fn remove_spaces_keeps_everything_else() {
    assert_eq!(remove_spaces(&chars(" 1 + 2 ")), vec!['1', '+', '2']);
    assert_eq!(remove_spaces(&chars("   ")), Vec::<char>::new());
    assert_eq!(remove_spaces(&chars("1\t2")), vec!['1', '\t', '2']);
}

#[test]
fn tokenize_splits_numbers_and_symbols() {
    let toks = tokenize(&chars("1+20*(3.5)")).unwrap();
    assert_eq!(
        toks,
        vec![
            Token::Number(vec!['1']),
            Token::Plus,
            Token::Number(vec!['2', '0']),
            Token::Multiply,
            Token::LeftParen,
            Token::Number(vec!['3', '.', '5']),
            Token::RightParen,
        ]
    );
}

#[test]
fn tokenize_knows_every_symbol() {
    let toks = tokenize(&chars("+-*/()")).unwrap();
    assert_eq!(
        toks,
        vec![
            Token::Plus,
            Token::Minus,
            Token::Multiply,
            Token::Divide,
            Token::LeftParen,
            Token::RightParen,
        ]
    );
}

#[test]
fn tokenize_rejects_a_bad_literal_with_its_text() {
    assert_eq!(
        tokenize(&chars("1+2..3")),
        Err(CalcError::InvalidNumber(vec!['2', '.', '.', '3']))
    );
}

#[test]
fn tokenize_rejects_a_stray_character() {
    assert_eq!(tokenize(&chars("1%2")), Err(CalcError::UnexpectedCharacter('%')));
}

#[test]
fn a_sum_compiles_to_postfix() {
    let out = compile("1+2");
    assert_eq!(out.err, None);
    assert_eq!(
        out.instrs,
        vec![
            Instr::Push(vec!['1']),
            Instr::Push(vec!['2']),
            Instr::Add,
        ]
    );
}

#[test]
fn precedence_shows_in_the_program() {
    // 2+3*4: the product is computed first, then added
    let out = compile("2+3*4");
    assert_eq!(out.err, None);
    assert_eq!(
        out.instrs,
        vec![
            Instr::Push(vec!['2']),
            Instr::Push(vec!['3']),
            Instr::Push(vec!['4']),
            Instr::Mul,
            Instr::Add,
        ]
    );
}

#[test]
fn left_associativity_shows_in_the_program() {
    // 10-2-3: the first difference is taken before the second
    let out = compile("10-2-3");
    assert_eq!(out.err, None);
    assert_eq!(
        out.instrs,
        vec![
            Instr::Push(vec!['1', '0']),
            Instr::Push(vec!['2']),
            Instr::Sub,
            Instr::Push(vec!['3']),
            Instr::Sub,
        ]
    );
}

#[test]
fn unary_signs_show_in_the_program() {
    let out = compile("--5");
    assert_eq!(out.err, None);
    assert_eq!(
        out.instrs,
        vec![Instr::Push(vec!['5']), Instr::Neg, Instr::Neg]
    );
}

#[test]
fn a_failed_parse_keeps_the_work_already_done() {
    // the sum was already computed when the stray parenthesis appeared
    let out = compile("1+2)");
    assert_eq!(out.err, Some(CalcError::TrailingTokens));
    assert_eq!(
        out.instrs,
        vec![
            Instr::Push(vec!['1']),
            Instr::Push(vec!['2']),
            Instr::Add,
        ]
    );
}

#[test]
fn a_dangling_operator_keeps_its_left_operand() {
    let out = compile("1+");
    assert_eq!(out.err, Some(CalcError::UnexpectedEndOfExpression));
    assert_eq!(out.instrs, vec![Instr::Push(vec!['1'])]);
}

#[test]
fn a_lexer_error_leaves_no_program() {
    let out = compile("1+&");
    assert_eq!(out.err, Some(CalcError::UnexpectedCharacter('&')));
    assert_eq!(out.instrs, Vec::<Instr>::new());
}
