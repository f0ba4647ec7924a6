//! Template expansion of `asm(format(..))`.

use a64c::ast_statements::{Format, Literal};
use a64c::program_data::{CompileError, TypeFault};
use a64c::token::{Token, TokenType};

fn number_token(n: i32) -> Token {
    Token { kind: TokenType::Literal(Literal::Number(n)), line: 1, col: 1, start_pos: 0, end_pos: 0 }
}

fn string_token(s: &str) -> Token {
    Token {
        kind: TokenType::Literal(Literal::String(String::from(s))),
        line: 1,
        col: 1,
        start_pos: 0,
        end_pos: 0,
    }
}

#[test]
fn expands_i32_placeholder() {
    let format = Format { string: String::from("mov x0, {i32}"), args_provided: vec![number_token(5)] };
    assert_eq!(format.parse().unwrap(), "mov x0, 5");
}

#[test]
fn expands_between_text() {
    let format = Format {
        string: String::from("add x0, x0, #{i32} // {i32} twice"),
        args_provided: vec![number_token(42), number_token(-7)],
    };
    assert_eq!(format.parse().unwrap(), "add x0, x0, #42 // -7 twice");
}

#[test]
fn leftover_text_is_kept_verbatim() {
    let format = Format { string: String::from("mov x1, {i32} ; done"), args_provided: vec![number_token(3)] };
    assert_eq!(format.parse().unwrap(), "mov x1, 3 ; done");
}

#[test]
fn no_arguments_keeps_template() {
    let format = Format { string: String::from("ret"), args_provided: vec![] };
    assert_eq!(format.parse().unwrap(), "ret");
}

#[test]
fn mismatched_placeholder_kind_fails() {
    let format = Format {
        string: String::from("mov x0, {i32}"),
        args_provided: vec![string_token("oops")],
    };
    assert_eq!(format.parse().unwrap_err(), CompileError::TypeError(TypeFault::TemplateMismatch));
}

#[test]
fn wrong_placeholder_type_fails() {
    let format = Format { string: String::from("mov x0, {i16}"), args_provided: vec![number_token(5)] };
    assert!(format.parse().is_err());
}

#[test]
fn template_too_short_fails() {
    let format = Format { string: String::from("mov"), args_provided: vec![number_token(5)] };
    assert!(format.parse().is_err());
}

#[test]
fn unterminated_placeholder_fails() {
    let format = Format { string: String::from("mov x0, {i32"), args_provided: vec![number_token(5)] };
    assert!(format.parse().is_err());
}
