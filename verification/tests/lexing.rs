//! The tokenizer and parser, and text-to-assembly compilation.

use a64c::ast_statements::{Literal, Statements, VariableType};
use a64c::compiler::{build, generate};
use a64c::parser::Parser;
use a64c::program_data::ProgramData;
use a64c::token::{BuiltInFunctions, Identifiers, Keywords, Operators, Punctuations, TokenType};
use a64c::tokenizer::Tokenizer;

fn tokenize(source: &str) -> ProgramData {
    let mut pd = ProgramData::new();
    pd.source_code = String::from(source);
    let mut tokenizer = Tokenizer::new();
    tokenizer.tokenize_all(&mut pd);
    pd
}

#[test]
fn declaration_tokens() {
    let pd = tokenize("i32 counter = -12 ;");
    let kinds: Vec<&TokenType> = pd.tokens.iter().map(|t| &t.kind).collect();
    assert_eq!(kinds.len(), 6);
    assert_eq!(*kinds[0], TokenType::Keyword(Keywords::VariableType(VariableType::I32)));
    assert_eq!(
        *kinds[1],
        TokenType::Identifiers(Identifiers::Identifier(String::from("counter")))
    );
    assert_eq!(*kinds[2], TokenType::Operator(Operators::Assignment));
    assert_eq!(*kinds[3], TokenType::Literal(Literal::Number(-12)));
    assert_eq!(*kinds[4], TokenType::Punctuation(Punctuations::Semicolon));
    assert_eq!(*kinds[5], TokenType::EOF);
}

#[test]
fn keywords_and_punctuation() {
    let pd = tokenize("void : main ( ) { bl asm format } ,");
    let kinds: Vec<&TokenType> = pd.tokens.iter().map(|t| &t.kind).collect();
    assert_eq!(*kinds[0], TokenType::Keyword(Keywords::VariableType(VariableType::Void)));
    assert_eq!(*kinds[1], TokenType::Punctuation(Punctuations::Colon));
    assert_eq!(*kinds[2], TokenType::Identifiers(Identifiers::Identifier(String::from("main"))));
    assert_eq!(*kinds[3], TokenType::Punctuation(Punctuations::OpenParenthesis));
    assert_eq!(*kinds[4], TokenType::Punctuation(Punctuations::ClosedParenthesis));
    assert_eq!(*kinds[5], TokenType::Punctuation(Punctuations::OpenBraces));
    assert_eq!(*kinds[6], TokenType::BuiltInFunctions(BuiltInFunctions::BranchLinked));
    assert_eq!(*kinds[7], TokenType::BuiltInFunctions(BuiltInFunctions::Assembly));
    assert_eq!(*kinds[8], TokenType::BuiltInFunctions(BuiltInFunctions::Format));
    assert_eq!(*kinds[9], TokenType::Punctuation(Punctuations::ClosedBraces));
    assert_eq!(*kinds[10], TokenType::Punctuation(Punctuations::Comma));
    assert_eq!(*kinds[11], TokenType::EOF);
}

#[test]
fn string_literals_and_comments() {
    let pd = tokenize("// a note // asm ( \"mov x0, x1\" ) ;");
    let kinds: Vec<&TokenType> = pd.tokens.iter().map(|t| &t.kind).collect();
    assert_eq!(*kinds[0], TokenType::BuiltInFunctions(BuiltInFunctions::Assembly));
    assert_eq!(*kinds[1], TokenType::Punctuation(Punctuations::OpenParenthesis));
    assert_eq!(*kinds[2], TokenType::Literal(Literal::String(String::from("mov x0, x1"))));
    assert_eq!(*kinds[3], TokenType::Punctuation(Punctuations::ClosedParenthesis));
}

#[test]
fn numbers_out_of_range_fall_back_to_identifiers() {
    let pd = tokenize("2147483647 99999999999");
    assert_eq!(pd.tokens[0].kind, TokenType::Literal(Literal::Number(2147483647)));
    assert_eq!(
        pd.tokens[1].kind,
        TokenType::Identifiers(Identifiers::Identifier(String::from("99999999999")))
    );
}

#[test]
fn line_and_column_positions_advance() {
    let pd = tokenize("i8 x ;\ni8 y ;");
    // the second declaration's keyword sits on line 2
    let second_decl = &pd.tokens[3];
    assert_eq!(second_decl.kind, TokenType::Keyword(Keywords::VariableType(VariableType::I8)));
    assert_eq!(second_decl.line, 2);
}

#[test]
fn parser_builds_the_statement_stream() {
    let mut pd = tokenize("void : main ( ) { i32 x = 5 ; } ");
    let mut parser = Parser::new();
    assert!(parser.parse_all(&mut pd).is_ok());
    let kinds: Vec<&Statements> = pd.statements.iter().map(|s| &s.statement_type).collect();
    assert!(matches!(kinds[0], Statements::FunctionDeclaration(fd) if fd.name == "main"));
    assert!(
        matches!(kinds[1], Statements::VariableDeclaration(vd) if vd.name == "x"
            && vd.variable_type == VariableType::I32)
    );
    assert!(matches!(kinds[2], Statements::StackFramePop));
    assert!(matches!(kinds[3], Statements::EOF));
}

#[test]
fn text_compiles_to_assembly() {
    let mut pd = tokenize("void : main ( ) { i32 x = 5 ; asm ( \"nop\n\" ) ; } ");
    let mut parser = Parser::new();
    assert!(parser.parse_all(&mut pd).is_ok());
    let (mut built, res) = build(std::mem::take(&mut pd.statements));
    assert!(res.is_ok());
    assert!(built.errors.is_empty());
    let text = generate(&mut built).unwrap();
    assert_eq!(
        text,
        "_main:\nstp x29, x30, [sp, #-16]!\nmov x29, sp\nsub sp, sp, #16\nmov w10, 5\nstr w10, [x29, #-12]\nnop\nadd sp, sp, #16\nldp x29, x30, [sp], #16\nret\n"
    );
}

#[test]
fn asm_format_parses_and_expands() {
    let mut pd = tokenize("void : main ( ) { asm ( format ( \"mov x0, {i32}\" , 5 ) ) ; } ");
    let mut parser = Parser::new();
    assert!(parser.parse_all(&mut pd).is_ok());
    let (mut built, res) = build(std::mem::take(&mut pd.statements));
    assert!(res.is_ok(), "diagnostics: {:?}", built.errors);
    assert!(built.errors.is_empty());
    let text = generate(&mut built).unwrap();
    assert_eq!(
        text,
        "_main:\nstp x29, x30, [sp, #-16]!\nmov x29, sp\nmov x0, 5ldp x29, x30, [sp], #16\nret\n"
    );
}

#[test]
fn mismatched_template_is_a_diagnostic() {
    let mut pd = tokenize("void : main ( ) { asm ( format ( \"mov x0, {i32}\" , oops ) ) ; } ");
    let mut parser = Parser::new();
    assert!(parser.parse_all(&mut pd).is_ok());
    let (built, res) = build(std::mem::take(&mut pd.statements));
    assert!(res.is_ok());
    assert_eq!(built.errors.len(), 1);
}

#[test]
fn most_negative_literal_falls_back_to_an_identifier() {
    // the magnitude cap is i32::MAX, so this spelling stays an identifier
    let pd = tokenize("-2147483648 -2147483647");
    assert_eq!(
        pd.tokens[0].kind,
        TokenType::Identifiers(Identifiers::Identifier(String::from("-2147483648")))
    );
    assert_eq!(pd.tokens[1].kind, TokenType::Literal(Literal::Number(-2147483647)));
}
