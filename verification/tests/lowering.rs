//! The semantic analyzer: type rules, arity, callee checks.

use a64c::ast_statements::{
    BranchLinkedAst, BuiltInFunctionsAst, CgBuiltInFunctions, CgStatementType, Expression,
    FunctionArg, FunctionDeclaration, Literal, MemoryLocationsAst, Statement, Statements,
    VariableDeclaration, VariableType,
};
use a64c::compiler::build;
use a64c::program_data::{CompileError, ReferenceFault};
use a64c::semantic_analysis::SemanticAnaytis;
use a64c::token::Identifiers;

fn at(statement_type: Statements) -> Statement {
    Statement { col: 1, line: 1, start_pos: 0, end_pos: 0, statement_type }
}

fn func(name: &str, args: Vec<FunctionArg>) -> Statement {
    at(Statements::FunctionDeclaration(FunctionDeclaration {
        args,
        name: String::from(name),
        return_type: VariableType::Void,
    }))
}

fn init(name: &str, t: VariableType, n: i32) -> Statement {
    at(Statements::VariableDeclaration(VariableDeclaration {
        name: String::from(name),
        variable_type: t,
        value: Some(Expression::Literal(Literal::Number(n))),
    }))
}

fn call(name: &str, args: Vec<Expression>) -> Statement {
    at(Statements::Expression(Expression::BuiltInFunction(BuiltInFunctionsAst::BranchLinked(
        BranchLinkedAst { args, function_name: String::from(name) },
    ))))
}

#[test]
fn out_of_range_i8_literal_is_accepted() {
    // numeric-literal compatibility is type-tag-only: no range check
    let (pd, res) = build(vec![
        func("main", vec![]),
        init("tiny", VariableType::I8, 200),
        at(Statements::StackFramePop),
        at(Statements::EOF),
    ]);
    assert!(res.is_ok());
    assert!(pd.errors.is_empty());
    assert_eq!(pd.stack_frames[0].cg_statements.len(), 1);
}

#[test]
fn unknown_callee_is_fatal() {
    let (_pd, res) = build(vec![
        func("main", vec![]),
        call("missing", vec![]),
        at(Statements::StackFramePop),
        at(Statements::EOF),
    ]);
    assert_eq!(
        res.unwrap_err(),
        CompileError::ReferenceError(ReferenceFault::UnknownCallee(String::from("missing")))
    );
}

#[test]
fn arity_mismatch_is_recoverable_and_emits_no_call() {
    let (pd, res) = build(vec![
        func("main", vec![]),
        call("main", vec![Expression::Literal(Literal::Number(1))]),
        at(Statements::StackFramePop),
        at(Statements::EOF),
    ]);
    assert!(res.is_ok());
    assert_eq!(pd.errors, vec![CompileError::ArityMismatchError(String::from("main"))]);
    // the offending call was skipped: nothing was lowered
    assert!(pd.stack_frames[0].cg_statements.is_empty());
}

#[test]
fn string_initializer_is_a_type_error() {
    let (pd, res) = build(vec![
        func("main", vec![]),
        at(Statements::VariableDeclaration(VariableDeclaration {
            name: String::from("x"),
            variable_type: VariableType::I32,
            value: Some(Expression::Literal(Literal::String(String::from("text")))),
        })),
        at(Statements::StackFramePop),
        at(Statements::EOF),
    ]);
    assert!(res.is_ok());
    assert_eq!(pd.errors.len(), 1);
    assert!(matches!(pd.errors[0], CompileError::TypeError(_)));
}

#[test]
fn unknown_identifier_initializer_is_recoverable() {
    let (pd, res) = build(vec![
        func("main", vec![]),
        at(Statements::VariableDeclaration(VariableDeclaration {
            name: String::from("x"),
            variable_type: VariableType::I32,
            value: Some(Expression::Identifier(Identifiers::Identifier(String::from("ghostly")))),
        })),
        at(Statements::StackFramePop),
        at(Statements::EOF),
    ]);
    assert!(res.is_ok());
    assert_eq!(
        pd.errors,
        vec![CompileError::ReferenceError(ReferenceFault::UnknownVariable(String::from("ghostly")))]
    );
}

#[test]
fn identifier_argument_must_match_parameter_type_exactly() {
    // an i16 variable passed where i32 is declared: no implicit widening
    let callee_args = vec![FunctionArg {
        arg_var_type: VariableType::I32,
        arg_name: String::from("p"),
        memory_location: MemoryLocationsAst::Register(String::from("x0")),
    }];
    let (pd, res) = build(vec![
        func("callee", callee_args),
        at(Statements::StackFramePop),
        func("main", vec![]),
        init("narrow", VariableType::I16, 1),
        call("callee", vec![Expression::Identifier(Identifiers::Identifier(String::from(
            "narrow",
        )))]),
        at(Statements::StackFramePop),
        at(Statements::EOF),
    ]);
    assert!(res.is_ok());
    assert_eq!(pd.errors.len(), 1);
    assert!(matches!(pd.errors[0], CompileError::TypeError(_)));
}

#[test]
fn literal_argument_fits_any_integer_width() {
    let callee_args = vec![FunctionArg {
        arg_var_type: VariableType::I8,
        arg_name: String::from("p"),
        memory_location: MemoryLocationsAst::Register(String::from("x0")),
    }];
    let (pd, res) = build(vec![
        func("callee", callee_args),
        at(Statements::StackFramePop),
        func("main", vec![]),
        call("callee", vec![Expression::Literal(Literal::Number(300))]),
        at(Statements::StackFramePop),
        at(Statements::EOF),
    ]);
    assert!(res.is_ok());
    assert!(pd.errors.is_empty());
    let cg = &pd.stack_frames[1].cg_statements;
    assert_eq!(cg.len(), 1);
    assert!(matches!(
        cg[0].statement_type,
        CgStatementType::BuiltInFunction(CgBuiltInFunctions::BranchLinked(_))
    ));
}

#[test]
fn assembly_escape_is_lowered_verbatim() {
    let (pd, res) = build(vec![
        func("main", vec![]),
        at(Statements::Expression(Expression::BuiltInFunction(BuiltInFunctionsAst::Assembly(
            Box::new(Expression::Literal(Literal::String(String::from("nop\n")))),
        )))),
        at(Statements::StackFramePop),
        at(Statements::EOF),
    ]);
    assert!(res.is_ok());
    assert!(pd.errors.is_empty());
    match &pd.stack_frames[0].cg_statements[0].statement_type {
        CgStatementType::BuiltInFunction(CgBuiltInFunctions::Assembly(text)) => {
            assert_eq!(text, "nop\n");
        },
        other => panic!("unexpected lowering: {:?}", other),
    }
}

#[test]
fn assembly_with_a_number_body_is_a_diagnostic() {
    let (pd, res) = build(vec![
        func("main", vec![]),
        at(Statements::Expression(Expression::BuiltInFunction(BuiltInFunctionsAst::Assembly(
            Box::new(Expression::Literal(Literal::Number(5))),
        )))),
        at(Statements::StackFramePop),
        at(Statements::EOF),
    ]);
    assert!(res.is_ok());
    assert_eq!(pd.errors.len(), 1);
    assert!(matches!(pd.errors[0], CompileError::TypeError(_)));
    assert!(pd.stack_frames[0].cg_statements.is_empty());
}

#[test]
fn expressions_lower_to_codegen_values() {
    let (pd, res) = build(vec![
        func("main", vec![]),
        init("x", VariableType::I32, 3),
        at(Statements::StackFramePop),
        at(Statements::EOF),
    ]);
    assert!(res.is_ok());
    let sem = SemanticAnaytis::new();
    let lit = sem.expression_to_cg(&pd, 0, &Expression::Literal(Literal::Number(9)));
    assert!(matches!(
        lit,
        Some(a64c::ast_statements::CgExpression::Literal(Literal::Number(9)))
    ));
    let known = sem.expression_to_cg(
        &pd,
        0,
        &Expression::Identifier(Identifiers::Identifier(String::from("x"))),
    );
    assert!(matches!(
        known,
        Some(a64c::ast_statements::CgExpression::StackVariableIdentifier(_))
    ));
    let unknown = sem.expression_to_cg(
        &pd,
        0,
        &Expression::Identifier(Identifiers::Identifier(String::from("y"))),
    );
    assert!(unknown.is_none());
    let var = sem.borrow_stack_variable_with_sf_index(&pd, 0, "x").unwrap();
    assert_eq!(var.variable_type, VariableType::I32);
    assert_eq!(var.offset, 0);
    assert_eq!(var.variable_size, 4);
}
