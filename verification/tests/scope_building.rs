//! The scope/frame builder: duplicate rules, structure, shadowing.

use a64c::ast_statements::{
    FunctionDeclaration, Statement, Statements, VariableDeclaration, VariableType,
};
use a64c::program_data::{CompileError, ProgramData, StructuralFault};
use a64c::scope_analysis::ScopeAnalysis;
use a64c::token::{Token, TokenType};

fn at(statement_type: Statements) -> Statement {
    Statement { col: 1, line: 1, start_pos: 0, end_pos: 0, statement_type }
}

fn func(name: &str) -> Statement {
    at(Statements::FunctionDeclaration(FunctionDeclaration {
        args: vec![],
        name: String::from(name),
        return_type: VariableType::Void,
    }))
}

fn decl(name: &str, t: VariableType) -> Statement {
    at(Statements::VariableDeclaration(VariableDeclaration {
        name: String::from(name),
        variable_type: t,
        value: None,
    }))
}

#[test]
fn duplicate_variable_in_same_block_is_reported() {
    let mut pd = ProgramData::new();
    pd.statements = vec![
        func("main"),
        decl("x", VariableType::I32),
        decl("x", VariableType::I16),
        at(Statements::StackFramePop),
        at(Statements::EOF),
    ];
    let mut scope = ScopeAnalysis::new();
    assert!(scope.process_all(&mut pd).is_ok());
    assert_eq!(pd.errors.len(), 1);
    assert_eq!(pd.errors[0], CompileError::DuplicateVariableError(String::from("x")));
    // the second declaration was skipped
    assert_eq!(pd.stack_frames[0].variables.len(), 1);
    assert_eq!(pd.stack_frames[0].stack_mem_allocated, 4);
}

#[test]
fn shadowing_in_nested_child_block_is_allowed() {
    let mut pd = ProgramData::new();
    pd.statements = vec![func("main"), decl("x", VariableType::I32), at(Statements::EOF)];
    let mut scope = ScopeAnalysis::new();
    assert!(scope.process_all(&mut pd).is_ok());
    assert!(pd.errors.is_empty());
    // open a nested block and declare the same name there
    scope.create_new_scope(&mut pd);
    let shadow = VariableDeclaration {
        name: String::from("x"),
        variable_type: VariableType::I8,
        value: None,
    };
    scope.add_var_to_stack_frame(&mut pd, &shadow, 1);
    assert!(pd.errors.is_empty());
    assert_eq!(pd.stack_frames[1].variables.len(), 1);
    assert_eq!(pd.stack_frames[0].children, vec![1]);
    assert_eq!(pd.stack_frames[1].parent, 0);
}

#[test]
fn statement_outside_function_is_fatal() {
    let mut pd = ProgramData::new();
    pd.statements = vec![decl("x", VariableType::I32), at(Statements::EOF)];
    let mut scope = ScopeAnalysis::new();
    let res = scope.process_all(&mut pd);
    assert_eq!(
        res.unwrap_err(),
        CompileError::StructuralError(StructuralFault::StatementOutsideFunction)
    );
}

#[test]
fn duplicate_function_is_fatal() {
    let mut pd = ProgramData::new();
    pd.statements = vec![
        func("f"),
        at(Statements::StackFramePop),
        func("f"),
        at(Statements::StackFramePop),
        at(Statements::EOF),
    ];
    let mut scope = ScopeAnalysis::new();
    let res = scope.process_all(&mut pd);
    assert_eq!(
        res.unwrap_err(),
        CompileError::StructuralError(StructuralFault::DuplicateFunction(String::from("f")))
    );
}

#[test]
fn offsets_rise_in_declaration_order() {
    let mut pd = ProgramData::new();
    pd.statements = vec![
        func("main"),
        decl("a", VariableType::I8),
        decl("b", VariableType::I16),
        decl("c", VariableType::I32),
        at(Statements::StackFramePop),
        at(Statements::EOF),
    ];
    let mut scope = ScopeAnalysis::new();
    assert!(scope.process_all(&mut pd).is_ok());
    let frame = &pd.stack_frames[0];
    assert_eq!(frame.variables[0].1.offset, 0);
    assert_eq!(frame.variables[1].1.offset, 1);
    assert_eq!(frame.variables[2].1.offset, 3);
    assert_eq!(frame.stack_mem_allocated, 7);
    assert_eq!(pd.functions[0].name, "main");
    assert_eq!(pd.functions[0].first_stack_frame, 0);
}

#[test]
fn statement_token_positions_carry_over() {
    let token = Token {
        kind: TokenType::EOF,
        line: 3,
        col: 9,
        start_pos: 17,
        end_pos: 21,
    };
    let st = Statement::new(&token, 25, Statements::EOF);
    assert_eq!(st.line, 3);
    assert_eq!(st.col, 9);
    assert_eq!(st.start_pos, 17);
    assert_eq!(st.end_pos, 25);
}
