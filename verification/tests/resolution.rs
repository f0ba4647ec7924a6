//! Cross-scope symbol resolution through the parent chain.

use a64c::ast_statements::{
    FunctionDeclaration, Statement, Statements, VariableDeclaration, VariableType,
};
use a64c::program_data::ProgramData;
use a64c::scope_analysis::ScopeAnalysis;

fn at(statement_type: Statements) -> Statement {
    Statement { col: 1, line: 1, start_pos: 0, end_pos: 0, statement_type }
}

fn decl(name: &str, t: VariableType) -> VariableDeclaration {
    VariableDeclaration { name: String::from(name), variable_type: t, value: None }
}

/// Three nested blocks: resolving the outermost variable from the innermost
/// block sums each traversed frame's `(bytes_allocated + 16)` and adds the
/// variable's own in-frame offset.
#[test]
fn resolution_walks_the_parent_chain() {
    let mut pd = ProgramData::new();
    pd.statements = vec![
        at(Statements::FunctionDeclaration(FunctionDeclaration {
            args: vec![],
            name: String::from("main"),
            return_type: VariableType::Void,
        })),
        at(Statements::EOF),
    ];
    let mut scope = ScopeAnalysis::new();
    assert!(scope.process_all(&mut pd).is_ok());
    // root frame: pad (offset 0, 4 bytes), outer (offset 4, 4 bytes)
    scope.add_var_to_stack_frame(&mut pd, &decl("pad", VariableType::I32), 0);
    scope.add_var_to_stack_frame(&mut pd, &decl("outer", VariableType::I32), 0);
    // middle block: 2 bytes
    scope.create_new_scope(&mut pd);
    scope.add_var_to_stack_frame(&mut pd, &decl("mid", VariableType::I16), 0);
    // innermost block: 1 byte
    scope.create_new_scope(&mut pd);
    scope.add_var_to_stack_frame(&mut pd, &decl("inner", VariableType::I8), 0);

    // from the innermost frame (index 2): (1 + 16) + (2 + 16) + offset 4
    assert_eq!(pd.resolve_variable(2, "outer"), Some(17 + 18 + 4));
    // a hit in the frame itself is the plain in-frame offset
    assert_eq!(pd.resolve_variable(2, "inner"), Some(0));
    // one hop for the middle frame's variable
    assert_eq!(pd.resolve_variable(2, "mid"), Some(17 + 0));
    // an unknown name exhausts the chain
    assert_eq!(pd.resolve_variable(2, "nowhere"), None);
    // total chain distance to the outermost frame
    assert_eq!(pd.frame_chain_distance(2), 17 + 18 + 24);
}

#[test]
fn resolution_stops_at_the_defining_frame() {
    let mut pd = ProgramData::new();
    pd.statements = vec![
        at(Statements::FunctionDeclaration(FunctionDeclaration {
            args: vec![],
            name: String::from("main"),
            return_type: VariableType::Void,
        })),
        at(Statements::EOF),
    ];
    let mut scope = ScopeAnalysis::new();
    assert!(scope.process_all(&mut pd).is_ok());
    scope.add_var_to_stack_frame(&mut pd, &decl("x", VariableType::I32), 0);
    scope.create_new_scope(&mut pd);
    // shadowing: the inner declaration wins from the inner frame
    scope.add_var_to_stack_frame(&mut pd, &decl("x", VariableType::I8), 0);
    assert_eq!(pd.resolve_variable(1, "x"), Some(0));
    assert_eq!(pd.resolve_variable(0, "x"), Some(0));
}
