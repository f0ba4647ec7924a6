//! End-to-end compilation: argument placement, copies, call marshalling.

use a64c::ast_statements::{
    BranchLinkedAst, BuiltInFunctionsAst, Expression, FunctionArg, FunctionDeclaration, Literal,
    MemoryLocationsAst, Statement, Statements, VariableDeclaration, VariableType,
};
use a64c::code_generator::CodeGenerator;
use a64c::compiler::{build, generate};
use a64c::program_data::ProgramData;
use a64c::scope_analysis::ScopeAnalysis;
use a64c::semantic_analysis::SemanticAnaytis;
use a64c::token::Identifiers;

fn at(statement_type: Statements) -> Statement {
    Statement { col: 1, line: 1, start_pos: 0, end_pos: 0, statement_type }
}

/// `i32: add(i32 a: [stack(0)], i32 b: [register(x1)]) { i32 c = a; bl(add, c, 1); }`
#[test]
fn stack_and_register_arguments_are_placed() {
    let args = vec![
        FunctionArg {
            arg_var_type: VariableType::I32,
            arg_name: String::from("a"),
            memory_location: MemoryLocationsAst::Stack(0),
        },
        FunctionArg {
            arg_var_type: VariableType::I32,
            arg_name: String::from("b"),
            memory_location: MemoryLocationsAst::Register(String::from("x1")),
        },
    ];
    let (mut pd, res) = build(vec![
        at(Statements::FunctionDeclaration(FunctionDeclaration {
            args,
            name: String::from("add"),
            return_type: VariableType::I32,
        })),
        at(Statements::VariableDeclaration(VariableDeclaration {
            name: String::from("c"),
            variable_type: VariableType::I32,
            value: Some(Expression::Identifier(Identifiers::Identifier(String::from("a")))),
        })),
        at(Statements::Expression(Expression::BuiltInFunction(
            BuiltInFunctionsAst::BranchLinked(BranchLinkedAst {
                args: vec![
                    Expression::Identifier(Identifiers::Identifier(String::from("c"))),
                    Expression::Literal(Literal::Number(1)),
                ],
                function_name: String::from("add"),
            }),
        ))),
        at(Statements::StackFramePop),
        at(Statements::EOF),
    ]);
    assert!(res.is_ok());
    assert!(pd.errors.is_empty());
    let text = generate(&mut pd).unwrap();
    let mut expected = String::new();
    expected.push_str("_add:\n");
    // prologue: 4 local bytes round to 16
    expected.push_str("stp x29, x30, [sp, #-16]!\nmov x29, sp\nsub sp, sp, #16\n");
    // c = a: the incoming stack argument sits past the frame's aligned
    // bytes and the saved pair, 16 + 16, at its declared offset 0
    expected.push_str("ldr w10, [x29, #32]\n");
    expected.push_str("str w10, [x29, #-12]\n");
    // the call reserves the callee's stack-argument bytes, 4 rounded to 16
    expected.push_str("sub sp, sp, #16\n");
    // parameter a, stack slot 0: copy c into the outgoing slot
    expected.push_str("ldr w10, [x29, #-12]\n");
    expected.push_str("str w10, [sp, #-12]\n");
    // parameter b, register x1: materialize the literal
    expected.push_str("mov x1, #1\n");
    expected.push_str("bl _add\n");
    expected.push_str("add sp, sp, #16\n");
    // epilogue
    expected.push_str("add sp, sp, #16\nldp x29, x30, [sp], #16\nret\n");
    assert_eq!(text, expected);
}

#[test]
fn register_argument_of_wrong_declared_type_fails_the_type_check() {
    let args = vec![FunctionArg {
        arg_var_type: VariableType::I16,
        arg_name: String::from("b"),
        memory_location: MemoryLocationsAst::Register(String::from("x1")),
    }];
    let (pd, res) = build(vec![
        at(Statements::FunctionDeclaration(FunctionDeclaration {
            args,
            name: String::from("take"),
            return_type: VariableType::Void,
        })),
        at(Statements::StackFramePop),
        at(Statements::FunctionDeclaration(FunctionDeclaration {
            args: vec![],
            name: String::from("main"),
            return_type: VariableType::Void,
        })),
        at(Statements::VariableDeclaration(VariableDeclaration {
            name: String::from("wide"),
            variable_type: VariableType::I32,
            value: Some(Expression::Literal(Literal::Number(9))),
        })),
        at(Statements::Expression(Expression::BuiltInFunction(
            BuiltInFunctionsAst::BranchLinked(BranchLinkedAst {
                args: vec![Expression::Identifier(Identifiers::Identifier(String::from("wide")))],
                function_name: String::from("take"),
            }),
        ))),
        at(Statements::StackFramePop),
        at(Statements::EOF),
    ]);
    assert!(res.is_ok());
    assert_eq!(pd.errors.len(), 1);
    // the mismatched call was dropped: only the initialization was lowered
    assert_eq!(pd.stack_frames[1].cg_statements.len(), 1);
}

#[test]
fn two_functions_compile_in_registration_order() {
    let (mut pd, res) = build(vec![
        at(Statements::FunctionDeclaration(FunctionDeclaration {
            args: vec![],
            name: String::from("first"),
            return_type: VariableType::Void,
        })),
        at(Statements::StackFramePop),
        at(Statements::FunctionDeclaration(FunctionDeclaration {
            args: vec![],
            name: String::from("second"),
            return_type: VariableType::Void,
        })),
        at(Statements::Expression(Expression::BuiltInFunction(
            BuiltInFunctionsAst::BranchLinked(BranchLinkedAst {
                args: vec![],
                function_name: String::from("first"),
            }),
        ))),
        at(Statements::StackFramePop),
        at(Statements::EOF),
    ]);
    assert!(res.is_ok());
    assert!(pd.errors.is_empty());
    let text = generate(&mut pd).unwrap();
    assert_eq!(
        text,
        "_first:\nstp x29, x30, [sp, #-16]!\nmov x29, sp\nldp x29, x30, [sp], #16\nret\n_second:\nstp x29, x30, [sp, #-16]!\nmov x29, sp\nsub sp, sp, #0\nbl _first\nadd sp, sp, #0\nldp x29, x30, [sp], #16\nret\n"
    );
}

#[test]
fn nested_block_output_is_kept_in_the_routine() {
    // a function body with a nested block: the block's compiled text must
    // follow the enclosing frame's, not be dropped
    let mut pd = ProgramData::new();
    pd.statements = vec![
        at(Statements::FunctionDeclaration(FunctionDeclaration {
            args: vec![],
            name: String::from("main"),
            return_type: VariableType::Void,
        })),
        at(Statements::VariableDeclaration(VariableDeclaration {
            name: String::from("a"),
            variable_type: VariableType::I32,
            value: Some(Expression::Literal(Literal::Number(7))),
        })),
        at(Statements::EOF),
    ];
    let mut scope = ScopeAnalysis::new();
    assert!(scope.process_all(&mut pd).is_ok());
    // open a nested block and declare a variable with an initializer there
    let inner_decl = || VariableDeclaration {
        name: String::from("b"),
        variable_type: VariableType::I32,
        value: Some(Expression::Literal(Literal::Number(9))),
    };
    pd.statements.push(at(Statements::VariableDeclaration(inner_decl())));
    scope.create_new_scope(&mut pd);
    scope.add_var_to_stack_frame(&mut pd, &inner_decl(), 3);
    assert!(pd.errors.is_empty());

    let sem = SemanticAnaytis::new();
    assert!(sem.process_all_functions(&mut pd).is_ok());
    assert!(pd.errors.is_empty());

    let generator = CodeGenerator::new();
    let text = generator.process_all_functions(&mut pd).unwrap();
    let mut expected = String::new();
    expected.push_str("_main:\n");
    // the enclosing frame: 4 bytes rounded to 16
    expected.push_str("stp x29, x30, [sp, #-16]!\nmov x29, sp\nsub sp, sp, #16\n");
    expected.push_str("mov w10, 7\nstr w10, [x29, #-12]\n");
    expected.push_str("add sp, sp, #16\nldp x29, x30, [sp], #16\nret\n");
    // the nested block's compiled text follows, not dropped
    expected.push_str("stp x29, x30, [sp, #-16]!\nmov x29, sp\nsub sp, sp, #16\n");
    expected.push_str("mov w10, 9\nstr w10, [x29, #-12]\n");
    expected.push_str("add sp, sp, #16\nldp x29, x30, [sp], #16\nret\n");
    assert_eq!(text, expected);
}
