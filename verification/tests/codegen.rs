//! The code generator: alignment round trip, slot layout, emitted text.

use a64c::ast_statements::{
    CgExpression, CgStatement, CgStatementType, CgVariableInitialization, FunctionDeclaration,
    Literal, Statement, Statements, VariableDeclaration, VariableType,
};
use a64c::code_generator::CodeGenerator;
use a64c::compiler::build;
use a64c::general_functions::align_memory;
use a64c::program_data::ProgramData;
use a64c::scope_analysis::ScopeAnalysis;

fn at(statement_type: Statements) -> Statement {
    Statement { col: 1, line: 1, start_pos: 0, end_pos: 0, statement_type }
}

fn one_frame_program(locals: &[(&str, VariableType)]) -> ProgramData {
    let mut pd = ProgramData::new();
    let mut statements = vec![at(Statements::FunctionDeclaration(FunctionDeclaration {
        args: vec![],
        name: String::from("main"),
        return_type: VariableType::Void,
    }))];
    for (name, t) in locals {
        statements.push(at(Statements::VariableDeclaration(VariableDeclaration {
            name: String::from(*name),
            variable_type: *t,
            value: None,
        })));
    }
    statements.push(at(Statements::StackFramePop));
    statements.push(at(Statements::EOF));
    pd.statements = statements;
    let mut scope = ScopeAnalysis::new();
    assert!(scope.process_all(&mut pd).is_ok());
    pd
}

#[test]
fn alignment_rounds_up_to_sixteen() {
    assert_eq!(align_memory(0, 16), 0);
    assert_eq!(align_memory(1, 16), 16);
    assert_eq!(align_memory(7, 16), 16);
    assert_eq!(align_memory(16, 16), 16);
    assert_eq!(align_memory(17, 16), 32);
    assert_eq!(align_memory(33, 16), 48);
}

#[test]
fn prologue_allocates_aligned_bytes_and_epilogue_cancels_it() {
    let mut pd = one_frame_program(&[("a", VariableType::I32), ("b", VariableType::I16)]);
    assert_eq!(pd.stack_frames[0].stack_mem_allocated, 6);
    let generator = CodeGenerator::new();
    let prologue = generator.initialize_stack_frame(&mut pd, 0);
    // 6 bytes round up to 16
    assert_eq!(prologue, "stp x29, x30, [sp, #-16]!\nmov x29, sp\nsub sp, sp, #16\n");
    assert_eq!(pd.stack_frames[0].stack_mem_allocated, 16);
    let epilogue = generator.return_stack_frame(&pd, 0);
    // the epilogue restores exactly what the prologue subtracted
    assert_eq!(epilogue, "add sp, sp, #16\nldp x29, x30, [sp], #16\nret\n");
}

#[test]
fn empty_frame_gets_the_bare_pair_save() {
    let mut pd = one_frame_program(&[]);
    let generator = CodeGenerator::new();
    let prologue = generator.initialize_stack_frame(&mut pd, 0);
    assert_eq!(prologue, "stp x29, x30, [sp, #-16]!\nmov x29, sp\n");
    let epilogue = generator.return_stack_frame(&pd, 0);
    assert_eq!(epilogue, "ldp x29, x30, [sp], #16\nret\n");
}

#[test]
fn last_declared_variable_sits_closest_to_the_frame_pointer() {
    let (mut pd, res) = build(vec![
        at(Statements::FunctionDeclaration(FunctionDeclaration {
            args: vec![],
            name: String::from("main"),
            return_type: VariableType::Void,
        })),
        at(Statements::VariableDeclaration(VariableDeclaration {
            name: String::from("first"),
            variable_type: VariableType::I32,
            value: Some(a64c::ast_statements::Expression::Literal(Literal::Number(1))),
        })),
        at(Statements::VariableDeclaration(VariableDeclaration {
            name: String::from("second"),
            variable_type: VariableType::I32,
            value: Some(a64c::ast_statements::Expression::Literal(Literal::Number(2))),
        })),
        at(Statements::StackFramePop),
        at(Statements::EOF),
    ]);
    assert!(res.is_ok());
    assert!(pd.errors.is_empty());
    let text = a64c::compiler::generate(&mut pd).unwrap();
    // 8 bytes round to 16: first at 16-0-4, second at 16-4-4
    assert_eq!(
        text,
        "_main:\nstp x29, x30, [sp, #-16]!\nmov x29, sp\nsub sp, sp, #16\nmov w10, 1\nstr w10, [x29, #-12]\nmov w10, 2\nstr w10, [x29, #-8]\nadd sp, sp, #16\nldp x29, x30, [sp], #16\nret\n"
    );
}

#[test]
fn store_opcode_follows_the_declared_width() {
    let generator = CodeGenerator::new();
    let byte = generator.init_stack_var(
        VariableType::I8,
        &CgExpression::Literal(Literal::Number(7)),
        3,
        "x29",
    );
    assert_eq!(byte, "mov w10, 7\nstrb w10, [x29, #-3]\n");
    let half = generator.init_stack_var(
        VariableType::I16,
        &CgExpression::Literal(Literal::Number(-2)),
        6,
        "sp",
    );
    assert_eq!(half, "mov w10, -2\nstrh w10, [sp, #-6]\n");
    let word = generator.init_stack_var(
        VariableType::I32,
        &CgExpression::Literal(Literal::Number(100000)),
        12,
        "x29",
    );
    assert_eq!(word, "mov w10, 100000\nstr w10, [x29, #-12]\n");
}

#[test]
fn an_unresolvable_target_is_a_reference_error() {
    let pd = one_frame_program(&[("a", VariableType::I32)]);
    let generator = CodeGenerator::new();
    let phantom = CgStatement {
        statement_type: CgStatementType::VariableInitialization(CgVariableInitialization {
            init_value: CgExpression::Literal(Literal::Number(1)),
            var_name: String::from("phantom"),
            stack_frame: 0,
        }),
    };
    let res = generator.generate_statement(&pd, &phantom, 0);
    assert!(matches!(
        res.unwrap_err(),
        a64c::program_data::CompileError::ReferenceError(
            a64c::program_data::ReferenceFault::UnresolvedReference(_)
        )
    ));
}
