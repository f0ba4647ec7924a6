//! Assembly ISA helpers: pure maps from a declared integer width to the
//! scratch-register name and the load/store opcodes the generator emits.
//! The generator owns one fixed scratch register; loads are sign-extending
//! to match the language's signed integer widths.

use vstd::prelude::*;

use crate::ast_statements::VariableType;

verus! {

/// The scratch register's name for a value of width `t`.
pub open spec fn spec_scratch_register(t: VariableType) -> Seq<char> {
    "w10"@
}

/// The store opcode for a value of width `t`.
pub open spec fn spec_store_opcode(t: VariableType) -> Seq<char> {
    match t {
        VariableType::I8 => "strb"@,
        VariableType::I16 => "strh"@,
        VariableType::I32 => "str"@,
        VariableType::Void => "str"@,
    }
}

/// The sign-extending load opcode for a value of width `t`.
pub open spec fn spec_load_opcode(t: VariableType) -> Seq<char> {
    match t {
        VariableType::I8 => "ldrsb"@,
        VariableType::I16 => "ldrsh"@,
        VariableType::I32 => "ldr"@,
        VariableType::Void => "ldr"@,
    }
}

/// The scratch register used to stage every value the generator moves.
pub fn scratch_register(t: VariableType) -> (r: &'static str)
    ensures
        r@ == spec_scratch_register(t),
{
    "w10"
}

/// The store opcode matching a declared width: byte, half-word or word.
pub fn store_opcode(t: VariableType) -> (r: &'static str)
    ensures
        r@ == spec_store_opcode(t),
{
    match t {
        VariableType::I8 => "strb",
        VariableType::I16 => "strh",
        VariableType::I32 => "str",
        VariableType::Void => "str",
    }
}

/// The sign-extending load opcode matching a declared width.
pub fn load_opcode(t: VariableType) -> (r: &'static str)
    ensures
        r@ == spec_load_opcode(t),
{
    match t {
        VariableType::I8 => "ldrsb",
        VariableType::I16 => "ldrsh",
        VariableType::I32 => "ldr",
        VariableType::Void => "ldr",
    }
}

} // verus!
