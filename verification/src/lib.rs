//! A compiler backend for a small statically-typed systems language that
//! lowers directly to AArch64 assembly text.
//!
//! The pipeline runs in strict order over one owned [`program_data::ProgramData`]:
//! tokenizing and parsing produce a flat statement stream; the scope builder
//! ([`scope_analysis`]) turns that stream into a tree of stack frames with
//! symbol tables; the semantic analyzer ([`semantic_analysis`]) type-checks and
//! lowers each raw statement into codegen form; the code generator
//! ([`code_generator`]) emits one assembly routine per function.

pub mod assembly_instructions;
pub mod ast_statements;
pub mod code_generator;
pub mod compiler;
pub mod general_functions;
pub mod parser;
pub mod program_data;
pub mod scope_analysis;
pub mod semantic_analysis;
pub mod stack_frame;
pub mod symbol_table;
pub mod token;
pub mod tokenizer;
