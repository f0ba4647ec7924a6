//! The code generator: walks the frame tree a second time and emits one
//! AArch64 assembly routine per function — label, prologue, the lowered
//! statements' instructions, epilogue.
//!
//! Variables are laid out so the last-declared one sits closest to the frame
//! pointer: a slot's store target is `[x29, #-(bytes_allocated - offset -
//! size)]` against the frame's 16-byte-aligned allocation. A call reserves
//! the callee's stack-argument bytes rounded up to 16, marshals each
//! argument into its declared register or outgoing stack slot, branches with
//! `bl _<name>`, and restores the stack pointer. Every piece of emitted text
//! is pinned down by a spec function here.

use vstd::prelude::*;
use vstd::string::StringExecFns;

use crate::assembly_instructions::{
    load_opcode, scratch_register, spec_load_opcode, spec_scratch_register, spec_store_opcode,
    store_opcode,
};
use crate::ast_statements::{
    type_size, CgExpression, CgStatement, CgStatementModel, FunctionArg, FunctionModel, Literal,
    MemoryLocationsAst, VariableType,
};
use crate::general_functions::{dec_digits, dec_int, i32_to_dec, spec_align, usize_to_dec};
use crate::program_data::{
    chain_weight, find_fn, fns_view, frames_view, CompileError, ProgramData, ReferenceFault,
    TypeFault,
};
use crate::semantic_analysis::find_arg;
use crate::stack_frame::{find_var, FrameModel, StackFrame, StackVariable};

verus! {

// ------------------------------------------------------------------
// The emitted text, piece by piece.
// ------------------------------------------------------------------

/// `mov <scratch>, <n>` — stage a literal in the scratch register.
pub open spec fn mov_literal_text(t: VariableType, n: int) -> Seq<char> {
    "mov "@ + spec_scratch_register(t) + ", "@ + dec_int(n) + "\n"@
}

/// `<str-op> <scratch>, [<base>, #-<loc>]` — store the scratch register.
pub open spec fn store_text(t: VariableType, base: Seq<char>, loc: nat) -> Seq<char> {
    spec_store_opcode(t) + " "@ + spec_scratch_register(t) + ", ["@ + base + ", #-"@ + dec_digits(
        loc,
    ) + "]\n"@
}

/// Initialization of a slot from a literal: stage then store.
pub open spec fn init_literal_text(t: VariableType, n: int, base: Seq<char>, loc: nat) -> Seq<
    char,
> {
    mov_literal_text(t, n) + store_text(t, base, loc)
}

/// `<ldr-op> <reg>, [x29, #-<loc>]` — load a frame-local slot.
pub open spec fn load_local_into_text(t: VariableType, reg: Seq<char>, loc: nat) -> Seq<char> {
    spec_load_opcode(t) + " "@ + reg + ", [x29, #-"@ + dec_digits(loc) + "]\n"@
}

/// `<ldr-op> <reg>, [x29, #<dist>]` — load an incoming stack argument.
pub open spec fn load_arg_into_text(t: VariableType, reg: Seq<char>, dist: nat) -> Seq<char> {
    spec_load_opcode(t) + " "@ + reg + ", [x29, #"@ + dec_digits(dist) + "]\n"@
}

/// `mov <reg>, <src>` — copy between registers.
pub open spec fn mov_reg_reg_text(reg: Seq<char>, src: Seq<char>) -> Seq<char> {
    "mov "@ + reg + ", "@ + src + "\n"@
}

/// `mov <reg>, #<n>` — materialize a literal in a named register.
pub open spec fn mov_reg_imm_text(reg: Seq<char>, n: int) -> Seq<char> {
    "mov "@ + reg + ", #"@ + dec_int(n) + "\n"@
}

/// `sub sp, sp, #<a>`.
pub open spec fn sub_sp_text(a: nat) -> Seq<char> {
    "sub sp, sp, #"@ + dec_digits(a) + "\n"@
}

/// `add sp, sp, #<a>`.
pub open spec fn add_sp_text(a: nat) -> Seq<char> {
    "add sp, sp, #"@ + dec_digits(a) + "\n"@
}

/// `bl _<name>`.
pub open spec fn bl_text(name: Seq<char>) -> Seq<char> {
    "bl _"@ + name + "\n"@
}

/// `_<name>:` — a routine's label.
pub open spec fn label_text(name: Seq<char>) -> Seq<char> {
    "_"@ + name + ":\n"@
}

/// The prologue: save the frame-pointer/link-register pair with a 16-byte
/// pre-decrement, establish the frame pointer, and — only when the frame has
/// local bytes — drop the stack pointer by the aligned local size.
pub open spec fn prologue_text(aligned: nat) -> Seq<char> {
    if aligned == 0 {
        "stp x29, x30, [sp, #-16]!\nmov x29, sp\n"@
    } else {
        "stp x29, x30, [sp, #-16]!\nmov x29, sp\n"@ + sub_sp_text(aligned)
    }
}

/// The epilogue, the prologue's mirror: restore the aligned local size (if
/// any), reload the pair with a 16-byte post-increment, and return.
pub open spec fn epilogue_text(aligned: nat) -> Seq<char> {
    if aligned == 0 {
        "ldp x29, x30, [sp], #16\nret\n"@
    } else {
        add_sp_text(aligned) + "ldp x29, x30, [sp], #16\nret\n"@
    }
}

// ------------------------------------------------------------------
// Where a named value lives, as seen from one frame.
// ------------------------------------------------------------------

/// A resolved source: a local slot of the frame, an incoming stack argument
/// of the owning function at its total byte distance, or an incoming
/// register argument.
pub enum SourceLoc {
    Local(VariableType, usize),
    IncomingStack(VariableType, usize),
    IncomingRegister(VariableType, String),
}

/// Resolves `name` for code generation: the frame's own slots first, then
/// the owning function's parameters; an incoming stack argument's distance
/// is the chain walk to the outermost frame plus the declared offset. A
/// distance or slot that does not fit the machine word is refused.
pub open spec fn resolve_source(
    frames: Seq<FrameModel>,
    fns: Seq<FunctionModel>,
    frame_idx: usize,
    name: String,
) -> Result<SourceLoc, CompileError> {
    if frame_idx >= frames.len() {
        Err(CompileError::ReferenceError(ReferenceFault::UnresolvedReference(name)))
    } else {
        let f = frames[frame_idx as int];
        match find_var(f.variables, name@) {
            Some(v) => if v.offset + v.variable_size <= f.stack_mem_allocated
                && f.stack_mem_allocated <= usize::MAX {
                Ok(
                    SourceLoc::Local(
                        v.variable_type,
                        (f.stack_mem_allocated - v.offset - v.variable_size) as usize,
                    ),
                )
            } else {
                Err(CompileError::ReferenceError(ReferenceFault::UnresolvedReference(name)))
            },
            None => match find_fn(fns, f.owning_function@) {
                Some(func) => match find_arg(func.args, name@) {
                    Some(a) => match a.memory_location {
                        MemoryLocationsAst::Stack(o) => if chain_weight(frames, frame_idx as int)
                            + o <= usize::MAX {
                            Ok(
                                SourceLoc::IncomingStack(
                                    a.arg_var_type,
                                    (chain_weight(frames, frame_idx as int) + o) as usize,
                                ),
                            )
                        } else {
                            Err(
                                CompileError::ReferenceError(
                                    ReferenceFault::UnresolvedReference(name),
                                ),
                            )
                        },
                        MemoryLocationsAst::Register(reg) => Ok(
                            SourceLoc::IncomingRegister(a.arg_var_type, reg),
                        ),
                    },
                    None => Err(
                        CompileError::ReferenceError(ReferenceFault::UnresolvedReference(name)),
                    ),
                },
                None => Err(
                    CompileError::ReferenceError(ReferenceFault::UnresolvedReference(name)),
                ),
            },
        }
    }
}

/// The text that loads a resolved source into `reg`.
pub open spec fn load_source_into_text(src: SourceLoc, reg: Seq<char>) -> Seq<char> {
    match src {
        SourceLoc::Local(t, loc) => load_local_into_text(t, reg, loc as nat),
        SourceLoc::IncomingStack(t, dist) => load_arg_into_text(t, reg, dist as nat),
        SourceLoc::IncomingRegister(t, srcreg) => mov_reg_reg_text(reg, srcreg@),
    }
}

// ------------------------------------------------------------------
// Statement generation.
// ------------------------------------------------------------------

/// Total bytes of the stack-passed parameters among `args`.
pub open spec fn spec_stack_arg_bytes(args: Seq<FunctionArg>) -> nat
    decreases args.len(),
{
    if args.len() == 0 {
        0
    } else {
        (spec_stack_arg_bytes(args.drop_first()) + (match args[0].memory_location {
            MemoryLocationsAst::Stack(_) => type_size(args[0].arg_var_type),
            MemoryLocationsAst::Register(_) => 0,
        })) as nat
    }
}

/// Marshalling of the call's arguments from position `k` on: a
/// register-passed parameter takes its literal with `mov` or its loaded
/// source directly; a stack-passed parameter lands in the reserved outgoing
/// area at its declared offset, as `[sp, #-(aligned - offset - size)]`.
pub open spec fn marshal_args(
    args: Seq<CgExpression>,
    params: Seq<FunctionArg>,
    k: int,
    frames: Seq<FrameModel>,
    fns: Seq<FunctionModel>,
    frame_idx: usize,
    aligned: nat,
    callee: String,
) -> Result<Seq<char>, CompileError>
    decreases args.len() - k,
{
    if k < 0 || k >= args.len() || args.len() != params.len() {
        Ok(Seq::empty())
    } else {
        let step: Result<Seq<char>, CompileError> = match params[k].memory_location {
            MemoryLocationsAst::Register(reg) => match args[k] {
                CgExpression::Literal(lit) => match lit {
                    Literal::Number(n) => Ok(mov_reg_imm_text(reg@, n as int)),
                    Literal::String(_) => Err(
                        CompileError::TypeError(TypeFault::ArgumentMismatch(callee)),
                    ),
                },
                CgExpression::StackVariableIdentifier(src) => match resolve_source(
                    frames,
                    fns,
                    frame_idx,
                    src,
                ) {
                    Ok(sl) => Ok(load_source_into_text(sl, reg@)),
                    Err(e) => Err(e),
                },
            },
            MemoryLocationsAst::Stack(o) => {
                let size = type_size(params[k].arg_var_type);
                if o + size > aligned {
                    Err(CompileError::TypeError(TypeFault::ArgumentMismatch(callee)))
                } else {
                    let loc = (aligned - o - size) as nat;
                    match args[k] {
                        CgExpression::Literal(lit) => match lit {
                            Literal::Number(n) => Ok(
                                init_literal_text(params[k].arg_var_type, n as int, "sp"@, loc),
                            ),
                            Literal::String(_) => Err(
                                CompileError::TypeError(TypeFault::ArgumentMismatch(callee)),
                            ),
                        },
                        CgExpression::StackVariableIdentifier(src) => match resolve_source(
                            frames,
                            fns,
                            frame_idx,
                            src,
                        ) {
                            Ok(sl) => Ok(
                                load_source_into_text(
                                    sl,
                                    spec_scratch_register(params[k].arg_var_type),
                                ) + store_text(params[k].arg_var_type, "sp"@, loc),
                            ),
                            Err(e) => Err(e),
                        },
                    }
                }
            },
        };
        match step {
            Err(e) => Err(e),
            Ok(t) => match marshal_args(
                args,
                params,
                k + 1,
                frames,
                fns,
                frame_idx,
                aligned,
                callee,
            ) {
                Ok(rest) => Ok(t + rest),
                Err(e) => Err(e),
            },
        }
    }
}

/// The text one lowered statement compiles to, as seen from `frame_idx`:
/// a variable initialization stages its value and stores it at the slot's
/// offset below the frame pointer; raw assembly is emitted verbatim; a call
/// reserves the callee's aligned outgoing-argument bytes, marshals, branches
/// and restores.
pub open spec fn spec_gen_statement(
    cg: CgStatementModel,
    frames: Seq<FrameModel>,
    fns: Seq<FunctionModel>,
    frame_idx: usize,
) -> Result<Seq<char>, CompileError> {
    match cg {
        CgStatementModel::VariableInitialization(vi) => {
            if vi.stack_frame >= frames.len() {
                Err(CompileError::ReferenceError(ReferenceFault::UnresolvedReference(vi.var_name)))
            } else {
                let tf = frames[vi.stack_frame as int];
                match find_var(tf.variables, vi.var_name@) {
                    None => Err(
                        CompileError::ReferenceError(
                            ReferenceFault::UnresolvedReference(vi.var_name),
                        ),
                    ),
                    Some(v) => if v.offset + v.variable_size > tf.stack_mem_allocated
                        || tf.stack_mem_allocated > usize::MAX {
                        Err(
                            CompileError::ReferenceError(
                                ReferenceFault::UnresolvedReference(vi.var_name),
                            ),
                        )
                    } else {
                        let loc = (tf.stack_mem_allocated - v.offset - v.variable_size) as nat;
                        match vi.init_value {
                            CgExpression::Literal(lit) => match lit {
                                Literal::Number(n) => Ok(
                                    init_literal_text(v.variable_type, n as int, "x29"@, loc),
                                ),
                                Literal::String(_) => Err(
                                    CompileError::TypeError(
                                        TypeFault::InvalidInitializer(vi.var_name),
                                    ),
                                ),
                            },
                            CgExpression::StackVariableIdentifier(src) => match resolve_source(
                                frames,
                                fns,
                                vi.stack_frame,
                                src,
                            ) {
                                Ok(sl) => Ok(
                                    load_source_into_text(
                                        sl,
                                        spec_scratch_register(v.variable_type),
                                    ) + store_text(v.variable_type, "x29"@, loc),
                                ),
                                Err(e) => Err(e),
                            },
                        }
                    },
                }
            }
        },
        CgStatementModel::BuiltInFunction(b) => match b {
            crate::ast_statements::CgBuiltInModel::Assembly(text) => Ok(text),
            crate::ast_statements::CgBuiltInModel::BranchLinked(bl) => match find_fn(
                fns,
                bl.function_name@,
            ) {
                None => Err(
                    CompileError::ReferenceError(ReferenceFault::UnknownCallee(bl.function_name)),
                ),
                Some(callee) => if bl.args.len() != callee.args.len() {
                    Err(CompileError::ArityMismatchError(bl.function_name))
                } else if spec_stack_arg_bytes(callee.args) + 16 > usize::MAX {
                    Err(CompileError::TypeError(TypeFault::ArgumentMismatch(bl.function_name)))
                } else {
                    let aligned = spec_align(spec_stack_arg_bytes(callee.args), 16);
                    match marshal_args(
                        bl.args,
                        callee.args,
                        0,
                        frames,
                        fns,
                        frame_idx,
                        aligned,
                        bl.function_name,
                    ) {
                        Ok(body) => Ok(
                            sub_sp_text(aligned) + body + bl_text(bl.function_name@) + add_sp_text(
                                aligned,
                            ),
                        ),
                        Err(e) => Err(e),
                    }
                },
            },
        },
    }
}

// ------------------------------------------------------------------
// Emitting the text.
// ------------------------------------------------------------------

fn emit_mov_literal(t: VariableType, n: i32) -> (s: String)
    ensures
        s@ == mov_literal_text(t, n as int),
{
    let mut s = String::from_str("mov ");
    s.append(scratch_register(t));
    s.append(", ");
    let num = i32_to_dec(n);
    s.append(num.as_str());
    s.append("
");
    proof {
        assert(s@ =~= mov_literal_text(t, n as int));
    }
    s
}

fn emit_store(t: VariableType, base: &str, loc: usize) -> (s: String)
    ensures
        s@ == store_text(t, base@, loc as nat),
{
    let mut s = String::from_str(store_opcode(t));
    s.append(" ");
    s.append(scratch_register(t));
    s.append(", [");
    s.append(base);
    s.append(", #-");
    let num = usize_to_dec(loc);
    s.append(num.as_str());
    s.append("]
");
    proof {
        assert(s@ =~= store_text(t, base@, loc as nat));
    }
    s
}

fn emit_load_local_into(t: VariableType, reg: &str, loc: usize) -> (s: String)
    ensures
        s@ == load_local_into_text(t, reg@, loc as nat),
{
    let mut s = String::from_str(load_opcode(t));
    s.append(" ");
    s.append(reg);
    s.append(", [x29, #-");
    let num = usize_to_dec(loc);
    s.append(num.as_str());
    s.append("]
");
    proof {
        assert(s@ =~= load_local_into_text(t, reg@, loc as nat));
    }
    s
}

fn emit_load_arg_into(t: VariableType, reg: &str, dist: usize) -> (s: String)
    ensures
        s@ == load_arg_into_text(t, reg@, dist as nat),
{
    let mut s = String::from_str(load_opcode(t));
    s.append(" ");
    s.append(reg);
    s.append(", [x29, #");
    let num = usize_to_dec(dist);
    s.append(num.as_str());
    s.append("]
");
    proof {
        assert(s@ =~= load_arg_into_text(t, reg@, dist as nat));
    }
    s
}

fn emit_mov_reg_reg(reg: &str, src: &str) -> (s: String)
    ensures
        s@ == mov_reg_reg_text(reg@, src@),
{
    let mut s = String::from_str("mov ");
    s.append(reg);
    s.append(", ");
    s.append(src);
    s.append("
");
    proof {
        assert(s@ =~= mov_reg_reg_text(reg@, src@));
    }
    s
}

fn emit_mov_reg_imm(reg: &str, n: i32) -> (s: String)
    ensures
        s@ == mov_reg_imm_text(reg@, n as int),
{
    let mut s = String::from_str("mov ");
    s.append(reg);
    s.append(", #");
    let num = i32_to_dec(n);
    s.append(num.as_str());
    s.append("
");
    proof {
        assert(s@ =~= mov_reg_imm_text(reg@, n as int));
    }
    s
}

fn emit_load_source_into(src: &SourceLoc, reg: &str) -> (s: String)
    ensures
        s@ == load_source_into_text(*src, reg@),
{
    match src {
        SourceLoc::Local(t, loc) => emit_load_local_into(*t, reg, *loc),
        SourceLoc::IncomingStack(t, dist) => emit_load_arg_into(*t, reg, *dist),
        SourceLoc::IncomingRegister(t, srcreg) => emit_mov_reg_reg(reg, srcreg.as_str()),
    }
}

fn emit_sub_sp(a: usize) -> (s: String)
    ensures
        s@ == sub_sp_text(a as nat),
{
    let mut s = String::from_str("sub sp, sp, #");
    let num = usize_to_dec(a);
    s.append(num.as_str());
    s.append("
");
    proof {
        assert(s@ =~= sub_sp_text(a as nat));
    }
    s
}

fn emit_add_sp(a: usize) -> (s: String)
    ensures
        s@ == add_sp_text(a as nat),
{
    let mut s = String::from_str("add sp, sp, #");
    let num = usize_to_dec(a);
    s.append(num.as_str());
    s.append("
");
    proof {
        assert(s@ =~= add_sp_text(a as nat));
    }
    s
}

fn emit_bl(name: &str) -> (s: String)
    ensures
        s@ == bl_text(name@),
{
    let mut s = String::from_str("bl _");
    s.append(name);
    s.append("
");
    proof {
        assert(s@ =~= bl_text(name@));
    }
    s
}

fn emit_label(name: &str) -> (s: String)
    ensures
        s@ == label_text(name@),
{
    let mut s = String::from_str("_");
    s.append(name);
    s.append(":
");
    proof {
        assert(s@ =~= label_text(name@));
    }
    s
}

/// Resolves `name` for code generation against the live store.
fn resolve_source_exec(pd: &ProgramData, frame_idx: usize, name: &String) -> (r: Result<
    SourceLoc,
    CompileError,
>)
    requires
        crate::program_data::frame_links_wf(frames_view(pd.stack_frames)),
    ensures
        r == resolve_source(
            frames_view(pd.stack_frames),
            fns_view(pd.functions),
            frame_idx,
            *name,
        ),
{
    if frame_idx >= pd.stack_frames.len() {
        return Err(
            CompileError::ReferenceError(ReferenceFault::UnresolvedReference(name.clone())),
        );
    }
    let f = &pd.stack_frames[frame_idx];
    proof {
        assert(frames_view(pd.stack_frames)[frame_idx as int] == f@);
    }
    match f.get_variable(name.as_str()) {
        Some(v) => {
            if v.variable_size <= f.stack_mem_allocated && v.offset <= f.stack_mem_allocated
                - v.variable_size {
                Ok(
                    SourceLoc::Local(
                        v.variable_type,
                        f.stack_mem_allocated - v.offset - v.variable_size,
                    ),
                )
            } else {
                Err(
                    CompileError::ReferenceError(
                        ReferenceFault::UnresolvedReference(name.clone()),
                    ),
                )
            }
        },
        None => {
            match pd.get_function(f.owning_function.as_str()) {
                Some(func) => match crate::semantic_analysis::find_arg_index(
                    &func.args,
                    name.as_str(),
                ) {
                    Some(i) => {
                        let a = &func.args[i];
                        proof {
                            assert(find_arg(func@.args, name@) == Some(func.args@[i as int]));
                        }
                        match &a.memory_location {
                            MemoryLocationsAst::Stack(o) => {
                                match pd.frame_chain_distance_checked(frame_idx) {
                                    None => Err(
                                        CompileError::ReferenceError(
                                            ReferenceFault::UnresolvedReference(name.clone()),
                                        ),
                                    ),
                                    Some(d) => match d.checked_add(*o) {
                                        Some(dist) => Ok(
                                            SourceLoc::IncomingStack(a.arg_var_type, dist),
                                        ),
                                        None => Err(
                                            CompileError::ReferenceError(
                                                ReferenceFault::UnresolvedReference(
                                                    name.clone(),
                                                ),
                                            ),
                                        ),
                                    },
                                }
                            },
                            MemoryLocationsAst::Register(reg) => Ok(
                                SourceLoc::IncomingRegister(a.arg_var_type, reg.clone()),
                            ),
                        }
                    },
                    None => Err(
                        CompileError::ReferenceError(
                            ReferenceFault::UnresolvedReference(name.clone()),
                        ),
                    ),
                },
                None => Err(
                    CompileError::ReferenceError(
                        ReferenceFault::UnresolvedReference(name.clone()),
                    ),
                ),
            }
        },
    }
}

/// The code generator; everything it reads and writes lives in the program
/// store it is handed.
#[derive(Debug)]
pub struct CodeGenerator {
}

impl CodeGenerator {
    pub fn new() -> (c: Self) {
        CodeGenerator {  }
    }

    /// Rounds `mem` up to the next multiple of `alignment`.
    pub fn align_memory(&self, mem: usize, alignment: usize) -> (r: usize)
        requires
            alignment > 0,
            mem + alignment <= usize::MAX,
        ensures
            r == spec_align(mem as nat, alignment as nat),
    {
        crate::general_functions::align_memory(mem, alignment)
    }

    /// The two instructions that initialize a stack slot from a numeric
    /// literal: stage it in the scratch register, store at `#-var_stack_loc`
    /// off `stack_ptr`. Only the integer widths have a slot form.
    pub fn init_stack_var(
        &self,
        variable_type: VariableType,
        initial_value: &CgExpression,
        var_stack_loc: usize,
        stack_ptr: &str,
    ) -> (s: String)
        requires
            crate::ast_statements::is_integer_type(variable_type),
            initial_value matches CgExpression::Literal(Literal::Number(_)),
        ensures
            s@ == init_literal_text(
                variable_type,
                initial_value->Literal_0->Number_0 as int,
                stack_ptr@,
                var_stack_loc as nat,
            ),
    {
        let n: i32 = match initial_value {
            CgExpression::Literal(Literal::Number(v)) => *v,
            _ => 0,
        };
        let mut s = emit_mov_literal(variable_type, n);
        let st = emit_store(variable_type, stack_ptr, var_stack_loc);
        s.append(st.as_str());
        s
    }

    /// Borrows a stack variable of one frame by name.
    pub fn get_stack_variable(&self, pd: &ProgramData, stack_frame: usize, var_name: &str) -> (r:
        Option<StackVariable>)
        requires
            stack_frame < pd.stack_frames@.len(),
        ensures
            r == find_var(pd.stack_frames@[stack_frame as int]@.variables, var_name@),
    {
        pd.stack_frames[stack_frame].get_variable(var_name)
    }

    /// Borrows a frame by arena index.
    pub fn get_stack_frame_by_index<'a>(&self, pd: &'a ProgramData, index: usize) -> (f:
        &'a StackFrame)
        requires
            index < pd.stack_frames@.len(),
        ensures
            *f == pd.stack_frames@[index as int],
    {
        &pd.stack_frames[index]
    }

    /// Borrows a frame by arena index for mutation.
    pub fn get_stack_frame_by_index_mut<'a>(&self, pd: &'a mut ProgramData, index: usize) -> (f:
        &'a mut StackFrame)
        requires
            index < old(pd).stack_frames@.len(),
        ensures
            *f == old(pd).stack_frames@[index as int],
            final(pd).stack_frames@ == old(pd).stack_frames@.update(index as int, *final(f)),
            final(pd).functions == old(pd).functions,
            final(pd).statements == old(pd).statements,
            final(pd).source_code == old(pd).source_code,
            final(pd).tokens == old(pd).tokens,
            final(pd).errors == old(pd).errors,
    {
        &mut pd.stack_frames[index]
    }

    /// Emits the text of one lowered statement, exactly as
    /// [`spec_gen_statement`] describes.
    pub fn generate_statement(
        &self,
        pd: &ProgramData,
        statement: &CgStatement,
        stack_frame: usize,
    ) -> (r: Result<String, CompileError>)
        requires
            crate::program_data::frame_links_wf(frames_view(pd.stack_frames)),
        ensures
            ({
                let spec_r = spec_gen_statement(
                    statement@,
                    frames_view(pd.stack_frames),
                    fns_view(pd.functions),
                    stack_frame,
                );
                match (r, spec_r) {
                    (Ok(s), Ok(t)) => s@ == t,
                    (Err(e1), Err(e2)) => e1 == e2,
                    _ => false,
                }
            }),
    {
        let ghost frames = frames_view(pd.stack_frames);
        let ghost fnsm = fns_view(pd.functions);
        match &statement.statement_type {
            crate::ast_statements::CgStatementType::VariableInitialization(vi) => {
                if vi.stack_frame >= pd.stack_frames.len() {
                    return Err(
                        CompileError::ReferenceError(
                            ReferenceFault::UnresolvedReference(vi.var_name.clone()),
                        ),
                    );
                }
                let tf = &pd.stack_frames[vi.stack_frame];
                proof {
                    assert(frames[vi.stack_frame as int] == tf@);
                }
                match tf.get_variable(vi.var_name.as_str()) {
                    None => Err(
                        CompileError::ReferenceError(
                            ReferenceFault::UnresolvedReference(vi.var_name.clone()),
                        ),
                    ),
                    Some(v) => {
                        if !(v.variable_size <= tf.stack_mem_allocated && v.offset
                            <= tf.stack_mem_allocated - v.variable_size) {
                            return Err(
                                CompileError::ReferenceError(
                                    ReferenceFault::UnresolvedReference(vi.var_name.clone()),
                                ),
                            );
                        }
                        let loc = tf.stack_mem_allocated - v.offset - v.variable_size;
                        match &vi.init_value {
                            CgExpression::Literal(lit) => match lit {
                                Literal::Number(n) => {
                                    let mut out = emit_mov_literal(v.variable_type, *n);
                                    let st = emit_store(v.variable_type, "x29", loc);
                                    out.append(st.as_str());
                                    Ok(out)
                                },
                                Literal::String(_) => Err(
                                    CompileError::TypeError(
                                        TypeFault::InvalidInitializer(vi.var_name.clone()),
                                    ),
                                ),
                            },
                            CgExpression::StackVariableIdentifier(src) => {
                                match resolve_source_exec(pd, vi.stack_frame, src) {
                                    Ok(sl) => {
                                        let mut out = emit_load_source_into(
                                            &sl,
                                            scratch_register(v.variable_type),
                                        );
                                        let st = emit_store(v.variable_type, "x29", loc);
                                        out.append(st.as_str());
                                        Ok(out)
                                    },
                                    Err(e) => Err(e),
                                }
                            },
                        }
                    },
                }
            },
            crate::ast_statements::CgStatementType::BuiltInFunction(b) => match b {
                crate::ast_statements::CgBuiltInFunctions::Assembly(text) => Ok(text.clone()),
                crate::ast_statements::CgBuiltInFunctions::BranchLinked(bl) => {
                    let ghost blv = statement@->BuiltInFunction_0->BranchLinked_0;
                    match pd.get_function(bl.function_name.as_str()) {
                        None => Err(
                            CompileError::ReferenceError(
                                ReferenceFault::UnknownCallee(bl.function_name.clone()),
                            ),
                        ),
                        Some(callee) => {
                            let ghost callee_model = callee@;
                            if bl.args.len() != callee.args.len() {
                                return Err(
                                    CompileError::ArityMismatchError(bl.function_name.clone()),
                                );
                            }
                            // total bytes of the callee's stack-passed parameters
                            let mut arg_mem: usize = 0;
                            let np = callee.args.len();
                            let mut i: usize = 0;
                            let mut overflow = false;
                            proof {
                                assert(callee_model.args.skip(0) =~= callee_model.args);
                            }
                            while i < np && !overflow
                                invariant
                                    i <= np,
                                    np == callee_model.args.len(),
                                    callee.args@ == callee_model.args,
                                    bl.args@ == blv.args,
                                    bl.function_name == blv.function_name,
                                    blv.args.len() == callee_model.args.len(),
                                    statement@ == CgStatementModel::BuiltInFunction(
                                        crate::ast_statements::CgBuiltInModel::BranchLinked(blv),
                                    ),
                                    frames == frames_view(pd.stack_frames),
                                    fnsm == fns_view(pd.functions),
                                    find_fn(fnsm, blv.function_name@) == Some(callee_model),
                                    !overflow ==> spec_stack_arg_bytes(callee_model.args)
                                        == arg_mem + spec_stack_arg_bytes(
                                        callee_model.args.skip(i as int),
                                    ),
                                    overflow ==> spec_stack_arg_bytes(callee_model.args)
                                        > usize::MAX,
                                decreases np - i + (if overflow {
                                    0int
                                } else {
                                    1int
                                }),
                            {
                                proof {
                                    lemma_stack_arg_bytes_step(callee_model.args, i as int);
                                }
                                let arg_i_type = callee.args[i].arg_var_type;
                                let contribution: usize = match &callee.args[i].memory_location {
                                    MemoryLocationsAst::Stack(_) => arg_i_type.get_variable_size(),
                                    MemoryLocationsAst::Register(_) => 0,
                                };
                                if arg_mem > usize::MAX - contribution {
                                    proof {
                                        lemma_stack_arg_bytes_skip_lower(
                                            callee_model.args,
                                            i as int,
                                        );
                                    }
                                    overflow = true;
                                } else {
                                    arg_mem = arg_mem + contribution;
                                    i = i + 1;
                                }
                            }
                            if overflow || arg_mem > usize::MAX - 16 {
                                proof {
                                    if !overflow {
                                        assert(callee_model.args.skip(np as int)
                                            =~= Seq::<FunctionArg>::empty());
                                    }
                                }
                                return Err(
                                    CompileError::TypeError(
                                        TypeFault::ArgumentMismatch(bl.function_name.clone()),
                                    ),
                                );
                            }
                            proof {
                                assert(callee_model.args.skip(np as int)
                                    =~= Seq::<FunctionArg>::empty());
                                assert(spec_stack_arg_bytes(callee_model.args) == arg_mem);
                            }
                            let aligned = crate::general_functions::align_memory(arg_mem, 16);
                            // marshal each argument into its declared location
                            let mut out = emit_sub_sp(aligned);
                            let ghost head = out@;
                            let n_args = bl.args.len();
                            let mut k: usize = 0;
                            while k < n_args
                                invariant
                                    k <= n_args,
                                    n_args == blv.args.len(),
                                    bl.args@ == blv.args,
                                    bl.function_name == blv.function_name,
                                    callee.args@ == callee_model.args,
                                    n_args == callee_model.args.len(),
                                    statement@ == CgStatementModel::BuiltInFunction(
                                        crate::ast_statements::CgBuiltInModel::BranchLinked(blv),
                                    ),
                                    find_fn(fnsm, blv.function_name@) == Some(callee_model),
                                    spec_stack_arg_bytes(callee_model.args) + 16 <= usize::MAX,
                                    aligned == spec_align(
                                        spec_stack_arg_bytes(callee_model.args),
                                        16,
                                    ),
                                    frames == frames_view(pd.stack_frames),
                                    fnsm == fns_view(pd.functions),
                                    crate::program_data::frame_links_wf(frames),
                                    head == sub_sp_text(aligned as nat),
                                    head.len() <= out@.len(),
                                    out@.subrange(0, head.len() as int) == head,
                                    marshal_args(
                                        blv.args,
                                        callee_model.args,
                                        0,
                                        frames,
                                        fnsm,
                                        stack_frame,
                                        aligned as nat,
                                        blv.function_name,
                                    ) == (match marshal_args(
                                        blv.args,
                                        callee_model.args,
                                        k as int,
                                        frames,
                                        fnsm,
                                        stack_frame,
                                        aligned as nat,
                                        blv.function_name,
                                    ) {
                                        Ok(rest) => Ok(
                                            out@.subrange(head.len() as int, out@.len() as int)
                                                + rest,
                                        ),
                                        Err(e) => Err::<Seq<char>, CompileError>(e),
                                    }),
                                decreases n_args - k,
                            {
                                let ghost out_pre = out@;
                                let step: Result<String, CompileError> = match &callee.args[
                                    k].memory_location {
                                    MemoryLocationsAst::Register(reg) => match &bl.args[k] {
                                        CgExpression::Literal(lit) => match lit {
                                            Literal::Number(n) => Ok(
                                                emit_mov_reg_imm(reg.as_str(), *n),
                                            ),
                                            Literal::String(_) => Err(
                                                CompileError::TypeError(
                                                    TypeFault::ArgumentMismatch(
                                                        bl.function_name.clone(),
                                                    ),
                                                ),
                                            ),
                                        },
                                        CgExpression::StackVariableIdentifier(src) => {
                                            match resolve_source_exec(pd, stack_frame, src) {
                                                Ok(sl) => Ok(
                                                    emit_load_source_into(&sl, reg.as_str()),
                                                ),
                                                Err(e) => Err(e),
                                            }
                                        },
                                    },
                                    MemoryLocationsAst::Stack(o) => {
                                        let t = callee.args[k].arg_var_type;
                                        let size = t.get_variable_size();
                                        if *o > aligned || size > aligned - *o {
                                            Err(
                                                CompileError::TypeError(
                                                    TypeFault::ArgumentMismatch(
                                                        bl.function_name.clone(),
                                                    ),
                                                ),
                                            )
                                        } else {
                                            let loc = aligned - *o - size;
                                            match &bl.args[k] {
                                                CgExpression::Literal(lit) => match lit {
                                                    Literal::Number(n) => {
                                                        let mut piece = emit_mov_literal(t, *n);
                                                        let st = emit_store(t, "sp", loc);
                                                        piece.append(st.as_str());
                                                        Ok(piece)
                                                    },
                                                    Literal::String(_) => Err(
                                                        CompileError::TypeError(
                                                            TypeFault::ArgumentMismatch(
                                                                bl.function_name.clone(),
                                                            ),
                                                        ),
                                                    ),
                                                },
                                                CgExpression::StackVariableIdentifier(src) => {
                                                    match resolve_source_exec(
                                                        pd,
                                                        stack_frame,
                                                        src,
                                                    ) {
                                                        Ok(sl) => {
                                                            let mut piece =
                                                                emit_load_source_into(
                                                                &sl,
                                                                scratch_register(t),
                                                            );
                                                            let st = emit_store(t, "sp", loc);
                                                            piece.append(st.as_str());
                                                            Ok(piece)
                                                        },
                                                        Err(e) => Err(e),
                                                    }
                                                },
                                            }
                                        }
                                    },
                                };
                                match step {
                                    Err(e) => {
                                        proof {
                                            assert(marshal_args(
                                                blv.args,
                                                callee_model.args,
                                                k as int,
                                                frames,
                                                fnsm,
                                                stack_frame,
                                                aligned as nat,
                                                blv.function_name,
                                            ) == Err::<Seq<char>, CompileError>(e));
                                        }
                                        return Err(e);
                                    },
                                    Ok(piece) => {
                                        out.append(piece.as_str());
                                        proof {
                                            assert(out@.subrange(0, head.len() as int) =~= head);
                                            assert(out@.subrange(
                                                head.len() as int,
                                                out@.len() as int,
                                            ) =~= out_pre.subrange(
                                                head.len() as int,
                                                out_pre.len() as int,
                                            ) + piece@);
                                            let rest_k1 = marshal_args(
                                                blv.args,
                                                callee_model.args,
                                                k + 1,
                                                frames,
                                                fnsm,
                                                stack_frame,
                                                aligned as nat,
                                                blv.function_name,
                                            );
                                            match rest_k1 {
                                                Ok(rest) => {
                                                    assert(out_pre.subrange(
                                                        head.len() as int,
                                                        out_pre.len() as int,
                                                    ) + (piece@ + rest) =~= out@.subrange(
                                                        head.len() as int,
                                                        out@.len() as int,
                                                    ) + rest);
                                                },
                                                Err(_) => {},
                                            }
                                        }
                                    },
                                }
                                k = k + 1;
                            }
                            let blp = emit_bl(bl.function_name.as_str());
                            out.append(blp.as_str());
                            let addp = emit_add_sp(aligned);
                            out.append(addp.as_str());
                            proof {
                                assert(marshal_args(
                                    blv.args,
                                    callee_model.args,
                                    n_args as int,
                                    frames,
                                    fnsm,
                                    stack_frame,
                                    aligned as nat,
                                    blv.function_name,
                                ) == Ok::<Seq<char>, CompileError>(Seq::<char>::empty()));
                                let body = marshal_args(
                                    blv.args,
                                    callee_model.args,
                                    0,
                                    frames,
                                    fnsm,
                                    stack_frame,
                                    aligned as nat,
                                    blv.function_name,
                                );
                                assert(out@ =~= sub_sp_text(aligned as nat) + body->Ok_0 + bl_text(
                                    blv.function_name@,
                                ) + add_sp_text(aligned as nat));
                            }
                            Ok(out)
                        },
                    }
                },
            },
        }
    }
}

/// The concatenated text of a frame's lowered statements from position `k`.
pub open spec fn gen_body_run(
    cgs: Seq<CgStatementModel>,
    k: int,
    frames: Seq<FrameModel>,
    fns: Seq<FunctionModel>,
    frame_idx: usize,
) -> Result<Seq<char>, CompileError>
    decreases cgs.len() - k,
{
    if k < 0 || k >= cgs.len() {
        Ok(Seq::empty())
    } else {
        match spec_gen_statement(cgs[k], frames, fns, frame_idx) {
            Err(e) => Err(e),
            Ok(t) => match gen_body_run(cgs, k + 1, frames, fns, frame_idx) {
                Ok(rest) => Ok(t + rest),
                Err(e) => Err(e),
            },
        }
    }
}

/// Two frames that differ at most in their allocation counter — the only
/// field code generation rewrites, when it re-aligns a frame.
pub open spec fn same_gen_skeleton(a: FrameModel, b: FrameModel) -> bool {
    &&& a.variables == b.variables
    &&& a.statements == b.statements
    &&& a.cg_statements == b.cg_statements
    &&& a.children == b.children
    &&& a.parent == b.parent
    &&& a.owning_function == b.owning_function
}

/// Two arenas that differ at most in allocation counters, frame by frame.
pub open spec fn gen_skeletons_match(a: Seq<FrameModel>, b: Seq<FrameModel>) -> bool {
    a.len() == b.len() && forall|i: int|
        0 <= i < a.len() ==> same_gen_skeleton(#[trigger] a[i], b[i])
}

/// Allocation counters stay where the generator can still align them: each
/// is its original value or that value already rounded up.

/// The visit order of the subtree rooted at `idx`: the frame itself, then
/// each child's subtree in children-list order. Generation never touches
/// the links, so the order is fixed by the arena's shape alone; `None` on
/// a malformed link.
pub open spec fn preorder(frames: Seq<FrameModel>, idx: int) -> Option<Seq<int>>
    decreases frames.len() - idx, 1int, 0int,
{
    if !(0 <= idx < frames.len()) {
        None
    } else {
        match preorder_children(frames, idx, 0) {
            None => None,
            Some(rest) => Some(seq![idx] + rest),
        }
    }
}

/// The concatenated visit orders of `idx`'s children from position `k` on.
pub open spec fn preorder_children(frames: Seq<FrameModel>, idx: int, k: int) -> Option<Seq<int>>
    decreases frames.len() - idx, 0int, frames[idx].children.len() - k,
{
    if !(0 <= idx < frames.len()) {
        None
    } else if !(0 <= k < frames[idx].children.len()) {
        Some(Seq::empty())
    } else {
        let c = frames[idx].children[k] as int;
        if !(idx < c < frames.len()) {
            None
        } else {
            match (preorder(frames, c), preorder_children(frames, idx, k + 1)) {
                (Some(a), Some(b)) => Some(a + b),
                _ => None,
            }
        }
    }
}

/// Allocation counters the generator can still align: each fits with its
/// saved-pair slack, and is either still unaligned with room for the
/// round-up or already a multiple of 16 (aligning again changes nothing).
pub open spec fn allocs_alignable(frames: Seq<FrameModel>) -> bool {
    forall|i: int|
        0 <= i < frames.len() ==> (#[trigger] frames[i]).stack_mem_allocated + 16 <= usize::MAX
            && (frames[i].stack_mem_allocated % 16 == 0 || frames[i].stack_mem_allocated + 31
            <= usize::MAX)
}

/// The generation walk over an explicit visit order: each visited frame is
/// re-aligned, then contributes its prologue, statement text and epilogue,
/// threading the evolving arena left to right. `None` when an entry is out
/// of range or a counter cannot be aligned — cases the walk's callers rule
/// out.
pub open spec fn gen_walk(
    fns: Seq<FunctionModel>,
    frames: Seq<FrameModel>,
    order: Seq<int>,
) -> Option<Result<(Seq<char>, Seq<FrameModel>), CompileError>>
    decreases order.len(),
{
    if order.len() == 0 {
        Some(Ok((Seq::empty(), frames)))
    } else {
        let idx = order[0];
        if !(0 <= idx < frames.len()) || frames[idx].stack_mem_allocated + 16 > usize::MAX {
            None
        } else {
            let f = frames[idx];
            let aligned = spec_align(f.stack_mem_allocated, 16);
            let frames2 = frames.update(idx, FrameModel { stack_mem_allocated: aligned, ..f });
            match gen_body_run(f.cg_statements, 0, frames2, fns, idx as usize) {
                Err(e) => Some(Err(e)),
                Ok(body) => match gen_walk(fns, frames2, order.drop_first()) {
                    None => None,
                    Some(Err(e)) => Some(Err(e)),
                    Some(Ok((rest, frames3))) => Some(
                        Ok(
                            (
                                prologue_text(aligned) + body + epilogue_text(aligned) + rest,
                                frames3,
                            ),
                        ),
                    ),
                },
            }
        }
    }
}

/// The whole generated program: per registered function, in table order,
/// its label and the generation walk of its frame tree, threading the
/// re-aligned frames left to right.
pub open spec fn run_all_functions(
    fns: Seq<FunctionModel>,
    k: int,
    frames: Seq<FrameModel>,
) -> Option<Result<(Seq<char>, Seq<FrameModel>), CompileError>>
    decreases fns.len() - k,
{
    if !(0 <= k < fns.len()) {
        Some(Ok((Seq::empty(), frames)))
    } else {
        let first = fns[k].first_stack_frame;
        match preorder(frames, first as int) {
            None => None,
            Some(order) => match gen_walk(fns, frames, order) {
                None => None,
                Some(Err(e)) => Some(Err(e)),
                Some(Ok((text, frames2))) => match run_all_functions(fns, k + 1, frames2) {
                    None => None,
                    Some(Err(e)) => Some(Err(e)),
                    Some(Ok((rest, frames3))) => Some(
                        Ok((label_text(fns[k].name@) + text + rest, frames3)),
                    ),
                },
            },
        }
    }
}

impl CodeGenerator {
    /// Emits the prologue for `stack_frame` and re-aligns its recorded
    /// allocation to the next multiple of 16.
    pub fn initialize_stack_frame(&self, pd: &mut ProgramData, stack_frame: usize) -> (s: String)
        requires
            stack_frame < old(pd).stack_frames@.len(),
            frames_view(old(pd).stack_frames)[stack_frame as int].stack_mem_allocated + 16
                <= usize::MAX,
        ensures
            ({
                let f = frames_view(old(pd).stack_frames)[stack_frame as int];
                let aligned = spec_align(f.stack_mem_allocated, 16);
                &&& frames_view(final(pd).stack_frames) == frames_view(old(pd).stack_frames)
                    .update(
                    stack_frame as int,
                    FrameModel { stack_mem_allocated: aligned, ..f },
                )
                &&& s@ == prologue_text(aligned)
            }),
            final(pd).statements == old(pd).statements,
            final(pd).functions == old(pd).functions,
            final(pd).tokens == old(pd).tokens,
            final(pd).source_code == old(pd).source_code,
            final(pd).errors == old(pd).errors,
    {
        proof {
            assert(frames_view(pd.stack_frames)[stack_frame as int] == pd.stack_frames@[
                stack_frame as int]@);
        }
        let mem = pd.stack_frames[stack_frame].stack_mem_allocated;
        let aligned = crate::general_functions::align_memory(mem, 16);
        let fr = &mut pd.stack_frames[stack_frame];
        fr.stack_mem_allocated = aligned;
        let mut s = String::from_str("stp x29, x30, [sp, #-16]!\nmov x29, sp\n");
        if aligned != 0 {
            let sub = emit_sub_sp(aligned);
            s.append(sub.as_str());
        }
        proof {
            let f = frames_view(old(pd).stack_frames)[stack_frame as int];
            assert(frames_view(pd.stack_frames) =~~= frames_view(old(pd).stack_frames).update(
                stack_frame as int,
                FrameModel { stack_mem_allocated: spec_align(f.stack_mem_allocated, 16), ..f },
            ));
            assert(s@ =~= prologue_text(spec_align(f.stack_mem_allocated, 16)));
        }
        s
    }

    /// Emits the epilogue for `stack_frame` from its recorded (already
    /// aligned) allocation.
    pub fn return_stack_frame(&self, pd: &ProgramData, stack_frame: usize) -> (s: String)
        requires
            stack_frame < pd.stack_frames@.len(),
        ensures
            s@ == epilogue_text(
                frames_view(pd.stack_frames)[stack_frame as int].stack_mem_allocated,
            ),
    {
        proof {
            assert(frames_view(pd.stack_frames)[stack_frame as int] == pd.stack_frames@[
                stack_frame as int]@);
        }
        let mem = pd.stack_frames[stack_frame].stack_mem_allocated;
        let mut s = String::new();
        if mem != 0 {
            let add = emit_add_sp(mem);
            s.append(add.as_str());
        }
        s.append("ldp x29, x30, [sp], #16\nret\n");
        proof {
            assert(s@ =~= epilogue_text(
                frames_view(pd.stack_frames)[stack_frame as int].stack_mem_allocated,
            ));
        }
        s
    }

    /// Emits one frame's routine text: prologue (re-aligning the frame),
    /// each lowered statement in order, epilogue.
    pub fn process_stack_frame(&self, pd: &mut ProgramData, stack_frame: usize) -> (r: Result<
        String,
        CompileError,
    >)
        requires
            stack_frame < old(pd).stack_frames@.len(),
            crate::program_data::frame_links_wf(frames_view(old(pd).stack_frames)),
            frames_view(old(pd).stack_frames)[stack_frame as int].stack_mem_allocated + 16
                <= usize::MAX,
        ensures
            ({
                let f = frames_view(old(pd).stack_frames)[stack_frame as int];
                let aligned = spec_align(f.stack_mem_allocated, 16);
                let frames2 = frames_view(old(pd).stack_frames).update(
                    stack_frame as int,
                    FrameModel { stack_mem_allocated: aligned, ..f },
                );
                &&& frames_view(final(pd).stack_frames) == frames2
                &&& match (r, gen_body_run(
                    f.cg_statements,
                    0,
                    frames2,
                    fns_view(old(pd).functions),
                    stack_frame,
                )) {
                    (Ok(s), Ok(body)) => s@ == prologue_text(aligned) + body + epilogue_text(
                        aligned,
                    ),
                    (Err(e1), Err(e2)) => e1 == e2,
                    _ => false,
                }
            }),
            final(pd).statements == old(pd).statements,
            final(pd).functions == old(pd).functions,
            final(pd).tokens == old(pd).tokens,
            final(pd).source_code == old(pd).source_code,
            final(pd).errors == old(pd).errors,
    {
        let ghost frames0 = frames_view(old(pd).stack_frames);
        let ghost f0 = frames0[stack_frame as int];
        let ghost fnsm = fns_view(old(pd).functions);
        let mut out = self.initialize_stack_frame(pd, stack_frame);
        let ghost aligned = spec_align(f0.stack_mem_allocated, 16);
        let ghost frames2 = frames0.update(
            stack_frame as int,
            FrameModel { stack_mem_allocated: aligned, ..f0 },
        );
        let ghost head = prologue_text(aligned);
        proof {
            crate::scope_analysis::lemma_frames_update_links(
                frames0,
                stack_frame as int,
                FrameModel { stack_mem_allocated: aligned, ..f0 },
            );
            assert(frames2[stack_frame as int].cg_statements == f0.cg_statements);
        }
        let n = pd.stack_frames[stack_frame].cg_statements.len();
        proof {
            assert(frames_view(pd.stack_frames)[stack_frame as int] == pd.stack_frames@[
                stack_frame as int]@);
            assert(n == f0.cg_statements.len());
        }
        let mut k: usize = 0;
        while k < n
            invariant
                k <= n,
                n == f0.cg_statements.len(),
                stack_frame < pd.stack_frames@.len(),
                stack_frame < old(pd).stack_frames@.len(),
                frames0 == frames_view(old(pd).stack_frames),
                f0 == frames0[stack_frame as int],
                aligned == spec_align(f0.stack_mem_allocated, 16),
                frames2 == frames0.update(
                    stack_frame as int,
                    FrameModel { stack_mem_allocated: aligned, ..f0 },
                ),
                head == prologue_text(aligned),
                frames_view(pd.stack_frames) == frames2,
                crate::program_data::frame_links_wf(frames2),
                fnsm == fns_view(pd.functions),
                fnsm == fns_view(old(pd).functions),
                pd.statements == old(pd).statements,
                pd.functions == old(pd).functions,
                pd.tokens == old(pd).tokens,
                pd.source_code == old(pd).source_code,
                pd.errors == old(pd).errors,
                head.len() <= out@.len(),
                out@.subrange(0, head.len() as int) == head,
                gen_body_run(f0.cg_statements, 0, frames2, fnsm, stack_frame) == (match
                    gen_body_run(f0.cg_statements, k as int, frames2, fnsm, stack_frame) {
                    Ok(rest) => Ok(
                        out@.subrange(head.len() as int, out@.len() as int) + rest,
                    ),
                    Err(e) => Err::<Seq<char>, CompileError>(e),
                }),
            decreases n - k,
        {
            let ghost out_pre = out@;
            proof {
                assert(frames_view(pd.stack_frames)[stack_frame as int] == pd.stack_frames@[
                    stack_frame as int]@);
                assert(pd.stack_frames@[stack_frame as int]@.cg_statements[k as int]
                    == f0.cg_statements[k as int]);
            }
            let stmt = &pd.stack_frames[stack_frame].cg_statements[k];
            let res = self.generate_statement(pd, stmt, stack_frame);
            match res {
                Err(e) => {
                    proof {
                        assert(stmt@ == f0.cg_statements[k as int]);
                        assert(gen_body_run(f0.cg_statements, k as int, frames2, fnsm, stack_frame)
                            == Err::<Seq<char>, CompileError>(e));
                    }
                    return Err(e);
                },
                Ok(piece) => {
                    out.append(piece.as_str());
                    proof {
                        assert(stmt@ == f0.cg_statements[k as int]);
                        assert(out@.subrange(0, head.len() as int) =~= head);
                        assert(out@.subrange(head.len() as int, out@.len() as int)
                            =~= out_pre.subrange(head.len() as int, out_pre.len() as int)
                            + piece@);
                        let rest_k1 = gen_body_run(
                            f0.cg_statements,
                            k + 1,
                            frames2,
                            fnsm,
                            stack_frame,
                        );
                        match rest_k1 {
                            Ok(rest) => {
                                assert(out_pre.subrange(
                                    head.len() as int,
                                    out_pre.len() as int,
                                ) + (piece@ + rest) =~= out@.subrange(
                                    head.len() as int,
                                    out@.len() as int,
                                ) + rest);
                            },
                            Err(_) => {},
                        }
                    }
                },
            }
            k = k + 1;
        }
        let epi = self.return_stack_frame(pd, stack_frame);
        out.append(epi.as_str());
        proof {
            assert(gen_body_run(f0.cg_statements, n as int, frames2, fnsm, stack_frame)
                == Ok::<Seq<char>, CompileError>(Seq::<char>::empty()));
            let body = gen_body_run(f0.cg_statements, 0, frames2, fnsm, stack_frame);
            assert(frames2[stack_frame as int].stack_mem_allocated == aligned);
            assert(out@ =~= prologue_text(aligned) + body->Ok_0 + epilogue_text(aligned));
        }
        Ok(out)
    }
}

impl CodeGenerator {
    /// Emits the subtree rooted at `stack_frame_index`: the frame's own
    /// routine text first, then each child subtree's, appended in
    /// children-list order so that nothing the tree compiles is dropped
    /// from the output. The result is exactly [`gen_walk`] over the
    /// subtree's [`preorder`].
    pub fn traverse_stack_frame_children(
        &self,
        pd: &mut ProgramData,
        stack_frame_index: usize,
    ) -> (r: Result<String, CompileError>)
        requires
            stack_frame_index < old(pd).stack_frames@.len(),
            crate::program_data::frame_links_wf(frames_view(old(pd).stack_frames)),
            allocs_alignable(frames_view(old(pd).stack_frames)),
        ensures
            final(pd).statements == old(pd).statements,
            final(pd).functions == old(pd).functions,
            final(pd).tokens == old(pd).tokens,
            final(pd).source_code == old(pd).source_code,
            final(pd).errors == old(pd).errors,
            gen_skeletons_match(
                frames_view(final(pd).stack_frames),
                frames_view(old(pd).stack_frames),
            ),
            allocs_alignable(frames_view(final(pd).stack_frames)),
            ({
                match preorder(frames_view(old(pd).stack_frames), stack_frame_index as int) {
                    None => true,
                    Some(order) => match gen_walk(
                        fns_view(old(pd).functions),
                        frames_view(old(pd).stack_frames),
                        order,
                    ) {
                        Some(Ok((text, frames3))) => r matches Ok(s) && s@ == text && frames_view(
                            final(pd).stack_frames,
                        ) == frames3,
                        Some(Err(e)) => r == Err::<String, CompileError>(e),
                        None => true,
                    },
                }
            }),
        decreases old(pd).stack_frames@.len() - stack_frame_index,
    {
        let ghost frames_in = frames_view(old(pd).stack_frames);
        let ghost fnsm = fns_view(old(pd).functions);
        let ghost idx = stack_frame_index as int;
        proof {
            lemma_preorder_props(frames_in, idx);
            assert(frames_view(pd.stack_frames)[idx] == pd.stack_frames@[idx]@);
        }
        let ghost order = preorder(frames_in, idx)->Some_0;
        let mut out: String;
        match self.process_stack_frame(pd, stack_frame_index) {
            Err(e) => {
                proof {
                    assert(order[0] == idx);
                    assert(gen_walk(fnsm, frames_in, order) == Some(
                        Err::<(Seq<char>, Seq<FrameModel>), CompileError>(e),
                    ));
                    lemma_alignable_after_update(frames_in, idx);
                }
                return Err(e);
            },
            Ok(s) => {
                out = s;
            },
        }
        let ghost frames_mid = frames_view(pd.stack_frames);
        proof {
            lemma_alignable_after_update(frames_in, idx);
            lemma_preorder_children_props(frames_in, idx, 0);
            assert(order.drop_first() =~= preorder_children(frames_in, idx, 0)->Some_0);
        }
        let n_children = pd.stack_frames[stack_frame_index].children.len();
        proof {
            assert(frames_mid[idx] == pd.stack_frames@[idx]@);
            assert(same_gen_skeleton(frames_mid[idx], frames_in[idx]));
            assert(n_children == frames_in[idx].children.len());
            // the walk over the whole order is the frame's own text plus the
            // walk over the children's concatenated orders
            let suffix0 = preorder_children(frames_in, idx, 0)->Some_0;
            assert forall|j: int| 0 <= j < suffix0.len() implies 0 <= #[trigger] suffix0[j]
                < frames_mid.len() by {
                assert(suffix0[j] == order.drop_first()[j]);
                assert(order.drop_first()[j] == order[j + 1]);
            }
            lemma_gen_walk_defined(fnsm, frames_mid, suffix0);
        }
        let mut k: usize = 0;
        while k < n_children
            invariant
                k <= n_children,
                stack_frame_index < old(pd).stack_frames@.len(),
                idx == stack_frame_index as int,
                frames_in == frames_view(old(pd).stack_frames),
                fnsm == fns_view(old(pd).functions),
                crate::program_data::frame_links_wf(frames_in),
                allocs_alignable(frames_in),
                n_children == frames_in[idx].children.len(),
                preorder(frames_in, idx) == Some(order),
                pd.statements == old(pd).statements,
                pd.functions == old(pd).functions,
                pd.tokens == old(pd).tokens,
                pd.source_code == old(pd).source_code,
                pd.errors == old(pd).errors,
                gen_skeletons_match(frames_view(pd.stack_frames), frames_in),
                allocs_alignable(frames_view(pd.stack_frames)),
                ({
                    let suffix = preorder_children(frames_in, idx, k as int)->Some_0;
                    match gen_walk(fnsm, frames_view(pd.stack_frames), suffix) {
                        Some(Ok((t, fr))) => gen_walk(fnsm, frames_in, order) == Some(
                            Ok::<(Seq<char>, Seq<FrameModel>), CompileError>((out@ + t, fr)),
                        ),
                        Some(Err(e)) => gen_walk(fnsm, frames_in, order) == Some(
                            Err::<(Seq<char>, Seq<FrameModel>), CompileError>(e),
                        ),
                        None => false,
                    }
                }),
            decreases n_children - k,
        {
            let ghost frames_k = frames_view(pd.stack_frames);
            let ghost out_k = out@;
            proof {
                lemma_preorder_children_props(frames_in, idx, k as int);
                assert(same_gen_skeleton(frames_k[idx], frames_in[idx]));
                assert(frames_k[idx] == pd.stack_frames@[idx]@);
            }
            let child = pd.stack_frames[stack_frame_index].children[k];
            proof {
                assert(child == frames_in[idx].children[k as int]);
                assert(idx < child < frames_in.len());
                lemma_gen_skeletons_carry(frames_k, frames_in);
                lemma_preorder_props(frames_in, child as int);
                lemma_preorder_children_props(frames_in, idx, k + 1);
            }
            let ghost co = preorder(frames_in, child as int)->Some_0;
            let ghost rest_suffix = preorder_children(frames_in, idx, k + 1)->Some_0;
            proof {
                assert(preorder_children(frames_in, idx, k as int)->Some_0 == co + rest_suffix);
                assert forall|j: int| 0 <= j < co.len() implies 0 <= #[trigger] co[j]
                    < frames_k.len() by {}
                lemma_gen_walk_defined(fnsm, frames_k, co);
                lemma_gen_walk_append(fnsm, frames_k, co, rest_suffix);
                lemma_preorder_stable(frames_k, frames_in, child as int);
            }
            let res = self.traverse_stack_frame_children(pd, child);
            match res {
                Err(e) => {
                    return Err(e);
                },
                Ok(piece) => {
                    out.append(piece.as_str());
                    proof {
                        let frames_new = frames_view(pd.stack_frames);
                        assert(gen_walk(fnsm, frames_k, co) == Some(
                            Ok::<(Seq<char>, Seq<FrameModel>), CompileError>(
                                (piece@, frames_new),
                            ),
                        ));
                        lemma_gen_skeletons_trans(frames_new, frames_k, frames_in);
                        assert forall|j: int|
                            0 <= j < rest_suffix.len() implies 0 <= #[trigger] rest_suffix[j]
                            < frames_new.len() by {}
                        lemma_gen_walk_defined(fnsm, frames_new, rest_suffix);
                        match gen_walk(fnsm, frames_new, rest_suffix) {
                            Some(Ok((t2, fr2))) => {
                                assert(out_k + (piece@ + t2) =~= out@ + t2);
                            },
                            _ => {},
                        }
                    }
                },
            }
            k = k + 1;
        }
        proof {
            assert(preorder_children(frames_in, idx, n_children as int)
                == Some(Seq::<int>::empty()));
            assert(gen_walk(fnsm, frames_view(pd.stack_frames), Seq::<int>::empty()) == Some(
                Ok::<(Seq<char>, Seq<FrameModel>), CompileError>(
                    (Seq::<char>::empty(), frames_view(pd.stack_frames)),
                ),
            ));
            assert(out@ + Seq::<char>::empty() =~= out@);
        }
        Ok(out)
    }
}

/// Re-aligning one frame keeps the arena's shape and its counters alignable.
proof fn lemma_alignable_after_update(frames: Seq<FrameModel>, idx: int)
    requires
        allocs_alignable(frames),
        0 <= idx < frames.len(),
    ensures
        ({
            let f = frames[idx];
            let frames2 = frames.update(
                idx,
                FrameModel {
                    stack_mem_allocated: spec_align(f.stack_mem_allocated, 16),
                    ..f
                },
            );
            allocs_alignable(frames2) && gen_skeletons_match(frames2, frames)
        }),
{
    let f = frames[idx];
    lemma_align16_divides(f.stack_mem_allocated);
    lemma_align16_idempotent(f.stack_mem_allocated);
    let frames2 = frames.update(
        idx,
        FrameModel { stack_mem_allocated: spec_align(f.stack_mem_allocated, 16), ..f },
    );
    assert forall|i: int|
        0 <= i < frames2.len() implies (#[trigger] frames2[i]).stack_mem_allocated + 16
        <= usize::MAX && (frames2[i].stack_mem_allocated % 16 == 0 || frames2[
        i].stack_mem_allocated + 31 <= usize::MAX) by {
        if i != idx {
            assert(frames2[i] == frames[i]);
        }
    }
    assert forall|i: int| 0 <= i < frames2.len() implies same_gen_skeleton(
        #[trigger] frames2[i],
        frames[i],
    ) by {
        if i != idx {
            assert(frames2[i] == frames[i]);
        }
    }
}

impl CodeGenerator {
    /// Emits the subtree rooted at `stack_frame_index` as one routine body:
    /// the frame's own text, then each child subtree's, exactly
    /// [`gen_walk`] over the subtree's [`preorder`].
    pub fn process_stack_frame_and_children(
        &self,
        pd: &mut ProgramData,
        stack_frame_index: usize,
    ) -> (r: Result<String, CompileError>)
        requires
            stack_frame_index < old(pd).stack_frames@.len(),
            crate::program_data::frame_links_wf(frames_view(old(pd).stack_frames)),
            allocs_alignable(frames_view(old(pd).stack_frames)),
        ensures
            final(pd).statements == old(pd).statements,
            final(pd).functions == old(pd).functions,
            final(pd).tokens == old(pd).tokens,
            final(pd).source_code == old(pd).source_code,
            final(pd).errors == old(pd).errors,
            gen_skeletons_match(
                frames_view(final(pd).stack_frames),
                frames_view(old(pd).stack_frames),
            ),
            allocs_alignable(frames_view(final(pd).stack_frames)),
            ({
                match preorder(frames_view(old(pd).stack_frames), stack_frame_index as int) {
                    None => true,
                    Some(order) => match gen_walk(
                        fns_view(old(pd).functions),
                        frames_view(old(pd).stack_frames),
                        order,
                    ) {
                        Some(Ok((text, frames3))) => r matches Ok(s) && s@ == text && frames_view(
                            final(pd).stack_frames,
                        ) == frames3,
                        Some(Err(e)) => r == Err::<String, CompileError>(e),
                        None => true,
                    },
                }
            }),
    {
        self.traverse_stack_frame_children(pd, stack_frame_index)
    }

    /// Emits the whole program: per registered function, in table order, a
    /// `_<name>:` label followed by its compiled frame tree — exactly
    /// [`run_all_functions`], which threads the re-aligned frames through
    /// every function's [`gen_walk`].
    pub fn process_all_functions(&self, pd: &mut ProgramData) -> (r: Result<String, CompileError>)
        requires
            crate::program_data::frame_links_wf(frames_view(old(pd).stack_frames)),
            crate::program_data::functions_wf(
                fns_view(old(pd).functions),
                frames_view(old(pd).stack_frames),
            ),
            allocs_alignable(frames_view(old(pd).stack_frames)),
        ensures
            final(pd).statements == old(pd).statements,
            final(pd).functions == old(pd).functions,
            final(pd).tokens == old(pd).tokens,
            final(pd).source_code == old(pd).source_code,
            final(pd).errors == old(pd).errors,
            gen_skeletons_match(
                frames_view(final(pd).stack_frames),
                frames_view(old(pd).stack_frames),
            ),
            allocs_alignable(frames_view(final(pd).stack_frames)),
            ({
                match run_all_functions(
                    fns_view(old(pd).functions),
                    0,
                    frames_view(old(pd).stack_frames),
                ) {
                    Some(Ok((text, frames3))) => r matches Ok(s) && s@ == text && frames_view(
                        final(pd).stack_frames,
                    ) == frames3,
                    Some(Err(e)) => r == Err::<String, CompileError>(e),
                    None => true,
                }
            }),
    {
        let ghost frames0 = frames_view(old(pd).stack_frames);
        let ghost fnsm = fns_view(old(pd).functions);
        let nf = pd.functions.len();
        let mut out = String::new();
        proof {
            lemma_gen_skeletons_refl(frames0);
        }
        let mut j: usize = 0;
        while j < nf
            invariant
                j <= nf,
                nf == fnsm.len(),
                frames0 == frames_view(old(pd).stack_frames),
                fnsm == fns_view(old(pd).functions),
                crate::program_data::frame_links_wf(frames0),
                crate::program_data::functions_wf(fnsm, frames0),
                allocs_alignable(frames0),
                pd.statements == old(pd).statements,
                pd.functions == old(pd).functions,
                pd.tokens == old(pd).tokens,
                pd.source_code == old(pd).source_code,
                pd.errors == old(pd).errors,
                gen_skeletons_match(frames_view(pd.stack_frames), frames0),
                allocs_alignable(frames_view(pd.stack_frames)),
                run_all_functions(fnsm, 0, frames0) == (match run_all_functions(
                    fnsm,
                    j as int,
                    frames_view(pd.stack_frames),
                ) {
                    Some(Ok((t, fr))) => Some(
                        Ok::<(Seq<char>, Seq<FrameModel>), CompileError>((out@ + t, fr)),
                    ),
                    Some(Err(e)) => Some(
                        Err::<(Seq<char>, Seq<FrameModel>), CompileError>(e),
                    ),
                    None => None,
                }),
            decreases nf - j,
        {
            let ghost frames_pre = frames_view(pd.stack_frames);
            let ghost out_pre = out@;
            let first = pd.functions[j].first_stack_frame;
            proof {
                assert(fnsm[j as int] == pd.functions@[j as int]@);
                assert(first == fnsm[j as int].first_stack_frame);
                assert(first < frames0.len());
                lemma_gen_skeletons_carry(frames_pre, frames0);
                lemma_preorder_props(frames_pre, first as int);
                let order_j = preorder(frames_pre, first as int)->Some_0;
                lemma_gen_walk_defined(fnsm, frames_pre, order_j);
            }
            let lbl = emit_label(pd.functions[j].name.as_str());
            out.append(lbl.as_str());
            let res = self.traverse_stack_frame_children(pd, first);
            match res {
                Err(e) => {
                    proof {
                        assert(run_all_functions(fnsm, j as int, frames_pre) == Some(
                            Err::<(Seq<char>, Seq<FrameModel>), CompileError>(e),
                        ));
                    }
                    return Err(e);
                },
                Ok(piece) => {
                    out.append(piece.as_str());
                    proof {
                        let frames_new = frames_view(pd.stack_frames);
                        let order_j = preorder(frames_pre, first as int)->Some_0;
                        assert(gen_walk(fnsm, frames_pre, order_j) == Some(
                            Ok::<(Seq<char>, Seq<FrameModel>), CompileError>(
                                (piece@, frames_new),
                            ),
                        ));
                        lemma_gen_skeletons_trans(frames_new, frames_pre, frames0);
                        match run_all_functions(fnsm, j + 1, frames_new) {
                            Some(Ok((t2, fr2))) => {
                                assert(out_pre + (label_text(fnsm[j as int].name@) + piece@ + t2)
                                    =~= out@ + t2);
                            },
                            _ => {},
                        }
                    }
                },
            }
            j = j + 1;
        }
        proof {
            assert(run_all_functions(fnsm, nf as int, frames_view(pd.stack_frames)) == Some(
                Ok::<(Seq<char>, Seq<FrameModel>), CompileError>(
                    (Seq::<char>::empty(), frames_view(pd.stack_frames)),
                ),
            ));
            assert(out@ + Seq::<char>::empty() =~= out@);
        }
        Ok(out)
    }
}

/// Law: a frame's prologue allocation is its declared byte total rounded up
/// to the next multiple of 16 — the least multiple of 16 that holds it —
/// and the epilogue takes its restoration from the very same recorded
/// amount, so the two cancel exactly.
pub proof fn lemma_prologue_epilogue_round_trip(bytes: nat)
    ensures
        spec_align(bytes, 16) % 16 == 0,
        bytes <= spec_align(bytes, 16) < bytes + 16,
        forall|m: nat| #[trigger] (m % 16) == 0 && m >= bytes ==> spec_align(bytes, 16) <= m,
        spec_align(bytes, 16) != 0 ==> prologue_text(spec_align(bytes, 16))
            == "stp x29, x30, [sp, #-16]!\nmov x29, sp\n"@ + sub_sp_text(spec_align(bytes, 16))
            && epilogue_text(spec_align(bytes, 16)) == add_sp_text(spec_align(bytes, 16))
            + "ldp x29, x30, [sp], #16\nret\n"@,
{
    lemma_align16_divides(bytes);
    assert forall|m: nat| #[trigger] (m % 16) == 0 && m >= bytes implies spec_align(bytes, 16)
        <= m by {
        if m < spec_align(bytes, 16) {
            let q = bytes as int / 16;
            let r = bytes as int % 16;
            vstd::arithmetic::div_mod::lemma_fundamental_div_mod(bytes as int, 16);
            assert(r != 0);
            assert(16 * q + r <= m < 16 * q + 16);
            vstd::arithmetic::div_mod::lemma_fundamental_div_mod_converse(
                m as int,
                16,
                q,
                m as int - 16 * q,
            );
            assert(m as int % 16 == m as int - 16 * q);
        }
    }
}

proof fn lemma_gen_skeletons_refl(a: Seq<FrameModel>)
    ensures
        gen_skeletons_match(a, a),
{
}

proof fn lemma_gen_skeletons_trans(a: Seq<FrameModel>, b: Seq<FrameModel>, c: Seq<FrameModel>)
    requires
        gen_skeletons_match(a, b),
        gen_skeletons_match(b, c),
    ensures
        gen_skeletons_match(a, c),
{
    assert forall|i: int| 0 <= i < a.len() implies same_gen_skeleton(#[trigger] a[i], c[i]) by {
        assert(same_gen_skeleton(a[i], b[i]));
        assert(same_gen_skeleton(b[i], c[i]));
    }
}


/// Rounding up to 16 twice is the same as once.
proof fn lemma_align16_idempotent(n: nat)
    ensures
        spec_align(spec_align(n, 16), 16) == spec_align(n, 16),
{
    lemma_align16_divides(n);
}

/// The rounded value is a multiple of 16 at least `n`, less than `n + 16`.
pub proof fn lemma_align16_divides(n: nat)
    ensures
        spec_align(n, 16) % 16 == 0,
        n <= spec_align(n, 16) < n + 16,
{
    let m = n as int;
    vstd::arithmetic::div_mod::lemma_fundamental_div_mod(m, 16);
    if m % 16 != 0 {
        assert(m + (16 - m % 16) == 16 * (m / 16 + 1)) by (nonlinear_arith)
            requires
                m == 16 * (m / 16) + m % 16,
        ;
        assert((16 * (m / 16 + 1)) % 16 == 0) by (nonlinear_arith);
    }
}

/// Links only read skeleton fields, so they carry to a generation-matched
/// arena.
proof fn lemma_gen_skeletons_carry(a: Seq<FrameModel>, b: Seq<FrameModel>)
    requires
        gen_skeletons_match(a, b),
        crate::program_data::frame_links_wf(b),
    ensures
        crate::program_data::frame_links_wf(a),
{
    assert forall|i: int| 0 <= i < a.len() implies ((#[trigger] a[i]).parent
        == crate::stack_frame::NO_PARENT || a[i].parent < i) && (forall|k: int|
        0 <= k < a[i].children.len() ==> i < #[trigger] a[i].children[k] < a.len()) by {
        assert(same_gen_skeleton(a[i], b[i]));
        assert((b[i].parent == crate::stack_frame::NO_PARENT || b[i].parent < i) && (forall|k: int|
            0 <= k < b[i].children.len() ==> i < #[trigger] b[i].children[k] < b.len()));
    }
}

/// Under the arena's link discipline every subtree's visit order is
/// defined, and its entries lie between the root and the arena's end.
pub proof fn lemma_preorder_props(frames: Seq<FrameModel>, idx: int)
    requires
        crate::program_data::frame_links_wf(frames),
        0 <= idx < frames.len(),
    ensures
        preorder(frames, idx) matches Some(order) && forall|j: int|
            0 <= j < order.len() ==> idx <= #[trigger] order[j] < frames.len(),
    decreases frames.len() - idx, 1int, 0int,
{
    lemma_preorder_children_props(frames, idx, 0);
    let rest = preorder_children(frames, idx, 0)->Some_0;
    let order = seq![idx] + rest;
    assert forall|j: int| 0 <= j < order.len() implies idx <= #[trigger] order[j]
        < frames.len() by {
        if j > 0 {
            assert(order[j] == rest[j - 1]);
        }
    }
}

proof fn lemma_preorder_children_props(frames: Seq<FrameModel>, idx: int, k: int)
    requires
        crate::program_data::frame_links_wf(frames),
        0 <= idx < frames.len(),
    ensures
        preorder_children(frames, idx, k) matches Some(rest) && forall|j: int|
            0 <= j < rest.len() ==> idx < #[trigger] rest[j] < frames.len(),
    decreases frames.len() - idx, 0int, frames[idx].children.len() - k,
{
    if 0 <= k < frames[idx].children.len() {
        let c = frames[idx].children[k] as int;
        assert(idx < c < frames.len());
        lemma_preorder_props(frames, c);
        lemma_preorder_children_props(frames, idx, k + 1);
        let a = preorder(frames, c)->Some_0;
        let b = preorder_children(frames, idx, k + 1)->Some_0;
        let rest = a + b;
        assert forall|j: int| 0 <= j < rest.len() implies idx < #[trigger] rest[j]
            < frames.len() by {
            if j < a.len() {
                assert(rest[j] == a[j]);
            } else {
                assert(rest[j] == b[j - a.len()]);
            }
        }
    }
}

/// The visit order reads only lengths and child links, so it is the same
/// for two arenas that differ at most in allocation counters.
pub proof fn lemma_preorder_stable(a: Seq<FrameModel>, b: Seq<FrameModel>, idx: int)
    requires
        gen_skeletons_match(a, b),
    ensures
        preorder(a, idx) == preorder(b, idx),
    decreases a.len() - idx, 1int, 0int,
{
    if 0 <= idx < a.len() {
        lemma_preorder_children_stable(a, b, idx, 0);
    }
}

proof fn lemma_preorder_children_stable(a: Seq<FrameModel>, b: Seq<FrameModel>, idx: int, k: int)
    requires
        gen_skeletons_match(a, b),
        0 <= idx < a.len(),
    ensures
        preorder_children(a, idx, k) == preorder_children(b, idx, k),
    decreases a.len() - idx, 0int, a[idx].children.len() - k,
{
    assert(same_gen_skeleton(a[idx], b[idx]));
    if 0 <= k < a[idx].children.len() {
        let c = a[idx].children[k] as int;
        if idx < c < a.len() {
            lemma_preorder_stable(a, b, c);
            lemma_preorder_children_stable(a, b, idx, k + 1);
        }
    }
}

/// Splitting a visit order splits the walk: the front's threaded arena
/// feeds the back, and the texts concatenate.
pub proof fn lemma_gen_walk_append(
    fns: Seq<FunctionModel>,
    frames: Seq<FrameModel>,
    a: Seq<int>,
    b: Seq<int>,
)
    ensures
        gen_walk(fns, frames, a + b) == (match gen_walk(fns, frames, a) {
            None => None,
            Some(Err(e)) => Some(Err::<(Seq<char>, Seq<FrameModel>), CompileError>(e)),
            Some(Ok((t, fr))) => match gen_walk(fns, fr, b) {
                None => None,
                Some(Err(e)) => Some(Err::<(Seq<char>, Seq<FrameModel>), CompileError>(e)),
                Some(Ok((t2, fr2))) => Some(
                    Ok::<(Seq<char>, Seq<FrameModel>), CompileError>((t + t2, fr2)),
                ),
            },
        }),
    decreases a.len(),
{
    if a.len() == 0 {
        assert(a + b =~= b);
        match gen_walk(fns, frames, b) {
            Some(Ok((t2, fr2))) => {
                assert(Seq::<char>::empty() + t2 =~= t2);
            },
            _ => {},
        }
    } else {
        let ab = a + b;
        assert(ab.len() > 0 && ab[0] == a[0]);
        let idx = a[0];
        if 0 <= idx < frames.len() && frames[idx].stack_mem_allocated + 16 <= usize::MAX {
            let f = frames[idx];
            let aligned = spec_align(f.stack_mem_allocated, 16);
            let frames2 = frames.update(idx, FrameModel { stack_mem_allocated: aligned, ..f });
            match gen_body_run(f.cg_statements, 0, frames2, fns, idx as usize) {
                Err(e) => {},
                Ok(body) => {
                    assert(ab.drop_first() =~= a.drop_first() + b);
                    lemma_gen_walk_append(fns, frames2, a.drop_first(), b);
                    let own = prologue_text(aligned) + body + epilogue_text(aligned);
                    match gen_walk(fns, frames2, a.drop_first()) {
                        Some(Ok((t, fr))) => {
                            match gen_walk(fns, fr, b) {
                                Some(Ok((t2, fr2))) => {
                                    assert(own + (t + t2) =~= (own + t) + t2);
                                },
                                _ => {},
                            }
                        },
                        _ => {},
                    }
                },
            }
        }
    }
}

/// With in-range entries and alignable counters the walk is defined, and a
/// completed walk leaves an arena with the same shape and still-alignable
/// counters.
pub proof fn lemma_gen_walk_defined(
    fns: Seq<FunctionModel>,
    frames: Seq<FrameModel>,
    order: Seq<int>,
)
    requires
        allocs_alignable(frames),
        forall|j: int| 0 <= j < order.len() ==> 0 <= #[trigger] order[j] < frames.len(),
    ensures
        gen_walk(fns, frames, order) is Some,
        gen_walk(fns, frames, order) matches Some(Ok((t, fr))) ==> allocs_alignable(fr)
            && gen_skeletons_match(fr, frames),
    decreases order.len(),
{
    if order.len() > 0 {
        let idx = order[0];
        let f = frames[idx];
        let aligned = spec_align(f.stack_mem_allocated, 16);
        lemma_align16_divides(f.stack_mem_allocated);
        let frames2 = frames.update(idx, FrameModel { stack_mem_allocated: aligned, ..f });
        assert(allocs_alignable(frames2)) by {
            lemma_align16_idempotent(f.stack_mem_allocated);
            assert forall|i: int|
                0 <= i < frames2.len() implies (#[trigger] frames2[i]).stack_mem_allocated + 16
                <= usize::MAX && (frames2[i].stack_mem_allocated % 16 == 0 || frames2[
                i].stack_mem_allocated + 31 <= usize::MAX) by {
                if i != idx {
                    assert(frames2[i] == frames[i]);
                }
            }
        }
        assert(gen_skeletons_match(frames2, frames)) by {
            assert forall|i: int| 0 <= i < frames2.len() implies same_gen_skeleton(
                #[trigger] frames2[i],
                frames[i],
            ) by {
                if i != idx {
                    assert(frames2[i] == frames[i]);
                }
            }
        }
        match gen_body_run(f.cg_statements, 0, frames2, fns, idx as usize) {
            Err(e) => {},
            Ok(body) => {
                assert forall|j: int|
                    0 <= j < order.drop_first().len() implies 0 <= #[trigger] order.drop_first()[j]
                    < frames2.len() by {
                    assert(order.drop_first()[j] == order[j + 1]);
                }
                lemma_gen_walk_defined(fns, frames2, order.drop_first());
                match gen_walk(fns, frames2, order.drop_first()) {
                    Some(Ok((t, fr))) => {
                        lemma_gen_skeletons_trans(fr, frames2, frames);
                    },
                    _ => {},
                }
            },
        }
    }
}

/// One parameter's contribution to the stack-argument byte total.
proof fn lemma_stack_arg_bytes_step(args: Seq<FunctionArg>, i: int)
    requires
        0 <= i < args.len(),
    ensures
        spec_stack_arg_bytes(args.skip(i)) == (match args[i].memory_location {
            MemoryLocationsAst::Stack(_) => type_size(args[i].arg_var_type),
            MemoryLocationsAst::Register(_) => 0nat,
        }) + spec_stack_arg_bytes(args.skip(i + 1)),
{
    assert(args.skip(i).len() > 0);
    assert(args.skip(i)[0] == args[i]);
    assert(args.skip(i).drop_first() =~= args.skip(i + 1));
}

/// A suffix never outweighs the whole.
proof fn lemma_stack_arg_bytes_skip_lower(args: Seq<FunctionArg>, i: int)
    requires
        0 <= i <= args.len(),
    ensures
        spec_stack_arg_bytes(args.skip(i)) <= spec_stack_arg_bytes(args) || i == 0,
    decreases i,
{
    if i > 0 {
        lemma_stack_arg_bytes_skip_lower(args, i - 1);
        lemma_stack_arg_bytes_step(args, i - 1);
        if i == 1 {
        }
    }
}

} // verus!
