//! The semantic analyzer / lowerer: walks each function's frame tree
//! bottom-up (children before their parent) and turns every raw statement
//! into its codegen form after type checking and symbol resolution.
//!
//! Per raw statement: an initializer must be a numeric literal (of any value
//! — ranges are not checked) or an identifier that resolves in the current
//! frame or among the owning function's parameters; a call's callee must be
//! registered (a missing callee is fatal), its argument count must match the
//! callee's arity, and each argument must fit its parameter — a numeric
//! literal fits any integer width, an identifier only if its declared type
//! matches exactly; an assembly escape is taken verbatim or expanded as a
//! template. Recoverable faults are appended to the diagnostics list and the
//! statement is dropped. The per-statement rules are [`lower_statement`];
//! one frame's whole walk is [`lower_frame_run`].

use vstd::prelude::*;

use crate::ast_statements::{
    format_expand, is_integer_type, BuiltInFunctionsAst, CgBranchLinked, CgBranchLinkedModel,
    CgBuiltInFunctions, CgBuiltInModel, CgExpression, CgStatement, CgStatementModel,
    CgStatementType, CgVariableInitialization, Expression, FunctionArg, FunctionModel, Literal,
    Statement, Statements, VariableType,
};
use crate::general_functions::str_eq;
use crate::program_data::{
    find_fn, fns_view, frame_links_wf, frames_view, CompileError, ProgramData, ReferenceFault,
    TypeFault,
};
use crate::stack_frame::{find_var, FrameModel, StackFrame, StackVariable};
use crate::token::Identifiers;

verus! {

/// What lowering one raw statement does: nothing, one codegen statement, a
/// recoverable diagnostic, or a fatal fault.
pub enum LowerOutcome {
    Skip,
    Lowered(CgStatementModel),
    Recover(CompileError),
    Fatal(CompileError),
}

/// First parameter named `name`.
pub open spec fn find_arg(args: Seq<FunctionArg>, name: Seq<char>) -> Option<FunctionArg>
    decreases args.len(),
{
    if args.len() == 0 {
        None
    } else if args[0].arg_name@ == name {
        Some(args[0])
    } else {
        find_arg(args.drop_first(), name)
    }
}

/// The declared type of `name` as the lowerer sees it: the frame's own
/// symbol table first, then the owning function's parameters.
pub open spec fn lookup_type(
    vars: Seq<(String, StackVariable)>,
    owning: Seq<char>,
    fns: Seq<FunctionModel>,
    name: Seq<char>,
) -> Option<VariableType> {
    match find_var(vars, name) {
        Some(v) => Some(v.variable_type),
        None => match find_fn(fns, owning) {
            Some(func) => match find_arg(func.args, name) {
                Some(a) => Some(a.arg_var_type),
                None => None,
            },
            None => None,
        },
    }
}

/// One call argument against its parameter: a numeric literal fits any
/// integer-width parameter; an identifier must resolve and its declared type
/// must equal the parameter's exactly — no widening, no narrowing.
pub open spec fn lower_arg(
    arg: Expression,
    param: FunctionArg,
    vars: Seq<(String, StackVariable)>,
    owning: Seq<char>,
    fns: Seq<FunctionModel>,
) -> Option<CgExpression> {
    match arg {
        Expression::Literal(lit) => match lit {
            Literal::Number(num) => if is_integer_type(param.arg_var_type) {
                Some(CgExpression::Literal(Literal::Number(num)))
            } else {
                None
            },
            Literal::String(_) => None,
        },
        Expression::Identifier(id) => match id {
            Identifiers::Identifier(name) => match lookup_type(vars, owning, fns, name@) {
                Some(t) => if t == param.arg_var_type {
                    Some(CgExpression::StackVariableIdentifier(name))
                } else {
                    None
                },
                None => None,
            },
        },
        Expression::BuiltInFunction(_) => None,
    }
}

/// The argument list from position `k` on, each against its parameter;
/// `None` as soon as one does not fit.
pub open spec fn lower_args_from(
    args: Seq<Expression>,
    params: Seq<FunctionArg>,
    vars: Seq<(String, StackVariable)>,
    owning: Seq<char>,
    fns: Seq<FunctionModel>,
    k: int,
) -> Option<Seq<CgExpression>>
    decreases args.len() - k,
{
    if k < 0 || k >= args.len() {
        Some(Seq::empty())
    } else {
        match lower_arg(args[k], params[k], vars, owning, fns) {
            Some(cg) => match lower_args_from(args, params, vars, owning, fns, k + 1) {
                Some(rest) => Some(seq![cg] + rest),
                None => None,
            },
            None => None,
        }
    }
}

/// The lowering rules for one raw statement found in a frame whose symbol
/// table is `vars`, inside the function named `owning`, with `fns` the
/// function table; `frame_idx` is recorded in lowered initializations.
pub open spec fn lower_statement(
    stmt: Statement,
    vars: Seq<(String, StackVariable)>,
    owning: Seq<char>,
    fns: Seq<FunctionModel>,
    frame_idx: usize,
) -> LowerOutcome {
    match stmt.statement_type {
        Statements::VariableDeclaration(vd) => match vd.value {
            None => LowerOutcome::Skip,
            Some(init) => {
                if !is_integer_type(vd.variable_type) {
                    LowerOutcome::Recover(
                        CompileError::TypeError(TypeFault::InvalidInitializer(vd.name)),
                    )
                } else {
                    match init {
                        Expression::Literal(lit) => match lit {
                            Literal::Number(num) => LowerOutcome::Lowered(
                                CgStatementModel::VariableInitialization(
                                    CgVariableInitialization {
                                        init_value: CgExpression::Literal(Literal::Number(num)),
                                        var_name: vd.name,
                                        stack_frame: frame_idx,
                                    },
                                ),
                            ),
                            Literal::String(_) => LowerOutcome::Recover(
                                CompileError::TypeError(TypeFault::InvalidInitializer(vd.name)),
                            ),
                        },
                        Expression::Identifier(id) => match id {
                            Identifiers::Identifier(idname) => match lookup_type(
                                vars,
                                owning,
                                fns,
                                idname@,
                            ) {
                                Some(_) => LowerOutcome::Lowered(
                                    CgStatementModel::VariableInitialization(
                                        CgVariableInitialization {
                                            init_value: CgExpression::StackVariableIdentifier(
                                                idname,
                                            ),
                                            var_name: vd.name,
                                            stack_frame: frame_idx,
                                        },
                                    ),
                                ),
                                None => LowerOutcome::Recover(
                                    CompileError::ReferenceError(
                                        ReferenceFault::UnknownVariable(idname),
                                    ),
                                ),
                            },
                        },
                        Expression::BuiltInFunction(_) => LowerOutcome::Recover(
                            CompileError::TypeError(TypeFault::InvalidInitializer(vd.name)),
                        ),
                    }
                }
            },
        },
        Statements::Expression(e) => match e {
            Expression::BuiltInFunction(b) => match b {
                BuiltInFunctionsAst::BranchLinked(bl) => match find_fn(fns, bl.function_name@) {
                    None => LowerOutcome::Fatal(
                        CompileError::ReferenceError(
                            ReferenceFault::UnknownCallee(bl.function_name),
                        ),
                    ),
                    Some(callee) => if bl.args@.len() != callee.args.len() {
                        LowerOutcome::Recover(CompileError::ArityMismatchError(bl.function_name))
                    } else {
                        match lower_args_from(bl.args@, callee.args, vars, owning, fns, 0) {
                            Some(cg_args) => LowerOutcome::Lowered(
                                CgStatementModel::BuiltInFunction(
                                    CgBuiltInModel::BranchLinked(
                                        CgBranchLinkedModel {
                                            function_name: bl.function_name,
                                            args: cg_args,
                                        },
                                    ),
                                ),
                            ),
                            None => LowerOutcome::Recover(
                                CompileError::TypeError(
                                    TypeFault::ArgumentMismatch(bl.function_name),
                                ),
                            ),
                        }
                    },
                },
                BuiltInFunctionsAst::Assembly(inner) => match *inner {
                    Expression::Literal(lit) => match lit {
                        Literal::String(text) => LowerOutcome::Lowered(
                            CgStatementModel::BuiltInFunction(CgBuiltInModel::Assembly(text@)),
                        ),
                        Literal::Number(_) => LowerOutcome::Recover(
                            CompileError::TypeError(TypeFault::InvalidAssembly),
                        ),
                    },
                    Expression::BuiltInFunction(bf) => match bf {
                        BuiltInFunctionsAst::Format(fmt) => match format_expand(
                            fmt.string@,
                            fmt.args_provided@,
                        ) {
                            Some(text) => LowerOutcome::Lowered(
                                CgStatementModel::BuiltInFunction(CgBuiltInModel::Assembly(text)),
                            ),
                            None => LowerOutcome::Recover(
                                CompileError::TypeError(TypeFault::TemplateMismatch),
                            ),
                        },
                        _ => LowerOutcome::Recover(
                            CompileError::TypeError(TypeFault::InvalidAssembly),
                        ),
                    },
                    _ => LowerOutcome::Recover(
                        CompileError::TypeError(TypeFault::InvalidAssembly),
                    ),
                },
                BuiltInFunctionsAst::Format(_) => LowerOutcome::Skip,
            },
            _ => LowerOutcome::Skip,
        },
        _ => LowerOutcome::Skip,
    }
}

/// Law: a call's callee must be registered — an unknown callee is fatal,
/// halting the pass — and a registered callee called with the wrong
/// argument count yields `ArityMismatchError` with nothing lowered, so no
/// branch instruction can be emitted for it.
pub proof fn lemma_call_checks(
    stmt: Statement,
    vars: Seq<(String, StackVariable)>,
    owning: Seq<char>,
    fns: Seq<FunctionModel>,
    frame_idx: usize,
)
    requires
        stmt.statement_type matches Statements::Expression(
            Expression::BuiltInFunction(BuiltInFunctionsAst::BranchLinked(_)),
        ),
    ensures
        ({
            let bl = stmt.statement_type->Expression_0->BuiltInFunction_0->BranchLinked_0;
            match find_fn(fns, bl.function_name@) {
                None => lower_statement(stmt, vars, owning, fns, frame_idx)
                    == LowerOutcome::Fatal(
                    CompileError::ReferenceError(ReferenceFault::UnknownCallee(bl.function_name)),
                ),
                Some(callee) => bl.args@.len() != callee.args.len() ==> lower_statement(
                    stmt,
                    vars,
                    owning,
                    fns,
                    frame_idx,
                ) == LowerOutcome::Recover(CompileError::ArityMismatchError(bl.function_name)),
            }
        }),
{
}

/// Law: a numeric literal initializer is accepted for every integer width
/// whatever its value — compatibility is type-tag-only, ranges are not
/// checked — and lowers to a stored initialization.
pub proof fn lemma_literal_initializer_ignores_range(
    stmt: Statement,
    vars: Seq<(String, StackVariable)>,
    owning: Seq<char>,
    fns: Seq<FunctionModel>,
    frame_idx: usize,
)
    requires
        stmt.statement_type matches Statements::VariableDeclaration(vd) && is_integer_type(
            vd.variable_type,
        ) && vd.value matches Some(Expression::Literal(Literal::Number(_))),
    ensures
        ({
            let vd = stmt.statement_type->VariableDeclaration_0;
            let n = vd.value->0->Literal_0->Number_0;
            lower_statement(stmt, vars, owning, fns, frame_idx) == LowerOutcome::Lowered(
                CgStatementModel::VariableInitialization(
                    CgVariableInitialization {
                        init_value: CgExpression::Literal(Literal::Number(n)),
                        var_name: vd.name,
                        stack_frame: frame_idx,
                    },
                ),
            )
        }),
{
}

/// Whether a diagnostic is recoverable: everything but a structural fault or
/// an unknown callee.
pub open spec fn recoverable(e: CompileError) -> bool {
    match e {
        CompileError::StructuralError(_) => false,
        CompileError::ReferenceError(rf) => !(rf is UnknownCallee),
        _ => true,
    }
}

/// Result of one frame's walk: the codegen statements and diagnostics
/// accumulated, or the same at the moment a fatal fault stopped it.
pub enum LowerRun {
    Done { cg: Seq<CgStatementModel>, errors: Seq<CompileError> },
    Stopped { cg: Seq<CgStatementModel>, errors: Seq<CompileError>, fault: CompileError },
}

/// The walk over a frame's raw statements from position `k`, starting from
/// the codegen statements `cg` and diagnostics `errors` accumulated so far.
pub open spec fn lower_frame_run(
    stmt_indices: Seq<usize>,
    all: Seq<Statement>,
    vars: Seq<(String, StackVariable)>,
    owning: Seq<char>,
    fns: Seq<FunctionModel>,
    frame_idx: usize,
    k: int,
    cg: Seq<CgStatementModel>,
    errors: Seq<CompileError>,
) -> LowerRun
    decreases stmt_indices.len() - k,
{
    if k < 0 || k >= stmt_indices.len() {
        LowerRun::Done { cg, errors }
    } else {
        let si = stmt_indices[k] as int;
        let outcome = if si < all.len() {
            lower_statement(all[si], vars, owning, fns, frame_idx)
        } else {
            LowerOutcome::Skip
        };
        match outcome {
            LowerOutcome::Fatal(e) => LowerRun::Stopped { cg, errors, fault: e },
            LowerOutcome::Skip => lower_frame_run(
                stmt_indices,
                all,
                vars,
                owning,
                fns,
                frame_idx,
                k + 1,
                cg,
                errors,
            ),
            LowerOutcome::Lowered(c) => lower_frame_run(
                stmt_indices,
                all,
                vars,
                owning,
                fns,
                frame_idx,
                k + 1,
                cg.push(c),
                errors,
            ),
            LowerOutcome::Recover(e) => lower_frame_run(
                stmt_indices,
                all,
                vars,
                owning,
                fns,
                frame_idx,
                k + 1,
                cg,
                errors.push(e),
            ),
        }
    }
}

/// Two frames that differ at most in their codegen statements.
pub open spec fn same_skeleton(a: FrameModel, b: FrameModel) -> bool {
    &&& a.variables == b.variables
    &&& a.stack_mem_allocated == b.stack_mem_allocated
    &&& a.statements == b.statements
    &&& a.children == b.children
    &&& a.parent == b.parent
    &&& a.owning_function == b.owning_function
}

/// Two arenas that differ at most in codegen statements, frame by frame.
pub open spec fn skeletons_match(a: Seq<FrameModel>, b: Seq<FrameModel>) -> bool {
    a.len() == b.len() && forall|i: int| 0 <= i < a.len() ==> same_skeleton(#[trigger] a[i], b[i])
}

/// Every raw-statement index stored in any frame points into the program's
/// statement list.
pub open spec fn frames_stmts_bounded(frames: Seq<FrameModel>, n_statements: int) -> bool {
    forall|i: int, k: int|
        0 <= i < frames.len() && 0 <= k < frames[i].statements.len()
            ==> (#[trigger] frames[i].statements[k]) < n_statements
}

/// Each child frame belongs to the same function as its parent.
pub open spec fn owning_coherent(frames: Seq<FrameModel>) -> bool {
    forall|i: int, k: int|
        0 <= i < frames.len() && 0 <= k < frames[i].children.len() && frames[i].children[k]
            < frames.len() ==> frames[#[trigger] frames[i].children[k] as int].owning_function@
            == frames[i].owning_function@
}

/// The old diagnostics are a prefix of the new, and everything appended is
/// recoverable.
pub open spec fn errors_extended(old_errors: Seq<CompileError>, new_errors: Seq<CompileError>) -> bool {
    &&& old_errors.len() <= new_errors.len()
    &&& new_errors.subrange(0, old_errors.len() as int) == old_errors
    &&& forall|k: int|
        old_errors.len() <= k < new_errors.len() ==> recoverable(#[trigger] new_errors[k])
}

/// The semantic analyzer; it carries no state of its own — everything lives
/// in the program store it is handed.
#[derive(Debug)]
pub struct SemanticAnaytis {
}

pub(crate) fn find_arg_index(args: &Vec<FunctionArg>, name: &str) -> (r: Option<usize>)
    ensures
        match r {
            Some(i) => i < args@.len() && find_arg(args@, name@) == Some(args@[i as int]),
            None => find_arg(args@, name@) is None,
        },
{
    let n = args.len();
    for i in 0..n
        invariant
            n == args@.len(),
            forall|j: int| 0 <= j < i ==> (#[trigger] args@[j]).arg_name@ != name@,
    {
        if str_eq(args[i].arg_name.as_str(), name) {
            proof {
                lemma_find_arg_first_hit(args@, name@, i as int);
            }
            return Some(i);
        }
    }
    proof {
        lemma_find_arg_miss(args@, name@);
    }
    None
}

proof fn lemma_find_arg_first_hit(args: Seq<FunctionArg>, name: Seq<char>, i: int)
    requires
        0 <= i < args.len(),
        args[i].arg_name@ == name,
        forall|j: int| 0 <= j < i ==> (#[trigger] args[j]).arg_name@ != name,
    ensures
        find_arg(args, name) == Some(args[i]),
    decreases i,
{
    if i > 0 {
        lemma_find_arg_first_hit(args.drop_first(), name, i - 1);
    }
}

proof fn lemma_find_arg_miss(args: Seq<FunctionArg>, name: Seq<char>)
    requires
        forall|j: int| 0 <= j < args.len() ==> (#[trigger] args[j]).arg_name@ != name,
    ensures
        find_arg(args, name) is None,
    decreases args.len(),
{
    if args.len() > 0 {
        lemma_find_arg_miss(args.drop_first(), name);
    }
}

impl SemanticAnaytis {
    pub fn new() -> (s: Self) {
        SemanticAnaytis {  }
    }

    /// Resolves `name` as the lowerer does: the frame's own table first,
    /// then the owning function's parameters.
    pub fn lookup_value_type(&self, pd: &ProgramData, stack_frame: usize, name: &str) -> (r: Option<
        VariableType,
    >)
        requires
            stack_frame < pd.stack_frames@.len(),
        ensures
            r == lookup_type(
                pd.stack_frames@[stack_frame as int]@.variables,
                pd.stack_frames@[stack_frame as int]@.owning_function@,
                fns_view(pd.functions),
                name@,
            ),
    {
        match pd.stack_frames[stack_frame].get_variable(name) {
            Some(v) => Some(v.variable_type),
            None => {
                match pd.get_function(pd.stack_frames[stack_frame].owning_function.as_str()) {
                    Some(func) => match find_arg_index(&func.args, name) {
                        Some(i) => Some(func.args[i].arg_var_type),
                        None => None,
                    },
                    None => None,
                }
            },
        }
    }

    /// Lowers the raw statement at `stmt_index` against frame `stack_frame`,
    /// exactly as [`lower_statement`] describes: nothing happens for a
    /// statement with no lowered form; a lowered statement is appended to the
    /// frame's codegen list; a recoverable fault is appended to the
    /// diagnostics and the statement dropped; an unknown callee is fatal.
    pub fn process_statement(
        &self,
        pd: &mut ProgramData,
        stmt_index: usize,
        stack_frame: usize,
    ) -> (r: Result<(), CompileError>)
        requires
            stack_frame < old(pd).stack_frames@.len(),
            stmt_index < old(pd).statements@.len(),
        ensures
            final(pd).statements == old(pd).statements,
            final(pd).functions == old(pd).functions,
            final(pd).tokens == old(pd).tokens,
            final(pd).source_code == old(pd).source_code,
            ({
                let f = frames_view(old(pd).stack_frames)[stack_frame as int];
                match lower_statement(
                    old(pd).statements@[stmt_index as int],
                    f.variables,
                    f.owning_function@,
                    fns_view(old(pd).functions),
                    stack_frame,
                ) {
                    LowerOutcome::Skip => r is Ok && *final(pd) == *old(pd),
                    LowerOutcome::Lowered(c) => r is Ok && final(pd).errors == old(pd).errors
                        && frames_view(final(pd).stack_frames) == frames_view(
                        old(pd).stack_frames,
                    ).update(
                        stack_frame as int,
                        FrameModel { cg_statements: f.cg_statements.push(c), ..f },
                    ),
                    LowerOutcome::Recover(e) => r is Ok && final(pd).stack_frames == old(
                        pd,
                    ).stack_frames && final(pd).errors@ == old(pd).errors@.push(e),
                    LowerOutcome::Fatal(e) => r == Err::<(), CompileError>(e) && *final(pd)
                        == *old(pd),
                }
            }),
    {
        let ghost f_model = frames_view(old(pd).stack_frames)[stack_frame as int];
        let ghost fns_model = fns_view(old(pd).functions);
        let ghost stmt_val = old(pd).statements@[stmt_index as int];
        let ghost outcome = lower_statement(
            stmt_val,
            f_model.variables,
            f_model.owning_function@,
            fns_model,
            stack_frame,
        );
        proof {
            assert(frames_view(pd.stack_frames)[stack_frame as int] == pd.stack_frames@[
                stack_frame as int]@);
        }
        let mut fatal_err: Option<CompileError> = None;
        let mut recover_err: Option<CompileError> = None;
        let mut lowered: Option<CgStatement> = None;
        match &pd.statements[stmt_index].statement_type {
            Statements::VariableDeclaration(vd) => {
                match &vd.value {
                    None => {},
                    Some(init) => {
                        let t = vd.variable_type;
                        let t_is_int = matches!(
                            t,
                            VariableType::I8
                            | VariableType::I16
                            | VariableType::I32
                        );
                        if !t_is_int {
                            recover_err = Some(
                                CompileError::TypeError(
                                    TypeFault::InvalidInitializer(vd.name.clone()),
                                ),
                            );
                        } else {
                            match init {
                                Expression::Literal(lit) => match lit {
                                    Literal::Number(num) => {
                                        lowered = Some(
                                            CgStatement {
                                                statement_type:
                                                    CgStatementType::VariableInitialization(
                                                    CgVariableInitialization {
                                                        init_value: CgExpression::Literal(
                                                            Literal::Number(*num),
                                                        ),
                                                        var_name: vd.name.clone(),
                                                        stack_frame,
                                                    },
                                                ),
                                            },
                                        );
                                    },
                                    Literal::String(_) => {
                                        recover_err = Some(
                                            CompileError::TypeError(
                                                TypeFault::InvalidInitializer(vd.name.clone()),
                                            ),
                                        );
                                    },
                                },
                                Expression::Identifier(id) => {
                                    let Identifiers::Identifier(idname) = id;
                                    match self.lookup_value_type(pd, stack_frame, idname.as_str())
                                    {
                                        Some(_) => {
                                            lowered = Some(
                                                CgStatement {
                                                    statement_type:
                                                        CgStatementType::VariableInitialization(
                                                        CgVariableInitialization {
                                                            init_value:
                                                                CgExpression::StackVariableIdentifier(
                                                                idname.clone(),
                                                            ),
                                                            var_name: vd.name.clone(),
                                                            stack_frame,
                                                        },
                                                    ),
                                                },
                                            );
                                        },
                                        None => {
                                            recover_err = Some(
                                                CompileError::ReferenceError(
                                                    ReferenceFault::UnknownVariable(
                                                        idname.clone(),
                                                    ),
                                                ),
                                            );
                                        },
                                    }
                                },
                                Expression::BuiltInFunction(_) => {
                                    recover_err = Some(
                                        CompileError::TypeError(
                                            TypeFault::InvalidInitializer(vd.name.clone()),
                                        ),
                                    );
                                },
                            }
                        }
                    },
                }
            },
            Statements::Expression(e) => {
                match e {
                    Expression::BuiltInFunction(b) => match b {
                        BuiltInFunctionsAst::BranchLinked(bl) => {
                            let ghost blv = stmt_val.statement_type->Expression_0
                                ->BuiltInFunction_0->BranchLinked_0;
                            match pd.get_function(bl.function_name.as_str()) {
                                None => {
                                    fatal_err = Some(
                                        CompileError::ReferenceError(
                                            ReferenceFault::UnknownCallee(
                                                bl.function_name.clone(),
                                            ),
                                        ),
                                    );
                                },
                                Some(callee) => {
                                    let ghost callee_model = callee@;
                                    proof {
                                        assert(find_fn(fns_model, blv.function_name@) == Some(
                                            callee_model,
                                        ));
                                    }
                                    if bl.args.len() != callee.args.len() {
                                        recover_err = Some(
                                            CompileError::ArityMismatchError(
                                                bl.function_name.clone(),
                                            ),
                                        );
                                    } else {
                                        let mut cg_args: Vec<CgExpression> = Vec::new();
                                        let mut arg_fault = false;
                                        let n_args = bl.args.len();
                                        let mut i: usize = 0;
                                        while i < n_args && !arg_fault
                                            invariant
                                                i <= n_args,
                                                n_args == blv.args@.len(),
                                                n_args == callee_model.args.len(),
                                                bl.args@ == blv.args@,
                                                bl.function_name == blv.function_name,
                                                callee.args@ == callee_model.args,
                                                stack_frame < pd.stack_frames@.len(),
                                                frames_view(pd.stack_frames)[stack_frame as int]
                                                    == f_model,
                                                fns_view(pd.functions) == fns_model,
                                                !arg_fault ==> lower_args_from(
                                                    blv.args@,
                                                    callee_model.args,
                                                    f_model.variables,
                                                    f_model.owning_function@,
                                                    fns_model,
                                                    0,
                                                ) == (match lower_args_from(
                                                    blv.args@,
                                                    callee_model.args,
                                                    f_model.variables,
                                                    f_model.owning_function@,
                                                    fns_model,
                                                    i as int,
                                                ) {
                                                    Some(rest) => Some(cg_args@ + rest),
                                                    None => None::<Seq<CgExpression>>,
                                                }),
                                                arg_fault ==> lower_args_from(
                                                    blv.args@,
                                                    callee_model.args,
                                                    f_model.variables,
                                                    f_model.owning_function@,
                                                    fns_model,
                                                    0,
                                                ) is None,
                                                !arg_fault ==> recover_err is None,
                                                arg_fault ==> recover_err == Some(
                                                    CompileError::TypeError(
                                                        TypeFault::ArgumentMismatch(
                                                            blv.function_name,
                                                        ),
                                                    ),
                                                ),
                                            decreases n_args - i + (if arg_fault {
                                                0int
                                            } else {
                                                1int
                                            }),
                                        {
                                            let p_is_int = matches!(
                                                callee.args[i].arg_var_type,
                                                VariableType::I8
                                                | VariableType::I16
                                                | VariableType::I32
                                            );
                                            let cg: Option<CgExpression> = match &bl.args[i] {
                                                Expression::Literal(lit) => match lit {
                                                    Literal::Number(num) => if p_is_int {
                                                        Some(
                                                            CgExpression::Literal(
                                                                Literal::Number(*num),
                                                            ),
                                                        )
                                                    } else {
                                                        None
                                                    },
                                                    Literal::String(_) => None,
                                                },
                                                Expression::Identifier(id) => {
                                                    let Identifiers::Identifier(idname) = id;
                                                    match self.lookup_value_type(
                                                        pd,
                                                        stack_frame,
                                                        idname.as_str(),
                                                    ) {
                                                        Some(t2) => if t2
                                                            == callee.args[i].arg_var_type {
                                                            Some(
                                                                CgExpression::StackVariableIdentifier(
                                                                    idname.clone(),
                                                                ),
                                                            )
                                                        } else {
                                                            None
                                                        },
                                                        None => None,
                                                    }
                                                },
                                                Expression::BuiltInFunction(_) => None,
                                            };
                                            proof {
                                                assert(lower_arg(
                                                    blv.args@[i as int],
                                                    callee_model.args[i as int],
                                                    f_model.variables,
                                                    f_model.owning_function@,
                                                    fns_model,
                                                ) == cg);
                                            }
                                            match cg {
                                                Some(c) => {
                                                    let ghost old_args = cg_args@;
                                                    cg_args.push(c);
                                                    proof {
                                                        let rest_i1 = lower_args_from(
                                                            blv.args@,
                                                            callee_model.args,
                                                            f_model.variables,
                                                            f_model.owning_function@,
                                                            fns_model,
                                                            i + 1,
                                                        );
                                                        match rest_i1 {
                                                            Some(rest) => {
                                                                assert(old_args + (seq![c] + rest)
                                                                    =~= cg_args@ + rest);
                                                            },
                                                            None => {},
                                                        }
                                                    }
                                                },
                                                None => {
                                                    arg_fault = true;
                                                    recover_err = Some(
                                                        CompileError::TypeError(
                                                            TypeFault::ArgumentMismatch(
                                                                bl.function_name.clone(),
                                                            ),
                                                        ),
                                                    );
                                                },
                                            }
                                            if !arg_fault {
                                                i = i + 1;
                                            }
                                        }
                                        if !arg_fault {
                                            proof {
                                                let whole = lower_args_from(
                                                    blv.args@,
                                                    callee_model.args,
                                                    f_model.variables,
                                                    f_model.owning_function@,
                                                    fns_model,
                                                    0,
                                                );
                                                assert(lower_args_from(
                                                    blv.args@,
                                                    callee_model.args,
                                                    f_model.variables,
                                                    f_model.owning_function@,
                                                    fns_model,
                                                    i as int,
                                                ) == Some(Seq::<CgExpression>::empty()));
                                                assert(cg_args@ + Seq::<CgExpression>::empty()
                                                    =~= cg_args@);
                                                assert(whole == Some(cg_args@));
                                            }
                                            lowered = Some(
                                                CgStatement {
                                                    statement_type:
                                                        CgStatementType::BuiltInFunction(
                                                        CgBuiltInFunctions::BranchLinked(
                                                            CgBranchLinked {
                                                                function_name: bl.function_name
                                                                    .clone(),
                                                                args: cg_args,
                                                            },
                                                        ),
                                                    ),
                                                },
                                            );
                                        }
                                    }
                                },
                            }
                        },
                        BuiltInFunctionsAst::Assembly(inner) => {
                            match &**inner {
                                Expression::Literal(lit) => match lit {
                                    Literal::String(text) => {
                                        lowered = Some(
                                            CgStatement {
                                                statement_type: CgStatementType::BuiltInFunction(
                                                    CgBuiltInFunctions::Assembly(text.clone()),
                                                ),
                                            },
                                        );
                                    },
                                    Literal::Number(_) => {
                                        recover_err = Some(
                                            CompileError::TypeError(TypeFault::InvalidAssembly),
                                        );
                                    },
                                },
                                Expression::BuiltInFunction(bf) => match bf {
                                    BuiltInFunctionsAst::Format(fmt) => match fmt.parse() {
                                        Ok(out) => {
                                            lowered = Some(
                                                CgStatement {
                                                    statement_type:
                                                        CgStatementType::BuiltInFunction(
                                                        CgBuiltInFunctions::Assembly(out),
                                                    ),
                                                },
                                            );
                                        },
                                        Err(e2) => {
                                            recover_err = Some(e2);
                                        },
                                    },
                                    _ => {
                                        recover_err = Some(
                                            CompileError::TypeError(TypeFault::InvalidAssembly),
                                        );
                                    },
                                },
                                _ => {
                                    recover_err = Some(
                                        CompileError::TypeError(TypeFault::InvalidAssembly),
                                    );
                                },
                            }
                        },
                        BuiltInFunctionsAst::Format(_) => {},
                    },
                    _ => {},
                }
            },
            _ => {},
        }
        if fatal_err.is_some() {
            let e2 = fatal_err.unwrap();
            proof {
                assert(outcome == LowerOutcome::Fatal(e2));
            }
            return Err(e2);
        }
        if recover_err.is_some() {
            let e2 = recover_err.unwrap();
            proof {
                assert(outcome == LowerOutcome::Recover(e2));
            }
            pd.errors.push(e2);
            return Ok(());
        }
        if lowered.is_some() {
            let c = lowered.unwrap();
            proof {
                assert(outcome == LowerOutcome::Lowered(c@));
            }
            let ghost cv = c@;
            let fr = &mut pd.stack_frames[stack_frame];
            fr.cg_statements.push(c);
            proof {
                assert(frames_view(pd.stack_frames) =~~= frames_view(
                    old(pd).stack_frames,
                ).update(
                    stack_frame as int,
                    FrameModel { cg_statements: f_model.cg_statements.push(cv), ..f_model },
                ));
            }
            return Ok(());
        }
        proof {
            assert(outcome == LowerOutcome::Skip);
        }
        Ok(())
    }

    /// Lowers every raw statement of one frame in order, exactly as
    /// [`lower_frame_run`] describes, appending codegen statements to the
    /// frame and recoverable diagnostics to the store; a fatal fault stops
    /// the walk at once.
    pub fn process_stack_frame(&self, pd: &mut ProgramData, stack_frame: usize) -> (r: Result<
        (),
        CompileError,
    >)
        requires
            stack_frame < old(pd).stack_frames@.len(),
            forall|k: int|
                0 <= k < frames_view(old(pd).stack_frames)[stack_frame as int].statements.len()
                    ==> (#[trigger] frames_view(old(pd).stack_frames)[
                stack_frame as int].statements[k]) < old(pd).statements@.len(),
        ensures
            final(pd).statements == old(pd).statements,
            final(pd).functions == old(pd).functions,
            final(pd).tokens == old(pd).tokens,
            final(pd).source_code == old(pd).source_code,
            ({
                let f = frames_view(old(pd).stack_frames)[stack_frame as int];
                let run = lower_frame_run(
                    f.statements,
                    old(pd).statements@,
                    f.variables,
                    f.owning_function@,
                    fns_view(old(pd).functions),
                    stack_frame,
                    0,
                    f.cg_statements,
                    old(pd).errors@,
                );
                match r {
                    Ok(_) => run matches LowerRun::Done { cg, errors } && frames_view(
                        final(pd).stack_frames,
                    ) == frames_view(old(pd).stack_frames).update(
                        stack_frame as int,
                        FrameModel { cg_statements: cg, ..f },
                    ) && final(pd).errors@ == errors,
                    Err(e) => run matches LowerRun::Stopped { cg, errors, fault } && fault == e
                        && frames_view(final(pd).stack_frames) == frames_view(
                        old(pd).stack_frames,
                    ).update(stack_frame as int, FrameModel { cg_statements: cg, ..f })
                        && final(pd).errors@ == errors,
                }
            }),
    {
        let ghost f0 = frames_view(old(pd).stack_frames)[stack_frame as int];
        let ghost all = old(pd).statements@;
        let ghost fnsm = fns_view(old(pd).functions);
        let ghost err0 = old(pd).errors@;
        let n = pd.stack_frames[stack_frame].statements.len();
        proof {
            assert(frames_view(pd.stack_frames)[stack_frame as int] == pd.stack_frames@[
                stack_frame as int]@);
            assert(frames_view(pd.stack_frames) =~= frames_view(old(pd).stack_frames).update(
                stack_frame as int,
                FrameModel {
                    cg_statements: frames_view(pd.stack_frames)[stack_frame as int].cg_statements,
                    ..f0
                },
            ));
        }
        let mut k: usize = 0;
        while k < n
            invariant
                k <= n,
                n == f0.statements.len(),
                stack_frame < pd.stack_frames@.len(),
                stack_frame < old(pd).stack_frames@.len(),
                pd.statements@ == all,
                pd.statements == old(pd).statements,
                pd.tokens == old(pd).tokens,
                pd.source_code == old(pd).source_code,
                pd.functions == old(pd).functions,
                fns_view(pd.functions) == fnsm,
                f0 == frames_view(old(pd).stack_frames)[stack_frame as int],
                err0 == old(pd).errors@,
                forall|k2: int|
                    0 <= k2 < f0.statements.len() ==> (#[trigger] f0.statements[k2]) < all.len(),
                frames_view(pd.stack_frames) == frames_view(old(pd).stack_frames).update(
                    stack_frame as int,
                    FrameModel {
                        cg_statements: frames_view(pd.stack_frames)[
                            stack_frame as int].cg_statements,
                        ..f0
                    },
                ),
                lower_frame_run(
                    f0.statements,
                    all,
                    f0.variables,
                    f0.owning_function@,
                    fnsm,
                    stack_frame,
                    0,
                    f0.cg_statements,
                    err0,
                ) == lower_frame_run(
                    f0.statements,
                    all,
                    f0.variables,
                    f0.owning_function@,
                    fnsm,
                    stack_frame,
                    k as int,
                    frames_view(pd.stack_frames)[stack_frame as int].cg_statements,
                    pd.errors@,
                ),
            decreases n - k,
        {
            let ghost frames_pre = frames_view(pd.stack_frames);
            let ghost cg_pre = frames_pre[stack_frame as int].cg_statements;
            let ghost err_pre = pd.errors@;
            proof {
                let ov = frames_view(old(pd).stack_frames);
                assert(frames_pre.len() == pd.stack_frames@.len());
                assert(frames_pre == ov.update(
                    stack_frame as int,
                    FrameModel {
                        cg_statements: frames_pre[stack_frame as int].cg_statements,
                        ..f0
                    },
                ));
                assert(frames_pre.len() == ov.len());
                assert((stack_frame as int) < ov.len());
                assert(frames_pre[stack_frame as int] == FrameModel {
                    cg_statements: frames_pre[stack_frame as int].cg_statements,
                    ..f0
                });
                assert(frames_pre[stack_frame as int] == pd.stack_frames@[stack_frame as int]@);
                assert(frames_pre[stack_frame as int].statements == f0.statements);
            }
            let si = pd.stack_frames[stack_frame].statements[k];
            proof {
                assert(si == f0.statements[k as int]);
                assert(si < all.len());
            }
            let res = self.process_statement(pd, si, stack_frame);
            proof {
                let outcome = lower_statement(
                    all[si as int],
                    f0.variables,
                    f0.owning_function@,
                    fnsm,
                    stack_frame,
                );
                assert(frames_pre[stack_frame as int].variables == f0.variables
                    && frames_pre[stack_frame as int].owning_function == f0.owning_function);
                match outcome {
                    LowerOutcome::Skip => {},
                    LowerOutcome::Lowered(c) => {
                        assert(frames_view(pd.stack_frames) =~= frames_view(
                            old(pd).stack_frames,
                        ).update(
                            stack_frame as int,
                            FrameModel {
                                cg_statements: frames_view(pd.stack_frames)[
                                    stack_frame as int].cg_statements,
                                ..f0
                            },
                        ));
                    },
                    LowerOutcome::Recover(e) => {},
                    LowerOutcome::Fatal(e) => {},
                }
            }
            match res {
                Err(e) => {
                    proof {
                        assert(frames_view(pd.stack_frames) =~= frames_view(
                            old(pd).stack_frames,
                        ).update(
                            stack_frame as int,
                            FrameModel { cg_statements: cg_pre, ..f0 },
                        ));
                    }
                    return Err(e);
                },
                Ok(_) => {},
            }
            k = k + 1;
        }
        proof {
            assert(lower_frame_run(
                f0.statements,
                all,
                f0.variables,
                f0.owning_function@,
                fnsm,
                stack_frame,
                n as int,
                frames_view(pd.stack_frames)[stack_frame as int].cg_statements,
                pd.errors@,
            ) == LowerRun::Done {
                cg: frames_view(pd.stack_frames)[stack_frame as int].cg_statements,
                errors: pd.errors@,
            });
            assert(frames_view(pd.stack_frames) =~= frames_view(old(pd).stack_frames).update(
                stack_frame as int,
                FrameModel {
                    cg_statements: frames_view(pd.stack_frames)[stack_frame as int].cg_statements,
                    ..f0
                },
            ));
        }
        Ok(())
    }

    /// Lowers the subtree rooted at `stack_frame_index`: every child
    /// subtree first, in children-list order, then the frame's own raw
    /// statements — inner scopes never depend on an enclosing scope's
    /// lowered form. The effect on the arena and the diagnostics is exactly
    /// [`lower_walk`] over the subtree's [`postorder`].
    pub fn traverse_stack_frame_children(
        &self,
        pd: &mut ProgramData,
        stack_frame_index: usize,
    ) -> (r: Result<(), CompileError>)
        requires
            frame_links_wf(frames_view(old(pd).stack_frames)),
            owning_coherent(frames_view(old(pd).stack_frames)),
            frames_stmts_bounded(
                frames_view(old(pd).stack_frames),
                old(pd).statements@.len() as int,
            ),
            stack_frame_index < old(pd).stack_frames@.len(),
        ensures
            final(pd).statements == old(pd).statements,
            final(pd).functions == old(pd).functions,
            final(pd).tokens == old(pd).tokens,
            final(pd).source_code == old(pd).source_code,
            skeletons_match(frames_view(final(pd).stack_frames), frames_view(old(pd).stack_frames)),
            errors_extended(old(pd).errors@, final(pd).errors@),
            (r matches Err(e) ==> !recoverable(e)),
            ({
                match postorder(frames_view(old(pd).stack_frames), stack_frame_index as int) {
                    None => true,
                    Some(order) => match lower_walk(
                        order,
                        old(pd).statements@,
                        fns_view(old(pd).functions),
                        frames_view(old(pd).stack_frames),
                        old(pd).errors@,
                    ) {
                        Some(LowerWalk::Done { frames: fr, errors: e2 }) => r is Ok
                            && frames_view(final(pd).stack_frames) == fr && final(pd).errors@
                            == e2,
                        Some(LowerWalk::Stopped { frames: fr, errors: e2, fault }) => r
                            == Err::<(), CompileError>(fault) && frames_view(
                            final(pd).stack_frames,
                        ) == fr && final(pd).errors@ == e2,
                        None => true,
                    },
                }
            }),
        decreases old(pd).stack_frames@.len() - stack_frame_index,
    {
        let ghost frames_in = frames_view(old(pd).stack_frames);
        let ghost fnsm = fns_view(old(pd).functions);
        let ghost all = old(pd).statements@;
        let ghost err0 = old(pd).errors@;
        let ghost idx = stack_frame_index as int;
        proof {
            lemma_postorder_props(frames_in, idx);
            lemma_postorder_children_props(frames_in, idx, 0);
            assert(frames_view(pd.stack_frames)[idx] == pd.stack_frames@[idx]@);
            lemma_skeletons_refl(frames_in);
            lemma_errors_extended_refl(old(pd).errors@);
        }
        let ghost order = postorder(frames_in, idx)->Some_0;
        let ghost kids = postorder_children(frames_in, idx, 0)->Some_0;
        proof {
            assert(order == kids + seq![idx]);
            assert forall|j: int| 0 <= j < order.len() implies 0 <= #[trigger] order[j]
                < frames_in.len() by {}
            lemma_lower_walk_package(order, all, fnsm, frames_in, err0);
        }
        let n_children = pd.stack_frames[stack_frame_index].children.len();
        proof {
            assert(n_children == frames_in[idx].children.len());
        }
        let mut k: usize = 0;
        while k < n_children
            invariant
                k <= n_children,
                stack_frame_index < old(pd).stack_frames@.len(),
                idx == stack_frame_index as int,
                frames_in == frames_view(old(pd).stack_frames),
                fnsm == fns_view(old(pd).functions),
                all == old(pd).statements@,
                err0 == old(pd).errors@,
                frame_links_wf(frames_in),
                owning_coherent(frames_in),
                frames_stmts_bounded(frames_in, all.len() as int),
                n_children == frames_in[idx].children.len(),
                postorder(frames_in, idx) == Some(order),
                order == kids + seq![idx],
                postorder_children(frames_in, idx, 0) == Some(kids),
                pd.statements == old(pd).statements,
                pd.functions == old(pd).functions,
                pd.tokens == old(pd).tokens,
                pd.source_code == old(pd).source_code,
                skeletons_match(frames_view(pd.stack_frames), frames_in),
                errors_extended(err0, pd.errors@),
                ({
                    let suffix = postorder_children(frames_in, idx, k as int)->Some_0;
                    match lower_walk(
                        suffix + seq![idx],
                        all,
                        fnsm,
                        frames_view(pd.stack_frames),
                        pd.errors@,
                    ) {
                        Some(w) => lower_walk(order, all, fnsm, frames_in, err0) == Some(w),
                        None => false,
                    }
                }),
            decreases n_children - k,
        {
            let ghost frames_k = frames_view(pd.stack_frames);
            let ghost err_k = pd.errors@;
            proof {
                lemma_postorder_children_props(frames_in, idx, k as int);
                lemma_postorder_children_props(frames_in, idx, k + 1);
                assert(frames_k[idx] == pd.stack_frames@[idx]@);
                assert(same_skeleton(frames_k[idx], frames_in[idx]));
            }
            let child = pd.stack_frames[stack_frame_index].children[k];
            proof {
                assert(child == frames_in[idx].children[k as int]);
                assert(idx < child < frames_in.len());
                lemma_skeletons_carry_wf(frames_k, frames_in, all.len() as int);
                lemma_postorder_props(frames_in, child as int);
                lemma_postorder_stable(frames_k, frames_in, child as int);
            }
            let ghost co = postorder(frames_in, child as int)->Some_0;
            let ghost rest = postorder_children(frames_in, idx, k + 1)->Some_0;
            proof {
                assert(postorder_children(frames_in, idx, k as int)->Some_0 == co + rest);
                assert((co + rest) + seq![idx] =~= co + (rest + seq![idx]));
                lemma_lower_walk_append(co, rest + seq![idx], all, fnsm, frames_k, err_k);
                assert forall|j: int| 0 <= j < co.len() implies 0 <= #[trigger] co[j]
                    < frames_k.len() by {}
                lemma_lower_walk_package(co, all, fnsm, frames_k, err_k);
            }
            let res = self.traverse_stack_frame_children(pd, child);
            match res {
                Err(e) => {
                    proof {
                        lemma_skeletons_trans(frames_view(pd.stack_frames), frames_k, frames_in);
                        lemma_errors_extended_trans(err0, err_k, pd.errors@);
                    }
                    return Err(e);
                },
                Ok(_) => {
                    proof {
                        lemma_skeletons_trans(frames_view(pd.stack_frames), frames_k, frames_in);
                        lemma_errors_extended_trans(err0, err_k, pd.errors@);
                    }
                },
            }
            k = k + 1;
        }
        let ghost frames_mid = frames_view(pd.stack_frames);
        let ghost err_mid = pd.errors@;
        proof {
            assert(postorder_children(frames_in, idx, n_children as int)
                == Some(Seq::<int>::empty()));
            assert(postorder_children(frames_in, idx, n_children as int)->Some_0 + seq![idx]
                =~= seq![idx]);
            assert(frames_mid[idx] == pd.stack_frames@[idx]@);
            assert(same_skeleton(frames_mid[idx], frames_in[idx]));
            assert forall|k2: int|
                0 <= k2 < frames_mid[idx].statements.len() implies (#[trigger] frames_mid[
                idx].statements[k2]) < all.len() by {}
        }
        let res2 = self.process_stack_frame(pd, stack_frame_index);
        proof {
            let f_mid = frames_mid[idx];
            let run_mid = lower_frame_run(
                f_mid.statements,
                all,
                f_mid.variables,
                f_mid.owning_function@,
                fnsm,
                stack_frame_index,
                0,
                f_mid.cg_statements,
                err_mid,
            );
            lemma_run_shape(
                f_mid.statements,
                all,
                f_mid.variables,
                f_mid.owning_function@,
                fnsm,
                stack_frame_index,
                0,
                f_mid.cg_statements,
                err_mid,
            );
            match run_mid {
                LowerRun::Done { cg, errors } => {
                    lemma_errors_extended_trans(err0, err_mid, errors);
                },
                LowerRun::Stopped { cg, errors, fault } => {
                    lemma_errors_extended_trans(err0, err_mid, errors);
                },
            }
            assert forall|i: int|
                0 <= i < frames_mid.len() implies same_skeleton(
                #[trigger] frames_view(pd.stack_frames)[i],
                frames_in[i],
            ) by {
                assert(same_skeleton(frames_mid[i], frames_in[i]));
                if i != idx {
                    assert(frames_view(pd.stack_frames)[i] == frames_mid[i]);
                }
            }
            assert(seq![idx].drop_first() =~= Seq::<int>::empty());
            assert(idx as usize == stack_frame_index);
            assert(seq![idx][0] == idx);
            assert(0 <= idx < frames_mid.len());
            match run_mid {
                LowerRun::Done { cg, errors } => {
                    let updated = frames_mid.update(
                        idx,
                        FrameModel { cg_statements: cg, ..f_mid },
                    );
                    assert(lower_walk(Seq::<int>::empty(), all, fnsm, updated, errors) == Some(
                        LowerWalk::Done { frames: updated, errors },
                    ));
                    assert(lower_walk(seq![idx], all, fnsm, frames_mid, err_mid) == Some(
                        LowerWalk::Done { frames: updated, errors },
                    ));
                },
                LowerRun::Stopped { cg, errors, fault } => {
                    let updated = frames_mid.update(
                        idx,
                        FrameModel { cg_statements: cg, ..f_mid },
                    );
                    assert(lower_walk(seq![idx], all, fnsm, frames_mid, err_mid) == Some(
                        LowerWalk::Stopped { frames: updated, errors, fault },
                    ));
                },
            }
        }
        res2
    }

    /// Lowers the subtree rooted at `stack_frame_index`: every child frame,
    /// then the frame itself — exactly [`lower_walk`] over the subtree's
    /// [`postorder`].
    pub fn process_stack_frame_and_children(
        &self,
        pd: &mut ProgramData,
        stack_frame_index: usize,
    ) -> (r: Result<(), CompileError>)
        requires
            frame_links_wf(frames_view(old(pd).stack_frames)),
            owning_coherent(frames_view(old(pd).stack_frames)),
            frames_stmts_bounded(
                frames_view(old(pd).stack_frames),
                old(pd).statements@.len() as int,
            ),
            stack_frame_index < old(pd).stack_frames@.len(),
        ensures
            final(pd).statements == old(pd).statements,
            final(pd).functions == old(pd).functions,
            final(pd).tokens == old(pd).tokens,
            final(pd).source_code == old(pd).source_code,
            skeletons_match(frames_view(final(pd).stack_frames), frames_view(old(pd).stack_frames)),
            errors_extended(old(pd).errors@, final(pd).errors@),
            (r matches Err(e) ==> !recoverable(e)),
            ({
                match postorder(frames_view(old(pd).stack_frames), stack_frame_index as int) {
                    None => true,
                    Some(order) => match lower_walk(
                        order,
                        old(pd).statements@,
                        fns_view(old(pd).functions),
                        frames_view(old(pd).stack_frames),
                        old(pd).errors@,
                    ) {
                        Some(LowerWalk::Done { frames: fr, errors: e2 }) => r is Ok
                            && frames_view(final(pd).stack_frames) == fr && final(pd).errors@
                            == e2,
                        Some(LowerWalk::Stopped { frames: fr, errors: e2, fault }) => r
                            == Err::<(), CompileError>(fault) && frames_view(
                            final(pd).stack_frames,
                        ) == fr && final(pd).errors@ == e2,
                        None => true,
                    },
                }
            }),
    {
        self.traverse_stack_frame_children(pd, stack_frame_index)
    }

    /// Lowers every registered function's frame tree, in registration
    /// order — exactly [`lower_all_functions`], which threads the arena and
    /// the diagnostics through every function's [`lower_walk`]. Only
    /// recoverable diagnostics are appended; an unknown callee halts the
    /// pass with that single fault.
    pub fn process_all_functions(&self, pd: &mut ProgramData) -> (r: Result<(), CompileError>)
        requires
            frame_links_wf(frames_view(old(pd).stack_frames)),
            owning_coherent(frames_view(old(pd).stack_frames)),
            frames_stmts_bounded(
                frames_view(old(pd).stack_frames),
                old(pd).statements@.len() as int,
            ),
            crate::program_data::functions_wf(
                fns_view(old(pd).functions),
                frames_view(old(pd).stack_frames),
            ),
        ensures
            final(pd).statements == old(pd).statements,
            final(pd).functions == old(pd).functions,
            final(pd).tokens == old(pd).tokens,
            final(pd).source_code == old(pd).source_code,
            skeletons_match(frames_view(final(pd).stack_frames), frames_view(old(pd).stack_frames)),
            errors_extended(old(pd).errors@, final(pd).errors@),
            (r matches Err(e) ==> !recoverable(e)),
            ({
                match lower_all_functions(
                    fns_view(old(pd).functions),
                    0,
                    old(pd).statements@,
                    frames_view(old(pd).stack_frames),
                    old(pd).errors@,
                ) {
                    Some(LowerWalk::Done { frames: fr, errors: e2 }) => r is Ok && frames_view(
                        final(pd).stack_frames,
                    ) == fr && final(pd).errors@ == e2,
                    Some(LowerWalk::Stopped { frames: fr, errors: e2, fault }) => r == Err::<
                        (),
                        CompileError,
                    >(fault) && frames_view(final(pd).stack_frames) == fr && final(pd).errors@
                        == e2,
                    None => true,
                }
            }),
    {
        let ghost frames0 = frames_view(old(pd).stack_frames);
        let ghost fnsm = fns_view(old(pd).functions);
        let ghost all = old(pd).statements@;
        let ghost err0 = old(pd).errors@;
        let nf = pd.functions.len();
        proof {
            lemma_skeletons_refl(frames0);
            lemma_errors_extended_refl(err0);
        }
        let mut j: usize = 0;
        while j < nf
            invariant
                j <= nf,
                nf == fnsm.len(),
                frames0 == frames_view(old(pd).stack_frames),
                fnsm == fns_view(old(pd).functions),
                all == old(pd).statements@,
                err0 == old(pd).errors@,
                frame_links_wf(frames0),
                owning_coherent(frames0),
                frames_stmts_bounded(frames0, all.len() as int),
                crate::program_data::functions_wf(fnsm, frames0),
                pd.statements == old(pd).statements,
                pd.functions == old(pd).functions,
                pd.tokens == old(pd).tokens,
                pd.source_code == old(pd).source_code,
                skeletons_match(frames_view(pd.stack_frames), frames0),
                errors_extended(err0, pd.errors@),
                lower_all_functions(fnsm, 0, all, frames0, err0) == lower_all_functions(
                    fnsm,
                    j as int,
                    all,
                    frames_view(pd.stack_frames),
                    pd.errors@,
                ),
            decreases nf - j,
        {
            let ghost frames_pre = frames_view(pd.stack_frames);
            let ghost err_pre = pd.errors@;
            let first = pd.functions[j].first_stack_frame;
            proof {
                assert(fnsm[j as int] == pd.functions@[j as int]@);
                assert(first == fnsm[j as int].first_stack_frame);
                assert(first < frames0.len());
                lemma_skeletons_carry_wf(frames_pre, frames0, all.len() as int);
                lemma_postorder_props(frames_pre, first as int);
                let order_j = postorder(frames_pre, first as int)->Some_0;
                lemma_lower_walk_package(order_j, all, fnsm, frames_pre, err_pre);
            }
            let res = self.traverse_stack_frame_children(pd, first);
            proof {
                lemma_skeletons_trans(frames_view(pd.stack_frames), frames_pre, frames0);
                lemma_errors_extended_trans(err0, err_pre, pd.errors@);
            }
            match res {
                Err(e) => {
                    return Err(e);
                },
                Ok(_) => {},
            }
            j = j + 1;
        }
        Ok(())
    }

    /// Lowers one expression to its codegen value    /// Lowers one expression to its codegen value, with the lowerer's
    /// resolution rule for identifiers; built-ins have no value form.
    pub fn expression_to_cg(
        &self,
        pd: &ProgramData,
        stack_frame: usize,
        expression: &Expression,
    ) -> (r: Option<CgExpression>)
        requires
            stack_frame < pd.stack_frames@.len(),
        ensures
            r == expr_to_cg(
                *expression,
                pd.stack_frames@[stack_frame as int]@.variables,
                pd.stack_frames@[stack_frame as int]@.owning_function@,
                fns_view(pd.functions),
            ),
    {
        match expression {
            Expression::Literal(lit) => Some(CgExpression::Literal(lit.clone())),
            Expression::Identifier(id) => {
                let Identifiers::Identifier(idname) = id;
                match self.lookup_value_type(pd, stack_frame, idname.as_str()) {
                    Some(_) => Some(CgExpression::StackVariableIdentifier(idname.clone())),
                    None => None,
                }
            },
            Expression::BuiltInFunction(_) => None,
        }
    }

    /// Appends one codegen statement to a frame.
    pub fn add_cg_statement_to_stack_frame(
        &self,
        pd: &mut ProgramData,
        stack_frame: usize,
        statement: CgStatement,
    )
        requires
            stack_frame < old(pd).stack_frames@.len(),
        ensures
            frames_view(final(pd).stack_frames) == frames_view(old(pd).stack_frames).update(
                stack_frame as int,
                FrameModel {
                    cg_statements: frames_view(old(pd).stack_frames)[
                        stack_frame as int].cg_statements.push(statement@),
                    ..frames_view(old(pd).stack_frames)[stack_frame as int]
                },
            ),
            final(pd).statements == old(pd).statements,
            final(pd).functions == old(pd).functions,
            final(pd).tokens == old(pd).tokens,
            final(pd).source_code == old(pd).source_code,
            final(pd).errors == old(pd).errors,
    {
        let ghost stmt_model = statement@;
        let fr = &mut pd.stack_frames[stack_frame];
        fr.cg_statements.push(statement);
        proof {
            assert(frames_view(pd.stack_frames) =~~= frames_view(old(pd).stack_frames).update(
                stack_frame as int,
                FrameModel {
                    cg_statements: frames_view(old(pd).stack_frames)[
                        stack_frame as int].cg_statements.push(stmt_model),
                    ..frames_view(old(pd).stack_frames)[stack_frame as int]
                },
            ));
        }
    }

    /// Looks `variable_name` up in one frame's own symbol table.
    pub fn borrow_stack_variable_with_sf_index(
        &self,
        pd: &ProgramData,
        stack_frame: usize,
        variable_name: &str,
    ) -> (r: Option<StackVariable>)
        requires
            stack_frame < pd.stack_frames@.len(),
        ensures
            r == find_var(pd.stack_frames@[stack_frame as int]@.variables, variable_name@),
    {
        pd.stack_frames[stack_frame].get_variable(variable_name)
    }

    /// Borrows a frame by arena index.
    pub fn get_stack_frame_by_index<'a>(&self, pd: &'a ProgramData, index: usize) -> (f:
        &'a StackFrame)
        requires
            index < pd.stack_frames@.len(),
        ensures
            *f == pd.stack_frames@[index as int],
    {
        &pd.stack_frames[index]
    }

    /// Borrows a frame by arena index for mutation.
    pub fn get_stack_frame_by_index_mut<'a>(&self, pd: &'a mut ProgramData, index: usize) -> (f:
        &'a mut StackFrame)
        requires
            index < old(pd).stack_frames@.len(),
        ensures
            *f == old(pd).stack_frames@[index as int],
            final(pd).stack_frames@ == old(pd).stack_frames@.update(index as int, *final(f)),
            final(pd).functions == old(pd).functions,
            final(pd).statements == old(pd).statements,
            final(pd).source_code == old(pd).source_code,
            final(pd).tokens == old(pd).tokens,
            final(pd).errors == old(pd).errors,
    {
        &mut pd.stack_frames[index]
    }
}

/// The codegen value of one expression: literals stand as themselves; an
/// identifier survives only if it resolves.
pub open spec fn expr_to_cg(
    e: Expression,
    vars: Seq<(String, StackVariable)>,
    owning: Seq<char>,
    fns: Seq<FunctionModel>,
) -> Option<CgExpression> {
    match e {
        Expression::Literal(lit) => Some(CgExpression::Literal(lit)),
        Expression::Identifier(id) => match id {
            Identifiers::Identifier(name) => match lookup_type(vars, owning, fns, name@) {
                Some(_) => Some(CgExpression::StackVariableIdentifier(name)),
                None => None,
            },
        },
        Expression::BuiltInFunction(_) => None,
    }
}


/// The lowering visit order of the subtree rooted at `idx`: each child's
/// subtree in children-list order, then the frame itself — children are
/// finished before their parent. Lowering never touches the links, so the
/// order is fixed by the arena's shape alone; `None` on a malformed link.
pub open spec fn postorder(frames: Seq<FrameModel>, idx: int) -> Option<Seq<int>>
    decreases frames.len() - idx, 1int, 0int,
{
    if !(0 <= idx < frames.len()) {
        None
    } else {
        match postorder_children(frames, idx, 0) {
            None => None,
            Some(rest) => Some(rest + seq![idx]),
        }
    }
}

/// The concatenated visit orders of `idx`'s children from position `k` on.
pub open spec fn postorder_children(frames: Seq<FrameModel>, idx: int, k: int) -> Option<Seq<int>>
    decreases frames.len() - idx, 0int, frames[idx].children.len() - k,
{
    if !(0 <= idx < frames.len()) {
        None
    } else if !(0 <= k < frames[idx].children.len()) {
        Some(Seq::empty())
    } else {
        let c = frames[idx].children[k] as int;
        if !(idx < c < frames.len()) {
            None
        } else {
            match (postorder(frames, c), postorder_children(frames, idx, k + 1)) {
                (Some(a), Some(b)) => Some(a + b),
                _ => None,
            }
        }
    }
}

/// Result of lowering a sequence of frames: the evolved arena and
/// diagnostics, or the same at the moment a fatal fault stopped the walk.
pub enum LowerWalk {
    Done { frames: Seq<FrameModel>, errors: Seq<CompileError> },
    Stopped { frames: Seq<FrameModel>, errors: Seq<CompileError>, fault: CompileError },
}

/// The lowering walk over an explicit visit order: each visited frame's raw
/// statements are lowered by [`lower_frame_run`] against its own symbol
/// table, appending codegen statements to the frame and recoverable
/// diagnostics to the list, threading both left to right; a fatal fault
/// stops the walk where it stands. `None` only on an out-of-range entry.
pub open spec fn lower_walk(
    order: Seq<int>,
    all: Seq<Statement>,
    fns: Seq<FunctionModel>,
    frames: Seq<FrameModel>,
    errors: Seq<CompileError>,
) -> Option<LowerWalk>
    decreases order.len(),
{
    if order.len() == 0 {
        Some(LowerWalk::Done { frames, errors })
    } else {
        let idx = order[0];
        if !(0 <= idx < frames.len()) {
            None
        } else {
            let f = frames[idx];
            match lower_frame_run(
                f.statements,
                all,
                f.variables,
                f.owning_function@,
                fns,
                idx as usize,
                0,
                f.cg_statements,
                errors,
            ) {
                LowerRun::Stopped { cg, errors: e2, fault } => Some(
                    LowerWalk::Stopped {
                        frames: frames.update(idx, FrameModel { cg_statements: cg, ..f }),
                        errors: e2,
                        fault,
                    },
                ),
                LowerRun::Done { cg, errors: e2 } => lower_walk(
                    order.drop_first(),
                    all,
                    fns,
                    frames.update(idx, FrameModel { cg_statements: cg, ..f }),
                    e2,
                ),
            }
        }
    }
}

/// The whole lowering pass: per registered function, in table order, the
/// lowering walk of its frame tree, threading the arena and diagnostics.
pub open spec fn lower_all_functions(
    fns: Seq<FunctionModel>,
    k: int,
    all: Seq<Statement>,
    frames: Seq<FrameModel>,
    errors: Seq<CompileError>,
) -> Option<LowerWalk>
    decreases fns.len() - k,
{
    if !(0 <= k < fns.len()) {
        Some(LowerWalk::Done { frames, errors })
    } else {
        let first = fns[k].first_stack_frame;
        match postorder(frames, first as int) {
            None => None,
            Some(order) => match lower_walk(order, all, fns, frames, errors) {
                None => None,
                Some(LowerWalk::Stopped { frames: fr, errors: e2, fault }) => Some(
                    LowerWalk::Stopped { frames: fr, errors: e2, fault },
                ),
                Some(LowerWalk::Done { frames: fr, errors: e2 }) => lower_all_functions(
                    fns,
                    k + 1,
                    all,
                    fr,
                    e2,
                ),
            },
        }
    }
}

/// Diagnostics extension is transitive.
proof fn lemma_errors_extended_trans(a: Seq<CompileError>, b: Seq<CompileError>, c: Seq<CompileError>)
    requires
        errors_extended(a, b),
        errors_extended(b, c),
    ensures
        errors_extended(a, c),
{
    assert(c.subrange(0, a.len() as int) =~= b.subrange(0, b.len() as int).subrange(
        0,
        a.len() as int,
    ));
    assert(b.subrange(0, b.len() as int) =~= b);
    assert(c.subrange(0, a.len() as int) =~= b.subrange(0, a.len() as int));
    assert(c.subrange(0, a.len() as int) =~= a);
    assert forall|k: int| a.len() <= k < c.len() implies recoverable(#[trigger] c[k]) by {
        if k < b.len() {
            assert(c.subrange(0, b.len() as int)[k] == c[k]);
            assert(b[k] == c[k]);
        }
    }
}

/// Appending one recoverable diagnostic is an extension.
proof fn lemma_errors_extended_push(a: Seq<CompileError>, e: CompileError)
    requires
        recoverable(e),
    ensures
        errors_extended(a, a.push(e)),
{
    assert(a.push(e).subrange(0, a.len() as int) =~= a);
}

proof fn lemma_errors_extended_refl(a: Seq<CompileError>)
    ensures
        errors_extended(a, a),
{
    assert(a.subrange(0, a.len() as int) =~= a);
}

/// Under the arena's link discipline every subtree's visit order is
/// defined, and its entries lie between the root and the arena's end.
pub proof fn lemma_postorder_props(frames: Seq<FrameModel>, idx: int)
    requires
        frame_links_wf(frames),
        0 <= idx < frames.len(),
    ensures
        postorder(frames, idx) matches Some(order) && forall|j: int|
            0 <= j < order.len() ==> idx <= #[trigger] order[j] < frames.len(),
    decreases frames.len() - idx, 1int, 0int,
{
    lemma_postorder_children_props(frames, idx, 0);
    let rest = postorder_children(frames, idx, 0)->Some_0;
    let order = rest + seq![idx];
    assert forall|j: int| 0 <= j < order.len() implies idx <= #[trigger] order[j]
        < frames.len() by {
        if j < rest.len() {
            assert(order[j] == rest[j]);
        }
    }
}

proof fn lemma_postorder_children_props(frames: Seq<FrameModel>, idx: int, k: int)
    requires
        frame_links_wf(frames),
        0 <= idx < frames.len(),
    ensures
        postorder_children(frames, idx, k) matches Some(rest) && forall|j: int|
            0 <= j < rest.len() ==> idx < #[trigger] rest[j] < frames.len(),
    decreases frames.len() - idx, 0int, frames[idx].children.len() - k,
{
    if 0 <= k < frames[idx].children.len() {
        let c = frames[idx].children[k] as int;
        assert(idx < c < frames.len());
        lemma_postorder_props(frames, c);
        lemma_postorder_children_props(frames, idx, k + 1);
        let a = postorder(frames, c)->Some_0;
        let b = postorder_children(frames, idx, k + 1)->Some_0;
        let rest = a + b;
        assert forall|j: int| 0 <= j < rest.len() implies idx < #[trigger] rest[j]
            < frames.len() by {
            if j < a.len() {
                assert(rest[j] == a[j]);
            } else {
                assert(rest[j] == b[j - a.len()]);
            }
        }
    }
}

/// The visit order reads only lengths and child links, so it is the same
/// for two arenas that differ at most in codegen statements.
pub proof fn lemma_postorder_stable(a: Seq<FrameModel>, b: Seq<FrameModel>, idx: int)
    requires
        skeletons_match(a, b),
    ensures
        postorder(a, idx) == postorder(b, idx),
    decreases a.len() - idx, 1int, 0int,
{
    if 0 <= idx < a.len() {
        lemma_postorder_children_stable(a, b, idx, 0);
    }
}

proof fn lemma_postorder_children_stable(a: Seq<FrameModel>, b: Seq<FrameModel>, idx: int, k: int)
    requires
        skeletons_match(a, b),
        0 <= idx < a.len(),
    ensures
        postorder_children(a, idx, k) == postorder_children(b, idx, k),
    decreases a.len() - idx, 0int, a[idx].children.len() - k,
{
    assert(same_skeleton(a[idx], b[idx]));
    if 0 <= k < a[idx].children.len() {
        let c = a[idx].children[k] as int;
        if idx < c < a.len() {
            lemma_postorder_stable(a, b, c);
            lemma_postorder_children_stable(a, b, idx, k + 1);
        }
    }
}

/// Splitting a visit order splits the lowering walk: the front's threaded
/// arena and diagnostics feed the back.
pub proof fn lemma_lower_walk_append(
    a: Seq<int>,
    b: Seq<int>,
    all: Seq<Statement>,
    fns: Seq<FunctionModel>,
    frames: Seq<FrameModel>,
    errors: Seq<CompileError>,
)
    ensures
        lower_walk(a + b, all, fns, frames, errors) == (match lower_walk(
            a,
            all,
            fns,
            frames,
            errors,
        ) {
            None => None,
            Some(LowerWalk::Stopped { frames: fr, errors: e2, fault }) => Some(
                LowerWalk::Stopped { frames: fr, errors: e2, fault },
            ),
            Some(LowerWalk::Done { frames: fr, errors: e2 }) => lower_walk(
                b,
                all,
                fns,
                fr,
                e2,
            ),
        }),
    decreases a.len(),
{
    if a.len() == 0 {
        assert(a + b =~= b);
    } else {
        let ab = a + b;
        assert(ab.len() > 0 && ab[0] == a[0]);
        let idx = a[0];
        if 0 <= idx < frames.len() {
            let f = frames[idx];
            match lower_frame_run(
                f.statements,
                all,
                f.variables,
                f.owning_function@,
                fns,
                idx as usize,
                0,
                f.cg_statements,
                errors,
            ) {
                LowerRun::Stopped { cg, errors: e2, fault } => {},
                LowerRun::Done { cg, errors: e2 } => {
                    assert(ab.drop_first() =~= a.drop_first() + b);
                    lemma_lower_walk_append(
                        a.drop_first(),
                        b,
                        all,
                        fns,
                        frames.update(idx, FrameModel { cg_statements: cg, ..f }),
                        e2,
                    );
                },
            }
        }
    }
}

/// With in-range entries the lowering walk is defined; it keeps the arena's
/// shape, only appends recoverable diagnostics, and stops only on a fault
/// that is not recoverable.
pub proof fn lemma_lower_walk_package(
    order: Seq<int>,
    all: Seq<Statement>,
    fns: Seq<FunctionModel>,
    frames: Seq<FrameModel>,
    errors: Seq<CompileError>,
)
    requires
        forall|j: int| 0 <= j < order.len() ==> 0 <= #[trigger] order[j] < frames.len(),
    ensures
        match lower_walk(order, all, fns, frames, errors) {
            Some(LowerWalk::Done { frames: fr, errors: e2 }) => skeletons_match(fr, frames)
                && errors_extended(errors, e2),
            Some(LowerWalk::Stopped { frames: fr, errors: e2, fault }) => skeletons_match(
                fr,
                frames,
            ) && errors_extended(errors, e2) && !recoverable(fault),
            None => false,
        },
    decreases order.len(),
{
    if order.len() == 0 {
        lemma_skeletons_refl(frames);
        lemma_errors_extended_refl(errors);
    } else {
        let idx = order[0];
        let f = frames[idx];
        let run = lower_frame_run(
            f.statements,
            all,
            f.variables,
            f.owning_function@,
            fns,
            idx as usize,
            0,
            f.cg_statements,
            errors,
        );
        lemma_run_shape(
            f.statements,
            all,
            f.variables,
            f.owning_function@,
            fns,
            idx as usize,
            0,
            f.cg_statements,
            errors,
        );
        match run {
            LowerRun::Stopped { cg, errors: e2, fault } => {
                let frames2 = frames.update(idx, FrameModel { cg_statements: cg, ..f });
                assert forall|i: int| 0 <= i < frames2.len() implies same_skeleton(
                    #[trigger] frames2[i],
                    frames[i],
                ) by {
                    if i != idx {
                        assert(frames2[i] == frames[i]);
                    }
                }
            },
            LowerRun::Done { cg, errors: e2 } => {
                let frames2 = frames.update(idx, FrameModel { cg_statements: cg, ..f });
                assert forall|i: int| 0 <= i < frames2.len() implies same_skeleton(
                    #[trigger] frames2[i],
                    frames[i],
                ) by {
                    if i != idx {
                        assert(frames2[i] == frames[i]);
                    }
                }
                assert forall|j: int|
                    0 <= j < order.drop_first().len() implies 0 <= #[trigger] order.drop_first()[j]
                    < frames2.len() by {
                    assert(order.drop_first()[j] == order[j + 1]);
                }
                lemma_lower_walk_package(order.drop_first(), all, fns, frames2, e2);
                match lower_walk(order.drop_first(), all, fns, frames2, e2) {
                    Some(LowerWalk::Done { frames: fr, errors: e3 }) => {
                        lemma_skeletons_trans(fr, frames2, frames);
                        lemma_errors_extended_trans(errors, e2, e3);
                    },
                    Some(LowerWalk::Stopped { frames: fr, errors: e3, fault }) => {
                        lemma_skeletons_trans(fr, frames2, frames);
                        lemma_errors_extended_trans(errors, e2, e3);
                    },
                    None => {},
                }
            },
        }
    }
}

/// A frame's walk only appends recoverable diagnostics, and stops only on a
/// fault that is not recoverable.
proof fn lemma_run_shape(
    stmt_indices: Seq<usize>,
    all: Seq<Statement>,
    vars: Seq<(String, StackVariable)>,
    owning: Seq<char>,
    fns: Seq<FunctionModel>,
    frame_idx: usize,
    k: int,
    cg: Seq<CgStatementModel>,
    errors: Seq<CompileError>,
)
    ensures
        match lower_frame_run(stmt_indices, all, vars, owning, fns, frame_idx, k, cg, errors) {
            LowerRun::Done { cg: c2, errors: e2 } => errors_extended(errors, e2),
            LowerRun::Stopped { cg: c2, errors: e2, fault } => errors_extended(errors, e2)
                && !recoverable(fault),
        },
    decreases stmt_indices.len() - k,
{
    if k < 0 || k >= stmt_indices.len() {
        lemma_errors_extended_refl(errors);
    } else {
        let si = stmt_indices[k] as int;
        let outcome = if si < all.len() {
            lower_statement(all[si], vars, owning, fns, frame_idx)
        } else {
            LowerOutcome::Skip
        };
        match outcome {
            LowerOutcome::Fatal(e) => {
                lemma_errors_extended_refl(errors);
            },
            LowerOutcome::Skip => {
                lemma_run_shape(stmt_indices, all, vars, owning, fns, frame_idx, k + 1, cg, errors);
            },
            LowerOutcome::Lowered(c) => {
                lemma_run_shape(
                    stmt_indices,
                    all,
                    vars,
                    owning,
                    fns,
                    frame_idx,
                    k + 1,
                    cg.push(c),
                    errors,
                );
            },
            LowerOutcome::Recover(e) => {
                lemma_errors_extended_push(errors, e);
                lemma_run_shape(
                    stmt_indices,
                    all,
                    vars,
                    owning,
                    fns,
                    frame_idx,
                    k + 1,
                    cg,
                    errors.push(e),
                );
                match lower_frame_run(
                    stmt_indices,
                    all,
                    vars,
                    owning,
                    fns,
                    frame_idx,
                    k + 1,
                    cg,
                    errors.push(e),
                ) {
                    LowerRun::Done { cg: c2, errors: e2 } => {
                        lemma_errors_extended_trans(errors, errors.push(e), e2);
                    },
                    LowerRun::Stopped { cg: c2, errors: e2, fault } => {
                        lemma_errors_extended_trans(errors, errors.push(e), e2);
                    },
                }
            },
        }
    }
}


proof fn lemma_skeletons_refl(a: Seq<FrameModel>)
    ensures
        skeletons_match(a, a),
{
}

proof fn lemma_skeletons_trans(a: Seq<FrameModel>, b: Seq<FrameModel>, c: Seq<FrameModel>)
    requires
        skeletons_match(a, b),
        skeletons_match(b, c),
    ensures
        skeletons_match(a, c),
{
    assert forall|i: int| 0 <= i < a.len() implies same_skeleton(#[trigger] a[i], c[i]) by {
        assert(same_skeleton(a[i], b[i]));
        assert(same_skeleton(b[i], c[i]));
    }
}

/// Link discipline, owning coherence and statement bounds only read the
/// frames' skeletons, so they carry across a lowering pass.
pub proof fn lemma_skeletons_carry_wf(a: Seq<FrameModel>, b: Seq<FrameModel>, n_statements: int)
    requires
        skeletons_match(a, b),
        frame_links_wf(b),
        owning_coherent(b),
        frames_stmts_bounded(b, n_statements),
    ensures
        frame_links_wf(a),
        owning_coherent(a),
        frames_stmts_bounded(a, n_statements),
{
    assert forall|i: int| 0 <= i < a.len() implies ((#[trigger] a[i]).parent == crate::stack_frame::NO_PARENT
        || a[i].parent < i) && (forall|k: int|
        0 <= k < a[i].children.len() ==> i < #[trigger] a[i].children[k] < a.len()) by {
        assert(same_skeleton(a[i], b[i]));
        assert((b[i].parent == crate::stack_frame::NO_PARENT || b[i].parent < i) && (forall|k: int|
            0 <= k < b[i].children.len() ==> i < #[trigger] b[i].children[k] < b.len()));
    }
    assert forall|i: int, k: int|
        0 <= i < a.len() && 0 <= k < a[i].children.len() && a[i].children[k] < a.len() implies a[
        #[trigger] a[i].children[k] as int].owning_function@ == a[i].owning_function@ by {
        assert(same_skeleton(a[i], b[i]));
        let c = a[i].children[k] as int;
        assert(same_skeleton(a[c], b[c]));
        assert(b[c].owning_function@ == b[i].owning_function@);
    }
    assert forall|i: int, k: int|
        0 <= i < a.len() && 0 <= k < a[i].statements.len() implies (#[trigger] a[i].statements[k])
        < n_statements by {
        assert(same_skeleton(a[i], b[i]));
    }
}

} // verus!
