//! The scope/frame builder: one linear walk over the raw statement stream
//! that produces the frame arena and the function table, maintaining a scope
//! stack and a current-function marker.
//!
//! A top-level function declaration opens a fresh root frame and registers
//! the function; a duplicate name is fatal. Any other statement met while no
//! function is current is fatal. A variable declaration inserts the name at
//! the frame's running byte offset — a name already present *in that frame*
//! (ancestors are not consulted, so shadowing in nested blocks is allowed)
//! is a recoverable diagnostic and the statement is skipped. A block close
//! pops the scope stack, ending the function body when the stack empties.
//! Everything else is appended verbatim to the current frame for the later
//! phases. The whole walk is specified by [`build_run`], a fold of
//! [`build_step`] over the statement list.

use vstd::prelude::*;

use crate::ast_statements::{
    clone_arg_vec, type_size, Function, FunctionModel, Statement, Statements, VariableDeclaration,
};
use crate::program_data::{
    fns_view, frame_links_wf, frames_view, functions_wf, has_fn, CompileError, ProgramData,
    StructuralFault,
};
use crate::stack_frame::{
    empty_frame, frame_add_statement, frame_alloc_exact, frame_declare, frame_has_var,
    frame_vars_wf, lemma_declare_preserves_wf, FrameModel, StackFrame, NO_PARENT,
};

verus! {

/// The builder's working state, as mathematics: the arena and function table
/// grown so far, the diagnostics list, the scope stack and the name of the
/// function whose body is being walked.
#[verifier::ext_equal]
pub struct BuildState {
    pub frames: Seq<FrameModel>,
    pub functions: Seq<FunctionModel>,
    pub errors: Seq<CompileError>,
    pub scope_stack: Seq<usize>,
    pub current_function: Option<String>,
}

/// What one statement does to the builder: carry on in a new state, halt the
/// pass with a fatal diagnostic, or finish the walk.
pub enum BuildOutcome {
    Next(BuildState),
    Halt(CompileError),
    Finished,
}

/// The builder's state drawn from the live store plus the walker's own data.
pub open spec fn builder_state(
    pd: ProgramData,
    scope_stack: Seq<usize>,
    current_function: Option<String>,
) -> BuildState {
    BuildState {
        frames: frames_view(pd.stack_frames),
        functions: fns_view(pd.functions),
        errors: pd.errors@,
        scope_stack,
        current_function,
    }
}

/// Appending statement `idx` verbatim to the frame on top of the scope stack.
pub open spec fn append_to_current(s: BuildState, idx: usize) -> BuildOutcome {
    if s.scope_stack.len() == 0 {
        BuildOutcome::Halt(
            CompileError::StructuralError(StructuralFault::StatementOutsideFunction),
        )
    } else {
        let cur = s.scope_stack.last() as int;
        BuildOutcome::Next(
            BuildState {
                frames: s.frames.update(cur, frame_add_statement(s.frames[cur], idx)),
                ..s
            },
        )
    }
}

/// Declaring a variable in the frame on top of the scope stack: a duplicate
/// name in that frame alone is a recoverable diagnostic and the statement is
/// dropped; otherwise the slot is appended and the statement kept for the
/// lowering phase.
pub open spec fn declare_in_current(s: BuildState, vd: VariableDeclaration, idx: usize) -> BuildOutcome {
    if s.scope_stack.len() == 0 {
        BuildOutcome::Halt(
            CompileError::StructuralError(StructuralFault::StatementOutsideFunction),
        )
    } else {
        let cur = s.scope_stack.last() as int;
        if frame_has_var(s.frames[cur], vd.name@) {
            BuildOutcome::Next(
                BuildState {
                    errors: s.errors.push(CompileError::DuplicateVariableError(vd.name)),
                    ..s
                },
            )
        } else {
            BuildOutcome::Next(
                BuildState {
                    frames: s.frames.update(
                        cur,
                        frame_add_statement(
                            frame_declare(s.frames[cur], vd.name, vd.variable_type),
                            idx,
                        ),
                    ),
                    ..s
                },
            )
        }
    }
}

/// Closing a block: pop the scope stack, and clear the current-function
/// marker when the stack empties.
pub open spec fn pop_current(s: BuildState) -> BuildOutcome {
    let popped = if s.scope_stack.len() == 0 {
        s.scope_stack
    } else {
        s.scope_stack.drop_last()
    };
    BuildOutcome::Next(
        BuildState {
            scope_stack: popped,
            current_function: if popped.len() == 0 {
                None
            } else {
                s.current_function
            },
            ..s
        },
    )
}

/// One step of the walk over statement `stmt`, which sits at index `idx` of
/// the raw statement list.
pub open spec fn build_step(s: BuildState, stmt: Statement, idx: usize) -> BuildOutcome {
    match stmt.statement_type {
        Statements::EOF => BuildOutcome::Finished,
        Statements::FunctionDeclaration(fd) => {
            if s.current_function is None {
                if has_fn(s.functions, fd.name@) {
                    BuildOutcome::Halt(
                        CompileError::StructuralError(StructuralFault::DuplicateFunction(fd.name)),
                    )
                } else {
                    let new_index = s.frames.len() as usize;
                    BuildOutcome::Next(
                        BuildState {
                            frames: s.frames.push(empty_frame(NO_PARENT, fd.name)),
                            functions: s.functions.push(
                                FunctionModel {
                                    name: fd.name,
                                    return_type: fd.return_type,
                                    args: fd.args@,
                                    first_stack_frame: new_index,
                                },
                            ),
                            scope_stack: s.scope_stack.push(new_index),
                            current_function: Some(fd.name),
                            ..s
                        },
                    )
                }
            } else {
                // a declaration nested in a body is kept verbatim for the
                // later phases, like any other statement
                append_to_current(s, idx)
            }
        },
        _ => {
            if s.current_function is None {
                BuildOutcome::Halt(
                    CompileError::StructuralError(StructuralFault::StatementOutsideFunction),
                )
            } else {
                match stmt.statement_type {
                    Statements::VariableDeclaration(vd) => declare_in_current(s, vd, idx),
                    Statements::StackFramePop => pop_current(s),
                    _ => append_to_current(s, idx),
                }
            }
        },
    }
}

/// The whole walk from statement `p` on: folds [`build_step`] until the
/// terminating `EOF`, a fatal fault, or the end of the list.
pub enum BuildResult {
    Completed(BuildState),
    Halted(BuildState, CompileError),
}

pub open spec fn build_run(s: BuildState, stmts: Seq<Statement>, p: int) -> BuildResult
    decreases stmts.len() - p,
{
    if p < 0 || p >= stmts.len() {
        BuildResult::Completed(s)
    } else {
        match build_step(s, stmts[p], p as usize) {
            BuildOutcome::Finished => BuildResult::Completed(s),
            BuildOutcome::Halt(e) => BuildResult::Halted(s, e),
            BuildOutcome::Next(s2) => build_run(s2, stmts, p + 1),
        }
    }
}

/// Per-frame facts the builder maintains: a well-formed symbol table whose
/// allocation counter is exact, bounded by the statements walked so far, and
/// raw-statement indices that point into the program's statement list.
pub open spec fn build_frame_ok(f: FrameModel, n_statements: int, consumed: int) -> bool {
    &&& frame_vars_wf(f)
    &&& frame_alloc_exact(f)
    &&& f.stack_mem_allocated <= 4 * consumed
    &&& forall|k: int| 0 <= k < f.statements.len() ==> (#[trigger] f.statements[k]) < n_statements
}

/// Everything the builder keeps true from step to step.
pub open spec fn builder_inv(s: BuildState, n_statements: int, consumed: int) -> bool {
    &&& frame_links_wf(s.frames)
    &&& forall|i: int|
        0 <= i < s.frames.len() ==> build_frame_ok(#[trigger] s.frames[i], n_statements, consumed)
    &&& functions_wf(s.functions, s.frames)
    &&& crate::semantic_analysis::owning_coherent(s.frames)
    &&& forall|k: int|
        0 <= k < s.functions.len() ==> s.frames[(#[trigger] s.functions[k]).first_stack_frame
            as int].owning_function@ == s.functions[k].name@
    &&& forall|k: int| 0 <= k < s.scope_stack.len() ==> (#[trigger] s.scope_stack[k]) < s.frames.len()
    &&& (s.current_function is Some <==> s.scope_stack.len() > 0)
}

/// Law: the duplicate check consults the innermost frame alone. A name
/// already declared there is refused with `DuplicateVariableError` and the
/// statement dropped; the same name in any enclosing frame changes nothing,
/// so shadowing across nested blocks is permitted.
pub proof fn lemma_duplicate_check_is_frame_local(
    s: BuildState,
    vd: VariableDeclaration,
    idx: usize,
)
    requires
        s.scope_stack.len() > 0,
        s.scope_stack.last() < s.frames.len(),
    ensures
        ({
            let cur = s.scope_stack.last() as int;
            if frame_has_var(s.frames[cur], vd.name@) {
                declare_in_current(s, vd, idx) == BuildOutcome::Next(
                    BuildState {
                        errors: s.errors.push(CompileError::DuplicateVariableError(vd.name)),
                        ..s
                    },
                )
            } else {
                declare_in_current(s, vd, idx) == BuildOutcome::Next(
                    BuildState {
                        frames: s.frames.update(
                            cur,
                            frame_add_statement(
                                frame_declare(s.frames[cur], vd.name, vd.variable_type),
                                idx,
                            ),
                        ),
                        ..s
                    },
                )
            }
        }),
{
}

/// A name present in the table is found by the lookup.
proof fn lemma_has_fn_from_element(fns: Seq<FunctionModel>, name: Seq<char>, i: int)
    requires
        0 <= i < fns.len(),
        fns[i].name@ == name,
    ensures
        has_fn(fns, name),
    decreases i,
{
    if fns[0].name@ != name {
        lemma_has_fn_from_element(fns.drop_first(), name, i - 1);
    }
}

/// One accepted step keeps the builder's invariant, counting one more
/// statement as consumed.
pub proof fn lemma_step_preserves_inv(
    s: BuildState,
    stmt: Statement,
    idx: usize,
    n_statements: int,
    consumed: int,
)
    requires
        builder_inv(s, n_statements, consumed),
        0 <= consumed,
        idx < n_statements,
        4 * n_statements + 16 <= usize::MAX,
        consumed < n_statements,
        s.frames.len() < usize::MAX,
        build_step(s, stmt, idx) is Next,
    ensures
        builder_inv(build_step(s, stmt, idx)->Next_0, n_statements, consumed + 1),
{
    let s2 = build_step(s, stmt, idx)->Next_0;
    match stmt.statement_type {
        Statements::FunctionDeclaration(fd) => {
            if s.current_function is None {
                let newf = empty_frame(NO_PARENT, fd.name);
                let new_index = s.frames.len() as usize;
                assert(s2.frames[new_index as int] == newf);
                assert forall|i: int|
                    0 <= i < s2.frames.len() implies build_frame_ok(
                    #[trigger] s2.frames[i],
                    n_statements,
                    consumed + 1,
                ) by {
                    if i < s.frames.len() {
                        assert(s2.frames[i] == s.frames[i]);
                        assert(build_frame_ok(s.frames[i], n_statements, consumed));
                    } else {
                        assert(s2.frames[i] == newf);
                    }
                }
                assert forall|i: int| 0 <= i < s2.frames.len() implies ((
                #[trigger] s2.frames[i]).parent == NO_PARENT || s2.frames[i].parent < i)
                    && (forall|k: int|
                    0 <= k < s2.frames[i].children.len() ==> i < #[trigger] s2.frames[i].children[k]
                        < s2.frames.len()) by {
                    if i < s.frames.len() {
                        assert(s2.frames[i] == s.frames[i]);
                        assert(frame_links_wf(s.frames));
                    }
                }
                assert(frame_links_wf(s2.frames));
                assert forall|i: int, j: int|
                    0 <= i < j < s2.functions.len() implies (#[trigger] s2.functions[i]).name@ != (
                #[trigger] s2.functions[j]).name@ by {
                    if j == s.functions.len() {
                        if s.functions[i].name@ == fd.name@ {
                            lemma_has_fn_from_element(s.functions, fd.name@, i);
                        }
                    }
                }
                assert forall|i: int|
                    0 <= i < s2.functions.len() implies (#[trigger] s2.functions[i]).first_stack_frame
                    < s2.frames.len() && s2.frames[s2.functions[i].first_stack_frame as int].parent
                    == NO_PARENT by {
                    if i < s.functions.len() {
                        assert(s2.functions[i] == s.functions[i]);
                        let ff = s.functions[i].first_stack_frame as int;
                        assert(s2.frames[ff] == s.frames[ff]);
                    }
                }
                assert forall|k: int|
                    0 <= k < s2.scope_stack.len() implies (#[trigger] s2.scope_stack[k])
                    < s2.frames.len() by {
                    if k < s.scope_stack.len() {
                        assert(s2.scope_stack[k] == s.scope_stack[k]);
                    } else {
                        assert(s2.scope_stack[k] == new_index);
                    }
                }
            } else {
                lemma_append_preserves(s, idx, n_statements, consumed);
            }
        },
        Statements::VariableDeclaration(vd) => {
            let cur = s.scope_stack.last() as int;
            assert(0 <= cur < s.frames.len());
            if !frame_has_var(s.frames[cur], vd.name@) {
                let f = s.frames[cur];
                assert(build_frame_ok(f, n_statements, consumed));
                lemma_declare_preserves_wf(f, vd.name, vd.variable_type);
                assert(type_size(vd.variable_type) <= 4);
                let g = frame_add_statement(
                    frame_declare(f, vd.name, vd.variable_type),
                    idx,
                );
                assert(frame_vars_wf(g) && frame_alloc_exact(g)) by {
                    assert(g.variables == frame_declare(f, vd.name, vd.variable_type).variables);
                    assert(g.stack_mem_allocated == frame_declare(
                        f,
                        vd.name,
                        vd.variable_type,
                    ).stack_mem_allocated);
                }
                assert forall|i: int|
                    0 <= i < s2.frames.len() implies build_frame_ok(
                    #[trigger] s2.frames[i],
                    n_statements,
                    consumed + 1,
                ) by {
                    if i != cur {
                        assert(s2.frames[i] == s.frames[i]);
                        assert(build_frame_ok(s.frames[i], n_statements, consumed));
                    } else {
                        assert(s2.frames[i] == g);
                        assert forall|k: int|
                            0 <= k < g.statements.len() implies (#[trigger] g.statements[k])
                            < n_statements by {
                            if k < f.statements.len() {
                                assert(g.statements[k] == f.statements[k]);
                            }
                        }
                    }
                }
                lemma_frames_update_links(s.frames, cur, g);
                assert forall|i: int|
                    0 <= i < s2.functions.len() implies (#[trigger] s2.functions[i]).first_stack_frame
                    < s2.frames.len() && s2.frames[s2.functions[i].first_stack_frame as int].parent
                    == NO_PARENT by {
                    let ff = s.functions[i].first_stack_frame as int;
                    if ff == cur {
                        assert(s2.frames[ff].parent == s.frames[ff].parent);
                    } else {
                        assert(s2.frames[ff] == s.frames[ff]);
                    }
                }
            }
        },
        Statements::StackFramePop => {
            let popped = s2.scope_stack;
            assert forall|k: int|
                0 <= k < popped.len() implies (#[trigger] popped[k]) < s2.frames.len() by {
                assert(popped[k] == s.scope_stack[k]);
            }
        },
        _ => {
            lemma_append_preserves(s, idx, n_statements, consumed);
        },
    }
}

/// Updating one frame without touching its parent or child links keeps the
/// arena's link discipline.
pub proof fn lemma_frames_update_links(frames: Seq<FrameModel>, cur: int, g: FrameModel)
    requires
        frame_links_wf(frames),
        0 <= cur < frames.len(),
        g.parent == frames[cur].parent,
        g.children == frames[cur].children,
    ensures
        frame_links_wf(frames.update(cur, g)),
{
    let frames2 = frames.update(cur, g);
    assert forall|i: int| 0 <= i < frames2.len() implies ((#[trigger] frames2[i]).parent
        == NO_PARENT || frames2[i].parent < i) && (forall|k: int|
        0 <= k < frames2[i].children.len() ==> i < #[trigger] frames2[i].children[k]
            < frames2.len()) by {
        if i != cur {
            assert(frames2[i] == frames[i]);
        } else {
            assert(frames2[i].parent == frames[i].parent);
            assert(frames2[i].children == frames[i].children);
        }
        assert((frames[i].parent == NO_PARENT || frames[i].parent < i) && (forall|k: int|
            0 <= k < frames[i].children.len() ==> i < #[trigger] frames[i].children[k]
                < frames.len()));
    }
}

proof fn lemma_append_preserves(s: BuildState, idx: usize, n_statements: int, consumed: int)
    requires
        builder_inv(s, n_statements, consumed),
        0 <= consumed,
        idx < n_statements,
        s.scope_stack.len() > 0,
    ensures
        builder_inv(append_to_current(s, idx)->Next_0, n_statements, consumed + 1),
{
    let s2 = append_to_current(s, idx)->Next_0;
    let cur = s.scope_stack.last() as int;
    assert(0 <= cur < s.frames.len());
    let f = s.frames[cur];
    let g = frame_add_statement(f, idx);
    assert forall|i: int|
        0 <= i < s2.frames.len() implies build_frame_ok(
        #[trigger] s2.frames[i],
        n_statements,
        consumed + 1,
    ) by {
        if i != cur {
            assert(s2.frames[i] == s.frames[i]);
            assert(build_frame_ok(s.frames[i], n_statements, consumed));
        } else {
            assert(s2.frames[i] == g);
            assert(build_frame_ok(f, n_statements, consumed));
            assert forall|k: int|
                0 <= k < g.statements.len() implies (#[trigger] g.statements[k])
                < n_statements by {
                if k < f.statements.len() {
                    assert(g.statements[k] == f.statements[k]);
                }
            }
        }
    }
    lemma_frames_update_links(s.frames, cur, g);
    assert forall|i: int|
        0 <= i < s2.functions.len() implies (#[trigger] s2.functions[i]).first_stack_frame
        < s2.frames.len() && s2.frames[s2.functions[i].first_stack_frame as int].parent
        == NO_PARENT by {
        let ff = s.functions[i].first_stack_frame as int;
        if ff == cur {
            assert(s2.frames[ff].parent == s.frames[ff].parent);
        } else {
            assert(s2.frames[ff] == s.frames[ff]);
        }
    }
}

/// Appending through the helper, which does not look at the current-function
/// marker, is the step the walk takes for any verbatim-kept statement.
proof fn lift_append_step(s_before: BuildState, s_after: BuildState, stmt: Statement, idx: usize)
    requires
        append_to_current(BuildState { current_function: None, ..s_before }, idx)
            == BuildOutcome::Next(BuildState { current_function: None, ..s_after }),
        s_before.current_function is Some,
        s_before.scope_stack.len() > 0,
        s_after.scope_stack == s_before.scope_stack,
        s_after.current_function == s_before.current_function,
        !(stmt.statement_type is EOF),
        !(stmt.statement_type is VariableDeclaration),
        !(stmt.statement_type is StackFramePop),
    ensures
        build_step(s_before, stmt, idx) == BuildOutcome::Next(s_after),
{
    let cur = s_before.scope_stack.last() as int;
    let none_before = BuildState { current_function: None, ..s_before };
    let none_after = BuildState { current_function: None, ..s_after };
    assert(none_after == append_to_current(none_before, idx)->Next_0);
    assert(s_after.frames == none_before.frames.update(
        cur,
        frame_add_statement(none_before.frames[cur], idx),
    ));
    assert(none_before.frames == s_before.frames);
    assert(s_after.functions == s_before.functions);
    assert(s_after.errors == s_before.errors);
    assert(append_to_current(s_before, idx)->Next_0 =~= s_after);
    assert(build_step(s_before, stmt, idx) == append_to_current(s_before, idx));
}

/// The scope/frame builder. `position` is the cursor into the raw statement
/// list; `scope_stack` holds the indices of the open frames, innermost last.
#[derive(Debug)]
pub struct ScopeAnalysis {
    pub position: usize,
    pub scope_stack: Vec<usize>,
    pub current_function: Option<String>,
}

impl ScopeAnalysis {
    /// A builder at the start of the statement list with no open scope.
    pub fn new() -> (s: Self)
        ensures
            s.position == 0,
            s.scope_stack@ == Seq::<usize>::empty(),
            s.current_function is None,
    {
        ScopeAnalysis { position: 0, scope_stack: Vec::new(), current_function: None }
    }

    /// Runs the whole frame-building walk over `pd.statements`, exactly as
    /// [`build_run`] describes: functions are registered with fresh root
    /// frames, variables land in the innermost open frame, block closes pop
    /// the scope stack, and every other statement is kept verbatim for the
    /// later phases. Recoverable faults (a duplicate variable) are appended
    /// to `pd.errors`; a fatal fault (a duplicate function, or any statement
    /// outside a function) halts at once with `Err`.
    pub fn process_all(&mut self, pd: &mut ProgramData) -> (r: Result<(), CompileError>)
        requires
            old(self).position == 0,
            old(self).scope_stack@.len() == 0,
            old(self).current_function is None,
            old(pd).stack_frames@.len() == 0,
            old(pd).functions@.len() == 0,
            old(pd).errors@.len() == 0,
            4 * old(pd).statements@.len() + 16 <= usize::MAX,
        ensures
            final(pd).statements == old(pd).statements,
            final(pd).tokens == old(pd).tokens,
            final(pd).source_code == old(pd).source_code,
            final(self).position <= old(pd).statements@.len(),
            builder_inv(
                builder_state(*final(pd), final(self).scope_stack@, final(self).current_function),
                old(pd).statements@.len() as int,
                final(self).position as int,
            ),
            ({
                let init = builder_state(*old(pd), old(self).scope_stack@, None);
                let fin = builder_state(
                    *final(pd),
                    final(self).scope_stack@,
                    final(self).current_function,
                );
                match r {
                    Ok(_) => build_run(init, old(pd).statements@, 0) == BuildResult::Completed(fin),
                    Err(e) => build_run(init, old(pd).statements@, 0) == BuildResult::Halted(
                        fin,
                        e,
                    ),
                }
            }),
    {
        let ghost stmts = pd.statements@;
        let ghost init = builder_state(*pd, self.scope_stack@, None);
        let n = pd.statements.len();
        proof {
            assert(frames_view(pd.stack_frames) =~= Seq::<FrameModel>::empty());
            assert(fns_view(pd.functions) =~= Seq::<FunctionModel>::empty());
        }
        loop
            invariant
                init == builder_state(*old(pd), old(self).scope_stack@, None),
                stmts == old(pd).statements@,
                n == stmts.len(),
                pd.statements@ == stmts,
                pd.statements == old(pd).statements,
                pd.tokens == old(pd).tokens,
                pd.source_code == old(pd).source_code,
                self.position <= n,
                4 * n + 16 <= usize::MAX,
                frames_view(pd.stack_frames).len() <= self.position,
                builder_inv(
                    builder_state(*pd, self.scope_stack@, self.current_function),
                    n as int,
                    self.position as int,
                ),
                build_run(init, stmts, 0) == build_run(
                    builder_state(*pd, self.scope_stack@, self.current_function),
                    stmts,
                    self.position as int,
                ),
            decreases n - self.position,
        {
            let ghost s_before = builder_state(*pd, self.scope_stack@, self.current_function);
            let ghost pos = self.position as int;
            if self.position >= n {
                proof {
                    assert(build_run(s_before, stmts, pos) == BuildResult::Completed(s_before));
                }
                return Ok(());
            }
            let stmt = &pd.statements[self.position];
            match &stmt.statement_type {
                Statements::EOF => {
                    proof {
                        assert(build_step(s_before, stmts[pos], pos as usize)
                            == BuildOutcome::Finished);
                        assert(build_run(s_before, stmts, pos) == BuildResult::Completed(s_before));
                    }
                    return Ok(());
                },
                Statements::FunctionDeclaration(fd) => {
                    if self.current_function.is_none() {
                        if pd.get_function(fd.name.as_str()).is_some() {
                            let e = CompileError::StructuralError(
                                StructuralFault::DuplicateFunction(fd.name.clone()),
                            );
                            proof {
                                assert(build_step(s_before, stmts[pos], self.position)
                                    == BuildOutcome::Halt(e));
                                assert(build_run(s_before, stmts, pos) == BuildResult::Halted(
                                    s_before,
                                    e,
                                ));
                            }
                            return Err(e);
                        }
                        let name = fd.name.clone();
                        let rt = fd.return_type;
                        let args = clone_arg_vec(&fd.args);
                        let ghost fd_args_view = fd.args@;
                        let new_index = pd.stack_frames.len();
                        let mut frame = StackFrame::new(NO_PARENT);
                        frame.owning_function = name.clone();
                        proof {
                            assert(frame@ =~= empty_frame(NO_PARENT, name));
                        }
                        pd.stack_frames.push(frame);
                        pd.functions.push(
                            Function {
                                name: name.clone(),
                                return_type: rt,
                                args,
                                first_stack_frame: new_index,
                            },
                        );
                        self.scope_stack.push(new_index);
                        self.current_function = Some(name);
                        proof {
                            let s_after = builder_state(
                                *pd,
                                self.scope_stack@,
                                self.current_function,
                            );
                            assert(frames_view(pd.stack_frames) =~= s_before.frames.push(
                                empty_frame(NO_PARENT, stmts[pos].statement_type->FunctionDeclaration_0.name),
                            ));
                            assert(fns_view(pd.functions) =~= s_before.functions.push(
                                FunctionModel {
                                    name: stmts[pos].statement_type->FunctionDeclaration_0.name,
                                    return_type: rt,
                                    args: fd_args_view,
                                    first_stack_frame: new_index as usize,
                                },
                            ));
                            assert(build_step(s_before, stmts[pos], pos as usize)
                                == BuildOutcome::Next(s_after)) by {
                                assert(s_after =~= build_step(
                                    s_before,
                                    stmts[pos],
                                    pos as usize,
                                )->Next_0);
                            }
                            lemma_step_preserves_inv(
                                s_before,
                                stmts[pos],
                                pos as usize,
                                n as int,
                                pos,
                            );
                        }
                    } else {
                        let idx = self.position;
                        self.add_statement_to_current_stack_frame(pd, idx);
                        proof {
                            lift_append_step(
                                s_before,
                                builder_state(*pd, self.scope_stack@, self.current_function),
                                stmts[pos],
                                pos as usize,
                            );
                            lemma_step_preserves_inv(
                                s_before,
                                stmts[pos],
                                pos as usize,
                                n as int,
                                pos,
                            );
                        }
                    }
                },
                Statements::VariableDeclaration(vd) => {
                    if self.current_function.is_none() {
                        let e = CompileError::StructuralError(
                            StructuralFault::StatementOutsideFunction,
                        );
                        proof {
                            assert(build_step(s_before, stmts[pos], pos as usize)
                                == BuildOutcome::Halt(e));
                            assert(build_run(s_before, stmts, pos) == BuildResult::Halted(
                                s_before,
                                e,
                            ));
                        }
                        return Err(e);
                    }
                    let name = vd.name.clone();
                    let t = vd.variable_type;
                    let idx = self.get_current_stack_frame_index();
                    proof {
                        assert(frames_view(pd.stack_frames)[idx as int] == pd.stack_frames@[
                            idx as int]@);
                        assert(type_size(t) <= 4);
                    }
                    let duplicate = pd.stack_frames[idx].get_variable(name.as_str()).is_some();
                    if duplicate {
                        pd.errors.push(CompileError::DuplicateVariableError(name));
                        proof {
                            let s_after = builder_state(
                                *pd,
                                self.scope_stack@,
                                self.current_function,
                            );
                            let vdv = stmts[pos].statement_type->VariableDeclaration_0;
                            assert(pd.errors@ =~= s_before.errors.push(
                                CompileError::DuplicateVariableError(vdv.name),
                            ));
                            assert(frames_view(pd.stack_frames) == s_before.frames);
                            assert(build_step(s_before, stmts[pos], pos as usize)
                                == BuildOutcome::Next(s_after)) by {
                                assert(s_after =~= build_step(
                                    s_before,
                                    stmts[pos],
                                    pos as usize,
                                )->Next_0);
                            }
                            lemma_step_preserves_inv(
                                s_before,
                                stmts[pos],
                                pos as usize,
                                n as int,
                                pos,
                            );
                        }
                    } else {
                        let f = &mut pd.stack_frames[idx];
                        f.push_variable(name, t);
                        f.statements.push(self.position);
                        proof {
                            let s_after = builder_state(
                                *pd,
                                self.scope_stack@,
                                self.current_function,
                            );
                            let vdv = stmts[pos].statement_type->VariableDeclaration_0;
                            let cur = self.scope_stack@.last() as int;
                            assert(frames_view(pd.stack_frames) =~= s_before.frames.update(
                                cur,
                                frame_add_statement(
                                    frame_declare(s_before.frames[cur], vdv.name, t),
                                    pos as usize,
                                ),
                            ));
                            assert(build_step(s_before, stmts[pos], pos as usize)
                                == BuildOutcome::Next(s_after)) by {
                                assert(s_after =~= build_step(
                                    s_before,
                                    stmts[pos],
                                    pos as usize,
                                )->Next_0);
                            }
                            lemma_step_preserves_inv(
                                s_before,
                                stmts[pos],
                                pos as usize,
                                n as int,
                                pos,
                            );
                        }
                    }
                },
                Statements::StackFramePop => {
                    if self.current_function.is_none() {
                        let e = CompileError::StructuralError(
                            StructuralFault::StatementOutsideFunction,
                        );
                        proof {
                            assert(build_step(s_before, stmts[pos], pos as usize)
                                == BuildOutcome::Halt(e));
                            assert(build_run(s_before, stmts, pos) == BuildResult::Halted(
                                s_before,
                                e,
                            ));
                        }
                        return Err(e);
                    }
                    self.pop_scope();
                    if self.scope_stack.len() == 0 {
                        self.current_function = None;
                    }
                    proof {
                        let s_after = builder_state(
                            *pd,
                            self.scope_stack@,
                            self.current_function,
                        );
                        assert(build_step(s_before, stmts[pos], pos as usize)
                            == BuildOutcome::Next(s_after)) by {
                            assert(s_after =~= build_step(
                                s_before,
                                stmts[pos],
                                pos as usize,
                            )->Next_0);
                        }
                        lemma_step_preserves_inv(
                            s_before,
                            stmts[pos],
                            pos as usize,
                            n as int,
                            pos,
                        );
                    }
                },
                _ => {
                    if self.current_function.is_none() {
                        let e = CompileError::StructuralError(
                            StructuralFault::StatementOutsideFunction,
                        );
                        proof {
                            assert(build_step(s_before, stmts[pos], pos as usize)
                                == BuildOutcome::Halt(e));
                            assert(build_run(s_before, stmts, pos) == BuildResult::Halted(
                                s_before,
                                e,
                            ));
                        }
                        return Err(e);
                    }
                    let idx = self.position;
                    self.add_statement_to_current_stack_frame(pd, idx);
                    proof {
                        lift_append_step(
                            s_before,
                            builder_state(*pd, self.scope_stack@, self.current_function),
                            stmts[pos],
                            pos as usize,
                        );
                        lemma_step_preserves_inv(
                            s_before,
                            stmts[pos],
                            pos as usize,
                            n as int,
                            pos,
                        );
                    }
                },
            }
            self.advance_position();
        }
    }

    /// Index of the innermost open frame.
    pub fn get_current_stack_frame_index(&self) -> (r: usize)
        requires
            self.scope_stack@.len() > 0,
        ensures
            r == self.scope_stack@.last(),
    {
        self.scope_stack[self.scope_stack.len() - 1]
    }

    /// Borrows the innermost open frame for mutation.
    pub fn get_current_stack_frame<'a>(&self, pd: &'a mut ProgramData) -> (f: &'a mut StackFrame)
        requires
            self.scope_stack@.len() > 0,
            self.scope_stack@.last() < old(pd).stack_frames@.len(),
        ensures
            *f == old(pd).stack_frames@[self.scope_stack@.last() as int],
            final(pd).stack_frames@ == old(pd).stack_frames@.update(
                self.scope_stack@.last() as int,
                *final(f),
            ),
            final(pd).functions == old(pd).functions,
            final(pd).statements == old(pd).statements,
            final(pd).source_code == old(pd).source_code,
            final(pd).tokens == old(pd).tokens,
            final(pd).errors == old(pd).errors,
    {
        let idx = self.get_current_stack_frame_index();
        &mut pd.stack_frames[idx]
    }

    /// The statement under the cursor.
    pub fn current_statement<'a>(&self, pd: &'a ProgramData) -> (r: &'a Statement)
        requires
            self.position < pd.statements@.len(),
        ensures
            *r == pd.statements@[self.position as int],
    {
        &pd.statements[self.position]
    }

    /// Moves the cursor one statement forward.
    pub fn advance_position(&mut self)
        requires
            old(self).position < usize::MAX,
        ensures
            final(self).position == old(self).position + 1,
            final(self).scope_stack == old(self).scope_stack,
            final(self).current_function == old(self).current_function,
    {
        self.position = self.position + 1;
    }

    /// Pops the innermost scope; on an already empty stack nothing changes.
    pub fn pop_scope(&mut self)
        ensures
            final(self).scope_stack@ == if old(self).scope_stack@.len() == 0 {
                old(self).scope_stack@
            } else {
                old(self).scope_stack@.drop_last()
            },
            final(self).position == old(self).position,
            final(self).current_function == old(self).current_function,
    {
        let _ = self.scope_stack.pop();
    }

    /// Opens a nested block: appends a fresh frame as child of the innermost
    /// open frame, inheriting its owning function, and makes it current.
    pub fn create_new_scope(&mut self, pd: &mut ProgramData)
        requires
            old(self).scope_stack@.len() > 0,
            old(self).scope_stack@.last() < old(pd).stack_frames@.len(),
            old(pd).stack_frames@.len() < usize::MAX,
        ensures
            ({
                let cur = old(self).scope_stack@.last() as int;
                let new_index = old(pd).stack_frames@.len() as usize;
                let owning = old(pd).stack_frames@[cur]@.owning_function;
                &&& frames_view(final(pd).stack_frames) == frames_view(old(pd).stack_frames)
                    .update(
                    cur,
                    crate::stack_frame::frame_add_child(
                        frames_view(old(pd).stack_frames)[cur],
                        new_index,
                    ),
                ).push(empty_frame(old(self).scope_stack@.last(), owning))
                &&& final(self).scope_stack@ == old(self).scope_stack@.push(new_index)
            }),
            final(self).position == old(self).position,
            final(self).current_function == old(self).current_function,
            final(pd).functions == old(pd).functions,
            final(pd).statements == old(pd).statements,
            final(pd).source_code == old(pd).source_code,
            final(pd).tokens == old(pd).tokens,
            final(pd).errors == old(pd).errors,
    {
        let new_frame_index = pd.stack_frames.len();
        let cur = self.get_current_stack_frame_index();
        let mut frame = StackFrame::new(cur);
        frame.owning_function = pd.stack_frames[cur].owning_function.clone();
        let cur_frame = &mut pd.stack_frames[cur];
        cur_frame.children.push(new_frame_index);
        pd.stack_frames.push(frame);
        self.scope_stack.push(new_frame_index);
        proof {
            assert(frames_view(pd.stack_frames) =~= frames_view(old(pd).stack_frames).update(
                old(self).scope_stack@.last() as int,
                crate::stack_frame::frame_add_child(
                    frames_view(old(pd).stack_frames)[old(self).scope_stack@.last() as int],
                    new_frame_index,
                ),
            ).push(
                empty_frame(
                    old(self).scope_stack@.last(),
                    old(pd).stack_frames@[old(self).scope_stack@.last() as int]@.owning_function,
                ),
            ));
        }
    }

    /// Appends statement `stmt_index` verbatim to the innermost open frame.
    pub fn add_statement_to_current_stack_frame(&mut self, pd: &mut ProgramData, stmt_index: usize)
        requires
            old(self).scope_stack@.len() > 0,
            old(self).scope_stack@.last() < old(pd).stack_frames@.len(),
        ensures
            append_to_current(
                builder_state(*old(pd), old(self).scope_stack@, None),
                stmt_index,
            ) == BuildOutcome::Next(builder_state(*final(pd), old(self).scope_stack@, None)),
            *final(self) == *old(self),
            final(pd).statements == old(pd).statements,
            final(pd).source_code == old(pd).source_code,
            final(pd).tokens == old(pd).tokens,
    {
        let f = self.get_current_stack_frame(pd);
        f.statements.push(stmt_index);
        proof {
            let s = builder_state(*old(pd), old(self).scope_stack@, None);
            let cur = old(self).scope_stack@.last() as int;
            assert(frames_view(pd.stack_frames) =~= s.frames.update(
                cur,
                frame_add_statement(s.frames[cur], stmt_index),
            ));
            assert(builder_state(*pd, old(self).scope_stack@, None) =~= (BuildState {
                frames: s.frames.update(cur, frame_add_statement(s.frames[cur], stmt_index)),
                ..s
            }));
        }
    }

    /// Declares `var` in the innermost open frame per the duplicate rule:
    /// a repeated name in that frame alone yields `DuplicateVariableError`
    /// and the statement is dropped; otherwise the slot is appended at the
    /// running offset and the statement kept under `stmt_index`.
    pub fn add_var_to_stack_frame(
        &mut self,
        pd: &mut ProgramData,
        var: &VariableDeclaration,
        stmt_index: usize,
    )
        requires
            old(self).scope_stack@.len() > 0,
            old(self).scope_stack@.last() < old(pd).stack_frames@.len(),
            old(pd).stack_frames@[old(self).scope_stack@.last() as int]@.stack_mem_allocated + 4
                <= usize::MAX,
        ensures
            declare_in_current(
                builder_state(*old(pd), old(self).scope_stack@, None),
                *var,
                stmt_index,
            ) == BuildOutcome::Next(builder_state(*final(pd), old(self).scope_stack@, None)),
            *final(self) == *old(self),
            final(pd).statements == old(pd).statements,
            final(pd).source_code == old(pd).source_code,
            final(pd).tokens == old(pd).tokens,
    {
        let ghost s = builder_state(*pd, self.scope_stack@, None);
        let ghost cur = self.scope_stack@.last() as int;
        let name = var.name.clone();
        let t = var.variable_type;
        let idx = self.get_current_stack_frame_index();
        let duplicate = pd.stack_frames[idx].get_variable(name.as_str()).is_some();
        if duplicate {
            pd.errors.push(CompileError::DuplicateVariableError(name));
            proof {
                assert(pd.errors@ =~= s.errors.push(
                    CompileError::DuplicateVariableError(var.name),
                ));
                assert(frames_view(pd.stack_frames) == s.frames);
                assert(builder_state(*pd, old(self).scope_stack@, None) =~= (BuildState {
                    errors: s.errors.push(CompileError::DuplicateVariableError(var.name)),
                    ..s
                }));
            }
        } else {
            proof {
                assert(frames_view(pd.stack_frames)[cur] == pd.stack_frames@[cur]@);
                assert(type_size(t) <= 4);
            }
            let f = &mut pd.stack_frames[idx];
            f.push_variable(name, t);
            f.statements.push(stmt_index);
            proof {
                assert(frames_view(pd.stack_frames) =~= s.frames.update(
                    cur,
                    frame_add_statement(frame_declare(s.frames[cur], var.name, t), stmt_index),
                ));
                assert(builder_state(*pd, old(self).scope_stack@, None) =~= (BuildState {
                    frames: s.frames.update(
                        cur,
                        frame_add_statement(frame_declare(s.frames[cur], var.name, t), stmt_index),
                    ),
                    ..s
                }));
            }
        }
    }
}

} // verus!
