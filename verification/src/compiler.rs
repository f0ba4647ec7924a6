//! The core entry points: `build` runs frame construction and semantic
//! lowering over a parsed statement stream; `generate` emits the assembly
//! text. Generation is only to be invoked on a store whose diagnostics list
//! is empty.

use vstd::prelude::*;

use crate::ast_statements::Statement;
use crate::code_generator::{allocs_alignable, gen_skeletons_match, run_all_functions, CodeGenerator};
use crate::program_data::{
    fns_view, frame_links_wf, frames_view, functions_wf, CompileError, ProgramData,
};
use crate::scope_analysis::{
    build_run, builder_inv, builder_state, BuildResult, BuildState, ScopeAnalysis,
};
use crate::semantic_analysis::{
    errors_extended, frames_stmts_bounded, lower_all_functions, recoverable, skeletons_match,
    LowerWalk, SemanticAnaytis,
};

verus! {

/// The builder's starting state: nothing built, no scope open.
pub open spec fn initial_build_state() -> BuildState {
    BuildState {
        frames: Seq::empty(),
        functions: Seq::empty(),
        errors: Seq::empty(),
        scope_stack: Seq::empty(),
        current_function: None,
    }
}

/// Builds the frame arena and function table from the raw statement stream
/// and lowers every function's body, collecting recoverable diagnostics in
/// the returned store. The walk over the statements is exactly
/// [`build_run`], and the lowering of the built arena is exactly
/// [`lower_all_functions`]; a fatal fault in either surfaces as the single
/// `Err` diagnostic.
pub fn build(statements: Vec<Statement>) -> (r: (ProgramData, Result<(), CompileError>))
    requires
        4 * statements@.len() + 16 <= usize::MAX,
    ensures
        r.0.statements == statements,
        ({
            let run = build_run(initial_build_state(), statements@, 0);
            match run {
                BuildResult::Halted(bs, e0) => r.1 == Err::<(), CompileError>(e0) && frames_view(
                    r.0.stack_frames,
                ) == bs.frames && fns_view(r.0.functions) == bs.functions && r.0.errors@
                    == bs.errors,
                BuildResult::Completed(bs) => {
                    &&& fns_view(r.0.functions) == bs.functions
                    &&& skeletons_match(frames_view(r.0.stack_frames), bs.frames)
                    &&& errors_extended(bs.errors, r.0.errors@)
                    &&& (r.1 matches Err(e) ==> !recoverable(e))
                    &&& (match lower_all_functions(
                        bs.functions,
                        0,
                        statements@,
                        bs.frames,
                        bs.errors,
                    ) {
                        Some(LowerWalk::Done { frames: fr, errors: e2 }) => r.1 is Ok
                            && frames_view(r.0.stack_frames) == fr && r.0.errors@ == e2,
                        Some(LowerWalk::Stopped { frames: fr, errors: e2, fault }) => r.1
                            == Err::<(), CompileError>(fault) && frames_view(r.0.stack_frames)
                            == fr && r.0.errors@ == e2,
                        None => true,
                    })
                },
            }
        }),
{
    let mut pd = ProgramData::new();
    pd.statements = statements;
    let mut scope = ScopeAnalysis::new();
    let ghost n = pd.statements@.len() as int;
    let ghost pd_before = pd;
    let build_res = scope.process_all(&mut pd);
    proof {
        assert(builder_state(pd_before, Seq::empty(), None) =~= initial_build_state());
    }
    let ghost bs = builder_state(pd, scope.scope_stack@, scope.current_function);
    match build_res {
        Err(e) => {
            return (pd, Err(e));
        },
        Ok(_) => {},
    }
    proof {
        assert(builder_inv(bs, n, scope.position as int));
        assert(frames_stmts_bounded(bs.frames, n)) by {
            assert forall|i: int, k: int|
                0 <= i < bs.frames.len() && 0 <= k < bs.frames[i].statements.len() implies (
            #[trigger] bs.frames[i].statements[k]) < n by {
                assert(crate::scope_analysis::build_frame_ok(
                    bs.frames[i],
                    n,
                    scope.position as int,
                ));
            }
        }
    }
    let sem = SemanticAnaytis::new();
    let sem_res = sem.process_all_functions(&mut pd);
    match sem_res {
        Err(e) => (pd, Err(e)),
        Ok(_) => (pd, Ok(())),
    }
}

/// Emits the assembly text for a store that built without diagnostics: one
/// `_<name>:` label per function, each followed by its frame tree's
/// compiled text, exactly [`run_all_functions`].
pub fn generate(pd: &mut ProgramData) -> (r: Result<String, CompileError>)
    requires
        old(pd).errors@.len() == 0,
        frame_links_wf(frames_view(old(pd).stack_frames)),
        functions_wf(fns_view(old(pd).functions), frames_view(old(pd).stack_frames)),
        allocs_alignable(frames_view(old(pd).stack_frames)),
    ensures
        final(pd).statements == old(pd).statements,
        final(pd).functions == old(pd).functions,
        final(pd).errors == old(pd).errors,
        gen_skeletons_match(
            frames_view(final(pd).stack_frames),
            frames_view(old(pd).stack_frames),
        ),
        ({
            match run_all_functions(
                fns_view(old(pd).functions),
                0,
                frames_view(old(pd).stack_frames),
            ) {
                Some(Ok((text, frames3))) => r matches Ok(s) && s@ == text && frames_view(
                    final(pd).stack_frames,
                ) == frames3,
                Some(Err(e)) => r == Err::<String, CompileError>(e),
                None => true,
            }
        }),
{
    let generator = CodeGenerator::new();
    generator.process_all_functions(pd)
}

} // verus!
