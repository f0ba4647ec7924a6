//! The single owned mutable aggregate of a compilation: the frame arena, the
//! function table, the raw token and statement lists, and the diagnostics
//! collected so far. Each pass borrows it in turn; frames are only ever
//! appended, never removed or reindexed, so parent/child indices stay stable.

use vstd::prelude::*;

use crate::ast_statements::{Function, FunctionModel, Statement};
use crate::general_functions::str_eq;
use crate::stack_frame::{
    find_var, frame_alloc_covers, frame_vars_wf, FrameModel, StackFrame, StackVariable, NO_PARENT,
};
use crate::token::Token;

verus! {

/// Structural faults are fatal: they would corrupt the frame or function
/// tables for every later pass.
#[derive(Debug, PartialEq)]
pub enum StructuralFault {
    /// A statement met while no function is current.
    StatementOutsideFunction,
    /// A function name registered twice; carries the name.
    DuplicateFunction(String),
}

/// Reference faults; each carries the name that failed to resolve.
#[derive(Debug, PartialEq)]
pub enum ReferenceFault {
    /// An identifier not found where the current phase looks it up.
    UnknownVariable(String),
    /// A call to a function the table does not know (fatal).
    UnknownCallee(String),
    /// A cross-scope walk that reached the outermost frame without a hit.
    UnresolvedReference(String),
}

/// Type faults.
#[derive(Debug, PartialEq)]
pub enum TypeFault {
    /// An initializer of the wrong kind for the declared type; carries the
    /// variable's name.
    InvalidInitializer(String),
    /// A call argument whose kind or declared type does not fit the
    /// parameter; carries the callee's name.
    ArgumentMismatch(String),
    /// A template placeholder that does not match its supplied argument, an
    /// unterminated placeholder, or a template too short for its arguments.
    TemplateMismatch,
    /// An assembly escape whose body is neither a string literal nor a
    /// template.
    InvalidAssembly,
}

/// The diagnostic taxonomy. `StructuralError` and an unknown callee are
/// fatal: the pass that meets them halts at once with that single
/// diagnostic. Every other kind is recoverable: it is appended to
/// `ProgramData::errors` and the offending statement is skipped.
#[derive(Debug, PartialEq)]
pub enum CompileError {
    StructuralError(StructuralFault),
    /// A name redeclared within the same frame; carries the name.
    DuplicateVariableError(String),
    TypeError(TypeFault),
    /// A call whose argument count differs from the callee's arity; carries
    /// the callee's name.
    ArityMismatchError(String),
    ReferenceError(ReferenceFault),
}

/// The program store handed from pass to pass.
#[derive(Debug)]
pub struct ProgramData {
    pub stack_frames: Vec<StackFrame>,
    pub functions: Vec<Function>,
    pub statements: Vec<Statement>,
    pub source_code: String,
    pub tokens: Vec<Token>,
    pub errors: Vec<CompileError>,
}

/// The arena as mathematics: each frame through its model.
pub open spec fn frames_view(frames: Vec<StackFrame>) -> Seq<FrameModel> {
    frames@.map_values(|f: StackFrame| f@)
}

/// The function table as mathematics: each entry through its model.
pub open spec fn fns_view(fns: Vec<Function>) -> Seq<FunctionModel> {
    fns@.map_values(|f: Function| f@)
}

/// First function named `name` in the table.
pub open spec fn find_fn(fns: Seq<FunctionModel>, name: Seq<char>) -> Option<FunctionModel>
    decreases fns.len(),
{
    if fns.len() == 0 {
        None
    } else if fns[0].name@ == name {
        Some(fns[0])
    } else {
        find_fn(fns.drop_first(), name)
    }
}

pub open spec fn has_fn(fns: Seq<FunctionModel>, name: Seq<char>) -> bool {
    find_fn(fns, name) is Some
}

/// Arena link discipline: a frame's parent was allocated before it, and its
/// children after it. This both rules out cycles and gives every chain walk
/// a strictly decreasing index.
pub open spec fn frame_links_wf(frames: Seq<FrameModel>) -> bool {
    forall|i: int|
        0 <= i < frames.len() ==> {
            &&& ((#[trigger] frames[i]).parent == NO_PARENT || frames[i].parent < i)
            &&& (forall|k: int|
                0 <= k < frames[i].children.len() ==> i < #[trigger] frames[i].children[k]
                    < frames.len())
        }
}

/// Every frame's symbol table is well formed and covered by its allocation
/// counter, as cross-scope resolution requires.
pub open spec fn frames_resolvable(frames: Seq<FrameModel>) -> bool {
    forall|i: int|
        0 <= i < frames.len() ==> frame_vars_wf(#[trigger] frames[i]) && frame_alloc_covers(
            frames[i],
        )
}

/// Function-table invariant: names unique, entry frames in range and parentless.
pub open spec fn functions_wf(fns: Seq<FunctionModel>, frames: Seq<FrameModel>) -> bool {
    &&& forall|i: int, j: int|
        0 <= i < j < fns.len() ==> (#[trigger] fns[i]).name@ != (#[trigger] fns[j]).name@
    &&& forall|i: int|
        0 <= i < fns.len() ==> (#[trigger] fns[i]).first_stack_frame < frames.len()
            && frames[fns[i].first_stack_frame as int].parent == NO_PARENT
}

/// Total byte distance of the walk from `frame` to its outermost ancestor:
/// each traversed frame contributes its allocation plus the fixed 16-byte
/// saved frame-pointer/link-register area.
pub open spec fn chain_weight(frames: Seq<FrameModel>, frame: int) -> nat
    decreases frame,
{
    if frame < 0 || frame >= frames.len() {
        0
    } else if frames[frame].parent == NO_PARENT || frames[frame].parent >= frame {
        (frames[frame].stack_mem_allocated + 16) as nat
    } else {
        (frames[frame].stack_mem_allocated + 16 + chain_weight(
            frames,
            frames[frame].parent as int,
        )) as nat
    }
}

/// Cross-scope resolution: the offset of `name` as seen from `frame`. A hit in
/// the frame itself yields the variable's own in-frame offset; otherwise the
/// frame contributes its `(bytes allocated + 16)` and the search continues at
/// the parent; a chain that ends without a hit yields `None`.
pub open spec fn spec_resolve(frames: Seq<FrameModel>, frame: int, name: Seq<char>) -> Option<nat>
    decreases frame,
{
    if frame < 0 || frame >= frames.len() {
        None
    } else {
        match find_var(frames[frame].variables, name) {
            Some(v) => Some(v.offset as nat),
            None => {
                if frames[frame].parent == NO_PARENT || frames[frame].parent >= frame {
                    None
                } else {
                    match spec_resolve(frames, frames[frame].parent as int, name) {
                        Some(o) => Some((o + frames[frame].stack_mem_allocated + 16) as nat),
                        None => None,
                    }
                }
            },
        }
    }
}

/// A found variable is one of the table's entries under its name.
pub proof fn lemma_find_var_is_element(
    vars: Seq<(String, StackVariable)>,
    name: Seq<char>,
    v: StackVariable,
)
    requires
        find_var(vars, name) == Some(v),
    ensures
        exists|i: int| 0 <= i < vars.len() && (#[trigger] vars[i]).1 == v && vars[i].0@ == name,
    decreases vars.len(),
{
    if vars.len() > 0 {
        if vars[0].0@ == name {
            assert(vars[0].1 == v && vars[0].0@ == name);
        } else {
            lemma_find_var_is_element(vars.drop_first(), name, v);
            let i = choose|i: int|
                0 <= i < vars.drop_first().len() && (#[trigger] vars.drop_first()[i]).1 == v
                    && vars.drop_first()[i].0@ == name;
            assert(vars[i + 1].1 == v && vars[i + 1].0@ == name);
        }
    }
}

/// A resolved offset never exceeds the chain's total byte distance.
pub proof fn lemma_resolve_within_weight(frames: Seq<FrameModel>, frame: int, name: Seq<char>)
    requires
        frames_resolvable(frames),
        0 <= frame < frames.len(),
    ensures
        spec_resolve(frames, frame, name) matches Some(o) ==> o <= chain_weight(frames, frame),
    decreases frame,
{
    let f = frames[frame];
    match find_var(f.variables, name) {
        Some(v) => {
            lemma_find_var_is_element(f.variables, name, v);
            let i = choose|i: int|
                0 <= i < f.variables.len() && (#[trigger] f.variables[i]).1 == v
                    && f.variables[i].0@ == name;
            crate::stack_frame::lemma_offset_within_total(f.variables, i);
        },
        None => {
            if !(f.parent == NO_PARENT || f.parent >= frame) {
                lemma_resolve_within_weight(frames, f.parent as int, name);
            }
        },
    }
}

impl ProgramData {
    /// A store with nothing in it.
    pub fn new() -> (pd: Self)
        ensures
            pd.stack_frames@ == Seq::<StackFrame>::empty(),
            pd.functions@ == Seq::<Function>::empty(),
            pd.statements@ == Seq::<Statement>::empty(),
            pd.source_code@ == Seq::<char>::empty(),
            pd.tokens@ == Seq::<Token>::empty(),
            pd.errors@ == Seq::<CompileError>::empty(),
    {
        Self {
            stack_frames: Vec::new(),
            functions: Vec::new(),
            source_code: String::new(),
            tokens: Vec::new(),
            statements: Vec::new(),
            errors: Vec::new(),
        }
    }

    /// Looks a function up by name.
    pub fn get_function(&self, name: &str) -> (r: Option<&Function>)
        ensures
            match r {
                Some(f) => find_fn(fns_view(self.functions), name@) == Some(f@),
                None => find_fn(fns_view(self.functions), name@) is None,
            },
    {
        let n = self.functions.len();
        for i in 0..n
            invariant
                n == self.functions@.len(),
                forall|j: int|
                    0 <= j < i ==> (#[trigger] fns_view(self.functions)[j]).name@ != name@,
        {
            assert(fns_view(self.functions)[i as int] == self.functions@[i as int]@);
            if str_eq(self.functions[i].name.as_str(), name) {
                proof {
                    lemma_find_fn_first_hit(fns_view(self.functions), name@, i as int);
                }
                return Some(&self.functions[i]);
            }
        }
        proof {
            lemma_find_fn_miss(fns_view(self.functions), name@);
        }
        None
    }

    /// Walks the parent chain from `frame` looking for `name`, accumulating
    /// each traversed frame's `(bytes allocated + 16)`; `None` when the chain
    /// reaches its outermost frame without a hit.
    pub fn resolve_variable(&self, frame: usize, name: &str) -> (r: Option<usize>)
        requires
            frame_links_wf(frames_view(self.stack_frames)),
            frames_resolvable(frames_view(self.stack_frames)),
            frame < self.stack_frames@.len(),
            chain_weight(frames_view(self.stack_frames), frame as int) <= usize::MAX,
        ensures
            match r {
                Some(o) => spec_resolve(frames_view(self.stack_frames), frame as int, name@)
                    == Some(o as nat),
                None => spec_resolve(frames_view(self.stack_frames), frame as int, name@) is None,
            },
        decreases frame,
    {
        let f = &self.stack_frames[frame];
        assert(frames_view(self.stack_frames)[frame as int] == f@);
        match f.get_variable(name) {
            Some(v) => Some(v.offset),
            None => {
                if f.parent == NO_PARENT {
                    None
                } else {
                    let parent = f.parent;
                    proof {
                        lemma_resolve_within_weight(
                            frames_view(self.stack_frames),
                            parent as int,
                            name@,
                        );
                    }
                    match self.resolve_variable(parent, name) {
                        Some(o) => Some(o + f.stack_mem_allocated + 16),
                        None => None,
                    }
                }
            },
        }
    }

    /// Like [`Self::frame_chain_distance`], but refusing a distance that
    /// does not fit the machine word instead of requiring it to fit.
    pub fn frame_chain_distance_checked(&self, frame: usize) -> (r: Option<usize>)
        requires
            frame_links_wf(frames_view(self.stack_frames)),
            frame < self.stack_frames@.len(),
        ensures
            match r {
                Some(d) => chain_weight(frames_view(self.stack_frames), frame as int) == d,
                None => chain_weight(frames_view(self.stack_frames), frame as int) > usize::MAX,
            },
        decreases frame,
    {
        let f = &self.stack_frames[frame];
        proof {
            assert(frames_view(self.stack_frames)[frame as int] == f@);
        }
        if f.parent == NO_PARENT {
            f.stack_mem_allocated.checked_add(16)
        } else {
            match self.frame_chain_distance_checked(f.parent) {
                None => None,
                Some(rest) => match f.stack_mem_allocated.checked_add(16) {
                    None => None,
                    Some(own) => own.checked_add(rest),
                },
            }
        }
    }

    /// Total byte distance from `frame` to the owning function's outermost
    /// frame; a function's incoming stack arguments live just beyond it.
    pub fn frame_chain_distance(&self, frame: usize) -> (r: usize)
        requires
            frame_links_wf(frames_view(self.stack_frames)),
            frame < self.stack_frames@.len(),
            chain_weight(frames_view(self.stack_frames), frame as int) <= usize::MAX,
        ensures
            r == chain_weight(frames_view(self.stack_frames), frame as int),
        decreases frame,
    {
        let f = &self.stack_frames[frame];
        assert(frames_view(self.stack_frames)[frame as int] == f@);
        if f.parent == NO_PARENT {
            f.stack_mem_allocated + 16
        } else {
            let rest = self.frame_chain_distance(f.parent);
            f.stack_mem_allocated + 16 + rest
        }
    }
}

proof fn lemma_find_fn_first_hit(fns: Seq<FunctionModel>, name: Seq<char>, i: int)
    requires
        0 <= i < fns.len(),
        fns[i].name@ == name,
        forall|j: int| 0 <= j < i ==> (#[trigger] fns[j]).name@ != name,
    ensures
        find_fn(fns, name) == Some(fns[i]),
    decreases i,
{
    if i > 0 {
        lemma_find_fn_first_hit(fns.drop_first(), name, i - 1);
    }
}

proof fn lemma_find_fn_miss(fns: Seq<FunctionModel>, name: Seq<char>)
    requires
        forall|j: int| 0 <= j < fns.len() ==> (#[trigger] fns[j]).name@ != name,
    ensures
        find_fn(fns, name) is None,
    decreases fns.len(),
{
    if fns.len() > 0 {
        lemma_find_fn_miss(fns.drop_first(), name);
    }
}

/// Byte weight of an explicit chain of frame indices, innermost first.
pub open spec fn hops_weight(frames: Seq<FrameModel>, chain: Seq<int>) -> nat
    decreases chain.len(),
{
    if chain.len() == 0 {
        0
    } else if chain[0] < 0 || chain[0] >= frames.len() {
        0
    } else {
        (frames[chain[0]].stack_mem_allocated + 16 + hops_weight(frames, chain.drop_first())) as nat
    }
}

/// Law: for any chain of nested frames inside one function, resolving from
/// the innermost frame a variable declared only in the chain's last frame
/// yields exactly the sum of each traversed frame's `(bytes allocated + 16)`
/// plus the variable's own in-frame offset.
pub proof fn lemma_resolve_crosses_scopes(
    frames: Seq<FrameModel>,
    chain: Seq<int>,
    name: Seq<char>,
    v: StackVariable,
)
    requires
        chain.len() >= 1,
        frames.len() <= usize::MAX,
        forall|k: int| 0 <= k < chain.len() ==> 0 <= #[trigger] chain[k] < frames.len(),
        forall|k: int|
            0 <= k < chain.len() - 1 ==> frames[#[trigger] chain[k]].parent == chain[k + 1]
                && chain[k + 1] < chain[k],
        forall|k: int|
            0 <= k < chain.len() - 1 ==> find_var(
                frames[#[trigger] chain[k]].variables,
                name,
            ) is None,
        find_var(frames[chain[chain.len() - 1]].variables, name) == Some(v),
    ensures
        spec_resolve(frames, chain[0], name) == Some(
            (hops_weight(frames, chain.take(chain.len() - 1)) + v.offset) as nat,
        ),
    decreases chain.len(),
{
    if chain.len() == 1 {
        assert(chain.take(0) =~= Seq::<int>::empty());
    } else {
        let rest = chain.drop_first();
        assert forall|k: int| 0 <= k < rest.len() implies 0 <= #[trigger] rest[k]
            < frames.len() by {
            assert(rest[k] == chain[k + 1]);
        }
        assert forall|k: int| 0 <= k < rest.len() - 1 implies frames[#[trigger] rest[k]].parent
            == rest[k + 1] && rest[k + 1] < rest[k] by {
            assert(rest[k] == chain[k + 1] && rest[k + 1] == chain[k + 2]);
        }
        assert forall|k: int| 0 <= k < rest.len() - 1 implies find_var(
            frames[#[trigger] rest[k]].variables,
            name,
        ) is None by {
            assert(rest[k] == chain[k + 1]);
        }
        assert(rest[rest.len() - 1] == chain[chain.len() - 1]);
        lemma_resolve_crosses_scopes(frames, rest, name, v);
        assert(rest[0] == chain[1]);
        let inner = (hops_weight(frames, rest.take(rest.len() - 1)) + v.offset) as nat;
        assert(spec_resolve(frames, chain[1], name) == Some(inner));
        assert(find_var(frames[chain[0]].variables, name) is None);
        assert(frames[chain[0]].parent == chain[1] && chain[1] < chain[0]);
        assert(spec_resolve(frames, chain[0], name) == Some(
            (inner + frames[chain[0]].stack_mem_allocated + 16) as nat,
        ));
        let front = chain.take(chain.len() - 1);
        assert(front.drop_first() =~= rest.take(rest.len() - 1));
        assert(front[0] == chain[0] && front.len() >= 1);
        assert(hops_weight(frames, front) == (frames[chain[0]].stack_mem_allocated + 16
            + hops_weight(frames, rest.take(rest.len() - 1))) as nat);
    }
}

} // verus!
