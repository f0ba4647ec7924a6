//! A stack frame: one lexical scope's allocation record. Frames live in a
//! flat arena (`ProgramData::stack_frames`) and refer to each other only by
//! index, so parent/child links can be queried freely without shared ownership.

use vstd::prelude::*;

use crate::ast_statements::{type_size, CgStatement, CgStatementModel, VariableType};
use crate::general_functions::str_eq;

verus! {

/// A variable slot inside one frame: its declared type, byte size and byte
/// offset within the frame, counted from the frame's first declaration.
#[derive(Debug, Clone, Copy, PartialEq, Eq, Structural)]
pub struct StackVariable {
    pub variable_type: VariableType,
    pub variable_size: usize,
    pub offset: usize,
}

/// The frame-arena index that marks "no parent".
pub const NO_PARENT: usize = usize::MAX;

/// One lexical scope. `variables` is the symbol table in declaration order;
/// `statements` holds indices into the program's raw statement list;
/// `cg_statements` is filled by the semantic analyzer.
#[derive(Debug)]
pub struct StackFrame {
    pub variables: Vec<(String, StackVariable)>,
    pub stack_mem_allocated: usize,
    pub statements: Vec<usize>,
    pub cg_statements: Vec<CgStatement>,
    pub children: Vec<usize>,
    pub parent: usize,
    pub owning_function: String,
}

/// The mathematical shape of a frame, with sequences in place of vectors, so
/// that contracts can speak of frames the passes are yet to create.
#[verifier::ext_equal]
pub struct FrameModel {
    pub variables: Seq<(String, StackVariable)>,
    pub stack_mem_allocated: nat,
    pub statements: Seq<usize>,
    pub cg_statements: Seq<CgStatementModel>,
    pub children: Seq<usize>,
    pub parent: usize,
    pub owning_function: String,
}

impl View for StackFrame {
    type V = FrameModel;

    open spec fn view(&self) -> FrameModel {
        FrameModel {
            variables: self.variables@,
            stack_mem_allocated: self.stack_mem_allocated as nat,
            statements: self.statements@,
            cg_statements: self.cg_statements@.map_values(|c: CgStatement| c@),
            children: self.children@,
            parent: self.parent,
            owning_function: self.owning_function,
        }
    }
}

/// The frame a scope opens with: everything empty.
pub open spec fn empty_frame(parent: usize, owning_function: String) -> FrameModel {
    FrameModel {
        variables: Seq::empty(),
        stack_mem_allocated: 0,
        statements: Seq::empty(),
        cg_statements: Seq::empty(),
        children: Seq::empty(),
        parent,
        owning_function,
    }
}

/// Total byte size of the first `n` variables of `vars`.
pub open spec fn prefix_size(vars: Seq<(String, StackVariable)>, n: int) -> nat
    decreases n,
{
    if n <= 0 || n > vars.len() {
        0
    } else {
        (prefix_size(vars, n - 1) + vars[n - 1].1.variable_size) as nat
    }
}

/// Total byte size of a frame's declared variables (before any alignment of
/// `stack_mem_allocated`).
pub open spec fn total_var_size(f: FrameModel) -> nat {
    prefix_size(f.variables, f.variables.len() as int)
}

/// First variable named `name`, searching in declaration order.
pub open spec fn find_var(vars: Seq<(String, StackVariable)>, name: Seq<char>) -> Option<
    StackVariable,
>
    decreases vars.len(),
{
    if vars.len() == 0 {
        None
    } else if vars[0].0@ == name {
        Some(vars[0].1)
    } else {
        find_var(vars.drop_first(), name)
    }
}

/// Whether the frame's own symbol table declares `name`.
pub open spec fn frame_has_var(f: FrameModel, name: Seq<char>) -> bool {
    find_var(f.variables, name) is Some
}

/// The slot `name` gets when it is declared next in frame `f`.
pub open spec fn next_slot(f: FrameModel, t: VariableType) -> StackVariable {
    StackVariable {
        variable_type: t,
        variable_size: type_size(t) as usize,
        offset: f.stack_mem_allocated as usize,
    }
}

/// `f` after declaring `name` of type `t`: the slot is appended at the
/// frame's running byte offset and the counter grows by the type's size.
pub open spec fn frame_declare(f: FrameModel, name: String, t: VariableType) -> FrameModel {
    FrameModel {
        variables: f.variables.push((name, next_slot(f, t))),
        stack_mem_allocated: f.stack_mem_allocated + type_size(t),
        ..f
    }
}

/// `f` with one more raw statement index.
pub open spec fn frame_add_statement(f: FrameModel, stmt: usize) -> FrameModel {
    FrameModel { statements: f.statements.push(stmt), ..f }
}

/// `f` with one more child frame.
pub open spec fn frame_add_child(f: FrameModel, child: usize) -> FrameModel {
    FrameModel { children: f.children.push(child), ..f }
}

/// Symbol-table invariant: names are unique, each slot's recorded size is its
/// type's size, and offsets increase monotonically in declaration order
/// starting at 0 — slot `i` sits exactly after the sizes of slots `0..i`.
pub open spec fn frame_vars_wf(f: FrameModel) -> bool {
    &&& forall|i: int, j: int|
        0 <= i < j < f.variables.len() ==> (#[trigger] f.variables[i]).0@ != (
        #[trigger] f.variables[j]).0@
    &&& forall|i: int|
        0 <= i < f.variables.len() ==> (#[trigger] f.variables[i]).1.variable_size == type_size(
            f.variables[i].1.variable_type,
        )
    &&& forall|i: int|
        0 <= i < f.variables.len() ==> (#[trigger] f.variables[i]).1.offset == prefix_size(
            f.variables,
            i,
        )
}

/// During building, a frame's allocation counter equals the sum of its
/// variables' sizes; code generation later rounds it up, so afterwards it
/// only bounds that sum from above.
pub open spec fn frame_alloc_exact(f: FrameModel) -> bool {
    f.stack_mem_allocated == total_var_size(f)
}

/// The allocation counter covers every variable slot.
pub open spec fn frame_alloc_covers(f: FrameModel) -> bool {
    total_var_size(f) <= f.stack_mem_allocated
}

proof fn lemma_prefix_size_push(
    vars: Seq<(String, StackVariable)>,
    x: (String, StackVariable),
    n: int,
)
    requires
        0 <= n <= vars.len(),
    ensures
        prefix_size(vars.push(x), n) == prefix_size(vars, n),
    decreases n,
{
    if n > 0 {
        lemma_prefix_size_push(vars, x, n - 1);
    }
}

/// Every variable's slot ends within the prefix sum of all variables.
pub proof fn lemma_offset_within_total(vars: Seq<(String, StackVariable)>, i: int)
    requires
        0 <= i < vars.len(),
    ensures
        prefix_size(vars, i) + vars[i].1.variable_size <= prefix_size(vars, vars.len() as int),
    decreases vars.len() - i,
{
    if i + 1 < vars.len() {
        lemma_offset_within_total(vars, i + 1);
    }
}

proof fn lemma_find_var_first_hit(vars: Seq<(String, StackVariable)>, name: Seq<char>, i: int)
    requires
        0 <= i < vars.len(),
        vars[i].0@ == name,
        forall|j: int| 0 <= j < i ==> (#[trigger] vars[j]).0@ != name,
    ensures
        find_var(vars, name) == Some(vars[i].1),
    decreases i,
{
    if i > 0 {
        lemma_find_var_first_hit(vars.drop_first(), name, i - 1);
    }
}

proof fn lemma_find_var_miss(vars: Seq<(String, StackVariable)>, name: Seq<char>)
    requires
        forall|j: int| 0 <= j < vars.len() ==> (#[trigger] vars[j]).0@ != name,
    ensures
        find_var(vars, name) is None,
    decreases vars.len(),
{
    if vars.len() > 0 {
        lemma_find_var_miss(vars.drop_first(), name);
    }
}

/// Appending a variable leaves well-formedness intact and extends the table
/// as `frame_declare` says.
pub proof fn lemma_declare_preserves_wf(f: FrameModel, name: String, t: VariableType)
    requires
        frame_vars_wf(f),
        frame_alloc_exact(f),
        !frame_has_var(f, name@),
        f.stack_mem_allocated <= usize::MAX,
    ensures
        frame_vars_wf(frame_declare(f, name, t)),
        frame_alloc_exact(frame_declare(f, name, t)),
{
    let entry = (name, next_slot(f, t));
    let vars = f.variables;
    assert forall|i: int| 0 <= i < vars.push(entry).len() implies (#[trigger] vars.push(
        entry,
    )[i]).1.offset == prefix_size(vars.push(entry), i) by {
        lemma_prefix_size_push(vars, entry, i);
        if i < vars.len() {
            assert(vars.push(entry)[i] == vars[i]);
        } else {
            assert(vars.push(entry)[i] == entry);
        }
    }
    assert forall|i: int| 0 <= i < vars.len() implies (#[trigger] vars[i]).0@ != name@ by {
        if vars[i].0@ == name@ {
            lemma_exists_first_hit(vars, name@, i);
            let k = choose|k: int|
                0 <= k < vars.len() && (#[trigger] vars[k]).0@ == name@ && forall|j: int|
                    0 <= j < k ==> (#[trigger] vars[j]).0@ != name@;
            lemma_find_var_first_hit(vars, name@, k);
        }
    }
    lemma_prefix_size_push(vars, entry, vars.len() as int);
}

proof fn lemma_exists_first_hit(vars: Seq<(String, StackVariable)>, name: Seq<char>, i: int)
    requires
        0 <= i < vars.len(),
        vars[i].0@ == name,
    ensures
        exists|k: int|
            0 <= k < vars.len() && (#[trigger] vars[k]).0@ == name && forall|j: int|
                0 <= j < k ==> (#[trigger] vars[j]).0@ != name,
    decreases i,
{
    if exists|j: int| 0 <= j < i && (#[trigger] vars[j]).0@ == name {
        let j = choose|j: int| 0 <= j < i && (#[trigger] vars[j]).0@ == name;
        lemma_exists_first_hit(vars, name, j);
    } else {
        assert(0 <= i < vars.len() && vars[i].0@ == name && forall|j: int|
            0 <= j < i ==> (#[trigger] vars[j]).0@ != name);
    }
}

impl StackFrame {
    /// An empty frame whose parent is `parent`.
    pub fn new(parent: usize) -> (f: Self)
        ensures
            f@ == empty_frame(parent, f.owning_function),
            f.owning_function@ == Seq::<char>::empty(),
    {
        Self {
            variables: Vec::new(),
            stack_mem_allocated: 0,
            statements: Vec::new(),
            cg_statements: Vec::new(),
            children: Vec::new(),
            parent,
            owning_function: String::new(),
        }
    }

    /// An empty frame with no parent.
    pub fn default() -> (f: Self)
        ensures
            f@ == empty_frame(NO_PARENT, f.owning_function),
            f.owning_function@ == Seq::<char>::empty(),
    {
        Self::new(NO_PARENT)
    }

    /// Looks `name` up in this frame's own symbol table only.
    pub fn get_variable(&self, name: &str) -> (r: Option<StackVariable>)
        ensures
            r == find_var(self.variables@, name@),
    {
        let n = self.variables.len();
        for i in 0..n
            invariant
                n == self.variables@.len(),
                forall|j: int| 0 <= j < i ==> (#[trigger] self.variables@[j]).0@ != name@,
        {
            if str_eq(self.variables[i].0.as_str(), name) {
                proof {
                    lemma_find_var_first_hit(self.variables@, name@, i as int);
                }
                return Some(self.variables[i].1);
            }
        }
        proof {
            lemma_find_var_miss(self.variables@, name@);
        }
        None
    }

    /// Appends a variable of type `t` at the frame's running byte offset and
    /// advances the allocation counter by the type's size. The caller has
    /// already checked that `name` is not yet declared in this frame.
    pub fn push_variable(&mut self, name: String, t: VariableType)
        requires
            !frame_has_var(old(self)@, name@),
            old(self).stack_mem_allocated + type_size(t) <= usize::MAX,
        ensures
            final(self)@ == frame_declare(old(self)@, name, t),
    {
        let size = t.get_variable_size();
        let var = StackVariable {
            variable_type: t,
            variable_size: size,
            offset: self.stack_mem_allocated,
        };
        self.variables.push((name, var));
        self.stack_mem_allocated = self.stack_mem_allocated + size;
    }
}

} // verus!
