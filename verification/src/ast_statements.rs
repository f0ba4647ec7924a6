//! Statement and expression forms, both the raw shapes the parser produces
//! and the codegen-level forms the semantic analyzer lowers them into.

use vstd::prelude::*;
use vstd::string::StrSliceExecFns;
use vstd::string::StringExecFns;

use crate::general_functions::{dec_int, i32_to_dec, str_eq};
use crate::token::{Token, TokenType};

verus! {

/// One raw statement, tagged with the source position of its first token.
#[derive(Debug, PartialEq)]
pub struct Statement {
    pub col: usize,
    pub line: usize,
    pub start_pos: usize,
    pub end_pos: usize,
    pub statement_type: Statements,
}

/// A registered function: its signature and the arena index of the stack
/// frame that forms its body. Function names are unique in the table.
#[derive(Debug, PartialEq)]
pub struct Function {
    pub name: String,
    pub return_type: VariableType,
    pub args: Vec<FunctionArg>,
    pub first_stack_frame: usize,
}

/// The mathematical shape of a function-table entry.
#[verifier::ext_equal]
pub struct FunctionModel {
    pub name: String,
    pub return_type: VariableType,
    pub args: Seq<FunctionArg>,
    pub first_stack_frame: usize,
}

impl View for Function {
    type V = FunctionModel;

    open spec fn view(&self) -> FunctionModel {
        FunctionModel {
            name: self.name,
            return_type: self.return_type,
            args: self.args@,
            first_stack_frame: self.first_stack_frame,
        }
    }
}

impl Statement {
    /// Builds a statement spanning from `token`'s start to `end_pos`.
    #[inline]
    pub fn new(token: &Token, end_pos: usize, statement_type: Statements) -> (s: Self)
        ensures
            s.col == token.col,
            s.line == token.line,
            s.start_pos == token.start_pos,
            s.end_pos == end_pos,
            s.statement_type == statement_type,
    {
        Self {
            col: token.col,
            line: token.line,
            start_pos: token.start_pos,
            end_pos,
            statement_type,
        }
    }
}

/// A declared parameter together with its calling-convention location.
#[derive(Debug, PartialEq)]
pub struct FunctionArg {
    pub arg_var_type: VariableType,
    pub arg_name: String,
    pub memory_location: MemoryLocationsAst,
}

#[derive(Debug, PartialEq)]
pub struct FunctionDeclaration {
    pub args: Vec<FunctionArg>,
    pub name: String,
    pub return_type: VariableType,
}

#[derive(Debug, PartialEq)]
pub enum Statements {
    Terminate,
    EOF,
    VariableDeclaration(VariableDeclaration),
    FunctionDeclaration(FunctionDeclaration),
    StackFramePop,
    Expression(Expression),
}

#[derive(Debug, PartialEq)]
pub enum BuiltInFunctionsAst {
    Assembly(Box<Expression>),
    Format(Format),
    BranchLinked(BranchLinkedAst),
}

/// Where a parameter lives at a call: a fixed offset within the incoming
/// stack-argument area, or a named register.
#[derive(Debug, PartialEq)]
pub enum MemoryLocationsAst {
    Stack(usize),
    Register(String),
}

#[derive(Debug, PartialEq)]
pub struct BranchLinkedAst {
    pub args: Vec<Expression>,
    pub function_name: String,
}

impl BuiltInFunctionsAst {
    /// The result type a built-in call contributes to an expression;
    /// every current built-in yields text.
    #[allow(non_snake_case)]
    pub fn GetReturnType(&self) -> (r: Literal)
        ensures
            (r matches Literal::String(s) && s@ == Seq::<char>::empty()),
    {
        match self {
            BuiltInFunctionsAst::Format(_) => Literal::String(String::new()),
            BuiltInFunctionsAst::Assembly(_) => Literal::String(String::new()),
            _ => Literal::String(String::new()),
        }
    }
}

/// An `asm(format(..))` template: literal text interleaved with `{<type>}`
/// placeholders, plus the raw tokens supplied positionally for them.
#[derive(Debug, PartialEq)]
pub struct Format {
    pub string: String,
    pub args_provided: Vec<Token>,
}

#[derive(Debug, PartialEq)]
pub struct VariableDeclaration {
    pub name: String,
    pub variable_type: VariableType,
    pub value: Option<Expression>,
}

#[derive(Debug, PartialEq)]
pub enum Expression {
    Literal(Literal),
    Identifier(crate::token::Identifiers),
    BuiltInFunction(BuiltInFunctionsAst),
}

#[derive(Debug, PartialEq)]
pub enum Literal {
    String(String),
    Number(i32),
}

/// The integer widths of the language; `Void` is a return type only.
#[derive(Debug, Clone, Copy, PartialEq, Eq, Structural)]
pub enum VariableType {
    I8,
    I16,
    I32,
    Void,
}

/// Byte size of a declared type: 1, 2 or 4 for the integer widths, 0 for `Void`.
pub open spec fn type_size(t: VariableType) -> nat {
    match t {
        VariableType::I8 => 1,
        VariableType::I16 => 2,
        VariableType::I32 => 4,
        VariableType::Void => 0,
    }
}

/// Whether a declared type is one of the integer widths (not `Void`).
pub open spec fn is_integer_type(t: VariableType) -> bool {
    t matches VariableType::I8 || t matches VariableType::I16 || t matches VariableType::I32
}

impl VariableType {
    #[inline]
    pub fn get_variable_size(&self) -> (size: usize)
        ensures
            size == type_size(*self),
    {
        match self {
            VariableType::I8 => 1,
            VariableType::I16 => 2,
            VariableType::I32 => 4,
            VariableType::Void => 0,
        }
    }
}

// Codegen-level statement forms, attached to frames by the semantic analyzer.

#[derive(Debug, PartialEq)]
pub struct CgStatement {
    pub statement_type: CgStatementType,
}

#[derive(Debug, PartialEq)]
pub enum CgStatementType {
    VariableInitialization(CgVariableInitialization),
    BuiltInFunction(CgBuiltInFunctions),
}

#[derive(Debug, PartialEq)]
pub enum CgBuiltInFunctions {
    Assembly(String),
    BranchLinked(CgBranchLinked),
}

#[derive(Debug, PartialEq)]
pub struct CgBranchLinked {
    pub function_name: String,
    pub args: Vec<CgExpression>,
}

/// A lowered value: identifiers survive only after successful resolution.
#[derive(Debug, PartialEq)]
pub enum CgExpression {
    StackVariableIdentifier(String),
    Literal(Literal),
}

#[derive(Debug, PartialEq)]
pub struct CgVariableInitialization {
    pub init_value: CgExpression,
    pub var_name: String,
    pub stack_frame: usize,
}

// Clone is written by hand for the types that verified code copies, so that
// callers know a clone equals its source; Verus attaches no meaning to the
// derived impls.

impl Clone for Literal {
    fn clone(&self) -> (res: Self)
        ensures
            res == *self,
    {
        match self {
            Literal::String(s) => Literal::String(s.clone()),
            Literal::Number(n) => Literal::Number(*n),
        }
    }
}

impl Clone for MemoryLocationsAst {
    fn clone(&self) -> (res: Self)
        ensures
            res == *self,
    {
        match self {
            MemoryLocationsAst::Stack(offset) => MemoryLocationsAst::Stack(*offset),
            MemoryLocationsAst::Register(reg) => MemoryLocationsAst::Register(reg.clone()),
        }
    }
}

impl Clone for FunctionArg {
    fn clone(&self) -> (res: Self)
        ensures
            res == *self,
    {
        FunctionArg {
            arg_var_type: self.arg_var_type,
            arg_name: self.arg_name.clone(),
            memory_location: self.memory_location.clone(),
        }
    }
}

/// Element-wise copy of a parameter list.
pub fn clone_arg_vec(v: &Vec<FunctionArg>) -> (res: Vec<FunctionArg>)
    ensures
        res@ == v@,
{
    let mut res: Vec<FunctionArg> = Vec::new();
    let n = v.len();
    for i in 0..n
        invariant
            n == v.len(),
            res@ =~= v@.subrange(0, i as int),
    {
        res.push(v[i].clone());
        assert(res@ =~= v@.subrange(0, i + 1 as int));
    }
    assert(res@ =~= v@);
    res
}


/// The mathematical shape of a lowered call.
#[verifier::ext_equal]
pub struct CgBranchLinkedModel {
    pub function_name: String,
    pub args: Seq<CgExpression>,
}

/// The mathematical shape of a lowered built-in; assembly text is a plain
/// character sequence so that contracts can speak of text the expansion is
/// yet to build.
#[verifier::ext_equal]
pub enum CgBuiltInModel {
    Assembly(Seq<char>),
    BranchLinked(CgBranchLinkedModel),
}

/// The mathematical shape of one lowered statement.
#[verifier::ext_equal]
pub enum CgStatementModel {
    VariableInitialization(CgVariableInitialization),
    BuiltInFunction(CgBuiltInModel),
}

impl View for CgStatement {
    type V = CgStatementModel;

    open spec fn view(&self) -> CgStatementModel {
        match self.statement_type {
            CgStatementType::VariableInitialization(v) => CgStatementModel::VariableInitialization(
                v,
            ),
            CgStatementType::BuiltInFunction(b) => CgStatementModel::BuiltInFunction(
                match b {
                    CgBuiltInFunctions::Assembly(text) => CgBuiltInModel::Assembly(text@),
                    CgBuiltInFunctions::BranchLinked(bl) => CgBuiltInModel::BranchLinked(
                        CgBranchLinkedModel { function_name: bl.function_name, args: bl.args@ },
                    ),
                },
            ),
        }
    }
}

/// Index of the first `}` at or after `i`.
pub open spec fn find_close(s: Seq<char>, i: int) -> Option<int>
    decreases s.len() - i,
{
    if i < 0 || i >= s.len() {
        None
    } else if s[i] == '}' {
        Some(i)
    } else {
        find_close(s, i + 1)
    }
}

/// Template expansion: each supplied argument in turn consumes the literal
/// text up to the next `{<type>}` placeholder and substitutes its value;
/// whatever template text is left after the last argument is kept verbatim.
/// `None` when the template ends while arguments remain, a placeholder never
/// closes, or a placeholder's type does not match its argument's kind — the
/// only match today is an `i32` placeholder against a numeric literal.
pub open spec fn format_expand(s: Seq<char>, args: Seq<Token>) -> Option<Seq<char>>
    decreases args.len(), s.len(),
{
    if args.len() == 0 {
        Some(s)
    } else if s.len() == 0 {
        None
    } else if s[0] != '{' {
        match format_expand(s.drop_first(), args) {
            Some(r) => Some(seq![s[0]] + r),
            None => None,
        }
    } else {
        match find_close(s, 1) {
            None => None,
            Some(c) => {
                let ty = s.subrange(1, c);
                let rest = s.subrange(c + 1, s.len() as int);
                match args[0].kind {
                    TokenType::Literal(Literal::Number(num)) => if ty == "i32"@ {
                        match format_expand(rest, args.drop_first()) {
                            Some(r) => Some(dec_int(num as int) + r),
                            None => None,
                        }
                    } else {
                        None
                    },
                    _ => None,
                }
            },
        }
    }
}

/// Copying a placeholder-free span of template text commutes with expansion.
proof fn lemma_expand_copy_segment(s: Seq<char>, args: Seq<Token>, a: int, b: int)
    requires
        args.len() > 0,
        0 <= a <= b <= s.len(),
        forall|k: int| a <= k < b ==> s[k] != '{',
    ensures
        format_expand(s.subrange(a, s.len() as int), args) == match format_expand(
            s.subrange(b, s.len() as int),
            args,
        ) {
            Some(r) => Some(s.subrange(a, b) + r),
            None => None::<Seq<char>>,
        },
    decreases b - a,
{
    let n = s.len() as int;
    if a == b {
        match format_expand(s.subrange(b, n), args) {
            Some(r) => {
                assert(s.subrange(a, b) + r =~= r);
            },
            None => {},
        }
    } else {
        lemma_expand_copy_segment(s, args, a + 1, b);
        let sa = s.subrange(a, n);
        assert(sa.len() > 0 && sa[0] == s[a] && s[a] != '{');
        assert(sa.drop_first() =~= s.subrange(a + 1, n));
        match format_expand(s.subrange(b, n), args) {
            Some(r) => {
                assert(format_expand(s.subrange(a + 1, n), args) == Some(s.subrange(a + 1, b) + r));
                assert(format_expand(sa, args) == Some(seq![s[a]] + (s.subrange(a + 1, b) + r)));
                assert(seq![s[a]] + (s.subrange(a + 1, b) + r) =~= s.subrange(a, b) + r);
            },
            None => {
                assert(format_expand(s.subrange(a + 1, n), args) is None);
                assert(format_expand(sa, args) is None);
            },
        }
    }
}

/// A span without `}` followed by one pins down `find_close`.
proof fn lemma_find_close_hit(s: Seq<char>, i: int, c: int)
    requires
        0 <= i <= c < s.len(),
        s[c] == '}',
        forall|k: int| i <= k < c ==> s[k] != '}',
    ensures
        find_close(s, i) == Some(c),
    decreases c - i,
{
    if i < c {
        lemma_find_close_hit(s, i + 1, c);
    }
}

proof fn lemma_find_close_miss(s: Seq<char>, i: int)
    requires
        0 <= i,
        forall|k: int| i <= k < s.len() ==> s[k] != '}',
    ensures
        find_close(s, i) is None,
    decreases s.len() - i,
{
    if i < s.len() {
        lemma_find_close_miss(s, i + 1);
    }
}

impl Format {
    /// Expands the template against the supplied arguments, exactly as
    /// [`format_expand`] describes; any fault in the expansion is a template
    /// mismatch.
    pub fn parse(&self) -> (r: Result<String, crate::program_data::CompileError>)
        ensures
            match r {
                Ok(out) => format_expand(self.string@, self.args_provided@) == Some(out@),
                Err(e) => format_expand(self.string@, self.args_provided@) is None && e
                    == crate::program_data::CompileError::TypeError(
                    crate::program_data::TypeFault::TemplateMismatch,
                ),
            },
    {
        let r = expand_from(self.string.as_str(), 0, &self.args_provided, 0);
        proof {
            assert(self.string@.subrange(0, self.string@.len() as int) =~= self.string@);
            assert(self.args_provided@.subrange(0, self.args_provided@.len() as int)
                =~= self.args_provided@);
        }
        r
    }
}

/// Expansion of the template tail from `pos` against the argument tail from
/// `ai`, mirroring [`format_expand`] one placeholder per call.
fn expand_from(s: &str, pos: usize, args: &Vec<Token>, ai: usize) -> (r: Result<
    String,
    crate::program_data::CompileError,
>)
    requires
        pos <= s@.len(),
        ai <= args@.len(),
    ensures
        ({
            let tail = s@.subrange(pos as int, s@.len() as int);
            let atail = args@.subrange(ai as int, args@.len() as int);
            match r {
                Ok(out) => format_expand(tail, atail) == Some(out@),
                Err(e) => format_expand(tail, atail) is None && e
                    == crate::program_data::CompileError::TypeError(
                    crate::program_data::TypeFault::TemplateMismatch,
                ),
            }
        }),
    decreases args@.len() - ai,
{
    let n = s.unicode_len();
    let ghost tail = s@.subrange(pos as int, s@.len() as int);
    let ghost atail = args@.subrange(ai as int, args@.len() as int);
    if ai >= args.len() {
        let out = s.substring_char(pos, n).to_owned();
        proof {
            assert(atail.len() == 0);
        }
        return Ok(out);
    }
    proof {
        assert(atail.len() > 0);
        assert(atail[0] == args@[ai as int]);
    }
    // copy the literal text up to the next placeholder
    let mut open = pos;
    while open < n && s.get_char(open) != '{'
        invariant
            pos <= open <= n,
            n == s@.len(),
            forall|k: int| pos <= k < open ==> s@[k] != '{',
        decreases n - open,
    {
        open = open + 1;
    }
    proof {
        lemma_expand_copy_segment(s@, atail, pos as int, open as int);
        assert(tail =~= s@.subrange(pos as int, s@.len() as int));
    }
    if open >= n {
        // the template ran out while arguments remain
        proof {
            assert(s@.subrange(open as int, s@.len() as int).len() == 0);
        }
        return Err(
            crate::program_data::CompileError::TypeError(
                crate::program_data::TypeFault::TemplateMismatch,
            ),
        );
    }
    // read the placeholder's type name
    let mut close = open + 1;
    while close < n && s.get_char(close) != '}'
        invariant
            open + 1 <= close <= n,
            n == s@.len(),
            forall|k: int| open + 1 <= k < close ==> s@[k] != '}',
        decreases n - close,
    {
        close = close + 1;
    }
    let ghost opened = s@.subrange(open as int, s@.len() as int);
    proof {
        assert(opened[0] == s@[open as int] && s@[open as int] == '{');
    }
    if close >= n {
        // the placeholder never closes
        proof {
            lemma_find_close_miss(opened, 1);
        }
        return Err(
            crate::program_data::CompileError::TypeError(
                crate::program_data::TypeFault::TemplateMismatch,
            ),
        );
    }
    proof {
        assert forall|k: int| 1 <= k < close - open implies opened[k] != '}' by {
            assert(opened[k] == s@[open + k]);
        }
        assert(opened[close - open] == s@[close as int] && s@[close as int] == '}');
        lemma_find_close_hit(opened, 1, close - open);
    }
    let ty = s.substring_char(open + 1, close);
    proof {
        assert(ty@ =~= opened.subrange(1, close - open));
    }
    let is_i32 = str_eq(ty, "i32");
    let num: Option<i32> = match &args[ai].kind {
        TokenType::Literal(Literal::Number(v)) => Some(*v),
        _ => None,
    };
    if !is_i32 || num.is_none() {
        // a placeholder whose type does not match its argument's kind
        return Err(
            crate::program_data::CompileError::TypeError(
                crate::program_data::TypeFault::TemplateMismatch,
            ),
        );
    }
    proof {
        assert(opened.subrange(close - open + 1, opened.len() as int) =~= s@.subrange(
            close + 1,
            s@.len() as int,
        ));
        assert(args@.subrange(ai + 1 as int, args@.len() as int) =~= atail.drop_first());
    }
    let rest = expand_from(s, close + 1, args, ai + 1)?;
    let mut out = s.substring_char(pos, open).to_owned();
    out.append(i32_to_dec(num.unwrap()).as_str());
    out.append(rest.as_str());
    proof {
        assert(out@ =~= s@.subrange(pos as int, open as int) + (dec_int(num.unwrap() as int)
            + rest@));
    }
    Ok(out)
}

} // verus!
