//! The recursive-descent parser: turns the token stream into the flat,
//! source-position-tagged statement sequence the core consumes. Like the
//! tokenizer it is a collaborator of the core; its contracts pin progress,
//! the statement kind each entry point yields, and the terminating `EOF`
//! statement, rather than the grammar in full.

use vstd::prelude::*;
use vstd::string::StrSliceExecFns;
use vstd::string::StringExecFns;

use crate::ast_statements::{
    BranchLinkedAst, BuiltInFunctionsAst, Expression, Format, FunctionArg, FunctionDeclaration,
    Literal, Statement, Statements, VariableDeclaration, VariableType,
};
use crate::general_functions::str_eq;
use crate::program_data::ProgramData;
use crate::token::{
    BuiltInFunctions, Identifiers, Keywords, Operators, Punctuations, Token, TokenType,
};

verus! {

/// Token-type equality: variants and payloads, strings by their text.
pub open spec fn token_type_eq(a: TokenType, b: TokenType) -> bool {
    match (a, b) {
        (TokenType::EOF, TokenType::EOF) => true,
        (TokenType::Operator(x), TokenType::Operator(y)) => x == y,
        (TokenType::Keyword(x), TokenType::Keyword(y)) => match (x, y) {
            (Keywords::VariableType(t1), Keywords::VariableType(t2)) => t1 == t2,
        },
        (TokenType::Literal(x), TokenType::Literal(y)) => match (x, y) {
            (Literal::String(s1), Literal::String(s2)) => s1@ == s2@,
            (Literal::Number(n1), Literal::Number(n2)) => n1 == n2,
            _ => false,
        },
        (TokenType::Punctuation(x), TokenType::Punctuation(y)) => x == y,
        (TokenType::BuiltInFunctions(x), TokenType::BuiltInFunctions(y)) => x == y,
        (TokenType::Identifiers(x), TokenType::Identifiers(y)) => match (x, y) {
            (Identifiers::Identifier(s1), Identifiers::Identifier(s2)) => s1@ == s2@,
        },
        (TokenType::MemoryLocation(x), TokenType::MemoryLocation(y)) => x == y,
        _ => false,
    }
}

/// Compares two token types, strings by their text.
pub fn token_type_matches(a: &TokenType, b: &TokenType) -> (r: bool)
    ensures
        r == token_type_eq(*a, *b),
{
    match (a, b) {
        (TokenType::EOF, TokenType::EOF) => true,
        (TokenType::Operator(x), TokenType::Operator(y)) => x == y,
        (TokenType::Keyword(Keywords::VariableType(t1)), TokenType::Keyword(
            Keywords::VariableType(t2),
        )) => t1 == t2,
        (TokenType::Literal(Literal::String(s1)), TokenType::Literal(Literal::String(s2))) =>
            str_eq(s1.as_str(), s2.as_str()),
        (TokenType::Literal(Literal::Number(n1)), TokenType::Literal(Literal::Number(n2))) => n1
            == n2,
        (TokenType::Punctuation(x), TokenType::Punctuation(y)) => x == y,
        (TokenType::BuiltInFunctions(x), TokenType::BuiltInFunctions(y)) => x == y,
        (TokenType::Identifiers(Identifiers::Identifier(s1)), TokenType::Identifiers(
            Identifiers::Identifier(s2),
        )) => str_eq(s1.as_str(), s2.as_str()),
        (TokenType::MemoryLocation(x), TokenType::MemoryLocation(y)) => x == y,
        _ => false,
    }
}

/// Which statement kinds a leading token can open; a token that opens no
/// statement admits none.
pub open spec fn statement_fits(kind: TokenType, st: Statements) -> bool {
    match kind {
        TokenType::EOF => st is EOF,
        TokenType::BuiltInFunctions(b) => match b {
            BuiltInFunctions::Format => st matches Statements::Expression(
                Expression::BuiltInFunction(BuiltInFunctionsAst::Format(_)),
            ),
            BuiltInFunctions::Assembly => st matches Statements::Expression(
                Expression::BuiltInFunction(BuiltInFunctionsAst::Assembly(_)),
            ),
            BuiltInFunctions::BranchLinked => st matches Statements::Expression(
                Expression::BuiltInFunction(BuiltInFunctionsAst::BranchLinked(_)),
            ),
            _ => false,
        },
        TokenType::Punctuation(p) => match p {
            Punctuations::ClosedBraces => st is StackFramePop,
            _ => false,
        },
        TokenType::Keyword(k) => match k {
            Keywords::VariableType(t) => match st {
                Statements::FunctionDeclaration(fd) => fd.return_type == t,
                Statements::VariableDeclaration(vd) => vd.variable_type == t,
                _ => false,
            },
        },
        _ => false,
    }
}

/// The token the cursor sees: the stream's token there, or a synthesized
/// end-of-file token past the stream's end.
pub open spec fn token_at(tokens: Seq<Token>, pos: usize) -> Token {
    if pos < tokens.len() {
        tokens[pos as int]
    } else {
        Token { kind: TokenType::EOF, line: 0, col: 0, start_pos: pos, end_pos: pos }
    }
}

/// The parser's cursor into the token stream.
#[derive(Debug)]
pub struct Parser {
    pub position: usize,
}

impl Parser {
    /// A cursor at the stream's start.
    pub fn new() -> (p: Self)
        ensures
            p.position == 0,
    {
        Parser { position: 0 }
    }

    /// Moves the cursor one token forward.
    pub fn advance_position(&mut self)
        requires
            old(self).position < usize::MAX,
        ensures
            final(self).position == old(self).position + 1,
    {
        self.position = self.position + 1;
    }

    /// The token under the cursor; past the stream's end it is `EOF`.
    pub fn current_token(&self, pd: &ProgramData) -> (t: Token)
        ensures
            t == token_at(pd.tokens@, self.position),
    {
        if self.position < pd.tokens.len() {
            pd.tokens[self.position].clone()
        } else {
            Token {
                kind: TokenType::EOF,
                line: 0,
                col: 0,
                start_pos: self.position,
                end_pos: self.position,
            }
        }
    }

    /// Demands the token under the cursor be of the given type, consuming it.
    pub fn expect_token(&mut self, pd: &ProgramData, token_type: TokenType) -> (r: Result<
        (),
        String,
    >)
        requires
            old(self).position < usize::MAX,
        ensures
            match r {
                Ok(_) => final(self).position == old(self).position + 1 && token_type_eq(
                    token_at(pd.tokens@, old(self).position).kind,
                    token_type,
                ),
                Err(_) => final(self).position == old(self).position && !token_type_eq(
                    token_at(pd.tokens@, old(self).position).kind,
                    token_type,
                ),
            },
            (r is Ok && !(token_type is EOF)) ==> old(self).position < pd.tokens@.len(),
    {
        let current = self.current_token(pd);
        if token_type_matches(&current.kind, &token_type) {
            self.advance_position();
            Ok(())
        } else {
            Err(String::from_str("unexpected token"))
        }
    }

    /// Parses `format("template", arg, ...)` after its keyword.
    pub fn parse_format_built_in_function(&mut self, pd: &ProgramData, first_token: &Token) -> (r:
        Result<Statement, String>)
        requires
            old(self).position <= pd.tokens@.len(),
            pd.tokens@.len() + 8 <= usize::MAX,
        ensures
            final(self).position > old(self).position,
            final(self).position <= pd.tokens@.len() + 2,
            r matches Ok(st) ==> st.statement_type matches Statements::Expression(
                Expression::BuiltInFunction(BuiltInFunctionsAst::Format(_)),
            ),
    {
        self.advance_position();
        self.expect_token(pd, TokenType::Punctuation(Punctuations::OpenParenthesis))?;
        let current = self.current_token(pd);
        let string_literal: String = match current.kind {
            TokenType::Literal(Literal::String(text)) => text,
            _ => {
                return Err(String::from_str("expected a compile-time string"));
            },
        };
        self.advance_position();
        let mut args: Vec<Token> = Vec::new();
        loop
            invariant
                old(self).position < self.position,
                self.position <= pd.tokens@.len() + 2,
                pd.tokens@.len() + 8 <= usize::MAX,
            decreases pd.tokens@.len() + 2 - self.position,
        {
            if self.position >= pd.tokens.len() {
                return Err(String::from_str("unterminated format arguments"));
            }
            let current = self.current_token(pd);
            match current.kind {
                TokenType::Punctuation(Punctuations::Comma) => {
                    self.advance_position();
                    args.push(self.current_token(pd));
                    self.advance_position();
                },
                TokenType::Punctuation(Punctuations::ClosedParenthesis) => {
                    self.advance_position();
                    break ;
                },
                _ => {
                    return Err(String::from_str("unexpected token in format arguments"));
                },
            }
        }
        let end_pos = self.current_token(pd).end_pos;
        Ok(
            Statement::new(
                first_token,
                end_pos,
                Statements::Expression(
                    Expression::BuiltInFunction(
                        BuiltInFunctionsAst::Format(
                            Format { string: string_literal, args_provided: args },
                        ),
                    ),
                ),
            ),
        )
    }

    /// Parses a function declaration after `<type> :`. Only parameterless
    /// declarations have a textual form; parameter lists are supplied by the
    /// callers of the core's build entry point.
    pub fn parse_function_declaration(
        &mut self,
        pd: &ProgramData,
        first_token: &Token,
        func_return_type: VariableType,
    ) -> (r: Result<Statement, String>)
        requires
            old(self).position <= pd.tokens@.len(),
            pd.tokens@.len() + 8 <= usize::MAX,
        ensures
            final(self).position > old(self).position,
            final(self).position <= pd.tokens@.len() + 2,
            r matches Ok(st) ==> (st.statement_type matches Statements::FunctionDeclaration(fd)
                && fd.return_type == func_return_type && fd.args@.len() == 0
                && token_at(pd.tokens@, (old(self).position + 1) as usize).kind
                == TokenType::Identifiers(Identifiers::Identifier(fd.name))),
    {
        self.advance_position();
        let func_name_tkn = self.current_token(pd);
        let func_name: String = match func_name_tkn.kind {
            TokenType::Identifiers(Identifiers::Identifier(name)) => name,
            _ => {
                return Err(String::from_str("parsing the function name failed"));
            },
        };
        self.advance_position();
        self.expect_token(pd, TokenType::Punctuation(Punctuations::OpenParenthesis))?;
        let args: Vec<FunctionArg> = match self.current_token(pd).kind {
            TokenType::Punctuation(Punctuations::ClosedParenthesis) => Vec::new(),
            _ => {
                return Err(String::from_str("parameter lists have no textual form"));
            },
        };
        self.advance_position();
        self.expect_token(pd, TokenType::Punctuation(Punctuations::OpenBraces))?;
        let end_pos = self.current_token(pd).end_pos;
        Ok(
            Statement::new(
                first_token,
                end_pos,
                Statements::FunctionDeclaration(
                    FunctionDeclaration { args, name: func_name, return_type: func_return_type },
                ),
            ),
        )
    }

    /// Parses a variable declaration after `<type> <name>`: an optional
    /// `= <literal-or-identifier>` initializer, then the closing semicolon.
    pub fn parse_variable_declaration(
        &mut self,
        pd: &ProgramData,
        first_token: &Token,
        var_type: VariableType,
        var_name: &String,
    ) -> (r: Result<Statement, String>)
        requires
            old(self).position <= pd.tokens@.len(),
            pd.tokens@.len() + 8 <= usize::MAX,
        ensures
            final(self).position >= old(self).position,
            final(self).position <= pd.tokens@.len() + 2,
            r is Ok ==> final(self).position > old(self).position,
            var_type == VariableType::Void ==> (r is Err && *final(self) == *old(self)),
            r matches Ok(st) ==> (st.statement_type matches Statements::VariableDeclaration(vd)
                && vd.name@ == var_name@ && vd.variable_type == var_type && st.start_pos
                == first_token.start_pos && st.line == first_token.line && st.col
                == first_token.col && match token_at(
                pd.tokens@,
                (old(self).position + 1) as usize,
            ).kind {
                TokenType::Operator(op) => op == Operators::Assignment && st.end_pos
                    == token_at(pd.tokens@, (old(self).position + 3) as usize).end_pos
                    && match token_at(
                    pd.tokens@,
                    (old(self).position + 2) as usize,
                ).kind {
                    TokenType::Literal(lit) => vd.value == Some(Expression::Literal(lit)),
                    TokenType::Identifiers(id) => vd.value == Some(Expression::Identifier(id)),
                    _ => false,
                },
                TokenType::Punctuation(p) => p == Punctuations::Semicolon && vd.value is None
                    && st.end_pos == token_at(
                    pd.tokens@,
                    (old(self).position + 1) as usize,
                ).end_pos,
                _ => false,
            }),
    {
        if var_type == VariableType::Void {
            // rejected before anything is consumed: the cursor stays put
            return Err(String::from_str("a variable cannot be declared void"));
        }
        self.advance_position();
        let end_pos: usize;
        let current = self.current_token(pd);
        let value: Option<Expression> = match current.kind {
            TokenType::Operator(Operators::Assignment) => {
                self.advance_position();
                let value_token = self.current_token(pd);
                let expr: Expression = match value_token.kind {
                    TokenType::Literal(lit) => Expression::Literal(lit),
                    TokenType::Identifiers(id) => Expression::Identifier(id),
                    _ => {
                        return Err(String::from_str("the initializer must be a value"));
                    },
                };
                self.advance_position();
                let semicolon_token = self.current_token(pd);
                end_pos = semicolon_token.end_pos;
                self.advance_position();
                Some(expr)
            },
            TokenType::Punctuation(Punctuations::Semicolon) => {
                end_pos = current.end_pos;
                self.advance_position();
                None
            },
            _ => {
                return Err(String::from_str("unexpected token after the declared name"));
            },
        };
        Ok(
            Statement::new(
                first_token,
                end_pos,
                Statements::VariableDeclaration(
                    VariableDeclaration {
                        name: var_name.clone(),
                        variable_type: var_type,
                        value,
                    },
                ),
            ),
        )
    }

    /// Parses the next statement. At the stream's end, or on its `EOF`
    /// token, the `EOF` statement is returned and the cursor does not move.
    pub fn parse_next(&mut self, pd: &ProgramData) -> (r: Result<Statement, String>)
        requires
            old(self).position <= pd.tokens@.len(),
            pd.tokens@.len() + 8 <= usize::MAX,
        ensures
            final(self).position <= pd.tokens@.len() + 2,
            (r matches Ok(st) && !(st.statement_type is EOF)) ==> final(self).position > old(
                self,
            ).position,
            (r matches Ok(st) && st.statement_type is EOF) ==> *final(self) == *old(self),
            token_at(pd.tokens@, old(self).position).kind is EOF ==> (r matches Ok(st)
                && st.statement_type is EOF),
            r matches Ok(st) ==> statement_fits(
                token_at(pd.tokens@, old(self).position).kind,
                st.statement_type,
            ),
    {
        let token = self.current_token(pd);
        match &token.kind {
            TokenType::EOF => Ok(Statement::new(&token, token.end_pos, Statements::EOF)),
            TokenType::BuiltInFunctions(BuiltInFunctions::Format) => {
                self.parse_format_built_in_function(pd, &token)
            },
            TokenType::BuiltInFunctions(BuiltInFunctions::Assembly) => {
                self.advance_position();
                self.expect_token(pd, TokenType::Punctuation(Punctuations::OpenParenthesis))?;
                let inner = self.current_token(pd);
                let asm_code: Expression = match inner.kind {
                    TokenType::Literal(Literal::String(text)) => {
                        self.advance_position();
                        Expression::Literal(Literal::String(text))
                    },
                    TokenType::BuiltInFunctions(BuiltInFunctions::Format) => {
                        let format_stmt = self.parse_format_built_in_function(pd, &inner)?;
                        match format_stmt.statement_type {
                            Statements::Expression(
                                Expression::BuiltInFunction(BuiltInFunctionsAst::Format(format)),
                            ) => Expression::BuiltInFunction(BuiltInFunctionsAst::Format(format)),
                            _ => {
                                return Err(String::from_str("expected a template"));
                            },
                        }
                    },
                    _ => {
                        return Err(String::from_str("expected text for the assembly escape"));
                    },
                };
                self.expect_token(pd, TokenType::Punctuation(Punctuations::ClosedParenthesis))?;
                self.expect_token(pd, TokenType::Punctuation(Punctuations::Semicolon))?;
                let end_pos = self.current_token(pd).end_pos;
                Ok(
                    Statement::new(
                        &token,
                        end_pos,
                        Statements::Expression(
                            Expression::BuiltInFunction(
                                BuiltInFunctionsAst::Assembly(Box::new(asm_code)),
                            ),
                        ),
                    ),
                )
            },
            TokenType::Punctuation(Punctuations::ClosedBraces) => {
                self.advance_position();
                Ok(Statement::new(&token, token.end_pos, Statements::StackFramePop))
            },
            TokenType::Keyword(Keywords::VariableType(var_type)) => {
                let t = *var_type;
                self.advance_position();
                let after = self.current_token(pd);
                match after.kind {
                    TokenType::Punctuation(Punctuations::Colon) => {
                        self.parse_function_declaration(pd, &token, t)
                    },
                    TokenType::Identifiers(Identifiers::Identifier(var_name)) => {
                        self.parse_variable_declaration(pd, &token, t, &var_name)
                    },
                    _ => Err(String::from_str("unexpected token after a type keyword")),
                }
            },
            TokenType::BuiltInFunctions(BuiltInFunctions::BranchLinked) => {
                self.advance_position();
                self.expect_token(pd, TokenType::Punctuation(Punctuations::OpenParenthesis))?;
                let callee_token = self.current_token(pd);
                let callee: String = match callee_token.kind {
                    TokenType::Identifiers(Identifiers::Identifier(name)) => name,
                    _ => {
                        return Err(String::from_str("expected the callee's name"));
                    },
                };
                self.advance_position();
                let mut args: Vec<Expression> = Vec::new();
                loop
                    invariant
                        old(self).position < self.position,
                        self.position <= pd.tokens@.len() + 2,
                        pd.tokens@.len() + 8 <= usize::MAX,
                        !(token_at(pd.tokens@, old(self).position).kind is EOF),
                    decreases pd.tokens@.len() + 2 - self.position,
                {
                    if self.position >= pd.tokens.len() {
                        return Err(String::from_str("unterminated call arguments"));
                    }
                    let current = self.current_token(pd);
                    match current.kind {
                        TokenType::Punctuation(Punctuations::ClosedParenthesis) => {
                            self.advance_position();
                            break ;
                        },
                        TokenType::Punctuation(Punctuations::Comma) => {
                            self.advance_position();
                            let arg_token = self.current_token(pd);
                            let arg: Expression = match arg_token.kind {
                                TokenType::Literal(lit) => Expression::Literal(lit),
                                TokenType::Identifiers(id) => Expression::Identifier(id),
                                _ => {
                                    return Err(
                                        String::from_str("expected a value as call argument"),
                                    );
                                },
                            };
                            args.push(arg);
                            self.advance_position();
                        },
                        _ => {
                            return Err(String::from_str("unexpected token in call arguments"));
                        },
                    }
                }
                let end_pos = self.current_token(pd).end_pos;
                self.expect_token(pd, TokenType::Punctuation(Punctuations::Semicolon))?;
                Ok(
                    Statement::new(
                        &token,
                        end_pos,
                        Statements::Expression(
                            Expression::BuiltInFunction(
                                BuiltInFunctionsAst::BranchLinked(
                                    BranchLinkedAst { args, function_name: callee },
                                ),
                            ),
                        ),
                    ),
                )
            },
            _ => Err(String::from_str("no statement starts with this token")),
        }
    }

    /// Parses the whole token stream into `pd.statements`, ending with the
    /// `EOF` statement.
    pub fn parse_all(&mut self, pd: &mut ProgramData) -> (r: Result<(), String>)
        requires
            old(self).position <= old(pd).tokens@.len() + 2,
            old(pd).tokens@.len() + 16 <= usize::MAX,
        ensures
            final(pd).tokens == old(pd).tokens,
            final(pd).source_code == old(pd).source_code,
            final(pd).stack_frames == old(pd).stack_frames,
            final(pd).functions == old(pd).functions,
            final(pd).errors == old(pd).errors,
            final(pd).statements@.len() >= old(pd).statements@.len(),
            final(pd).statements@.subrange(0, old(pd).statements@.len() as int)
                == old(pd).statements@,
            r is Ok ==> final(pd).statements@.len() > old(pd).statements@.len()
                && final(pd).statements@.last().statement_type is EOF,
            forall|i: int|
                old(pd).statements@.len() <= i < final(pd).statements@.len() - 1 ==> !((
                #[trigger] final(pd).statements@[i]).statement_type is EOF),
    {
        loop
            invariant
                pd.tokens == old(pd).tokens,
                pd.source_code == old(pd).source_code,
                pd.stack_frames == old(pd).stack_frames,
                pd.functions == old(pd).functions,
                pd.errors == old(pd).errors,
                pd.tokens@.len() + 16 <= usize::MAX,
                self.position <= pd.tokens@.len() + 2,
                pd.statements@.len() >= old(pd).statements@.len(),
                pd.statements@.subrange(0, old(pd).statements@.len() as int)
                    == old(pd).statements@,
                forall|i: int|
                    old(pd).statements@.len() <= i < pd.statements@.len() ==> !((
                    #[trigger] pd.statements@[i]).statement_type is EOF),
            decreases (if self.position < pd.tokens@.len() {
                pd.tokens@.len() - self.position
            } else {
                0int
            }),
        {
            let ghost pos_pre = self.position;
            if self.position >= pd.tokens.len() {
                // the stream's end behaves as its EOF token
                let t = self.current_token(pd);
                let st = Statement::new(&t, t.end_pos, Statements::EOF);
                let ghost stmts_pre = pd.statements@;
                pd.statements.push(st);
                proof {
                    assert(pd.statements@.subrange(0, old(pd).statements@.len() as int)
                        =~= stmts_pre.subrange(0, old(pd).statements@.len() as int));
                }
                return Ok(());
            }
            match self.parse_next(pd) {
                Err(e) => {
                    return Err(e);
                },
                Ok(st) => {
                    let is_eof = matches!(st.statement_type, Statements::EOF);
                    let ghost stmts_pre = pd.statements@;
                    pd.statements.push(st);
                    proof {
                        assert(pd.statements@.subrange(0, old(pd).statements@.len() as int)
                            =~= stmts_pre.subrange(0, old(pd).statements@.len() as int));
                    }
                    if is_eof {
                        return Ok(());
                    }
                },
            }
        }
    }
}

} // verus!
