//! The tokenizer: turns the source text into the token stream the parser
//! consumes. Positions are character indices into the source; each token
//! carries line and column for diagnostics. The tokenizer is a collaborator
//! of the core: the passes assume a well-formed token stream, so its
//! contracts pin progress, position bounds and the terminating end-of-file
//! token rather than every lexical rule.

use vstd::prelude::*;
use vstd::string::StrSliceExecFns;
use vstd::string::StringExecFns;

use crate::ast_statements::{Literal, VariableType};
use crate::general_functions::str_eq;
use crate::program_data::ProgramData;
use crate::token::{
    BuiltInFunctions, Identifiers, Keywords, Operators, Punctuations, Token, TokenType,
};

verus! {

/// Where the cursor stands after stepping over `num` characters from
/// `pos`: each newline starts a fresh column on the next line, every other
/// character advances the column by one.
pub open spec fn advance_cursor(
    s: Seq<char>,
    pos: int,
    col: nat,
    line: nat,
    num: int,
) -> (int, nat, nat)
    decreases num,
{
    if num <= 0 {
        (pos, col, line)
    } else if 0 <= pos < s.len() && s[pos] == '\n' {
        advance_cursor(s, pos + 1, 1, (line + 1) as nat, num - 1)
    } else {
        advance_cursor(s, pos + 1, (col + 1) as nat, line, num - 1)
    }
}

/// Whitespace the tokenizer skips without ending a line.
pub open spec fn is_skippable_space(c: char) -> bool {
    c == ' ' || c == '\t' || c == '\r'
}

/// What a token that starts at a given character must be: the single-char
/// punctuation marks and the string-literal opener each pin the kind.
pub open spec fn single_char_kind_fits(c: char, kind: TokenType) -> bool {
    &&& (c == ';' ==> kind == TokenType::Punctuation(Punctuations::Semicolon))
    &&& (c == ':' ==> kind == TokenType::Punctuation(Punctuations::Colon))
    &&& (c == '(' ==> kind == TokenType::Punctuation(Punctuations::OpenParenthesis))
    &&& (c == ')' ==> kind == TokenType::Punctuation(Punctuations::ClosedParenthesis))
    &&& (c == ',' ==> kind == TokenType::Punctuation(Punctuations::Comma))
    &&& (c == '{' ==> kind == TokenType::Punctuation(Punctuations::OpenBraces))
    &&& (c == '}' ==> kind == TokenType::Punctuation(Punctuations::ClosedBraces))
    &&& (c == '"' ==> kind matches TokenType::Literal(Literal::String(_)))
    &&& (c == '\n' ==> false)
}

/// A character that opens one of the specially handled token forms: a
/// newline, single-character punctuation, a string literal, or a comment.
pub open spec fn special_start(src: Seq<char>, p: int) -> bool {
    ||| src[p] == '\n'
    ||| src[p] == ';'
    ||| src[p] == ':'
    ||| src[p] == '('
    ||| src[p] == ')'
    ||| src[p] == ','
    ||| src[p] == '{'
    ||| src[p] == '}'
    ||| src[p] == '"'
    ||| (src[p] == '/' && p + 1 < src.len() && src[p + 1] == '/')
}

/// How a scanned word classifies, tried in the tokenizer's own order: the
/// assignment operator, the built-in and type keywords, then a decimal
/// `i32`, and failing all of those an identifier spelling the word itself.
pub open spec fn word_kind_fits(word: Seq<char>, kind: TokenType) -> bool {
    if word == "="@ {
        kind == TokenType::Operator(Operators::Assignment)
    } else if word == "bl"@ {
        kind == TokenType::BuiltInFunctions(BuiltInFunctions::BranchLinked)
    } else if word == "asm"@ {
        kind == TokenType::BuiltInFunctions(BuiltInFunctions::Assembly)
    } else if word == "format"@ {
        kind == TokenType::BuiltInFunctions(BuiltInFunctions::Format)
    } else if word == "compare"@ {
        kind == TokenType::BuiltInFunctions(BuiltInFunctions::Compare)
    } else if word == "loop"@ {
        kind == TokenType::BuiltInFunctions(BuiltInFunctions::Loop)
    } else if word == "i32"@ {
        kind == TokenType::Keyword(Keywords::VariableType(VariableType::I32))
    } else if word == "i16"@ {
        kind == TokenType::Keyword(Keywords::VariableType(VariableType::I16))
    } else if word == "i8"@ {
        kind == TokenType::Keyword(Keywords::VariableType(VariableType::I8))
    } else if word == "void"@ {
        kind == TokenType::Keyword(Keywords::VariableType(VariableType::Void))
    } else {
        match spec_parse_i32(word) {
            Some(n) => kind == TokenType::Literal(Literal::Number(n)),
            None => kind matches TokenType::Identifiers(Identifiers::Identifier(s)) && s@ == word,
        }
    }
}

/// Characters that end an identifier scan.
pub open spec fn ends_scan(c: char) -> bool {
    is_skippable_space(c) || c == '\n' || c == ';' || c == '(' || c == ')' || c == ','
}

/// The numeric value of a digit string, most significant first; `None` when
/// empty or holding a non-digit.
pub open spec fn dec_value(s: Seq<char>) -> Option<int>
    decreases s.len(),
{
    if s.len() == 0 {
        None
    } else {
        let d = s.last();
        if !('0' <= d <= '9') {
            None
        } else if s.len() == 1 {
            Some(d as int - '0' as int)
        } else {
            match dec_value(s.drop_last()) {
                Some(v) => Some(v * 10 + (d as int - '0' as int)),
                None => None,
            }
        }
    }
}

/// The integer a token spells: an optional leading minus, then digits, with
/// a magnitude of at most `i32::MAX`.
pub open spec fn spec_parse_i32(s: Seq<char>) -> Option<i32> {
    if s.len() > 0 && s[0] == '-' {
        match dec_value(s.subrange(1, s.len() as int)) {
            Some(v) => if v <= i32::MAX as int {
                Some((-v) as i32)
            } else {
                None
            },
            None => None,
        }
    } else {
        match dec_value(s) {
            Some(v) => if v <= i32::MAX as int {
                Some(v as i32)
            } else {
                None
            },
            None => None,
        }
    }
}

fn exec_is_skippable_space(c: char) -> (r: bool)
    ensures
        r == is_skippable_space(c),
{
    c == ' ' || c == '\t' || c == '\r'
}

fn exec_ends_scan(c: char) -> (r: bool)
    ensures
        r == ends_scan(c),
{
    exec_is_skippable_space(c) || c == '\n' || c == ';' || c == '(' || c == ')' || c == ','
}

/// Parses a decimal `i32`, refusing anything but `-?[0-9]+` whose magnitude
/// fits.
fn parse_i32(s: &str) -> (r: Option<i32>)
    ensures
        r == spec_parse_i32(s@),
{
    let n = s.unicode_len();
    let neg = n > 0 && s.get_char(0) == '-';
    let start: usize = if neg {
        1
    } else {
        0
    };
    let ghost digits = if neg {
        s@.subrange(1, s@.len() as int)
    } else {
        s@
    };
    if start >= n {
        proof {
            assert(digits.len() == 0);
        }
        return None;
    }
    let mut value: i64 = 0;
    let mut i: usize = start;
    while i < n
        invariant
            start <= i <= n,
            start < n,
            n == s@.len(),
            start == (if neg {
                1int
            } else {
                0int
            }),
            neg ==> s@[0] == '-',
            !neg ==> (n == 0 || s@[0] != '-'),
            digits == (if neg {
                s@.subrange(1, s@.len() as int)
            } else {
                s@
            }),
            dec_value(s@.subrange(start as int, i as int)) == (if i == start {
                None::<int>
            } else {
                Some(value as int)
            }),
            0 <= value <= i32::MAX,
            i == start ==> value == 0,
        decreases n - i,
    {
        let c = s.get_char(i);
        proof {
            assert(s@.subrange(start as int, i + 1 as int).drop_last() =~= s@.subrange(
                start as int,
                i as int,
            ));
            assert(s@.subrange(start as int, i + 1 as int).last() == s@[i as int]);
        }
        if !('0' <= c && c <= '9') {
            proof {
                lemma_dec_value_extend_bad(s@, start as int, i as int, n as int);
                assert(digits =~= s@.subrange(start as int, n as int));
            }
            return None;
        }
        let d: i64 = (c as u32 as i64) - ('0' as u32 as i64);
        proof {
            assert(0 <= d <= 9);
        }
        let limit: i64 = 0x7fff_ffffi64;
        if value > (limit - d) / 10 {
            proof {
                let m = limit - d;
                vstd::arithmetic::div_mod::lemma_fundamental_div_mod(m as int, 10);
                assert(value * 10 >= (m / 10 + 1) * 10) by (nonlinear_arith)
                    requires
                        value >= m / 10 + 1,
                ;
                assert((m / 10 + 1) * 10 == 10 * (m / 10) + 10) by (nonlinear_arith);
                assert(0 <= m as int % 10 < 10);
                assert(value * 10 + d > limit);
                if i == start {
                    assert(s@.subrange(start as int, i + 1 as int).len() == 1);
                    assert(dec_value(s@.subrange(start as int, i + 1 as int)) == Some(d as int));
                    assert(value == 0);
                } else {
                    assert(dec_value(s@.subrange(start as int, i + 1 as int)) == Some(
                        value * 10 + d as int,
                    ));
                }
                lemma_dec_value_monotone(s@, start as int, i + 1 as int, n as int);
                assert(digits =~= s@.subrange(start as int, n as int));
            }
            return None;
        }
        proof {
            let m = limit - d;
            vstd::arithmetic::div_mod::lemma_fundamental_div_mod(m as int, 10);
            assert(value * 10 <= (m / 10) * 10) by (nonlinear_arith)
                requires
                    value <= m / 10,
            ;
            assert((m / 10) * 10 == 10 * (m / 10)) by (nonlinear_arith);
            assert(0 <= m as int % 10 < 10);
            assert(value * 10 + d <= limit);
            if i == start {
                assert(s@.subrange(start as int, i + 1 as int).len() == 1);
                assert(dec_value(s@.subrange(start as int, i + 1 as int)) == Some(d as int));
                assert(value == 0);
            } else {
                assert(dec_value(s@.subrange(start as int, i + 1 as int)) == Some(
                    value * 10 + d as int,
                ));
            }
        }
        value = value * 10 + d;
        i = i + 1;
    }
    proof {
        assert(digits =~= s@.subrange(start as int, n as int));
    }
    if neg {
        Some((0 - value) as i32)
    } else {
        Some(value as i32)
    }
}

/// A longer digit prefix never shrinks the value.
proof fn lemma_dec_value_monotone(s: Seq<char>, start: int, i: int, n: int)
    requires
        0 <= start < i <= n <= s.len(),
    ensures
        match (dec_value(s.subrange(start, i)), dec_value(s.subrange(start, n))) {
            (Some(a), Some(b)) => a <= b,
            (None, Some(_)) => false,
            _ => true,
        },
    decreases n - i,
{
    if i < n {
        lemma_dec_value_monotone(s, start, i + 1, n);
        assert(s.subrange(start, i + 1).drop_last() =~= s.subrange(start, i));
        assert(s.subrange(start, i + 1).last() == s[i]);
        match dec_value(s.subrange(start, i)) {
            Some(a) => {
                if '0' <= s[i] <= '9' {
                    assert(dec_value(s.subrange(start, i + 1)) == Some(
                        a * 10 + (s[i] as int - '0' as int),
                    ));
                    assert(a >= 0) by {
                        lemma_dec_value_nonneg(s.subrange(start, i));
                    }
                    assert(a * 10 >= a) by (nonlinear_arith)
                        requires
                            a >= 0,
                    ;
                }
            },
            None => {
                if s.subrange(start, i).len() > 0 {
                    assert(dec_value(s.subrange(start, i + 1)) is None);
                }
            },
        }
    }
}

proof fn lemma_dec_value_nonneg(s: Seq<char>)
    ensures
        dec_value(s) matches Some(v) ==> v >= 0,
    decreases s.len(),
{
    if s.len() > 1 {
        lemma_dec_value_nonneg(s.drop_last());
        match dec_value(s.drop_last()) {
            Some(v) => {
                assert(v * 10 >= 0) by (nonlinear_arith)
                    requires
                        v >= 0,
                ;
            },
            None => {},
        }
    }
}

/// A non-digit anywhere kills the whole parse.
proof fn lemma_dec_value_extend_bad(s: Seq<char>, start: int, i: int, n: int)
    requires
        0 <= start <= i < n <= s.len(),
        !('0' <= s[i] <= '9'),
    ensures
        dec_value(s.subrange(start, n)) is None,
    decreases n - i,
{
    if i + 1 == n {
        assert(s.subrange(start, n).last() == s[i]);
    } else {
        lemma_dec_value_bad_preserved(s, start, i, n);
    }
}

proof fn lemma_dec_value_bad_preserved(s: Seq<char>, start: int, i: int, n: int)
    requires
        0 <= start <= i < n <= s.len(),
        !('0' <= s[i] <= '9'),
    ensures
        dec_value(s.subrange(start, n)) is None,
    decreases n,
{
    let sub = s.subrange(start, n);
    if i == n - 1 {
        assert(sub.last() == s[i]);
    } else {
        lemma_dec_value_bad_preserved(s, start, i, n - 1);
        assert(sub.drop_last() =~= s.subrange(start, n - 1));
        if '0' <= sub.last() <= '9' && sub.len() > 1 {
            assert(dec_value(sub) is None);
        }
    }
}

/// The tokenizer's cursor: a character position plus the line and column it
/// sits at.
#[derive(Debug)]
pub struct Tokenizer {
    pub position: usize,
    pub col: usize,
    pub line: usize,
}

impl Tokenizer {
    /// A cursor at the start of the source.
    pub fn new() -> (t: Self)
        ensures
            t.position == 0,
            t.col == 1,
            t.line == 1,
    {
        Tokenizer { position: 0, col: 1, line: 1 }
    }

    /// The character under the cursor.
    pub fn current_char(&self, pd: &ProgramData) -> (c: char)
        requires
            self.position < pd.source_code@.len(),
        ensures
            c == pd.source_code@[self.position as int],
    {
        pd.source_code.as_str().get_char(self.position)
    }

    /// The character `offset` places past the cursor.
    pub fn char_at_offset(&self, pd: &ProgramData, offset: usize) -> (c: char)
        requires
            self.position + offset < pd.source_code@.len(),
            pd.source_code@.len() <= usize::MAX,
        ensures
            c == pd.source_code@[self.position + offset],
    {
        pd.source_code.as_str().get_char(self.position + offset)
    }

    /// Moves the cursor `num` characters forward, starting a fresh column
    /// after each newline consumed, exactly as [`advance_cursor`] counts.
    pub fn advance(&mut self, pd: &ProgramData, num: usize)
        requires
            old(self).position + num <= pd.source_code@.len(),
            old(self).position + num <= usize::MAX,
            old(self).col + num <= usize::MAX,
            old(self).line + num <= usize::MAX,
        ensures
            final(self).position == old(self).position + num,
            final(self).col <= old(self).col + num,
            final(self).line <= old(self).line + num,
            final(self).col >= 1 || final(self).col == old(self).col,
            (final(self).position as int, final(self).col as nat, final(self).line as nat)
                == advance_cursor(
                pd.source_code@,
                old(self).position as int,
                old(self).col as nat,
                old(self).line as nat,
                num as int,
            ),
    {
        let mut i: usize = 0;
        while i < num
            invariant
                i <= num,
                self.position == old(self).position + i,
                self.position + (num - i) <= pd.source_code@.len(),
                old(self).position + num <= usize::MAX,
                self.col <= old(self).col + i,
                self.line <= old(self).line + i,
                self.col >= 1 || self.col == old(self).col,
                old(self).col + num <= usize::MAX,
                old(self).line + num <= usize::MAX,
                advance_cursor(
                    pd.source_code@,
                    old(self).position as int,
                    old(self).col as nat,
                    old(self).line as nat,
                    num as int,
                ) == advance_cursor(
                    pd.source_code@,
                    self.position as int,
                    self.col as nat,
                    self.line as nat,
                    (num - i) as int,
                ),
            decreases num - i,
        {
            if self.current_char(pd) == '\n' {
                self.col = 1;
                self.line = self.line + 1;
            } else {
                self.col = self.col + 1;
            }
            self.position = self.position + 1;
            i = i + 1;
        }
    }

    /// Skips the maximal run of spaces, tabs and carriage returns at the
    /// cursor, leaving newlines for the token walk: every character stepped
    /// over is such whitespace, the column grows by the run's length, and
    /// the stop is the first character that is not skippable (or the end).
    pub fn skip_whitespace(&mut self, pd: &ProgramData)
        requires
            old(self).position <= pd.source_code@.len(),
            old(self).col + pd.source_code@.len() <= usize::MAX,
        ensures
            old(self).position <= final(self).position <= pd.source_code@.len(),
            final(self).line == old(self).line,
            final(self).col == old(self).col + (final(self).position - old(self).position),
            forall|j: int|
                old(self).position <= j < final(self).position ==> is_skippable_space(
                    #[trigger] pd.source_code@[j],
                ),
            final(self).position < pd.source_code@.len() ==> !is_skippable_space(
                pd.source_code@[final(self).position as int],
            ),
            final(self).col >= 1 || final(self).col == old(self).col,
    {
        let n = pd.source_code.as_str().unicode_len();
        while self.position < n && exec_is_skippable_space(self.current_char(pd))
            invariant
                n == pd.source_code@.len(),
                old(self).position <= self.position <= n,
                self.line == old(self).line,
                self.col == old(self).col + (self.position - old(self).position),
                forall|j: int|
                    old(self).position <= j < self.position ==> is_skippable_space(
                        #[trigger] pd.source_code@[j],
                    ),
                old(self).col + n <= usize::MAX,
                self.col >= 1 || self.col == old(self).col,
            decreases n - self.position,
        {
            self.col = self.col + 1;
            self.position = self.position + 1;
        }
    }
}

impl Tokenizer {
    /// Reads the next token. `None` is a consumed newline or comment; the
    /// end of the source yields the `EOF` token. Every call from within the
    /// source consumes at least one character.
    pub fn next_token(&mut self, pd: &ProgramData) -> (r: Option<Token>)
        requires
            old(self).position <= pd.source_code@.len(),
            old(self).col <= old(self).position + 1,
            old(self).line <= old(self).position + 1,
            2 * pd.source_code@.len() + 2 <= usize::MAX,
        ensures
            old(self).position <= final(self).position <= pd.source_code@.len(),
            final(self).col <= final(self).position + 1,
            final(self).line <= final(self).position + 1,
            r is None ==> final(self).position > old(self).position,
            (r matches Some(t) && !(t.kind is EOF)) ==> final(self).position > old(
                self,
            ).position,
            (r matches Some(t) && t.kind is EOF) ==> final(self).position
                >= pd.source_code@.len(),
            r matches Some(t) ==> (t.end_pos == final(self).position && old(self).position
                <= t.start_pos <= t.end_pos && (!(t.kind is EOF) ==> t.start_pos
                < pd.source_code@.len() && single_char_kind_fits(
                pd.source_code@[t.start_pos as int],
                t.kind,
            ))),
            r matches Some(t) ==> ((!(t.kind is EOF) && !special_start(
                pd.source_code@,
                t.start_pos as int,
            )) ==> ({
                let src = pd.source_code@;
                let word = src.subrange(t.start_pos as int, t.end_pos as int);
                &&& t.start_pos < t.end_pos <= src.len()
                &&& word_kind_fits(word, t.kind)
                &&& (forall|j: int| t.start_pos < j < t.end_pos ==> !ends_scan(#[trigger] src[j]))
                &&& (t.end_pos == src.len() || ends_scan(src[t.end_pos as int]))
            })),
            r matches Some(t) ==> ((!(t.kind is EOF) && t.start_pos < pd.source_code@.len()
                && pd.source_code@[t.start_pos as int] == '"') ==> (match t.kind {
                TokenType::Literal(lit) => match lit {
                    Literal::String(sv) => ({
                        let src = pd.source_code@;
                        let q = t.start_pos + 1 + sv@.len();
                        &&& q <= src.len()
                        &&& sv@ == src.subrange(t.start_pos + 1, q as int)
                        &&& (forall|j: int| t.start_pos + 1 <= j < q ==> #[trigger] src[j] != '"')
                        &&& (q == src.len() || src[q as int] == '"')
                        &&& t.end_pos == (if q < src.len() {
                            q + 1
                        } else {
                            q
                        })
                    }),
                    _ => false,
                },
                _ => false,
            })),
    {
        let n = pd.source_code.as_str().unicode_len();
        self.skip_whitespace(pd);
        if n <= self.position {
            return Some(
                Token {
                    kind: TokenType::EOF,
                    col: self.col,
                    line: self.line,
                    start_pos: self.position,
                    end_pos: self.position,
                },
            );
        }
        let start_pos = self.position;
        let c = self.current_char(pd);
        if c == '\n' {
            self.advance(pd, 1);
            return None;
        }
        if c == ';' || c == ':' || c == '(' || c == ')' || c == ',' || c == '{' || c == '}' {
            self.advance(pd, 1);
            let kind = match c {
                ';' => TokenType::Punctuation(Punctuations::Semicolon),
                ':' => TokenType::Punctuation(Punctuations::Colon),
                '(' => TokenType::Punctuation(Punctuations::OpenParenthesis),
                ')' => TokenType::Punctuation(Punctuations::ClosedParenthesis),
                ',' => TokenType::Punctuation(Punctuations::Comma),
                '{' => TokenType::Punctuation(Punctuations::OpenBraces),
                _ => TokenType::Punctuation(Punctuations::ClosedBraces),
            };
            return Some(
                Token {
                    kind,
                    col: self.col,
                    line: self.line,
                    start_pos,
                    end_pos: self.position,
                },
            );
        }
        if c == '"' {
            self.advance(pd, 1);
            let content_start = self.position;
            proof {
                assert(content_start == start_pos + 1);
            }
            while self.position < n && self.current_char(pd) != '"'
                invariant
                    n == pd.source_code@.len(),
                    content_start <= self.position <= n,
                    self.col <= self.position + 1,
                    self.line <= self.position + 1,
                    2 * pd.source_code@.len() + 2 <= usize::MAX,
                    forall|j: int|
                        content_start <= j < self.position ==> #[trigger] pd.source_code@[j]
                            != '"',
                decreases n - self.position,
            {
                self.advance(pd, 1);
            }
            let content = pd.source_code.as_str().substring_char(
                content_start,
                self.position,
            ).to_owned();
            if self.position < n {
                self.advance(pd, 1);
            }
            return Some(
                Token {
                    kind: TokenType::Literal(Literal::String(content)),
                    col: self.col,
                    line: self.line,
                    start_pos,
                    end_pos: self.position,
                },
            );
        }
        if c == '/' && self.position + 1 < n {
            if self.char_at_offset(pd, 1) == '/' {
                // a `// ... //` comment: consume through its closing pair
                self.advance(pd, 2);
                while self.position + 1 < n && !(self.current_char(pd) == '/'
                    && self.char_at_offset(pd, 1) == '/')
                    invariant
                        n == pd.source_code@.len(),
                        self.position <= n,
                        self.col <= self.position + 1,
                        self.line <= self.position + 1,
                        2 * pd.source_code@.len() + 2 <= usize::MAX,
                        self.position > start_pos,
                    decreases n - self.position,
                {
                    self.advance(pd, 1);
                }
                if self.position + 1 < n {
                    self.advance(pd, 2);
                } else if self.position < n {
                    self.advance(pd, 1);
                }
                return None;
            }
        }
        // an identifier, keyword, operator or number: scan to the next
        // separator
        self.advance(pd, 1);
        while self.position < n && !exec_ends_scan(self.current_char(pd))
            invariant
                n == pd.source_code@.len(),
                start_pos < self.position <= n,
                self.col <= self.position + 1,
                self.line <= self.position + 1,
                2 * pd.source_code@.len() + 2 <= usize::MAX,
                forall|j: int|
                    start_pos < j < self.position ==> !ends_scan(#[trigger] pd.source_code@[j]),
            decreases n - self.position,
        {
            self.advance(pd, 1);
        }
        let word = pd.source_code.as_str().substring_char(start_pos, self.position);
        let kind: TokenType = if str_eq(word, "=") {
            TokenType::Operator(Operators::Assignment)
        } else if str_eq(word, "bl") {
            TokenType::BuiltInFunctions(BuiltInFunctions::BranchLinked)
        } else if str_eq(word, "asm") {
            TokenType::BuiltInFunctions(BuiltInFunctions::Assembly)
        } else if str_eq(word, "format") {
            TokenType::BuiltInFunctions(BuiltInFunctions::Format)
        } else if str_eq(word, "compare") {
            TokenType::BuiltInFunctions(BuiltInFunctions::Compare)
        } else if str_eq(word, "loop") {
            TokenType::BuiltInFunctions(BuiltInFunctions::Loop)
        } else if str_eq(word, "i32") {
            TokenType::Keyword(Keywords::VariableType(VariableType::I32))
        } else if str_eq(word, "i16") {
            TokenType::Keyword(Keywords::VariableType(VariableType::I16))
        } else if str_eq(word, "i8") {
            TokenType::Keyword(Keywords::VariableType(VariableType::I8))
        } else if str_eq(word, "void") {
            TokenType::Keyword(Keywords::VariableType(VariableType::Void))
        } else {
            match parse_i32(word) {
                Some(num) => TokenType::Literal(Literal::Number(num)),
                None => TokenType::Identifiers(Identifiers::Identifier(word.to_owned())),
            }
        };
        Some(
            Token {
                kind,
                col: self.col,
                line: self.line,
                start_pos,
                end_pos: self.position,
            },
        )
    }

    /// Tokenizes the whole source into `pd.tokens`, ending with the `EOF`
    /// token.
    pub fn tokenize_all(&mut self, pd: &mut ProgramData)
        requires
            old(self).position <= old(pd).source_code@.len(),
            old(self).col <= old(self).position + 1,
            old(self).line <= old(self).position + 1,
            2 * old(pd).source_code@.len() + 2 <= usize::MAX,
        ensures
            final(pd).source_code == old(pd).source_code,
            final(pd).statements == old(pd).statements,
            final(pd).stack_frames == old(pd).stack_frames,
            final(pd).functions == old(pd).functions,
            final(pd).errors == old(pd).errors,
            final(pd).tokens@.len() > old(pd).tokens@.len(),
            final(pd).tokens@.subrange(0, old(pd).tokens@.len() as int) == old(pd).tokens@,
            final(pd).tokens@.last().kind is EOF,
            final(pd).tokens@.last().end_pos >= old(pd).source_code@.len(),
            forall|i: int|
                old(pd).tokens@.len() <= i < final(pd).tokens@.len() - 1 ==> !((
                #[trigger] final(pd).tokens@[i]).kind is EOF),
            forall|i: int|
                old(pd).tokens@.len() <= i < final(pd).tokens@.len() - 1 ==> (
                #[trigger] final(pd).tokens@[i]).end_pos <= final(pd).tokens@[i + 1].start_pos,
    {
        let ghost n = pd.source_code@.len();
        loop
            invariant
                self.position <= pd.source_code@.len(),
                self.col <= self.position + 1,
                self.line <= self.position + 1,
                pd.source_code == old(pd).source_code,
                pd.statements == old(pd).statements,
                pd.stack_frames == old(pd).stack_frames,
                pd.functions == old(pd).functions,
                pd.errors == old(pd).errors,
                2 * pd.source_code@.len() + 2 <= usize::MAX,
                pd.tokens@.len() >= old(pd).tokens@.len(),
                pd.tokens@.subrange(0, old(pd).tokens@.len() as int) == old(pd).tokens@,
                forall|i: int|
                    old(pd).tokens@.len() <= i < pd.tokens@.len() ==> !((
                    #[trigger] pd.tokens@[i]).kind is EOF),
                forall|i: int|
                    old(pd).tokens@.len() <= i < pd.tokens@.len() - 1 ==> (
                    #[trigger] pd.tokens@[i]).end_pos <= pd.tokens@[i + 1].start_pos,
                pd.tokens@.len() > old(pd).tokens@.len() ==> pd.tokens@.last().end_pos
                    <= self.position,
            decreases pd.source_code@.len() - self.position,
        {
            let token = self.next_token(pd);
            match token {
                Some(tkn) => {
                    let eof = matches!(tkn.kind, TokenType::EOF);
                    let ghost tokens_pre = pd.tokens@;
                    pd.tokens.push(tkn);
                    proof {
                        assert(pd.tokens@.subrange(0, old(pd).tokens@.len() as int)
                            =~= tokens_pre.subrange(0, old(pd).tokens@.len() as int));
                    }
                    if eof {
                        return ;
                    }
                },
                None => {},
            }
        }
    }
}

} // verus!
