//! The lexer: source text to a token stream.  A conventional scanner
//! with single-character lookahead; numbers are integer literals.

use vstd::prelude::*;
use crate::error::{ErrModel, LuaError};
use crate::value::{str_chars, parse_i64, string_from};

verus! {

broadcast use vstd::std_specs::vec::group_vec_axioms;

#[derive(Debug)]
pub enum TokenType {
    // Literals
    Number(i64),
    Str(String),
    Identifier(String),
    // Keywords
    Local,
    Function,
    End,
    If,
    Then,
    Else,
    While,
    Do,
    For,
    In,
    Return,
    Break,
    True,
    False,
    Nil,
    // Operators
    Plus,
    Minus,
    Star,
    Slash,
    Percent,
    Caret,
    Equal,
    NotEqual,
    Less,
    LessEqual,
    Greater,
    GreaterEqual,
    And,
    Or,
    Not,
    Assign,
    // Delimiters
    LeftParen,
    RightParen,
    LeftBrace,
    RightBrace,
    LeftBracket,
    RightBracket,
    Comma,
    Semicolon,
    Dot,
    DotDot,
    // Special
    Eof,
    Newline,
}

#[derive(Debug)]
pub struct Token {
    pub token_type: TokenType,
    pub line: usize,
    pub column: usize,
}

/// The mathematical form of a token's kind: string payloads as
/// character sequences.
pub enum TokenKind {
    Number(i64),
    Str(Seq<char>),
    Identifier(Seq<char>),
    Local,
    Function,
    End,
    If,
    Then,
    Else,
    While,
    Do,
    For,
    In,
    Return,
    Break,
    True,
    False,
    Nil,
    Plus,
    Minus,
    Star,
    Slash,
    Percent,
    Caret,
    Equal,
    NotEqual,
    Less,
    LessEqual,
    Greater,
    GreaterEqual,
    And,
    Or,
    Not,
    Assign,
    LeftParen,
    RightParen,
    LeftBrace,
    RightBrace,
    LeftBracket,
    RightBracket,
    Comma,
    Semicolon,
    Dot,
    DotDot,
    Eof,
    Newline,
}

pub open spec fn token_kind(t: TokenType) -> TokenKind {
    match t {
        TokenType::Number(n) => TokenKind::Number(n),
        TokenType::Str(s) => TokenKind::Str(s@),
        TokenType::Identifier(s) => TokenKind::Identifier(s@),
        TokenType::Local => TokenKind::Local,
        TokenType::Function => TokenKind::Function,
        TokenType::End => TokenKind::End,
        TokenType::If => TokenKind::If,
        TokenType::Then => TokenKind::Then,
        TokenType::Else => TokenKind::Else,
        TokenType::While => TokenKind::While,
        TokenType::Do => TokenKind::Do,
        TokenType::For => TokenKind::For,
        TokenType::In => TokenKind::In,
        TokenType::Return => TokenKind::Return,
        TokenType::Break => TokenKind::Break,
        TokenType::True => TokenKind::True,
        TokenType::False => TokenKind::False,
        TokenType::Nil => TokenKind::Nil,
        TokenType::Plus => TokenKind::Plus,
        TokenType::Minus => TokenKind::Minus,
        TokenType::Star => TokenKind::Star,
        TokenType::Slash => TokenKind::Slash,
        TokenType::Percent => TokenKind::Percent,
        TokenType::Caret => TokenKind::Caret,
        TokenType::Equal => TokenKind::Equal,
        TokenType::NotEqual => TokenKind::NotEqual,
        TokenType::Less => TokenKind::Less,
        TokenType::LessEqual => TokenKind::LessEqual,
        TokenType::Greater => TokenKind::Greater,
        TokenType::GreaterEqual => TokenKind::GreaterEqual,
        TokenType::And => TokenKind::And,
        TokenType::Or => TokenKind::Or,
        TokenType::Not => TokenKind::Not,
        TokenType::Assign => TokenKind::Assign,
        TokenType::LeftParen => TokenKind::LeftParen,
        TokenType::RightParen => TokenKind::RightParen,
        TokenType::LeftBrace => TokenKind::LeftBrace,
        TokenType::RightBrace => TokenKind::RightBrace,
        TokenType::LeftBracket => TokenKind::LeftBracket,
        TokenType::RightBracket => TokenKind::RightBracket,
        TokenType::Comma => TokenKind::Comma,
        TokenType::Semicolon => TokenKind::Semicolon,
        TokenType::Dot => TokenKind::Dot,
        TokenType::DotDot => TokenKind::DotDot,
        TokenType::Eof => TokenKind::Eof,
        TokenType::Newline => TokenKind::Newline,
    }
}

impl View for TokenType {
    type V = TokenKind;

    open spec fn view(&self) -> TokenKind {
        token_kind(*self)
    }
}

/// The mathematical form of a token: its kind and the position where it
/// began.
pub struct TokenModel {
    pub kind: TokenKind,
    pub line: int,
    pub col: int,
}

impl View for Token {
    type V = TokenModel;

    open spec fn view(&self) -> TokenModel {
        TokenModel {
            kind: token_kind(self.token_type),
            line: self.line as int,
            col: self.column as int,
        }
    }
}

/// A spec-level scanner cursor: character position, and the 1-based line
/// and column the tokens report.  The column saturates rather than wrap.
pub struct LexCursor {
    pub pos: int,
    pub line: int,
    pub col: int,
}

/// The lexer's cursor over the source characters.
pub struct Lexer {
    input: Vec<char>,
    position: usize,
    line: usize,
    column: usize,
}

/// The cursor never runs past the end of the input.
pub closed spec fn lexer_wf(l: &Lexer) -> bool {
    l.position <= l.input@.len()
}

/// How much input the lexer has not consumed yet.
pub closed spec fn lexer_rest(l: &Lexer) -> int {
    l.input@.len() - l.position
}

/// The source characters the lexer was made over.
pub closed spec fn lexer_input(l: &Lexer) -> Seq<char> {
    l.input@
}

/// Where the lexer stands in the source.
pub closed spec fn lexer_at(l: &Lexer) -> LexCursor {
    LexCursor { pos: l.position as int, line: l.line as int, col: l.column as int }
}

/// The cursor one character on: the column saturates at the largest
/// machine integer, as the scanner's does.
pub open spec fn lex_adv(s: Seq<char>, c: LexCursor) -> LexCursor {
    LexCursor {
        pos: c.pos + 1,
        line: c.line,
        col: if c.col < usize::MAX as int {
            c.col + 1
        } else {
            c.col
        },
    }
}

/// The characters the scanner skips silently (line breaks make tokens).
pub open spec fn is_ws_char(c: char) -> bool {
    c == ' ' || c == '\r' || c == '\t'
}

/// An ASCII letter or underscore opens an identifier.
pub open spec fn ident_start_spec(c: char) -> bool {
    (65 <= c as u32 && c as u32 <= 90) || (97 <= c as u32 && c as u32 <= 122) || c == '_'
}

/// An ASCII letter, digit or underscore continues an identifier.
pub open spec fn ident_continue_spec(c: char) -> bool {
    (65 <= c as u32 && c as u32 <= 90) || (97 <= c as u32 && c as u32 <= 122) || (48 <= c as u32
        && c as u32 <= 57) || c == '_'
}

/// The cursor after a `--` comment body: everything up to the next line
/// break or the end of the input.
pub open spec fn skip_comment_spec(s: Seq<char>, c: LexCursor) -> LexCursor
    decreases s.len() - c.pos,
{
    if c.pos < 0 || c.pos >= s.len() || s[c.pos] == '\n' {
        c
    } else {
        skip_comment_spec(s, lex_adv(s, c))
    }
}

/// The cursor after skipping spaces, carriage returns, tabs, and one
/// trailing `--` comment (a comment runs to the line break, where the
/// scanner stops either way).
pub open spec fn skip_ws_spec(s: Seq<char>, c: LexCursor) -> LexCursor
    decreases s.len() - c.pos,
{
    if c.pos < 0 || c.pos >= s.len() {
        c
    } else if is_ws_char(s[c.pos]) {
        skip_ws_spec(s, lex_adv(s, c))
    } else if s[c.pos] == '-' && c.pos + 1 < s.len() && s[c.pos + 1] == '-' {
        skip_comment_spec(s, lex_adv(s, c))
    } else {
        c
    }
}

/// A string literal body read from after the opening quote: the text up
/// to the closing quote and the cursor past it, or the unterminated
/// error at the end of the input.  A line break inside the literal moves
/// the cursor to the next line.
pub open spec fn str_lit_spec(s: Seq<char>, c: LexCursor, quote: char) -> Result<
    (Seq<char>, LexCursor),
    ErrModel,
>
    decreases s.len() - c.pos,
{
    if c.pos < 0 || c.pos >= s.len() {
        Err(
            ErrModel::LexError {
                message: "Unterminated string"@,
                line: c.line as usize,
                column: c.col as usize,
            },
        )
    } else if s[c.pos] == quote {
        Ok((Seq::empty(), lex_adv(s, c)))
    } else {
        let c1 = if s[c.pos] == '\n' {
            LexCursor {
                pos: c.pos,
                line: if c.line < usize::MAX as int {
                    c.line + 1
                } else {
                    c.line
                },
                col: 0,
            }
        } else {
            c
        };
        match str_lit_spec(s, lex_adv(s, c1), quote) {
            Ok((rest, cf)) => Ok((seq![s[c.pos]] + rest, cf)),
            Err(e) => Err(e),
        }
    }
}

/// The run of digit or dot characters from the cursor, and the cursor
/// past it.
pub open spec fn num_run_spec(s: Seq<char>, c: LexCursor) -> (Seq<char>, LexCursor)
    decreases s.len() - c.pos,
{
    if c.pos < 0 || c.pos >= s.len() || !(crate::value::is_digit_char(s[c.pos]) || s[c.pos]
        == '.') {
        (Seq::empty(), c)
    } else {
        let (rest, cf) = num_run_spec(s, lex_adv(s, c));
        (seq![s[c.pos]] + rest, cf)
    }
}

/// A number literal whose first character was already consumed: the
/// digit-or-dot run is read as a 64-bit integer, and a run that is not
/// one (a stray dot) is the invalid-number error, reported at the end of
/// the run.
pub open spec fn num_lit_spec(s: Seq<char>, c: LexCursor, first: char) -> Result<
    (TokenKind, LexCursor),
    ErrModel,
> {
    let (run, cf) = num_run_spec(s, c);
    let text = seq![first] + run;
    match crate::value::str_to_i64_spec(text) {
        Some(n) => Ok((TokenKind::Number(n), cf)),
        None => Err(
            ErrModel::LexError {
                message: "Invalid number: "@ + text,
                line: cf.line as usize,
                column: cf.col as usize,
            },
        ),
    }
}

/// The run of identifier characters from the cursor, and the cursor past
/// it.
pub open spec fn ident_run_spec(s: Seq<char>, c: LexCursor) -> (Seq<char>, LexCursor)
    decreases s.len() - c.pos,
{
    if c.pos < 0 || c.pos >= s.len() || !ident_continue_spec(s[c.pos]) {
        (Seq::empty(), c)
    } else {
        let (rest, cf) = ident_run_spec(s, lex_adv(s, c));
        (seq![s[c.pos]] + rest, cf)
    }
}

/// Which token an identifier's text makes: a keyword's token, or an
/// identifier.
pub open spec fn keyword_of(text: Seq<char>) -> TokenKind {
    if text == "local"@ {
        TokenKind::Local
    } else if text == "function"@ {
        TokenKind::Function
    } else if text == "end"@ {
        TokenKind::End
    } else if text == "if"@ {
        TokenKind::If
    } else if text == "then"@ {
        TokenKind::Then
    } else if text == "else"@ {
        TokenKind::Else
    } else if text == "while"@ {
        TokenKind::While
    } else if text == "do"@ {
        TokenKind::Do
    } else if text == "for"@ {
        TokenKind::For
    } else if text == "in"@ {
        TokenKind::In
    } else if text == "return"@ {
        TokenKind::Return
    } else if text == "break"@ {
        TokenKind::Break
    } else if text == "true"@ {
        TokenKind::True
    } else if text == "false"@ {
        TokenKind::False
    } else if text == "nil"@ {
        TokenKind::Nil
    } else if text == "and"@ {
        TokenKind::And
    } else if text == "or"@ {
        TokenKind::Or
    } else if text == "not"@ {
        TokenKind::Not
    } else {
        TokenKind::Identifier(text)
    }
}

/// The next token from the cursor (which must stand on a character), and
/// the cursor past it; single-character lookahead resolves the
/// two-character operators.  The token reports the cursor's position.
pub open spec fn next_token_spec(s: Seq<char>, c: LexCursor) -> Result<
    (TokenModel, LexCursor),
    ErrModel,
> {
    if c.pos < 0 || c.pos >= s.len() {
        Err(
            ErrModel::LexError {
                message: "Unexpected character"@,
                line: c.line as usize,
                column: c.col as usize,
            },
        )
    } else {
        let ch = s[c.pos];
        let c1 = lex_adv(s, c);
        let tok = |k: TokenKind, cf: LexCursor| Ok::<(TokenModel, LexCursor), ErrModel>(
            (TokenModel { kind: k, line: c.line, col: c.col }, cf),
        );
        if ch == '+' {
            tok(TokenKind::Plus, c1)
        } else if ch == '-' {
            tok(TokenKind::Minus, c1)
        } else if ch == '*' {
            tok(TokenKind::Star, c1)
        } else if ch == '/' {
            tok(TokenKind::Slash, c1)
        } else if ch == '%' {
            tok(TokenKind::Percent, c1)
        } else if ch == '^' {
            tok(TokenKind::Caret, c1)
        } else if ch == '(' {
            tok(TokenKind::LeftParen, c1)
        } else if ch == ')' {
            tok(TokenKind::RightParen, c1)
        } else if ch == '{' {
            tok(TokenKind::LeftBrace, c1)
        } else if ch == '}' {
            tok(TokenKind::RightBrace, c1)
        } else if ch == '[' {
            tok(TokenKind::LeftBracket, c1)
        } else if ch == ']' {
            tok(TokenKind::RightBracket, c1)
        } else if ch == ',' {
            tok(TokenKind::Comma, c1)
        } else if ch == ';' {
            tok(TokenKind::Semicolon, c1)
        } else if ch == '.' {
            if c1.pos < s.len() && s[c1.pos] == '.' {
                tok(TokenKind::DotDot, lex_adv(s, c1))
            } else {
                tok(TokenKind::Dot, c1)
            }
        } else if ch == '\n' {
            tok(
                TokenKind::Newline,
                LexCursor {
                    pos: c1.pos,
                    line: if c.line < usize::MAX as int {
                        c.line + 1
                    } else {
                        c.line
                    },
                    col: 1,
                },
            )
        } else if ch == '=' {
            if c1.pos < s.len() && s[c1.pos] == '=' {
                tok(TokenKind::Equal, lex_adv(s, c1))
            } else {
                tok(TokenKind::Assign, c1)
            }
        } else if ch == '~' {
            if c1.pos < s.len() && s[c1.pos] == '=' {
                tok(TokenKind::NotEqual, lex_adv(s, c1))
            } else {
                Err(
                    ErrModel::LexError {
                        message: "Unexpected character '~'"@,
                        line: c.line as usize,
                        column: c.col as usize,
                    },
                )
            }
        } else if ch == '<' {
            if c1.pos < s.len() && s[c1.pos] == '=' {
                tok(TokenKind::LessEqual, lex_adv(s, c1))
            } else {
                tok(TokenKind::Less, c1)
            }
        } else if ch == '>' {
            if c1.pos < s.len() && s[c1.pos] == '=' {
                tok(TokenKind::GreaterEqual, lex_adv(s, c1))
            } else {
                tok(TokenKind::Greater, c1)
            }
        } else if ch == '"' || ch == '\'' {
            match str_lit_spec(s, c1, ch) {
                Ok((txt, cf)) => tok(TokenKind::Str(txt), cf),
                Err(e) => Err(e),
            }
        } else if crate::value::is_digit_char(ch) {
            match num_lit_spec(s, c1, ch) {
                Ok((k, cf)) => tok(k, cf),
                Err(e) => Err(e),
            }
        } else if ident_start_spec(ch) {
            let (run, cf) = ident_run_spec(s, c1);
            tok(keyword_of(seq![ch] + run), cf)
        } else {
            Err(
                ErrModel::LexError {
                    message: "Unexpected character"@,
                    line: c.line as usize,
                    column: c.col as usize,
                },
            )
        }
    }
}

/// The comment spec stays within the input and never moves backward.
pub proof fn lemma_skip_comment_pos(s: Seq<char>, c: LexCursor)
    requires
        0 <= c.pos <= s.len(),
    ensures
        c.pos <= skip_comment_spec(s, c).pos <= s.len(),
        skip_comment_spec(s, c).line == c.line,
    decreases s.len() - c.pos,
{
    if !(c.pos < 0 || c.pos >= s.len() || s[c.pos] == '\n') {
        lemma_skip_comment_pos(s, lex_adv(s, c));
    }
}

/// Skipping whitespace stays within the input and never moves backward.
pub proof fn lemma_skip_ws_pos(s: Seq<char>, c: LexCursor)
    requires
        0 <= c.pos <= s.len(),
    ensures
        c.pos <= skip_ws_spec(s, c).pos <= s.len(),
    decreases s.len() - c.pos,
{
    if c.pos < s.len() {
        if is_ws_char(s[c.pos]) {
            lemma_skip_ws_pos(s, lex_adv(s, c));
        } else if s[c.pos] == '-' && c.pos + 1 < s.len() && s[c.pos + 1] == '-' {
            lemma_skip_comment_pos(s, lex_adv(s, c));
        }
    }
}

/// A string literal's scan stays within the input and, on success, moves
/// strictly forward (past its closing quote).
pub proof fn lemma_str_lit_pos(s: Seq<char>, c: LexCursor, quote: char)
    requires
        0 <= c.pos <= s.len(),
    ensures
        str_lit_spec(s, c, quote) matches Ok((t, cf)) ==> c.pos < cf.pos <= s.len(),
    decreases s.len() - c.pos,
{
    if c.pos < s.len() && s[c.pos] != quote {
        let c1 = if s[c.pos] == '\n' {
            LexCursor {
                pos: c.pos,
                line: if c.line < usize::MAX as int {
                    c.line + 1
                } else {
                    c.line
                },
                col: 0,
            }
        } else {
            c
        };
        lemma_str_lit_pos(s, lex_adv(s, c1), quote);
    }
}

/// A number run stays within the input and never moves backward.
pub proof fn lemma_num_run_pos(s: Seq<char>, c: LexCursor)
    requires
        0 <= c.pos <= s.len(),
    ensures
        c.pos <= num_run_spec(s, c).1.pos <= s.len(),
    decreases s.len() - c.pos,
{
    if !(c.pos < 0 || c.pos >= s.len() || !(crate::value::is_digit_char(s[c.pos]) || s[c.pos]
        == '.')) {
        lemma_num_run_pos(s, lex_adv(s, c));
    }
}

/// An identifier run stays within the input and never moves backward.
pub proof fn lemma_ident_run_pos(s: Seq<char>, c: LexCursor)
    requires
        0 <= c.pos <= s.len(),
    ensures
        c.pos <= ident_run_spec(s, c).1.pos <= s.len(),
    decreases s.len() - c.pos,
{
    if !(c.pos < 0 || c.pos >= s.len() || !ident_continue_spec(s[c.pos])) {
        lemma_ident_run_pos(s, lex_adv(s, c));
    }
}

/// A token's scan stays within the input and moves strictly forward.
pub proof fn lemma_next_token_pos(s: Seq<char>, c: LexCursor)
    requires
        0 <= c.pos < s.len(),
    ensures
        next_token_spec(s, c) matches Ok((t, cf)) ==> c.pos < cf.pos <= s.len(),
{
    let ch = s[c.pos];
    let c1 = lex_adv(s, c);
    if ch == '"' || ch == '\'' {
        lemma_str_lit_pos(s, c1, ch);
    } else if crate::value::is_digit_char(ch) {
        lemma_num_run_pos(s, c1);
    } else if ident_start_spec(ch) {
        lemma_ident_run_pos(s, c1);
    }
}

/// The whole token stream from the cursor: whitespace and comments are
/// skipped before each token, and the stream ends with an end-of-file
/// token at the cursor the scan stopped at.
pub open spec fn lex_spec_from(s: Seq<char>, c: LexCursor) -> Result<Seq<TokenModel>, ErrModel>
    decreases s.len() - c.pos,
{
    if c.pos < 0 || c.pos >= s.len() {
        Ok(seq![TokenModel { kind: TokenKind::Eof, line: c.line, col: c.col }])
    } else {
        let c2 = skip_ws_spec(s, c);
        if c2.pos >= s.len() {
            Ok(seq![TokenModel { kind: TokenKind::Eof, line: c2.line, col: c2.col }])
        } else {
            match next_token_spec(s, c2) {
                Ok((t, c3)) => {
                    // The scan always moves strictly forward
                    // (`lemma_next_token_pos`); the clamp makes that
                    // syntactic for the recursion and never fires.
                    let c4 = if c.pos < c3.pos && c3.pos <= s.len() {
                        c3
                    } else {
                        LexCursor { pos: s.len() as int, line: c3.line, col: c3.col }
                    };
                    match lex_spec_from(s, c4) {
                        Ok(rest) => Ok(seq![t] + rest),
                        Err(e) => Err(e),
                    }
                },
                Err(e) => Err(e),
            }
        }
    }
}

/// The token stream of a whole source text, from line one, column one.
pub open spec fn lex_spec(s: Seq<char>) -> Result<Seq<TokenModel>, ErrModel> {
    lex_spec_from(s, LexCursor { pos: 0, line: 1, col: 1 })
}

fn is_ascii_digit_char(c: char) -> (r: bool)
    ensures
        r == crate::value::is_digit_char(c),
{
    c == '0' || c == '1' || c == '2' || c == '3' || c == '4' || c == '5' || c == '6' || c == '7'
        || c == '8' || c == '9'
}

fn is_ident_start(c: char) -> (r: bool)
    ensures
        r == ident_start_spec(c),
{
    let u = c as u32;
    (65 <= u && u <= 90) || (97 <= u && u <= 122) || c == '_'
}

fn is_ident_continue(c: char) -> (r: bool)
    ensures
        r == ident_continue_spec(c),
{
    let u = c as u32;
    (65 <= u && u <= 90) || (97 <= u && u <= 122) || (48 <= u && u <= 57) || c == '_'
}

/// Whether an owned string's text equals a literal's.
fn str_is(text: &String, lit: &str) -> (r: bool)
    ensures
        r == (text@ == lit@),
{
    text.eq(&string_from(lit))
}

impl Lexer {
    /// A lexer over the given source text, at line one, column one.
    pub fn new(input: &str) -> (r: Self)
        ensures
            lexer_wf(&r),
            lexer_input(&r) == input@,
            lexer_at(&r) == (LexCursor { pos: 0, line: 1, col: 1 }),
    {
        Lexer { input: str_chars(input), position: 0, line: 1, column: 1 }
    }

    fn is_at_end(&self) -> (r: bool)
        requires
            lexer_wf(self),
        ensures
            r == (lexer_rest(self) == 0),
    {
        self.position >= self.input.len()
    }

    fn peek(&self) -> (r: char)
        requires
            lexer_wf(self),
        ensures
            lexer_rest(self) > 0 || r == '\0',
            r == (if lexer_at(self).pos < lexer_input(self).len() {
                lexer_input(self)[lexer_at(self).pos]
            } else {
                '\0'
            }),
    {
        if self.position >= self.input.len() {
            '\0'
        } else {
            self.input[self.position]
        }
    }

    fn peek_next(&self) -> (r: Option<char>)
        requires
            lexer_wf(self),
        ensures
            r == (if lexer_at(self).pos + 2 <= lexer_input(self).len() {
                Some(lexer_input(self)[lexer_at(self).pos + 1])
            } else {
                None::<char>
            }),
    {
        if self.input.len() - self.position < 2 {
            None
        } else {
            Some(self.input[self.position + 1])
        }
    }

    fn advance(&mut self) -> (c: char)
        requires
            lexer_wf(old(self)),
            lexer_rest(old(self)) > 0,
        ensures
            lexer_wf(final(self)),
            lexer_rest(final(self)) == lexer_rest(old(self)) - 1,
            lexer_input(final(self)) == lexer_input(old(self)),
            lexer_at(final(self)) == lex_adv(lexer_input(old(self)), lexer_at(old(self))),
            c == lexer_input(old(self))[lexer_at(old(self)).pos],
    {
        let n = self.input.len();
        proof {
            assert(self.position < n);
        }
        let c = self.input[self.position];
        self.position = self.position + 1;
        if self.column < usize::MAX {
            self.column = self.column + 1;
        }
        c
    }

    fn match_char(&mut self, expected: char) -> (r: bool)
        requires
            lexer_wf(old(self)),
        ensures
            lexer_wf(final(self)),
            lexer_input(final(self)) == lexer_input(old(self)),
            r == (lexer_at(old(self)).pos < lexer_input(old(self)).len() && lexer_input(
                old(self),
            )[lexer_at(old(self)).pos] == expected),
            r ==> lexer_rest(final(self)) == lexer_rest(old(self)) - 1 && lexer_at(final(self))
                == lex_adv(lexer_input(old(self)), lexer_at(old(self))),
            !r ==> lexer_rest(final(self)) == lexer_rest(old(self)) && lexer_at(final(self))
                == lexer_at(old(self)),
    {
        if self.position >= self.input.len() || self.input[self.position] != expected {
            false
        } else {
            self.position = self.position + 1;
            if self.column < usize::MAX {
                self.column = self.column + 1;
            }
            true
        }
    }

    /// Skips spaces, carriage returns, tabs, and `--` comments up to the
    /// end of the line.
    fn skip_whitespace(&mut self)
        requires
            lexer_wf(old(self)),
        ensures
            lexer_wf(final(self)),
            lexer_rest(final(self)) <= lexer_rest(old(self)),
            lexer_input(final(self)) == lexer_input(old(self)),
            lexer_at(final(self)) == skip_ws_spec(lexer_input(old(self)), lexer_at(old(self))),
    {
        let ghost s = lexer_input(old(self));
        while !self.is_at_end()
            invariant
                lexer_wf(self),
                lexer_rest(self) <= lexer_rest(old(self)),
                lexer_input(self) == s,
                skip_ws_spec(s, lexer_at(self)) == skip_ws_spec(s, lexer_at(old(self))),
            ensures
                lexer_wf(self),
                lexer_rest(self) <= lexer_rest(old(self)),
                lexer_input(self) == s,
                lexer_at(self) == skip_ws_spec(s, lexer_at(old(self))),
            decreases lexer_rest(self),
        {
            let c = self.peek();
            if c == ' ' || c == '\r' || c == '\t' {
                let _ = self.advance();
            } else if c == '-' && (match self.peek_next() {
                Some(n) => n == '-',
                None => false,
            }) {
                // A comment runs to the end of the line.
                let ghost chead = lexer_at(self);
                let _ = self.advance();
                let ghost ri = lexer_rest(self);
                let ghost cstart = lexer_at(self);
                proof {
                    assert(skip_ws_spec(s, chead) == skip_comment_spec(s, cstart));
                }
                while !self.is_at_end() && self.peek() != '\n'
                    invariant
                        lexer_wf(self),
                        lexer_rest(self) <= ri,
                        lexer_input(self) == s,
                        skip_comment_spec(s, lexer_at(self)) == skip_comment_spec(s, cstart),
                    decreases lexer_rest(self),
                {
                    let _ = self.advance();
                }
                proof {
                    assert(skip_comment_spec(s, lexer_at(self)) == lexer_at(self));
                    assert(skip_ws_spec(s, lexer_at(self)) == lexer_at(self));
                }
            } else {
                proof {
                    assert(skip_ws_spec(s, lexer_at(self)) == lexer_at(self));
                }
                break ;
            }
        }
    }

    /// A string literal body, after its opening quote: exactly the
    /// spec-level scan (`str_lit_spec`).
    fn string_literal(&mut self, quote: char) -> (r: Result<TokenType, LuaError>)
        requires
            lexer_wf(old(self)),
        ensures
            lexer_wf(final(self)),
            r matches Err(e) ==> e@ is LexError,
            lexer_rest(final(self)) <= lexer_rest(old(self)),
            lexer_input(final(self)) == lexer_input(old(self)),
            match str_lit_spec(lexer_input(old(self)), lexer_at(old(self)), quote) {
                Ok(p) => r matches Ok(t) && token_kind(t) == TokenKind::Str(p.0) && lexer_at(
                    final(self),
                ) == p.1,
                Err(e) => r matches Err(x) && x@ == e,
            },
    {
        let ghost s = lexer_input(old(self));
        let mut value = String::new();
        proof {
            match str_lit_spec(s, lexer_at(self), quote) {
                Ok(p) => {
                    assert(p.0 =~= value@ + p.0);
                },
                Err(_) => {},
            }
        }
        while !self.is_at_end() && self.peek() != quote
            invariant
                lexer_wf(self),
                lexer_rest(self) <= lexer_rest(old(self)),
                lexer_input(self) == s,
                ({
                    let orig = str_lit_spec(s, lexer_at(old(self)), quote);
                    let cur = str_lit_spec(s, lexer_at(self), quote);
                    match cur {
                        Ok(p) => orig matches Ok(q) && q.0 == value@ + p.0 && q.1 == p.1,
                        Err(e) => orig == Err::<(Seq<char>, LexCursor), ErrModel>(e),
                    }
                }),
            decreases lexer_rest(self),
        {
            let ghost cpre = lexer_at(self);
            let ghost vpre = value@;
            if self.peek() == '\n' {
                if self.line < usize::MAX {
                    self.line = self.line + 1;
                }
                self.column = 0;
            }
            let c = self.advance();
            value.push(c);
            proof {
                match str_lit_spec(s, lexer_at(self), quote) {
                    Ok(p2) => {
                        assert(vpre + (seq![c] + p2.0) =~= value@ + p2.0);
                    },
                    Err(_) => {},
                }
            }
        }
        if self.is_at_end() {
            return Err(LuaError::lex_error("Unterminated string", self.line, self.column));
        }
        let ghost vfull = value@;
        let _ = self.advance();  // the closing quote
        proof {
            assert(vfull + Seq::<char>::empty() =~= vfull);
        }
        Ok(TokenType::Str(value))
    }

    /// A number literal: a run of digits (a stray dot in the run makes
    /// the literal invalid), read as a 64-bit integer; exactly the
    /// spec-level scan (`num_lit_spec`).
    fn number_literal(&mut self, first: char) -> (r: Result<TokenType, LuaError>)
        requires
            lexer_wf(old(self)),
        ensures
            lexer_wf(final(self)),
            r matches Err(e) ==> e@ is LexError,
            lexer_rest(final(self)) <= lexer_rest(old(self)),
            lexer_input(final(self)) == lexer_input(old(self)),
            match num_lit_spec(lexer_input(old(self)), lexer_at(old(self)), first) {
                Ok(p) => r matches Ok(t) && token_kind(t) == p.0 && lexer_at(final(self)) == p.1,
                Err(e) => r matches Err(x) && x@ == e,
            },
    {
        let ghost s = lexer_input(old(self));
        let ghost r0 = num_run_spec(s, lexer_at(old(self)));
        let mut text = String::new();
        text.push(first);
        proof {
            assert(text@ =~= seq![first]);
            assert(r0.0 =~= text@.subrange(1, text@.len() as int) + r0.0);
        }
        while !self.is_at_end() && (is_ascii_digit_char(self.peek()) || self.peek() == '.')
            invariant
                lexer_wf(self),
                lexer_rest(self) <= lexer_rest(old(self)),
                lexer_input(self) == s,
                text@.len() >= 1,
                text@[0] == first,
                r0.0 == text@.subrange(1, text@.len() as int) + num_run_spec(
                    s,
                    lexer_at(self),
                ).0,
                r0.1 == num_run_spec(s, lexer_at(self)).1,
            decreases lexer_rest(self),
        {
            let ghost tpre = text@;
            let c = self.advance();
            text.push(c);
            proof {
                let p2 = num_run_spec(s, lexer_at(self));
                assert(tpre.subrange(1, tpre.len() as int) + (seq![c] + p2.0) =~= text@.subrange(
                    1,
                    text@.len() as int,
                ) + p2.0);
            }
        }
        proof {
            assert(r0.0 =~= text@.subrange(1, text@.len() as int));
            assert(seq![first] + r0.0 =~= text@);
        }
        match parse_i64(text.as_str()) {
            Some(n) => Ok(TokenType::Number(n)),
            None => {
                let mut msg = string_from("Invalid number: ");
                crate::error::push_str_all(&mut msg, &text);
                Err(LuaError::lex_error(msg.as_str(), self.line, self.column))
            },
        }
    }

    /// An identifier or keyword, starting with `first`: exactly the
    /// spec-level scan (`ident_run_spec` and `keyword_of`).
    fn identifier_or_keyword(&mut self, first: char) -> (r: Result<TokenType, LuaError>)
        requires
            lexer_wf(old(self)),
        ensures
            lexer_wf(final(self)),
            r matches Err(e) ==> e@ is LexError,
            lexer_rest(final(self)) <= lexer_rest(old(self)),
            lexer_input(final(self)) == lexer_input(old(self)),
            ({
                let p = ident_run_spec(lexer_input(old(self)), lexer_at(old(self)));
                r matches Ok(t) && token_kind(t) == keyword_of(seq![first] + p.0) && lexer_at(
                    final(self),
                ) == p.1
            }),
    {
        let ghost s = lexer_input(old(self));
        let ghost r0 = ident_run_spec(s, lexer_at(old(self)));
        let mut text = String::new();
        text.push(first);
        proof {
            assert(text@ =~= seq![first]);
            assert(r0.0 =~= text@.subrange(1, text@.len() as int) + r0.0);
        }
        while !self.is_at_end() && is_ident_continue(self.peek())
            invariant
                lexer_wf(self),
                lexer_rest(self) <= lexer_rest(old(self)),
                lexer_input(self) == s,
                text@.len() >= 1,
                text@[0] == first,
                r0.0 == text@.subrange(1, text@.len() as int) + ident_run_spec(
                    s,
                    lexer_at(self),
                ).0,
                r0.1 == ident_run_spec(s, lexer_at(self)).1,
            decreases lexer_rest(self),
        {
            let ghost tpre = text@;
            let c = self.advance();
            text.push(c);
            proof {
                let p2 = ident_run_spec(s, lexer_at(self));
                assert(tpre.subrange(1, tpre.len() as int) + (seq![c] + p2.0) =~= text@.subrange(
                    1,
                    text@.len() as int,
                ) + p2.0);
            }
        }
        proof {
            assert(r0.0 =~= text@.subrange(1, text@.len() as int));
            assert(seq![first] + r0.0 =~= text@);
        }
        let t = if str_is(&text, "local") {
            TokenType::Local
        } else if str_is(&text, "function") {
            TokenType::Function
        } else if str_is(&text, "end") {
            TokenType::End
        } else if str_is(&text, "if") {
            TokenType::If
        } else if str_is(&text, "then") {
            TokenType::Then
        } else if str_is(&text, "else") {
            TokenType::Else
        } else if str_is(&text, "while") {
            TokenType::While
        } else if str_is(&text, "do") {
            TokenType::Do
        } else if str_is(&text, "for") {
            TokenType::For
        } else if str_is(&text, "in") {
            TokenType::In
        } else if str_is(&text, "return") {
            TokenType::Return
        } else if str_is(&text, "break") {
            TokenType::Break
        } else if str_is(&text, "true") {
            TokenType::True
        } else if str_is(&text, "false") {
            TokenType::False
        } else if str_is(&text, "nil") {
            TokenType::Nil
        } else if str_is(&text, "and") {
            TokenType::And
        } else if str_is(&text, "or") {
            TokenType::Or
        } else if str_is(&text, "not") {
            TokenType::Not
        } else {
            TokenType::Identifier(text)
        };
        Ok(t)
    }

    /// The next token: exactly the spec-level scan (`next_token_spec`).
    fn next_token(&mut self) -> (r: Result<Token, LuaError>)
        requires
            lexer_wf(old(self)),
            lexer_rest(old(self)) > 0,
        ensures
            lexer_wf(final(self)),
            r matches Err(e) ==> e@ is LexError,
            lexer_rest(final(self)) < lexer_rest(old(self)),
            lexer_input(final(self)) == lexer_input(old(self)),
            match next_token_spec(lexer_input(old(self)), lexer_at(old(self))) {
                Ok(p) => r matches Ok(t) && t@ == p.0 && lexer_at(final(self)) == p.1,
                Err(e) => r matches Err(x) && x@ == e,
            },
    {
        let start_line = self.line;
        let start_column = self.column;
        let ch = self.advance();
        let token_type = if ch == '+' {
            TokenType::Plus
        } else if ch == '-' {
            TokenType::Minus
        } else if ch == '*' {
            TokenType::Star
        } else if ch == '/' {
            TokenType::Slash
        } else if ch == '%' {
            TokenType::Percent
        } else if ch == '^' {
            TokenType::Caret
        } else if ch == '(' {
            TokenType::LeftParen
        } else if ch == ')' {
            TokenType::RightParen
        } else if ch == '{' {
            TokenType::LeftBrace
        } else if ch == '}' {
            TokenType::RightBrace
        } else if ch == '[' {
            TokenType::LeftBracket
        } else if ch == ']' {
            TokenType::RightBracket
        } else if ch == ',' {
            TokenType::Comma
        } else if ch == ';' {
            TokenType::Semicolon
        } else if ch == '.' {
            if self.peek() == '.' {
                let _ = self.advance();
                TokenType::DotDot
            } else {
                TokenType::Dot
            }
        } else if ch == '\n' {
            if self.line < usize::MAX {
                self.line = self.line + 1;
            }
            self.column = 1;
            TokenType::Newline
        } else if ch == '=' {
            if self.match_char('=') {
                TokenType::Equal
            } else {
                TokenType::Assign
            }
        } else if ch == '~' {
            if self.match_char('=') {
                TokenType::NotEqual
            } else {
                return Err(
                    LuaError::lex_error("Unexpected character '~'", start_line, start_column),
                );
            }
        } else if ch == '<' {
            if self.match_char('=') {
                TokenType::LessEqual
            } else {
                TokenType::Less
            }
        } else if ch == '>' {
            if self.match_char('=') {
                TokenType::GreaterEqual
            } else {
                TokenType::Greater
            }
        } else if ch == '"' || ch == '\'' {
            match self.string_literal(ch) {
                Ok(t) => t,
                Err(e) => {
                    return Err(e);
                },
            }
        } else if is_ascii_digit_char(ch) {
            match self.number_literal(ch) {
                Ok(t) => t,
                Err(e) => {
                    return Err(e);
                },
            }
        } else if is_ident_start(ch) {
            match self.identifier_or_keyword(ch) {
                Ok(t) => t,
                Err(e) => {
                    return Err(e);
                },
            }
        } else {
            return Err(LuaError::lex_error("Unexpected character", start_line, start_column));
        };
        Ok(Token { token_type, line: start_line, column: start_column })
    }

    /// Lexes the whole input: exactly the spec-level token stream
    /// (`lex_spec_from`; `lex_spec` for a fresh lexer).  On success the
    /// stream always ends with an end-of-file token.
    pub fn tokenize(&mut self) -> (r: Result<Vec<Token>, LuaError>)
        requires
            lexer_wf(old(self)),
        ensures
            lexer_wf(final(self)),
            r matches Err(e) ==> e@ is LexError,
            r matches Ok(tokens) ==> tokens@.len() > 0 && tokens@.last().token_type is Eof,
            match lex_spec_from(lexer_input(old(self)), lexer_at(old(self))) {
                Ok(ts) => r matches Ok(v) && v@.map_values(|t: Token| t@) == ts,
                Err(e) => r matches Err(x) && x@ == e,
            },
    {
        let ghost s = lexer_input(old(self));
        let mut tokens: Vec<Token> = Vec::new();
        proof {
            match lex_spec_from(s, lexer_at(self)) {
                Ok(ts) => {
                    assert(ts =~= tokens@.map_values(|t: Token| t@) + ts);
                },
                Err(_) => {},
            }
        }
        while !self.is_at_end()
            invariant
                lexer_wf(self),
                lexer_input(self) == s,
                s == lexer_input(old(self)),
                ({
                    let orig = lex_spec_from(s, lexer_at(old(self)));
                    let cur = lex_spec_from(s, lexer_at(self));
                    match cur {
                        Ok(ts) => orig matches Ok(full) && full == tokens@.map_values(
                            |t: Token| t@,
                        ) + ts,
                        Err(e) => orig == Err::<Seq<TokenModel>, ErrModel>(e),
                    }
                }),
            ensures
                lexer_wf(self),
                lexer_input(self) == s,
                lex_spec_from(s, lexer_at(old(self))) == Ok::<Seq<TokenModel>, ErrModel>(
                    tokens@.map_values(|t: Token| t@) + seq![
                        TokenModel {
                            kind: TokenKind::Eof,
                            line: lexer_at(self).line,
                            col: lexer_at(self).col,
                        },
                    ],
                ),
            decreases lexer_rest(self),
        {
            let ghost cprev = lexer_at(self);
            self.skip_whitespace();
            let ghost c2 = lexer_at(self);
            if self.is_at_end() {
                proof {
                    assert(lex_spec_from(s, cprev) == Ok::<Seq<TokenModel>, ErrModel>(
                        seq![TokenModel { kind: TokenKind::Eof, line: c2.line, col: c2.col }],
                    ));
                }
                break ;
            }
            match self.next_token() {
                Ok(token) => {
                    proof {
                        lemma_skip_ws_pos(s, cprev);
                        lemma_next_token_pos(s, c2);
                        crate::runtime::lemma_map_values_push(tokens@, |t: Token| t@, token);
                        match lex_spec_from(s, lexer_at(self)) {
                            Ok(ts2) => {
                                assert(tokens@.map_values(|t: Token| t@) + (seq![token@] + ts2)
                                    =~= tokens@.push(token).map_values(|t: Token| t@) + ts2);
                            },
                            Err(_) => {},
                        }
                    }
                    tokens.push(token);
                },
                Err(e) => {
                    proof {
                        match next_token_spec(s, c2) {
                            Ok(_) => {},
                            Err(e2) => {
                                assert(lex_spec_from(s, cprev) == Err::<
                                    Seq<TokenModel>,
                                    ErrModel,
                                >(e2));
                            },
                        }
                    }
                    return Err(e);
                },
            }
        }
        let eof_tok = Token { token_type: TokenType::Eof, line: self.line, column: self.column };
        proof {
            crate::runtime::lemma_map_values_push(tokens@, |t: Token| t@, eof_tok);
            assert(tokens@.map_values(|t: Token| t@) + seq![
                TokenModel {
                    kind: TokenKind::Eof,
                    line: lexer_at(self).line,
                    col: lexer_at(self).col,
                },
            ] =~= tokens@.push(eof_tok).map_values(|t: Token| t@));
        }
        tokens.push(eof_tok);
        Ok(tokens)
    }
}

} // verus!
