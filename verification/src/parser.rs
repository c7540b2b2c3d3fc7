//! The parser: token stream to AST, by recursive descent with the usual
//! precedence ladder (or, and, equality, comparison, additive, concat,
//! multiplicative, unary, power, call, primary).

use vstd::prelude::*;

use crate::ast::{BinaryOp, Expr, Program, Stmt, UnaryOp};
use crate::error::LuaError;
use crate::lexer::{Token, TokenType};
use crate::value::{Value, clone_string};

verus! {

broadcast use vstd::std_specs::vec::group_vec_axioms;

/// The parser's cursor over the token stream.
pub struct Parser {
    tokens: Vec<Token>,
    current: usize,
}

pub closed spec fn parser_wf(p: &Parser) -> bool {
    p.current <= p.tokens@.len()
}

pub closed spec fn parser_rest(p: &Parser) -> int {
    p.tokens@.len() - p.current
}

pub closed spec fn parser_tokens(p: &Parser) -> Seq<Token> {
    p.tokens@
}

/// Whether two tokens are of the same kind, payloads ignored.
fn same_kind(a: &TokenType, b: &TokenType) -> bool {
    match (a, b) {
        (TokenType::Number(_), TokenType::Number(_)) => true,
        (TokenType::Str(_), TokenType::Str(_)) => true,
        (TokenType::Identifier(_), TokenType::Identifier(_)) => true,
        (TokenType::Local, TokenType::Local) => true,
        (TokenType::Function, TokenType::Function) => true,
        (TokenType::End, TokenType::End) => true,
        (TokenType::If, TokenType::If) => true,
        (TokenType::Then, TokenType::Then) => true,
        (TokenType::Else, TokenType::Else) => true,
        (TokenType::While, TokenType::While) => true,
        (TokenType::Do, TokenType::Do) => true,
        (TokenType::For, TokenType::For) => true,
        (TokenType::In, TokenType::In) => true,
        (TokenType::Return, TokenType::Return) => true,
        (TokenType::Break, TokenType::Break) => true,
        (TokenType::True, TokenType::True) => true,
        (TokenType::False, TokenType::False) => true,
        (TokenType::Nil, TokenType::Nil) => true,
        (TokenType::Plus, TokenType::Plus) => true,
        (TokenType::Minus, TokenType::Minus) => true,
        (TokenType::Star, TokenType::Star) => true,
        (TokenType::Slash, TokenType::Slash) => true,
        (TokenType::Percent, TokenType::Percent) => true,
        (TokenType::Caret, TokenType::Caret) => true,
        (TokenType::Equal, TokenType::Equal) => true,
        (TokenType::NotEqual, TokenType::NotEqual) => true,
        (TokenType::Less, TokenType::Less) => true,
        (TokenType::LessEqual, TokenType::LessEqual) => true,
        (TokenType::Greater, TokenType::Greater) => true,
        (TokenType::GreaterEqual, TokenType::GreaterEqual) => true,
        (TokenType::And, TokenType::And) => true,
        (TokenType::Or, TokenType::Or) => true,
        (TokenType::Not, TokenType::Not) => true,
        (TokenType::Assign, TokenType::Assign) => true,
        (TokenType::LeftParen, TokenType::LeftParen) => true,
        (TokenType::RightParen, TokenType::RightParen) => true,
        (TokenType::LeftBrace, TokenType::LeftBrace) => true,
        (TokenType::RightBrace, TokenType::RightBrace) => true,
        (TokenType::LeftBracket, TokenType::LeftBracket) => true,
        (TokenType::RightBracket, TokenType::RightBracket) => true,
        (TokenType::Comma, TokenType::Comma) => true,
        (TokenType::Semicolon, TokenType::Semicolon) => true,
        (TokenType::Dot, TokenType::Dot) => true,
        (TokenType::DotDot, TokenType::DotDot) => true,
        (TokenType::Eof, TokenType::Eof) => true,
        (TokenType::Newline, TokenType::Newline) => true,
        _ => false,
    }
}

fn clone_token_type(t: &TokenType) -> TokenType {
    match t {
        TokenType::Number(n) => TokenType::Number(*n),
        TokenType::Str(s) => TokenType::Str(clone_string(s)),
        TokenType::Identifier(s) => TokenType::Identifier(clone_string(s)),
        TokenType::Local => TokenType::Local,
        TokenType::Function => TokenType::Function,
        TokenType::End => TokenType::End,
        TokenType::If => TokenType::If,
        TokenType::Then => TokenType::Then,
        TokenType::Else => TokenType::Else,
        TokenType::While => TokenType::While,
        TokenType::Do => TokenType::Do,
        TokenType::For => TokenType::For,
        TokenType::In => TokenType::In,
        TokenType::Return => TokenType::Return,
        TokenType::Break => TokenType::Break,
        TokenType::True => TokenType::True,
        TokenType::False => TokenType::False,
        TokenType::Nil => TokenType::Nil,
        TokenType::Plus => TokenType::Plus,
        TokenType::Minus => TokenType::Minus,
        TokenType::Star => TokenType::Star,
        TokenType::Slash => TokenType::Slash,
        TokenType::Percent => TokenType::Percent,
        TokenType::Caret => TokenType::Caret,
        TokenType::Equal => TokenType::Equal,
        TokenType::NotEqual => TokenType::NotEqual,
        TokenType::Less => TokenType::Less,
        TokenType::LessEqual => TokenType::LessEqual,
        TokenType::Greater => TokenType::Greater,
        TokenType::GreaterEqual => TokenType::GreaterEqual,
        TokenType::And => TokenType::And,
        TokenType::Or => TokenType::Or,
        TokenType::Not => TokenType::Not,
        TokenType::Assign => TokenType::Assign,
        TokenType::LeftParen => TokenType::LeftParen,
        TokenType::RightParen => TokenType::RightParen,
        TokenType::LeftBrace => TokenType::LeftBrace,
        TokenType::RightBrace => TokenType::RightBrace,
        TokenType::LeftBracket => TokenType::LeftBracket,
        TokenType::RightBracket => TokenType::RightBracket,
        TokenType::Comma => TokenType::Comma,
        TokenType::Semicolon => TokenType::Semicolon,
        TokenType::Dot => TokenType::Dot,
        TokenType::DotDot => TokenType::DotDot,
        TokenType::Eof => TokenType::Eof,
        TokenType::Newline => TokenType::Newline,
    }
}

impl Parser {
    /// A parser over the given token stream.
    pub fn new(tokens: Vec<Token>) -> (r: Self)
        ensures
            parser_wf(&r),
    {
        Parser { tokens, current: 0 }
    }

    /// Where the parser currently stands, for error reports.
    fn where_at(&self) -> (r: (usize, usize))
        requires
            parser_wf(self),
    {
        if self.current < self.tokens.len() {
            (self.tokens[self.current].line, self.tokens[self.current].column)
        } else {
            (0, 0)
        }
    }

    fn err_here(&self, message: &str) -> (r: LuaError)
        requires
            parser_wf(self),
        ensures
            r@ is ParseError,
    {
        let (line, column) = self.where_at();
        LuaError::parse_error(message, line, column)
    }

    fn is_at_end(&self) -> (r: bool)
        requires
            parser_wf(self),
        ensures
            parser_rest(self) > 0 || r,
    {
        if self.current >= self.tokens.len() {
            true
        } else {
            match &self.tokens[self.current].token_type {
                TokenType::Eof => true,
                _ => false,
            }
        }
    }

    fn check(&self, token_type: &TokenType) -> (r: bool)
        requires
            parser_wf(self),
        ensures
            r ==> parser_rest(self) > 0,
    {
        if self.current >= self.tokens.len() {
            false
        } else {
            match &self.tokens[self.current].token_type {
                TokenType::Eof => false,
                t => same_kind(t, token_type),
            }
        }
    }

    /// Consumes the next token if it is of the given kind.
    fn match_one(&mut self, token_type: &TokenType) -> (r: bool)
        requires
            parser_wf(old(self)),
        ensures
            parser_wf(final(self)),
            parser_tokens(final(self)) == parser_tokens(old(self)),
            r ==> parser_rest(final(self)) == parser_rest(old(self)) - 1,
            !r ==> parser_rest(final(self)) == parser_rest(old(self)),
    {
        if self.check(token_type) {
            let n = self.tokens.len();
            proof {
                assert(self.current < n);
            }
            self.current = self.current + 1;
            true
        } else {
            false
        }
    }

    /// Consumes and returns the next token's kind, if any.
    fn advance(&mut self) -> (r: Option<TokenType>)
        requires
            parser_wf(old(self)),
        ensures
            parser_wf(final(self)),
            parser_tokens(final(self)) == parser_tokens(old(self)),
            r is Some ==> parser_rest(final(self)) == parser_rest(old(self)) - 1,
            r is None ==> parser_rest(final(self)) == parser_rest(old(self)),
    {
        if self.is_at_end() {
            if self.current < self.tokens.len() {
                // Stands on the end-of-file token: consume it.
                let t = clone_token_type(&self.tokens[self.current].token_type);
                self.current = self.current + 1;
                Some(t)
            } else {
                None
            }
        } else {
            let n = self.tokens.len();
            proof {
                assert(self.current < n);
            }
            let t = clone_token_type(&self.tokens[self.current].token_type);
            self.current = self.current + 1;
            Some(t)
        }
    }

    /// Requires the next token to be of the given kind and consumes it.
    fn consume(&mut self, token_type: &TokenType, message: &str) -> (r: Result<(), LuaError>)
        requires
            parser_wf(old(self)),
        ensures
            parser_wf(final(self)),
            r matches Err(e) ==> e@ is ParseError,
            parser_tokens(final(self)) == parser_tokens(old(self)),
            parser_rest(final(self)) <= parser_rest(old(self)),
            r is Ok ==> parser_rest(final(self)) == parser_rest(old(self)) - 1,
    {
        if self.check(token_type) {
            let n = self.tokens.len();
            proof {
                assert(self.current < n);
            }
            self.current = self.current + 1;
            Ok(())
        } else {
            Err(self.err_here(message))
        }
    }

    /// Requires the next token to be an identifier, consuming it and
    /// yielding its name.
    fn consume_identifier(&mut self, message: &str) -> (r: Result<String, LuaError>)
        requires
            parser_wf(old(self)),
        ensures
            parser_wf(final(self)),
            r matches Err(e) ==> e@ is ParseError,
            parser_tokens(final(self)) == parser_tokens(old(self)),
            parser_rest(final(self)) <= parser_rest(old(self)),
            r is Ok ==> parser_rest(final(self)) == parser_rest(old(self)) - 1,
    {
        if self.current < self.tokens.len() {
            match &self.tokens[self.current].token_type {
                TokenType::Identifier(name) => {
                    let name = clone_string(name);
                    self.current = self.current + 1;
                    Ok(name)
                },
                _ => Err(self.err_here(message)),
            }
        } else {
            Err(self.err_here(message))
        }
    }

    /// Whether an assignment statement starts here (an identifier
    /// followed by `=`), without consuming anything.
    fn check_assignment(&self) -> (r: bool)
        requires
            parser_wf(self),
    {
        if self.current < self.tokens.len() {
            match &self.tokens[self.current].token_type {
                TokenType::Identifier(_) => {
                    if self.current + 1 < self.tokens.len() {
                        match &self.tokens[self.current + 1].token_type {
                            TokenType::Assign => true,
                            _ => false,
                        }
                    } else {
                        false
                    }
                },
                _ => false,
            }
        } else {
            false
        }
    }

    /// Parses the whole token stream into a program.
    pub fn parse(&mut self) -> (r: Result<Program, LuaError>)
        requires
            parser_wf(old(self)),
        ensures
            parser_wf(final(self)),
            r matches Err(e) ==> e@ is ParseError,
    {
        let mut statements: Vec<Stmt> = Vec::new();
        while !self.is_at_end()
            invariant
                parser_wf(self),
            decreases parser_rest(self),
        {
            if self.match_one(&TokenType::Newline) {
                continue ;
            }
            match self.statement() {
                Ok(stmt) => {
                    statements.push(stmt);
                },
                Err(e) => {
                    return Err(e);
                },
            }
        }
        Ok(Program { statements })
    }

    /// One statement.
    fn statement(&mut self) -> (r: Result<Stmt, LuaError>)
        requires
            parser_wf(old(self)),
        ensures
            parser_wf(final(self)),
            r matches Err(e) ==> e@ is ParseError,
            parser_tokens(final(self)) == parser_tokens(old(self)),
            parser_rest(final(self)) <= parser_rest(old(self)),
            r is Ok ==> parser_rest(final(self)) < parser_rest(old(self)),
        decreases parser_rest(old(self)), 30int,
    {
        if self.match_one(&TokenType::Local) {
            self.local_assignment()
        } else if self.match_one(&TokenType::Function) {
            self.function_declaration()
        } else if self.match_one(&TokenType::If) {
            self.if_statement()
        } else if self.match_one(&TokenType::While) {
            self.while_statement()
        } else if self.match_one(&TokenType::For) {
            self.for_statement()
        } else if self.match_one(&TokenType::Return) {
            self.return_statement()
        } else if self.match_one(&TokenType::Break) {
            Ok(Stmt::Break)
        } else {
            if self.check_assignment() {
                self.assignment()
            } else {
                match self.expression() {
                    Ok(e) => Ok(Stmt::Expression(e)),
                    Err(e) => Err(e),
                }
            }
        }
    }

    /// `local <names> [= <values>]`, after the `local` keyword.
    fn local_assignment(&mut self) -> (r: Result<Stmt, LuaError>)
        requires
            parser_wf(old(self)),
        ensures
            parser_wf(final(self)),
            r matches Err(e) ==> e@ is ParseError,
            parser_tokens(final(self)) == parser_tokens(old(self)),
            parser_rest(final(self)) <= parser_rest(old(self)),
        decreases parser_rest(old(self)), 29int,
    {
        let mut names: Vec<String> = Vec::new();
        match self.consume_identifier("Expected variable name") {
            Ok(n) => names.push(n),
            Err(e) => {
                return Err(e);
            },
        }
        while self.match_one(&TokenType::Comma)
            invariant
                parser_wf(self),
                parser_tokens(self) == parser_tokens(old(self)),
                parser_rest(self) <= parser_rest(old(self)),
            decreases parser_rest(self),
        {
            match self.consume_identifier("Expected variable name") {
                Ok(n) => names.push(n),
                Err(e) => {
                    return Err(e);
                },
            }
        }
        let mut values: Vec<Expr> = Vec::new();
        if self.match_one(&TokenType::Assign) {
            match self.expression() {
                Ok(e) => values.push(e),
                Err(e) => {
                    return Err(e);
                },
            }
            while self.match_one(&TokenType::Comma)
                invariant
                    parser_wf(self),
                    parser_tokens(self) == parser_tokens(old(self)),
                    parser_rest(self) <= parser_rest(old(self)),
                decreases parser_rest(self),
            {
                match self.expression() {
                    Ok(e) => values.push(e),
                    Err(e) => {
                        return Err(e);
                    },
                }
            }
        }
        Ok(Stmt::LocalAssignment { names, values })
    }

    /// `function <name>(<params>) <body> end`, after the `function`
    /// keyword.  (The lowering compiler reports this form as
    /// unimplemented; it is parsed for error fidelity.)
    fn function_declaration(&mut self) -> (r: Result<Stmt, LuaError>)
        requires
            parser_wf(old(self)),
        ensures
            parser_wf(final(self)),
            r matches Err(e) ==> e@ is ParseError,
            parser_tokens(final(self)) == parser_tokens(old(self)),
            parser_rest(final(self)) <= parser_rest(old(self)),
        decreases parser_rest(old(self)), 29int,
    {
        let name = match self.consume_identifier("Expected function name") {
            Ok(n) => n,
            Err(e) => {
                return Err(e);
            },
        };
        match self.consume(&TokenType::LeftParen, "Expected '(' after function name") {
            Ok(()) => {},
            Err(e) => {
                return Err(e);
            },
        }
        let mut params: Vec<String> = Vec::new();
        if !self.check(&TokenType::RightParen) {
            match self.consume_identifier("Expected parameter name") {
                Ok(n) => params.push(n),
                Err(e) => {
                    return Err(e);
                },
            }
            while self.match_one(&TokenType::Comma)
                invariant
                    parser_wf(self),
                    parser_tokens(self) == parser_tokens(old(self)),
                    parser_rest(self) <= parser_rest(old(self)),
                decreases parser_rest(self),
            {
                match self.consume_identifier("Expected parameter name") {
                    Ok(n) => params.push(n),
                    Err(e) => {
                        return Err(e);
                    },
                }
            }
        }
        match self.consume(&TokenType::RightParen, "Expected ')' after parameters") {
            Ok(()) => {},
            Err(e) => {
                return Err(e);
            },
        }
        let mut body: Vec<Stmt> = Vec::new();
        while !self.check(&TokenType::End) && !self.is_at_end()
            invariant
                parser_wf(self),
                parser_tokens(self) == parser_tokens(old(self)),
                parser_rest(self) < parser_rest(old(self)),
            decreases parser_rest(self),
        {
            if self.match_one(&TokenType::Newline) {
                continue ;
            }
            match self.statement() {
                Ok(s) => body.push(s),
                Err(e) => {
                    return Err(e);
                },
            }
        }
        match self.consume(&TokenType::End, "Expected 'end' after function body") {
            Ok(()) => {},
            Err(e) => {
                return Err(e);
            },
        }
        Ok(Stmt::Function { name, params, body })
    }

    /// `if <cond> then <then> [else <else>] end`, after the `if` keyword.
    fn if_statement(&mut self) -> (r: Result<Stmt, LuaError>)
        requires
            parser_wf(old(self)),
        ensures
            parser_wf(final(self)),
            r matches Err(e) ==> e@ is ParseError,
            parser_tokens(final(self)) == parser_tokens(old(self)),
            parser_rest(final(self)) <= parser_rest(old(self)),
        decreases parser_rest(old(self)), 29int,
    {
        let condition = match self.expression() {
            Ok(e) => e,
            Err(e) => {
                return Err(e);
            },
        };
        match self.consume(&TokenType::Then, "Expected 'then' after if condition") {
            Ok(()) => {},
            Err(e) => {
                return Err(e);
            },
        }
        let mut then_branch: Vec<Stmt> = Vec::new();
        while !self.check(&TokenType::Else) && !self.check(&TokenType::End) && !self.is_at_end()
            invariant
                parser_wf(self),
                parser_tokens(self) == parser_tokens(old(self)),
                parser_rest(self) < parser_rest(old(self)),
            decreases parser_rest(self),
        {
            if self.match_one(&TokenType::Newline) {
                continue ;
            }
            match self.statement() {
                Ok(s) => then_branch.push(s),
                Err(e) => {
                    return Err(e);
                },
            }
        }
        let else_branch = if self.match_one(&TokenType::Else) {
            let mut else_stmts: Vec<Stmt> = Vec::new();
            while !self.check(&TokenType::End) && !self.is_at_end()
                invariant
                    parser_wf(self),
                    parser_tokens(self) == parser_tokens(old(self)),
                    parser_rest(self) < parser_rest(old(self)),
                decreases parser_rest(self),
            {
                if self.match_one(&TokenType::Newline) {
                    continue ;
                }
                match self.statement() {
                    Ok(s) => else_stmts.push(s),
                    Err(e) => {
                        return Err(e);
                    },
                }
            }
            Some(else_stmts)
        } else {
            None
        };
        match self.consume(&TokenType::End, "Expected 'end' after if statement") {
            Ok(()) => {},
            Err(e) => {
                return Err(e);
            },
        }
        Ok(Stmt::If { condition, then_branch, else_branch })
    }

    /// `while <cond> do <body> end`, after the `while` keyword.
    fn while_statement(&mut self) -> (r: Result<Stmt, LuaError>)
        requires
            parser_wf(old(self)),
        ensures
            parser_wf(final(self)),
            r matches Err(e) ==> e@ is ParseError,
            parser_tokens(final(self)) == parser_tokens(old(self)),
            parser_rest(final(self)) <= parser_rest(old(self)),
        decreases parser_rest(old(self)), 29int,
    {
        let condition = match self.expression() {
            Ok(e) => e,
            Err(e) => {
                return Err(e);
            },
        };
        match self.consume(&TokenType::Do, "Expected 'do' after while condition") {
            Ok(()) => {},
            Err(e) => {
                return Err(e);
            },
        }
        let mut body: Vec<Stmt> = Vec::new();
        while !self.check(&TokenType::End) && !self.is_at_end()
            invariant
                parser_wf(self),
                parser_tokens(self) == parser_tokens(old(self)),
                parser_rest(self) < parser_rest(old(self)),
            decreases parser_rest(self),
        {
            if self.match_one(&TokenType::Newline) {
                continue ;
            }
            match self.statement() {
                Ok(s) => body.push(s),
                Err(e) => {
                    return Err(e);
                },
            }
        }
        match self.consume(&TokenType::End, "Expected 'end' after while body") {
            Ok(()) => {},
            Err(e) => {
                return Err(e);
            },
        }
        Ok(Stmt::While { condition, body })
    }

    /// `for <var> = <start>, <end>[, <step>] do <body> end`, after the
    /// `for` keyword.
    fn for_statement(&mut self) -> (r: Result<Stmt, LuaError>)
        requires
            parser_wf(old(self)),
        ensures
            parser_wf(final(self)),
            r matches Err(e) ==> e@ is ParseError,
            parser_tokens(final(self)) == parser_tokens(old(self)),
            parser_rest(final(self)) <= parser_rest(old(self)),
        decreases parser_rest(old(self)), 29int,
    {
        let var = match self.consume_identifier("Expected variable name in for loop") {
            Ok(n) => n,
            Err(e) => {
                return Err(e);
            },
        };
        match self.consume(&TokenType::Assign, "Expected '=' in for loop") {
            Ok(()) => {},
            Err(e) => {
                return Err(e);
            },
        }
        let start = match self.expression() {
            Ok(e) => e,
            Err(e) => {
                return Err(e);
            },
        };
        match self.consume(&TokenType::Comma, "Expected ',' after for loop start") {
            Ok(()) => {},
            Err(e) => {
                return Err(e);
            },
        }
        let end = match self.expression() {
            Ok(e) => e,
            Err(e) => {
                return Err(e);
            },
        };
        let step = if self.match_one(&TokenType::Comma) {
            match self.expression() {
                Ok(e) => Some(e),
                Err(e) => {
                    return Err(e);
                },
            }
        } else {
            None
        };
        match self.consume(&TokenType::Do, "Expected 'do' after for loop header") {
            Ok(()) => {},
            Err(e) => {
                return Err(e);
            },
        }
        let mut body: Vec<Stmt> = Vec::new();
        while !self.check(&TokenType::End) && !self.is_at_end()
            invariant
                parser_wf(self),
                parser_tokens(self) == parser_tokens(old(self)),
                parser_rest(self) < parser_rest(old(self)),
            decreases parser_rest(self),
        {
            if self.match_one(&TokenType::Newline) {
                continue ;
            }
            match self.statement() {
                Ok(s) => body.push(s),
                Err(e) => {
                    return Err(e);
                },
            }
        }
        match self.consume(&TokenType::End, "Expected 'end' after for loop body") {
            Ok(()) => {},
            Err(e) => {
                return Err(e);
            },
        }
        Ok(Stmt::For { var, start, end, step, body })
    }

    /// `return [<expr>]`, after the `return` keyword.
    fn return_statement(&mut self) -> (r: Result<Stmt, LuaError>)
        requires
            parser_wf(old(self)),
        ensures
            parser_wf(final(self)),
            r matches Err(e) ==> e@ is ParseError,
            parser_tokens(final(self)) == parser_tokens(old(self)),
            parser_rest(final(self)) <= parser_rest(old(self)),
        decreases parser_rest(old(self)), 29int,
    {
        if self.check(&TokenType::Newline) || self.is_at_end() {
            return Ok(Stmt::Return(None));
        }
        match self.expression() {
            Ok(e) => Ok(Stmt::Return(Some(e))),
            Err(e) => Err(e),
        }
    }

    /// `<name> = <expr>`.
    fn assignment(&mut self) -> (r: Result<Stmt, LuaError>)
        requires
            parser_wf(old(self)),
        ensures
            parser_wf(final(self)),
            r matches Err(e) ==> e@ is ParseError,
            parser_tokens(final(self)) == parser_tokens(old(self)),
            parser_rest(final(self)) <= parser_rest(old(self)),
            r is Ok ==> parser_rest(final(self)) < parser_rest(old(self)),
        decreases parser_rest(old(self)), 29int,
    {
        let target = match self.consume_identifier("Expected variable name") {
            Ok(n) => n,
            Err(e) => {
                return Err(e);
            },
        };
        match self.consume(&TokenType::Assign, "Expected '=' in assignment") {
            Ok(()) => {},
            Err(e) => {
                return Err(e);
            },
        }
        match self.expression() {
            Ok(value) => Ok(Stmt::Assignment { target, value }),
            Err(e) => Err(e),
        }
    }

    /// One expression.
    fn expression(&mut self) -> (r: Result<Expr, LuaError>)
        requires
            parser_wf(old(self)),
        ensures
            parser_wf(final(self)),
            r matches Err(e) ==> e@ is ParseError,
            parser_tokens(final(self)) == parser_tokens(old(self)),
            parser_rest(final(self)) <= parser_rest(old(self)),
            r is Ok ==> parser_rest(final(self)) < parser_rest(old(self)),
        decreases parser_rest(old(self)), 24int,
    {
        self.or_expr()
    }

    fn or_expr(&mut self) -> (r: Result<Expr, LuaError>)
        requires
            parser_wf(old(self)),
        ensures
            parser_wf(final(self)),
            r matches Err(e) ==> e@ is ParseError,
            parser_tokens(final(self)) == parser_tokens(old(self)),
            parser_rest(final(self)) <= parser_rest(old(self)),
            r is Ok ==> parser_rest(final(self)) < parser_rest(old(self)),
        decreases parser_rest(old(self)), 23int,
    {
        let mut expr = match self.and_expr() {
            Ok(e) => e,
            Err(e) => {
                return Err(e);
            },
        };
        while self.match_one(&TokenType::Or)
            invariant
                parser_wf(self),
                parser_tokens(self) == parser_tokens(old(self)),
                parser_rest(self) < parser_rest(old(self)),
            decreases parser_rest(self),
        {
            let right = match self.and_expr() {
                Ok(e) => e,
                Err(e) => {
                    return Err(e);
                },
            };
            expr = Expr::Binary {
                left: Box::new(expr),
                operator: BinaryOp::Or,
                right: Box::new(right),
            };
        }
        Ok(expr)
    }

    fn and_expr(&mut self) -> (r: Result<Expr, LuaError>)
        requires
            parser_wf(old(self)),
        ensures
            parser_wf(final(self)),
            r matches Err(e) ==> e@ is ParseError,
            parser_tokens(final(self)) == parser_tokens(old(self)),
            parser_rest(final(self)) <= parser_rest(old(self)),
            r is Ok ==> parser_rest(final(self)) < parser_rest(old(self)),
        decreases parser_rest(old(self)), 22int,
    {
        let mut expr = match self.equality() {
            Ok(e) => e,
            Err(e) => {
                return Err(e);
            },
        };
        while self.match_one(&TokenType::And)
            invariant
                parser_wf(self),
                parser_tokens(self) == parser_tokens(old(self)),
                parser_rest(self) < parser_rest(old(self)),
            decreases parser_rest(self),
        {
            let right = match self.equality() {
                Ok(e) => e,
                Err(e) => {
                    return Err(e);
                },
            };
            expr = Expr::Binary {
                left: Box::new(expr),
                operator: BinaryOp::And,
                right: Box::new(right),
            };
        }
        Ok(expr)
    }

    fn equality(&mut self) -> (r: Result<Expr, LuaError>)
        requires
            parser_wf(old(self)),
        ensures
            parser_wf(final(self)),
            r matches Err(e) ==> e@ is ParseError,
            parser_tokens(final(self)) == parser_tokens(old(self)),
            parser_rest(final(self)) <= parser_rest(old(self)),
            r is Ok ==> parser_rest(final(self)) < parser_rest(old(self)),
        decreases parser_rest(old(self)), 21int,
    {
        let mut expr = match self.comparison() {
            Ok(e) => e,
            Err(e) => {
                return Err(e);
            },
        };
        loop
            invariant
                parser_wf(self),
                parser_tokens(self) == parser_tokens(old(self)),
                parser_rest(self) < parser_rest(old(self)),
            ensures
                parser_wf(self),
                parser_tokens(self) == parser_tokens(old(self)),
                parser_rest(self) < parser_rest(old(self)),
            decreases parser_rest(self),
        {
            let op = if self.match_one(&TokenType::Equal) {
                Some(BinaryOp::Equal)
            } else if self.match_one(&TokenType::NotEqual) {
                Some(BinaryOp::NotEqual)
            } else {
                None
            };
            match op {
                Some(operator) => {
                    let right = match self.comparison() {
                        Ok(e) => e,
                        Err(e) => {
                            return Err(e);
                        },
                    };
                    expr = Expr::Binary {
                        left: Box::new(expr),
                        operator,
                        right: Box::new(right),
                    };
                },
                None => {
                    break ;
                },
            }
        }
        Ok(expr)
    }

    fn comparison(&mut self) -> (r: Result<Expr, LuaError>)
        requires
            parser_wf(old(self)),
        ensures
            parser_wf(final(self)),
            r matches Err(e) ==> e@ is ParseError,
            parser_tokens(final(self)) == parser_tokens(old(self)),
            parser_rest(final(self)) <= parser_rest(old(self)),
            r is Ok ==> parser_rest(final(self)) < parser_rest(old(self)),
        decreases parser_rest(old(self)), 20int,
    {
        let mut expr = match self.term() {
            Ok(e) => e,
            Err(e) => {
                return Err(e);
            },
        };
        loop
            invariant
                parser_wf(self),
                parser_tokens(self) == parser_tokens(old(self)),
                parser_rest(self) < parser_rest(old(self)),
            ensures
                parser_wf(self),
                parser_tokens(self) == parser_tokens(old(self)),
                parser_rest(self) < parser_rest(old(self)),
            decreases parser_rest(self),
        {
            let op = if self.match_one(&TokenType::Greater) {
                Some(BinaryOp::Greater)
            } else if self.match_one(&TokenType::GreaterEqual) {
                Some(BinaryOp::GreaterEqual)
            } else if self.match_one(&TokenType::Less) {
                Some(BinaryOp::Less)
            } else if self.match_one(&TokenType::LessEqual) {
                Some(BinaryOp::LessEqual)
            } else {
                None
            };
            match op {
                Some(operator) => {
                    let right = match self.term() {
                        Ok(e) => e,
                        Err(e) => {
                            return Err(e);
                        },
                    };
                    expr = Expr::Binary {
                        left: Box::new(expr),
                        operator,
                        right: Box::new(right),
                    };
                },
                None => {
                    break ;
                },
            }
        }
        Ok(expr)
    }

    fn term(&mut self) -> (r: Result<Expr, LuaError>)
        requires
            parser_wf(old(self)),
        ensures
            parser_wf(final(self)),
            r matches Err(e) ==> e@ is ParseError,
            parser_tokens(final(self)) == parser_tokens(old(self)),
            parser_rest(final(self)) <= parser_rest(old(self)),
            r is Ok ==> parser_rest(final(self)) < parser_rest(old(self)),
        decreases parser_rest(old(self)), 19int,
    {
        let mut expr = match self.concat() {
            Ok(e) => e,
            Err(e) => {
                return Err(e);
            },
        };
        loop
            invariant
                parser_wf(self),
                parser_tokens(self) == parser_tokens(old(self)),
                parser_rest(self) < parser_rest(old(self)),
            ensures
                parser_wf(self),
                parser_tokens(self) == parser_tokens(old(self)),
                parser_rest(self) < parser_rest(old(self)),
            decreases parser_rest(self),
        {
            let op = if self.match_one(&TokenType::Plus) {
                Some(BinaryOp::Add)
            } else if self.match_one(&TokenType::Minus) {
                Some(BinaryOp::Sub)
            } else {
                None
            };
            match op {
                Some(operator) => {
                    let right = match self.concat() {
                        Ok(e) => e,
                        Err(e) => {
                            return Err(e);
                        },
                    };
                    expr = Expr::Binary {
                        left: Box::new(expr),
                        operator,
                        right: Box::new(right),
                    };
                },
                None => {
                    break ;
                },
            }
        }
        Ok(expr)
    }

    fn concat(&mut self) -> (r: Result<Expr, LuaError>)
        requires
            parser_wf(old(self)),
        ensures
            parser_wf(final(self)),
            r matches Err(e) ==> e@ is ParseError,
            parser_tokens(final(self)) == parser_tokens(old(self)),
            parser_rest(final(self)) <= parser_rest(old(self)),
            r is Ok ==> parser_rest(final(self)) < parser_rest(old(self)),
        decreases parser_rest(old(self)), 18int,
    {
        let mut expr = match self.factor() {
            Ok(e) => e,
            Err(e) => {
                return Err(e);
            },
        };
        while self.match_one(&TokenType::DotDot)
            invariant
                parser_wf(self),
                parser_tokens(self) == parser_tokens(old(self)),
                parser_rest(self) < parser_rest(old(self)),
            decreases parser_rest(self),
        {
            let right = match self.factor() {
                Ok(e) => e,
                Err(e) => {
                    return Err(e);
                },
            };
            expr = Expr::Binary {
                left: Box::new(expr),
                operator: BinaryOp::Concat,
                right: Box::new(right),
            };
        }
        Ok(expr)
    }

    fn factor(&mut self) -> (r: Result<Expr, LuaError>)
        requires
            parser_wf(old(self)),
        ensures
            parser_wf(final(self)),
            r matches Err(e) ==> e@ is ParseError,
            parser_tokens(final(self)) == parser_tokens(old(self)),
            parser_rest(final(self)) <= parser_rest(old(self)),
            r is Ok ==> parser_rest(final(self)) < parser_rest(old(self)),
        decreases parser_rest(old(self)), 17int,
    {
        let mut expr = match self.unary() {
            Ok(e) => e,
            Err(e) => {
                return Err(e);
            },
        };
        loop
            invariant
                parser_wf(self),
                parser_tokens(self) == parser_tokens(old(self)),
                parser_rest(self) < parser_rest(old(self)),
            ensures
                parser_wf(self),
                parser_tokens(self) == parser_tokens(old(self)),
                parser_rest(self) < parser_rest(old(self)),
            decreases parser_rest(self),
        {
            let op = if self.match_one(&TokenType::Star) {
                Some(BinaryOp::Mul)
            } else if self.match_one(&TokenType::Slash) {
                Some(BinaryOp::Div)
            } else if self.match_one(&TokenType::Percent) {
                Some(BinaryOp::Mod)
            } else {
                None
            };
            match op {
                Some(operator) => {
                    let right = match self.unary() {
                        Ok(e) => e,
                        Err(e) => {
                            return Err(e);
                        },
                    };
                    expr = Expr::Binary {
                        left: Box::new(expr),
                        operator,
                        right: Box::new(right),
                    };
                },
                None => {
                    break ;
                },
            }
        }
        Ok(expr)
    }

    fn unary(&mut self) -> (r: Result<Expr, LuaError>)
        requires
            parser_wf(old(self)),
        ensures
            parser_wf(final(self)),
            r matches Err(e) ==> e@ is ParseError,
            parser_tokens(final(self)) == parser_tokens(old(self)),
            parser_rest(final(self)) <= parser_rest(old(self)),
            r is Ok ==> parser_rest(final(self)) < parser_rest(old(self)),
        decreases parser_rest(old(self)), 16int,
    {
        let op = if self.match_one(&TokenType::Not) {
            Some(UnaryOp::Not)
        } else if self.match_one(&TokenType::Minus) {
            Some(UnaryOp::Minus)
        } else {
            None
        };
        match op {
            Some(operator) => {
                match self.unary() {
                    Ok(operand) => Ok(Expr::Unary { operator, operand: Box::new(operand) }),
                    Err(e) => Err(e),
                }
            },
            None => self.power(),
        }
    }

    fn power(&mut self) -> (r: Result<Expr, LuaError>)
        requires
            parser_wf(old(self)),
        ensures
            parser_wf(final(self)),
            r matches Err(e) ==> e@ is ParseError,
            parser_tokens(final(self)) == parser_tokens(old(self)),
            parser_rest(final(self)) <= parser_rest(old(self)),
            r is Ok ==> parser_rest(final(self)) < parser_rest(old(self)),
        decreases parser_rest(old(self)), 15int,
    {
        let mut expr = match self.call_expr() {
            Ok(e) => e,
            Err(e) => {
                return Err(e);
            },
        };
        while self.match_one(&TokenType::Caret)
            invariant
                parser_wf(self),
                parser_tokens(self) == parser_tokens(old(self)),
                parser_rest(self) < parser_rest(old(self)),
            decreases parser_rest(self),
        {
            // Right associative: the exponent binds through unary.
            let right = match self.unary() {
                Ok(e) => e,
                Err(e) => {
                    return Err(e);
                },
            };
            expr = Expr::Binary {
                left: Box::new(expr),
                operator: BinaryOp::Pow,
                right: Box::new(right),
            };
        }
        Ok(expr)
    }

    fn call_expr(&mut self) -> (r: Result<Expr, LuaError>)
        requires
            parser_wf(old(self)),
        ensures
            parser_wf(final(self)),
            r matches Err(e) ==> e@ is ParseError,
            parser_tokens(final(self)) == parser_tokens(old(self)),
            parser_rest(final(self)) <= parser_rest(old(self)),
            r is Ok ==> parser_rest(final(self)) < parser_rest(old(self)),
        decreases parser_rest(old(self)), 14int,
    {
        let mut expr = match self.primary() {
            Ok(e) => e,
            Err(e) => {
                return Err(e);
            },
        };
        loop
            invariant
                parser_wf(self),
                parser_tokens(self) == parser_tokens(old(self)),
                parser_rest(self) < parser_rest(old(self)),
            ensures
                parser_wf(self),
                parser_tokens(self) == parser_tokens(old(self)),
                parser_rest(self) < parser_rest(old(self)),
            decreases parser_rest(self),
        {
            if self.match_one(&TokenType::LeftParen) {
                expr = match self.finish_call(expr) {
                    Ok(e) => e,
                    Err(e) => {
                        return Err(e);
                    },
                };
            } else if self.match_one(&TokenType::Dot) {
                let name = match self.consume_identifier("Expected field name after '.'") {
                    Ok(n) => n,
                    Err(e) => {
                        return Err(e);
                    },
                };
                expr = Expr::FieldAccess { object: Box::new(expr), field: name };
            } else {
                break ;
            }
        }
        Ok(expr)
    }

    /// The argument list of a call, after its opening parenthesis.
    fn finish_call(&mut self, callee: Expr) -> (r: Result<Expr, LuaError>)
        requires
            parser_wf(old(self)),
        ensures
            parser_wf(final(self)),
            r matches Err(e) ==> e@ is ParseError,
            parser_tokens(final(self)) == parser_tokens(old(self)),
            parser_rest(final(self)) <= parser_rest(old(self)),
        decreases parser_rest(old(self)), 29int,
    {
        let mut args: Vec<Expr> = Vec::new();
        if !self.check(&TokenType::RightParen) {
            match self.expression() {
                Ok(e) => args.push(e),
                Err(e) => {
                    return Err(e);
                },
            }
            while self.match_one(&TokenType::Comma)
                invariant
                    parser_wf(self),
                    parser_tokens(self) == parser_tokens(old(self)),
                    parser_rest(self) <= parser_rest(old(self)),
                decreases parser_rest(self),
            {
                match self.expression() {
                    Ok(e) => args.push(e),
                    Err(e) => {
                        return Err(e);
                    },
                }
            }
        }
        match self.consume(&TokenType::RightParen, "Expected ')' after arguments") {
            Ok(()) => {},
            Err(e) => {
                return Err(e);
            },
        }
        Ok(Expr::Call { callee: Box::new(callee), args })
    }

    /// A literal, identifier, or parenthesized expression.
    fn primary(&mut self) -> (r: Result<Expr, LuaError>)
        requires
            parser_wf(old(self)),
        ensures
            parser_wf(final(self)),
            r matches Err(e) ==> e@ is ParseError,
            parser_tokens(final(self)) == parser_tokens(old(self)),
            parser_rest(final(self)) <= parser_rest(old(self)),
            r is Ok ==> parser_rest(final(self)) < parser_rest(old(self)),
        decreases parser_rest(old(self)), 13int,
    {
        match self.advance() {
            Some(token_type) => {
                match token_type {
                    TokenType::True => Ok(Expr::Literal(Value::Boolean(true))),
                    TokenType::False => Ok(Expr::Literal(Value::Boolean(false))),
                    TokenType::Nil => Ok(Expr::Literal(Value::Nil)),
                    TokenType::Number(n) => Ok(Expr::Literal(Value::Number(n))),
                    TokenType::Str(s) => Ok(Expr::Literal(Value::Str(s))),
                    TokenType::Identifier(name) => Ok(Expr::Identifier(name)),
                    TokenType::LeftParen => {
                        let expr = match self.expression() {
                            Ok(e) => e,
                            Err(e) => {
                                return Err(e);
                            },
                        };
                        match self.consume(&TokenType::RightParen, "Expected ')' after expression")
                        {
                            Ok(()) => Ok(expr),
                            Err(e) => Err(e),
                        }
                    },
                    _ => Err(self.err_here("Unexpected token")),
                }
            },
            None => Err(self.err_here("Unexpected end of input")),
        }
    }
}

} // verus!
