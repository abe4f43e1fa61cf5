//! The SQL parser: tokens in, statements out.
//!
//! A single-token-lookahead recursive-descent parser over the lexer.  Every
//! production consumes at least one token on success, and the lexer's
//! cursor only moves forward, so parsing terminates on any input.

use vstd::prelude::*;
use crate::ast::{ColumnDef, Expression, Statement};
use crate::lexer::{Lexer, Token};

verus! {

/// The parser: a lexer plus one token of lookahead.
pub struct Parser {
    lexer: Lexer,
    current_token: Token,
}

impl Parser {
    /// Characters of input not yet consumed by the lexer.
    pub closed spec fn rest(self) -> int {
        self.lexer.chars().len() - self.lexer.at()
    }

    /// Work remaining: unread characters, plus one for an unconsumed
    /// lookahead token.
    pub closed spec fn measure(self) -> int {
        self.rest() * 2 + if self.current_token is Eof {
            0int
        } else {
            1int
        }
    }

    /// The token under the one-token lookahead.
    pub closed spec fn lookahead(self) -> Token {
        self.current_token
    }

    /// The lexer is consistent and `Eof` only comes at the input's end.
    pub closed spec fn wf(self) -> bool {
        &&& self.lexer.wf()
        &&& (self.current_token is Eof ==> self.lexer.at() == self.lexer.chars().len())
    }

    /// A parser over `input`, with the first token already read.
    pub fn new(input: &str) -> (r: Parser)
        ensures
            r.wf(),
    {
        let mut lexer = Lexer::new(input);
        let current_token = lexer.next_token();
        Parser { lexer, current_token }
    }

    /// Reads the next lookahead token.
    fn advance(&mut self)
        requires
            old(self).wf(),
        ensures
            final(self).wf(),
            final(self).measure() <= old(self).measure(),
            !(old(self).current_token is Eof) ==> final(self).measure() < old(self).measure(),
    {
        self.current_token = self.lexer.next_token();
    }

    /// Consumes the lookahead when it has the expected token's shape.
    fn expect(&mut self, expected: Token) -> (r: Result<(), String>)
        requires
            old(self).wf(),
            !(expected is Eof),
        ensures
            final(self).wf(),
            final(self).measure() <= old(self).measure(),
            r is Ok ==> final(self).measure() < old(self).measure(),
    {
        let same = same_kind(&self.current_token, &expected);
        if same {
            proof {
                assert(!(self.current_token is Eof));
            }
            self.advance();
            Ok(())
        } else {
            Err("unexpected token".to_owned())
        }
    }

    /// Consumes and returns an identifier.
    fn parse_identifier(&mut self) -> (r: Result<String, String>)
        requires
            old(self).wf(),
        ensures
            final(self).wf(),
            final(self).measure() <= old(self).measure(),
            r matches Ok(s) ==> final(self).measure() < old(self).measure() && (old(
                self,
            ).current_token matches Token::Identifier(t) && s@ == t@),
    {
        match &self.current_token {
            Token::Identifier(s) => {
                let name = s.clone();
                self.advance();
                Ok(name)
            },
            _ => Err("expected an identifier".to_owned()),
        }
    }

    /// Parses one statement, chosen by its leading keyword.
    pub fn parse_statement(&mut self) -> (r: Result<Statement, String>)
        requires
            old(self).wf(),
        ensures
            final(self).wf(),
            r matches Ok(s) ==> match old(self).lookahead() {
                Token::Create => s is CreateTable,
                Token::Select => s is Select,
                Token::Insert => s is Insert,
                Token::Update => s is Update,
                Token::Delete => s is Delete,
                _ => false,
            },
    {
        match &self.current_token {
            Token::Create => self.parse_create_table(),
            Token::Select => self.parse_select(),
            Token::Insert => self.parse_insert(),
            Token::Update => self.parse_update(),
            Token::Delete => self.parse_delete(),
            _ => Err("unexpected statement".to_owned()),
        }
    }

    /// `CREATE TABLE name (col type, ...);`
    fn parse_create_table(&mut self) -> (r: Result<Statement, String>)
        requires
            old(self).wf(),
        ensures
            final(self).wf(),
            r matches Ok(s) ==> s matches Statement::CreateTable { columns, .. }
                && columns@.len() >= 1,
    {
        self.advance();
        match self.expect(Token::Table) {
            Ok(_) => {},
            Err(e) => {
                return Err(e);
            },
        }
        let name = match self.parse_identifier() {
            Ok(n) => n,
            Err(e) => {
                return Err(e);
            },
        };
        match self.expect(Token::LParen) {
            Ok(_) => {},
            Err(e) => {
                return Err(e);
            },
        }
        let mut columns: Vec<ColumnDef> = Vec::new();
        loop
            invariant
                self.wf(),
            ensures
                columns@.len() >= 1,
            decreases self.measure(),
        {
            let col_name = match self.parse_identifier() {
                Ok(n) => n,
                Err(e) => {
                    return Err(e);
                },
            };
            let col_type = match self.parse_identifier() {
                Ok(n) => n,
                Err(e) => {
                    return Err(e);
                },
            };
            columns.push(ColumnDef { name: col_name, col_type });
            if matches!(&self.current_token, Token::Comma) {
                self.advance();
            } else {
                break ;
            }
        }
        match self.expect(Token::RParen) {
            Ok(_) => {},
            Err(e) => {
                return Err(e);
            },
        }
        match self.expect(Token::Semicolon) {
            Ok(_) => {},
            Err(e) => {
                return Err(e);
            },
        }
        Ok(Statement::CreateTable { name, columns })
    }

    /// `SELECT cols FROM table [WHERE expr];`
    fn parse_select(&mut self) -> (r: Result<Statement, String>)
        requires
            old(self).wf(),
        ensures
            final(self).wf(),
            r matches Ok(s) ==> s matches Statement::Select { columns, .. } && columns@.len()
                >= 1,
    {
        self.advance();
        let mut columns: Vec<String> = Vec::new();
        if matches!(&self.current_token, Token::Star) {
            columns.push("*".to_owned());
            self.advance();
        } else {
            loop
                invariant
                    self.wf(),
                ensures
                    columns@.len() >= 1,
                decreases self.measure(),
            {
                let col = match self.parse_identifier() {
                    Ok(n) => n,
                    Err(e) => {
                        return Err(e);
                    },
                };
                columns.push(col);
                if matches!(&self.current_token, Token::Comma) {
                    self.advance();
                } else {
                    break ;
                }
            }
        }
        match self.expect(Token::From) {
            Ok(_) => {},
            Err(e) => {
                return Err(e);
            },
        }
        let table = match self.parse_identifier() {
            Ok(n) => n,
            Err(e) => {
                return Err(e);
            },
        };
        let mut filter: Option<Expression> = None;
        if matches!(&self.current_token, Token::Where) {
            self.advance();
            match self.parse_expression() {
                Ok(x) => {
                    filter = Some(x);
                },
                Err(e) => {
                    return Err(e);
                },
            }
        }
        match self.expect(Token::Semicolon) {
            Ok(_) => {},
            Err(e) => {
                return Err(e);
            },
        }
        Ok(Statement::Select { columns, from: table, filter })
    }

    /// `INSERT INTO table [(cols)] VALUES (exprs);`
    fn parse_insert(&mut self) -> (r: Result<Statement, String>)
        requires
            old(self).wf(),
        ensures
            final(self).wf(),
            r matches Ok(s) ==> s matches Statement::Insert { values, .. } && values@.len() >= 1,
    {
        self.advance();
        match self.expect(Token::Into) {
            Ok(_) => {},
            Err(e) => {
                return Err(e);
            },
        }
        let table = match self.parse_identifier() {
            Ok(n) => n,
            Err(e) => {
                return Err(e);
            },
        };
        let mut columns: Vec<String> = Vec::new();
        if matches!(&self.current_token, Token::LParen) {
            self.advance();
            loop
                invariant
                    self.wf(),
                decreases self.measure(),
            {
                let col = match self.parse_identifier() {
                    Ok(n) => n,
                    Err(e) => {
                        return Err(e);
                    },
                };
                columns.push(col);
                if matches!(&self.current_token, Token::Comma) {
                    self.advance();
                } else {
                    break ;
                }
            }
            match self.expect(Token::RParen) {
                Ok(_) => {},
                Err(e) => {
                    return Err(e);
                },
            }
        }
        match self.expect(Token::Values) {
            Ok(_) => {},
            Err(e) => {
                return Err(e);
            },
        }
        match self.expect(Token::LParen) {
            Ok(_) => {},
            Err(e) => {
                return Err(e);
            },
        }
        let mut values: Vec<Expression> = Vec::new();
        loop
            invariant
                self.wf(),
            ensures
                values@.len() >= 1,
            decreases self.measure(),
        {
            let val = match self.parse_expression() {
                Ok(x) => x,
                Err(e) => {
                    return Err(e);
                },
            };
            values.push(val);
            if matches!(&self.current_token, Token::Comma) {
                self.advance();
            } else {
                break ;
            }
        }
        match self.expect(Token::RParen) {
            Ok(_) => {},
            Err(e) => {
                return Err(e);
            },
        }
        match self.expect(Token::Semicolon) {
            Ok(_) => {},
            Err(e) => {
                return Err(e);
            },
        }
        Ok(Statement::Insert { table, columns, values })
    }

    /// `UPDATE table SET col = expr, ... [WHERE expr];`
    fn parse_update(&mut self) -> (r: Result<Statement, String>)
        requires
            old(self).wf(),
        ensures
            final(self).wf(),
            r matches Ok(s) ==> s matches Statement::Update { updates, .. } && updates@.len()
                >= 1,
    {
        self.advance();
        let table = match self.parse_identifier() {
            Ok(n) => n,
            Err(e) => {
                return Err(e);
            },
        };
        match self.expect(Token::SetKw) {
            Ok(_) => {},
            Err(e) => {
                return Err(e);
            },
        }
        let mut updates: Vec<(String, Expression)> = Vec::new();
        loop
            invariant
                self.wf(),
            ensures
                updates@.len() >= 1,
            decreases self.measure(),
        {
            let col = match self.parse_identifier() {
                Ok(n) => n,
                Err(e) => {
                    return Err(e);
                },
            };
            match self.expect(Token::Eq) {
                Ok(_) => {},
                Err(e) => {
                    return Err(e);
                },
            }
            let val = match self.parse_expression() {
                Ok(x) => x,
                Err(e) => {
                    return Err(e);
                },
            };
            updates.push((col, val));
            if matches!(&self.current_token, Token::Comma) {
                self.advance();
            } else {
                break ;
            }
        }
        let mut filter: Option<Expression> = None;
        if matches!(&self.current_token, Token::Where) {
            self.advance();
            match self.parse_expression() {
                Ok(x) => {
                    filter = Some(x);
                },
                Err(e) => {
                    return Err(e);
                },
            }
        }
        match self.expect(Token::Semicolon) {
            Ok(_) => {},
            Err(e) => {
                return Err(e);
            },
        }
        Ok(Statement::Update { table, updates, filter })
    }

    /// `DELETE FROM table [WHERE expr];`
    fn parse_delete(&mut self) -> (r: Result<Statement, String>)
        requires
            old(self).wf(),
        ensures
            final(self).wf(),
            r matches Ok(s) ==> s is Delete,
    {
        self.advance();
        match self.expect(Token::From) {
            Ok(_) => {},
            Err(e) => {
                return Err(e);
            },
        }
        let table = match self.parse_identifier() {
            Ok(n) => n,
            Err(e) => {
                return Err(e);
            },
        };
        let mut filter: Option<Expression> = None;
        if matches!(&self.current_token, Token::Where) {
            self.advance();
            match self.parse_expression() {
                Ok(x) => {
                    filter = Some(x);
                },
                Err(e) => {
                    return Err(e);
                },
            }
        }
        match self.expect(Token::Semicolon) {
            Ok(_) => {},
            Err(e) => {
                return Err(e);
            },
        }
        Ok(Statement::Delete { table, filter })
    }

    /// One atom — identifier, integer or string — or an equality of two
    /// atoms.
    fn parse_expression(&mut self) -> (r: Result<Expression, String>)
        requires
            old(self).wf(),
        ensures
            final(self).wf(),
            final(self).measure() <= old(self).measure(),
            r is Ok ==> final(self).measure() < old(self).measure(),
    {
        let left = match self.parse_atom() {
            Ok(x) => x,
            Err(e) => {
                return Err(e);
            },
        };
        if matches!(&self.current_token, Token::Eq) {
            self.advance();
            let right = match self.parse_atom() {
                Ok(x) => x,
                Err(e) => {
                    return Err(e);
                },
            };
            return Ok(
                Expression::BinaryOp {
                    left: Box::new(left),
                    op: "=".to_owned(),
                    right: Box::new(right),
                },
            );
        }
        Ok(left)
    }

    /// A single literal or identifier.
    fn parse_atom(&mut self) -> (r: Result<Expression, String>)
        requires
            old(self).wf(),
        ensures
            final(self).wf(),
            final(self).measure() <= old(self).measure(),
            r is Ok ==> final(self).measure() < old(self).measure(),
    {
        let x = match &self.current_token {
            Token::Identifier(s) => Expression::Identifier(s.clone()),
            Token::Integer(i) => Expression::Integer(*i),
            Token::StringLit(s) => Expression::Literal(s.clone()),
            _ => {
                return Err("expected an expression".to_owned());
            },
        };
        self.advance();
        Ok(x)
    }
}

/// Whether two tokens are the same kind, payloads aside.
fn same_kind(a: &Token, b: &Token) -> (r: bool)
    ensures
        r ==> (a is Eof <==> b is Eof),
{
    match (a, b) {
        (Token::Create, Token::Create) => true,
        (Token::Table, Token::Table) => true,
        (Token::Select, Token::Select) => true,
        (Token::From, Token::From) => true,
        (Token::Where, Token::Where) => true,
        (Token::Insert, Token::Insert) => true,
        (Token::Into, Token::Into) => true,
        (Token::Values, Token::Values) => true,
        (Token::Update, Token::Update) => true,
        (Token::SetKw, Token::SetKw) => true,
        (Token::Delete, Token::Delete) => true,
        (Token::Star, Token::Star) => true,
        (Token::Comma, Token::Comma) => true,
        (Token::Semicolon, Token::Semicolon) => true,
        (Token::LParen, Token::LParen) => true,
        (Token::RParen, Token::RParen) => true,
        (Token::Eq, Token::Eq) => true,
        (Token::Identifier(_), Token::Identifier(_)) => true,
        (Token::Integer(_), Token::Integer(_)) => true,
        (Token::StringLit(_), Token::StringLit(_)) => true,
        (Token::Eof, Token::Eof) => true,
        _ => false,
    }
}

} // verus!
