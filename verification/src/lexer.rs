//! The SQL lexer: characters in, tokens out.
//!
//! Keywords are recognized case-insensitively (ASCII).  Identifiers keep
//! their original spelling.  Integer literals that overflow a 64-bit value
//! fall back to 0, string literals run between single quotes, and unknown
//! characters are skipped.

use vstd::prelude::*;
use crate::text::{
    chars_of_str, digit_val, digits_val, eq_keyword, is_digit, is_digit_char, is_ident,
    is_ident_char, is_space, is_space_char, matches_keyword, string_of_chars,
};

verus! {

/// A string literal's span: after the opening quote at `quote_at`, the
/// text `s` runs up to `e`, every character before `e` is not a quote, `e`
/// carries the closing quote or is the input's end, and the cursor `at`
/// ends just past it.
pub open spec fn lit_span(chars: Seq<char>, quote_at: int, e: int, s: Seq<char>, at: int) -> bool {
    &&& quote_at + 1 <= e <= chars.len()
    &&& s == chars.subrange(quote_at + 1, e)
    &&& forall|i: int| quote_at + 1 <= i < e ==> chars[i] != '\''
    &&& (e == chars.len() || chars[e] == '\'')
    &&& at == if e < chars.len() {
        e + 1
    } else {
        e
    }
}


/// A character that begins a token: a symbol, a quote, a digit, or an
/// identifier character.  Everything else — whitespace included — is
/// passed over by the scanner.
pub open spec fn token_start(c: char) -> bool {
    ||| c == '(' || c == ')' || c == ',' || c == ';' || c == '*' || c == '='
    ||| c == '\''
    ||| is_digit_char(c)
    ||| is_ident_char(c)
}

/// The scanner passes over `from .. i`: no token starts there.
pub open spec fn skipped_to(chars: Seq<char>, from: int, i: int) -> bool {
    &&& from <= i <= chars.len()
    &&& forall|j: int| from <= j < i ==> !token_start(#[trigger] chars[j])
}

/// The token a digit run starting at `i` yields, and the cursor after it:
/// the run is maximal, and its value reads as 0 past the 64-bit range.
pub open spec fn number_scanned(chars: Seq<char>, i: int, r: Token, at2: int) -> bool {
    &&& i < at2 <= chars.len()
    &&& forall|j: int| i <= j < at2 ==> is_digit_char(#[trigger] chars[j])
    &&& (at2 == chars.len() || !is_digit_char(chars[at2]))
    &&& r matches Token::Integer(v) && (if digits_val(chars.subrange(i, at2)) <= i64::MAX {
        v == digits_val(chars.subrange(i, at2))
    } else {
        v == 0
    })
}

/// The token the word `w` yields: its keyword (matched case-insensitively),
/// else an identifier spelled exactly `w`.
pub open spec fn keyword_or_ident(w: Seq<char>, r: Token) -> bool {
    if matches_keyword(w, "CREATE"@) {
        r is Create
    } else if matches_keyword(w, "TABLE"@) {
        r is Table
    } else if matches_keyword(w, "SELECT"@) {
        r is Select
    } else if matches_keyword(w, "FROM"@) {
        r is From
    } else if matches_keyword(w, "WHERE"@) {
        r is Where
    } else if matches_keyword(w, "INSERT"@) {
        r is Insert
    } else if matches_keyword(w, "INTO"@) {
        r is Into
    } else if matches_keyword(w, "VALUES"@) {
        r is Values
    } else if matches_keyword(w, "UPDATE"@) {
        r is Update
    } else if matches_keyword(w, "SET"@) {
        r is SetKw
    } else if matches_keyword(w, "DELETE"@) {
        r is Delete
    } else {
        r matches Token::Identifier(s) && s@ == w
    }
}

/// The token a word starting at `i` yields, and the cursor after it: the
/// maximal identifier-character run, read as a keyword or an identifier.
pub open spec fn ident_scanned(chars: Seq<char>, i: int, r: Token, at2: int) -> bool {
    &&& i < at2 <= chars.len()
    &&& forall|j: int| i <= j < at2 ==> is_ident_char(#[trigger] chars[j])
    &&& (at2 == chars.len() || !is_ident_char(chars[at2]))
    &&& keyword_or_ident(chars.subrange(i, at2), r)
}

/// The token scanned at the token start `i`, and the cursor after it.
pub open spec fn token_scanned(chars: Seq<char>, i: int, r: Token, at2: int) -> bool {
    if chars[i] == '(' {
        r is LParen && at2 == i + 1
    } else if chars[i] == ')' {
        r is RParen && at2 == i + 1
    } else if chars[i] == ',' {
        r is Comma && at2 == i + 1
    } else if chars[i] == ';' {
        r is Semicolon && at2 == i + 1
    } else if chars[i] == '*' {
        r is Star && at2 == i + 1
    } else if chars[i] == '=' {
        r is Eq && at2 == i + 1
    } else if chars[i] == '\'' {
        r matches Token::StringLit(s) && (exists|e: int| lit_span(chars, i, e, s@, at2))
    } else if is_digit_char(chars[i]) {
        number_scanned(chars, i, r, at2)
    } else {
        ident_scanned(chars, i, r, at2)
    }
}

/// Whitespace never starts a token.
proof fn lemma_space_not_token_start(c: char)
    requires
        is_space_char(c),
    ensures
        !token_start(c),
{
}

/// One lexical token.
#[derive(Debug)]
pub enum Token {
    Create,
    Table,
    Select,
    From,
    Where,
    Insert,
    Into,
    Values,
    Update,
    SetKw,
    Delete,
    Star,
    Comma,
    Semicolon,
    LParen,
    RParen,
    Eq,
    Identifier(String),
    Integer(i64),
    StringLit(String),
    Eof,
}

/// The lexer: the input characters and a cursor.
pub struct Lexer {
    input: Vec<char>,
    pos: usize,
}

impl Lexer {
    /// The input characters.
    pub closed spec fn chars(self) -> Seq<char> {
        self.input@
    }

    /// The cursor: how many characters have been consumed.
    pub closed spec fn at(self) -> int {
        self.pos as int
    }

    /// The cursor never passes the end.
    pub open spec fn wf(self) -> bool {
        0 <= self.at() <= self.chars().len()
    }

    /// A lexer at the start of `input`.
    pub fn new(input: &str) -> (r: Lexer)
        ensures
            r.wf(),
            r.chars() == input@,
            r.at() == 0,
    {
        Lexer { input: chars_of_str(input), pos: 0 }
    }

    /// The character under the cursor, or `None` at the end.
    fn peek(&self) -> (r: Option<char>)
        requires
            self.wf(),
        ensures
            match r {
                Some(c) => self.at() < self.chars().len() && c == self.chars()[self.at()],
                None => self.at() == self.chars().len(),
            },
    {
        if self.pos >= self.input.len() {
            None
        } else {
            Some(self.input[self.pos])
        }
    }

    /// Consumes and returns the character under the cursor.
    fn advance(&mut self) -> (r: Option<char>)
        requires
            old(self).wf(),
        ensures
            final(self).wf(),
            final(self).chars() == old(self).chars(),
            match r {
                Some(c) => old(self).at() < old(self).chars().len() && c == old(self).chars()[old(
                    self,
                ).at()] && final(self).at() == old(self).at() + 1,
                None => old(self).at() == old(self).chars().len() && final(self).at() == old(
                    self,
                ).at(),
            },
    {
        if self.pos >= self.input.len() {
            None
        } else {
            let c = self.input[self.pos];
            self.pos = self.pos + 1;
            Some(c)
        }
    }

    /// Moves the cursor past any whitespace.
    fn skip_whitespace(&mut self)
        requires
            old(self).wf(),
        ensures
            final(self).wf(),
            final(self).chars() == old(self).chars(),
            old(self).at() <= final(self).at(),
            forall|i: int|
                old(self).at() <= i < final(self).at() ==> is_space_char(
                    #[trigger] final(self).chars()[i],
                ),
            final(self).at() == final(self).chars().len() || !is_space_char(
                final(self).chars()[final(self).at()],
            ),
    {
        loop
            invariant
                self.wf(),
                self.chars() == old(self).chars(),
                old(self).at() <= self.at(),
                forall|i: int|
                    old(self).at() <= i < self.at() ==> is_space_char(#[trigger] self.chars()[i]),
            ensures
                self.at() == self.chars().len() || !is_space_char(self.chars()[self.at()]),
            decreases self.chars().len() - self.at(),
        {
            match self.peek() {
                Some(c) => {
                    if is_space(c) {
                        self.advance();
                    } else {
                        break ;
                    }
                },
                None => {
                    break ;
                },
            }
        }
    }

    /// Reads an identifier or keyword starting at the cursor.
    fn read_identifier(&mut self) -> (r: Token)
        requires
            old(self).wf(),
            old(self).at() < old(self).chars().len(),
            is_ident_char(old(self).chars()[old(self).at()]),
        ensures
            final(self).wf(),
            final(self).chars() == old(self).chars(),
            old(self).at() < final(self).at(),
            !(r is Eof),
            ident_scanned(old(self).chars(), old(self).at(), r, final(self).at()),
    {
        let ghost start = self.at();
        let mut ident: Vec<char> = Vec::new();
        loop
            invariant
                self.wf(),
                self.chars() == old(self).chars(),
                0 <= start <= self.at(),
                start < self.chars().len(),
                is_ident_char(self.chars()[start]),
                forall|i: int| start <= i < self.at() ==> is_ident_char(#[trigger] self.chars()[i]),
                ident@ == self.chars().subrange(start, self.at()),
            ensures
                start < self.at(),
                self.at() == self.chars().len() || !is_ident_char(self.chars()[self.at()]),
            decreases self.chars().len() - self.at(),
        {
            match self.peek() {
                Some(c) => {
                    if is_ident(c) {
                        ident.push(c);
                        self.advance();
                        proof {
                            assert(ident@ =~= self.chars().subrange(start, self.at()));
                        }
                    } else {
                        break ;
                    }
                },
                None => {
                    break ;
                },
            }
        }
        if eq_keyword(&ident, "CREATE") {
            Token::Create
        } else if eq_keyword(&ident, "TABLE") {
            Token::Table
        } else if eq_keyword(&ident, "SELECT") {
            Token::Select
        } else if eq_keyword(&ident, "FROM") {
            Token::From
        } else if eq_keyword(&ident, "WHERE") {
            Token::Where
        } else if eq_keyword(&ident, "INSERT") {
            Token::Insert
        } else if eq_keyword(&ident, "INTO") {
            Token::Into
        } else if eq_keyword(&ident, "VALUES") {
            Token::Values
        } else if eq_keyword(&ident, "UPDATE") {
            Token::Update
        } else if eq_keyword(&ident, "SET") {
            Token::SetKw
        } else if eq_keyword(&ident, "DELETE") {
            Token::Delete
        } else {
            Token::Identifier(string_of_chars(&ident))
        }
    }

    /// Reads a decimal literal starting at the cursor.  A value past the
    /// 64-bit range reads as 0.
    fn read_number(&mut self) -> (r: Token)
        requires
            old(self).wf(),
            old(self).at() < old(self).chars().len(),
            is_digit_char(old(self).chars()[old(self).at()]),
        ensures
            final(self).wf(),
            final(self).chars() == old(self).chars(),
            old(self).at() < final(self).at(),
            number_scanned(old(self).chars(), old(self).at(), r, final(self).at()),
    {
        let ghost start = self.at();
        let mut acc: i64 = 0;
        let mut over: bool = false;
        loop
            invariant
                self.wf(),
                self.chars() == old(self).chars(),
                0 <= start <= self.at(),
                start < self.chars().len(),
                is_digit_char(self.chars()[start]),
                forall|i: int| start <= i < self.at() ==> is_digit_char(#[trigger] self.chars()[i]),
                0 <= digits_val(self.chars().subrange(start, self.at())),
                !over ==> acc == digits_val(self.chars().subrange(start, self.at())),
                over ==> digits_val(self.chars().subrange(start, self.at())) > i64::MAX,
                acc >= 0,
            ensures
                start < self.at(),
                self.at() == self.chars().len() || !is_digit_char(self.chars()[self.at()]),
            decreases self.chars().len() - self.at(),
        {
            match self.peek() {
                Some(c) => {
                    if is_digit(c) {
                        let ghost before = self.chars().subrange(start, self.at());
                        let d = (c as u32 - 48) as i64;
                        self.advance();
                        proof {
                            let now = self.chars().subrange(start, self.at());
                            assert(now.drop_last() =~= before);
                            assert(now.last() == c);
                            assert(digits_val(now) == digits_val(before) * 10 + digit_val(c));
                        }
                        if !over && acc <= (9223372036854775807i64 - d) / 10 {
                            acc = acc * 10 + d;
                        } else {
                            proof {
                                if !over {
                                    let m: int = 9223372036854775807 - digit_val(c);
                                    assert(m == 10 * (m / 10) + m % 10) by {
                                        vstd::arithmetic::div_mod::lemma_fundamental_div_mod(m, 10);
                                    }
                                    assert(acc * 10 + digit_val(c) > i64::MAX);
                                }
                            }
                            over = true;
                        }
                    } else {
                        break ;
                    }
                },
                None => {
                    break ;
                },
            }
        }
        if over {
            Token::Integer(0)
        } else {
            Token::Integer(acc)
        }
    }

    /// Reads a single-quoted string literal; the cursor sits on the opening
    /// quote.  An unterminated literal runs to the end of the input.
    fn read_string(&mut self) -> (r: (Token, Ghost<int>))
        requires
            old(self).wf(),
            old(self).at() < old(self).chars().len(),
        ensures
            final(self).wf(),
            final(self).chars() == old(self).chars(),
            old(self).at() < final(self).at(),
            r.0 matches Token::StringLit(s) && lit_span(
                old(self).chars(),
                old(self).at(),
                r.1@,
                s@,
                final(self).at(),
            ),
    {
        let ghost qpos = self.at();
        self.advance();
        let ghost start = self.at();
        let mut s: Vec<char> = Vec::new();
        loop
            invariant_except_break
                s@ == self.chars().subrange(start, self.at()),
                forall|i: int| start <= i < self.at() ==> self.chars()[i] != '\'',
            invariant
                self.wf(),
                self.chars() == old(self).chars(),
                qpos == old(self).at(),
                start == qpos + 1,
                0 <= start <= self.at(),
            ensures
                exists|e: int| lit_span(self.chars(), qpos, e, s@, self.at()),
            decreases self.chars().len() - self.at(),
        {
            match self.peek() {
                Some(c) => {
                    if c == '\'' {
                        let ghost e = self.at();
                        self.advance();
                        proof {
                            assert(lit_span(self.chars(), qpos, e, s@, self.at()));
                        }
                        break ;
                    }
                    s.push(c);
                    self.advance();
                    proof {
                        assert(s@ =~= self.chars().subrange(start, self.at()));
                    }
                },
                None => {
                    proof {
                        assert(lit_span(self.chars(), qpos, self.at(), s@, self.at()));
                    }
                    break ;
                },
            }
        }
        let text = string_of_chars(&s);
        let ghost e = choose|e: int| lit_span(self.chars(), qpos, e, s@, self.at());
        proof {
            assert(lit_span(old(self).chars(), old(self).at(), e, text@, self.at()));
        }
        (Token::StringLit(text), Ghost(e))
    }

    /// The next token of the input: whitespace and unknown characters are
    /// passed over, and the first token-starting character determines the
    /// token — see [`token_scanned`].  The cursor always moves forward, and
    /// `Eof` comes exactly when nothing token-starting remains.
    pub fn next_token(&mut self) -> (r: Token)
        requires
            old(self).wf(),
        ensures
            final(self).wf(),
            final(self).chars() == old(self).chars(),
            old(self).at() <= final(self).at(),
            r is Eof ==> final(self).at() == final(self).chars().len() && skipped_to(
                old(self).chars(),
                old(self).at(),
                old(self).chars().len() as int,
            ),
            !(r is Eof) ==> old(self).at() < final(self).at() && (exists|i: int|
                #[trigger] skipped_to(old(self).chars(), old(self).at(), i) && i < old(
                    self,
                ).chars().len() && token_start(old(self).chars()[i]) && token_scanned(
                    old(self).chars(),
                    i,
                    r,
                    final(self).at(),
                )),
        decreases old(self).chars().len() - old(self).at(),
    {
        self.skip_whitespace();
        let ghost sig = self.at();
        proof {
            assert(skipped_to(self.chars(), old(self).at(), sig)) by {
                assert forall|j: int| old(self).at() <= j < sig implies !token_start(
                    #[trigger] self.chars()[j],
                ) by {
                    lemma_space_not_token_start(self.chars()[j]);
                }
            }
        }
        match self.peek() {
            None => Token::Eof,
            Some(c) => {
                if c == '(' {
                    self.advance();
                    Token::LParen
                } else if c == ')' {
                    self.advance();
                    Token::RParen
                } else if c == ',' {
                    self.advance();
                    Token::Comma
                } else if c == ';' {
                    self.advance();
                    Token::Semicolon
                } else if c == '*' {
                    self.advance();
                    Token::Star
                } else if c == '=' {
                    self.advance();
                    Token::Eq
                } else if c == '\'' {
                    let (t, _span_end) = self.read_string();
                    proof {
                        assert(token_scanned(self.chars(), sig, t, self.at()));
                    }
                    t
                } else if is_digit(c) {
                    self.read_number()
                } else if is_ident(c) {
                    self.read_identifier()
                } else {
                    // Skip the unknown character and try again.
                    proof {
                        assert(!token_start(c));
                    }
                    self.advance();
                    let ghost mid = self.at();
                    let t = self.next_token();
                    proof {
                        if t is Eof {
                            assert(skipped_to(self.chars(), mid, self.chars().len() as int));
                            assert(skipped_to(self.chars(), old(self).at(), self.chars().len() as int));
                        } else {
                            let i = choose|i: int|
                                #[trigger] skipped_to(self.chars(), mid, i) && i
                                    < self.chars().len() && token_start(self.chars()[i])
                                    && token_scanned(self.chars(), i, t, self.at());
                            assert(skipped_to(self.chars(), old(self).at(), i));
                        }
                    }
                    t
                }
            },
        }
    }
}

} // verus!
