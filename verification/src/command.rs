//! Splitting a line of input into a shell command or a statement.
//!
//! A line is trimmed of surrounding whitespace; an empty line is `Empty`, a
//! line starting with a dot is a meta command, anything else is a
//! statement to hand to the parser.

use vstd::prelude::*;
use crate::text::{chars_of_str, is_space, is_space_char, string_of_chars};

verus! {

/// One line of input, classified.
#[derive(Debug)]
pub enum Command {
    Meta(String),
    Statement(String),
    Empty,
}

/// `[a, b)` is `s` with its surrounding whitespace trimmed: non-empty,
/// flush against non-space characters, with only whitespace outside.
pub open spec fn trim_range(s: Seq<char>, a: int, b: int) -> bool {
    &&& 0 <= a < b <= s.len()
    &&& !is_space_char(s[a])
    &&& !is_space_char(s[b - 1])
    &&& forall|i: int| 0 <= i < a ==> is_space_char(#[trigger] s[i])
    &&& forall|i: int| b <= i < s.len() ==> is_space_char(#[trigger] s[i])
}

/// Classifies one line: `Empty` when only whitespace, `Meta` when the
/// trimmed text starts with a dot, else `Statement`; the payload is the
/// trimmed text.
pub fn parse_command(input: &str) -> (r: Command)
    ensures
        match r {
            Command::Empty => forall|i: int|
                0 <= i < input@.len() ==> is_space_char(#[trigger] input@[i]),
            Command::Meta(s) => exists|a: int, b: int|
                trim_range(input@, a, b) && s@ == input@.subrange(a, b) && input@[a] == '.',
            Command::Statement(s) => exists|a: int, b: int|
                trim_range(input@, a, b) && s@ == input@.subrange(a, b) && input@[a] != '.',
        },
{
    let chars = chars_of_str(input);
    let n = chars.len();
    let mut a: usize = 0;
    while a < n && is_space(chars[a])
        invariant
            a <= n,
            n == chars@.len(),
            chars@ == input@,
            forall|i: int| 0 <= i < a ==> is_space_char(#[trigger] chars@[i]),
        decreases n - a,
    {
        a = a + 1;
    }
    if a == n {
        return Command::Empty;
    }
    let mut b: usize = n;
    while b > a + 1 && is_space(chars[b - 1])
        invariant
            a < b <= n,
            n == chars@.len(),
            chars@ == input@,
            forall|i: int| b <= i < n ==> is_space_char(#[trigger] chars@[i]),
        decreases b,
    {
        b = b - 1;
    }
    proof {
        assert(!is_space_char(chars@[a as int]));
        assert(!is_space_char(chars@[b as int - 1]));
        assert(trim_range(input@, a as int, b as int));
    }
    let mut trimmed: Vec<char> = Vec::new();
    let mut i: usize = a;
    while i < b
        invariant
            a <= i <= b <= n,
            n == chars@.len(),
            chars@ == input@,
            trimmed@ == chars@.subrange(a as int, i as int),
        decreases b - i,
    {
        trimmed.push(chars[i]);
        i = i + 1;
        proof {
            assert(trimmed@ =~= chars@.subrange(a as int, i as int));
        }
    }
    let text = string_of_chars(&trimmed);
    if chars[a] == '.' {
        Command::Meta(text)
    } else {
        Command::Statement(text)
    }
}

} // verus!
