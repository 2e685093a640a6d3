//! The lexer: source text to an ordered sequence of raw words.
//!
//! Words split on spaces and newlines, except inside a string literal
//! (delimited by `"`), where a space or newline is kept as a literal
//! space and the word continues across it. `//` begins a line comment
//! that consumes through the next newline; by design it does so even
//! inside a string literal. Quote characters toggle string-literal mode
//! and stay in the raw word for the classifier to strip. A trailing
//! partial word is flushed only when it is not whitespace throughout.
//!
//! Whitespace here means space, newline, tab or carriage return.

use vstd::prelude::*;
use crate::chars::chars_to_string;

verus! {

/// A whitespace character: space, newline, tab or carriage return.
pub open spec fn spec_is_ws(c: char) -> bool {
    c == ' ' || c == '\n' || c == '\t' || c == '\r'
}

/// Whether every character of `s` is whitespace.
pub open spec fn spec_ws_only(s: Seq<char>) -> bool {
    forall|j: int| 0 <= j < s.len() ==> spec_is_ws(s[j])
}

/// The words that lexing emits from position `i` onward, given the word
/// accumulated so far and the string-literal and comment states.
pub open spec fn spec_lex_at(
    cs: Seq<char>,
    i: int,
    cur: Seq<char>,
    in_str: bool,
    in_com: bool,
) -> Seq<Seq<char>>
    decreases cs.len() - i,
{
    if i >= cs.len() {
        if spec_ws_only(cur) {
            seq![]
        } else {
            seq![cur]
        }
    } else {
        let c = cs[i];
        if c == '/' && i + 1 < cs.len() && cs[i + 1] == '/' {
            spec_lex_at(cs, i + 1, cur, in_str, true)
        } else if in_com {
            spec_lex_at(cs, i + 1, cur, in_str, c != '\n')
        } else if c == ' ' || c == '\n' {
            if spec_ws_only(cur) {
                spec_lex_at(cs, i + 1, cur, in_str, in_com)
            } else if !in_str {
                seq![cur] + spec_lex_at(cs, i + 1, seq![], in_str, in_com)
            } else {
                spec_lex_at(cs, i + 1, cur.push(' '), in_str, in_com)
            }
        } else if c == '"' {
            spec_lex_at(cs, i + 1, cur.push(c), !in_str, in_com)
        } else {
            spec_lex_at(cs, i + 1, cur.push(c), in_str, in_com)
        }
    }
}

/// The words that lexing a whole text emits.
pub open spec fn spec_lex(cs: Seq<char>) -> Seq<Seq<char>> {
    spec_lex_at(cs, 0, seq![], false, false)
}

/// The character sequences behind a vector of strings.
pub open spec fn views_of(tokens: Seq<String>) -> Seq<Seq<char>> {
    tokens.map_values(|s: String| s@)
}

/// Whether the text ends inside an unterminated string literal: the
/// string-literal state after reading all of `cs` from position `i`.
pub open spec fn spec_in_string_at(cs: Seq<char>, i: int, in_str: bool, in_com: bool) -> bool
    decreases cs.len() - i,
{
    if i >= cs.len() {
        in_str
    } else {
        let c = cs[i];
        if c == '/' && i + 1 < cs.len() && cs[i + 1] == '/' {
            spec_in_string_at(cs, i + 1, in_str, true)
        } else if in_com {
            spec_in_string_at(cs, i + 1, in_str, c != '\n')
        } else if c == '"' {
            spec_in_string_at(cs, i + 1, !in_str, in_com)
        } else {
            spec_in_string_at(cs, i + 1, in_str, in_com)
        }
    }
}

/// Whether lexing the whole text ends inside an unterminated string
/// literal.
pub open spec fn spec_unterminated(cs: Seq<char>) -> bool {
    spec_in_string_at(cs, 0, false, false)
}

/// Whether every character of `v` is whitespace.
fn ws_only(v: &Vec<char>) -> (b: bool)
    ensures
        b == spec_ws_only(v@),
{
    let mut i: usize = 0;
    while i < v.len()
        invariant
            i <= v@.len(),
            forall|j: int| 0 <= j < i ==> spec_is_ws(v@[j]),
        decreases v@.len() - i,
    {
        let c = v[i];
        if !(c == ' ' || c == '\n' || c == '\t' || c == '\r') {
            return false;
        }
        i = i + 1;
    }
    true
}

/// Splits source text into raw words, exactly as [`spec_lex`] describes.
pub fn lex_characters(characters: &Vec<char>) -> (tokens: Vec<String>)
    ensures
        views_of(tokens@) == spec_lex(characters@),
{
    let ghost cs = characters@;
    let n: usize = characters.len();
    let mut tokens: Vec<String> = Vec::new();
    let mut cur: Vec<char> = Vec::new();
    let mut in_str: bool = false;
    let mut in_com: bool = false;
    let mut i: usize = 0;
    while i < n
        invariant
            i <= n,
            n == cs.len(),
            cs == characters@,
            spec_lex(cs) == views_of(tokens@) + spec_lex_at(cs, i as int, cur@, in_str, in_com),
        decreases n - i,
    {
        let ghost tokens0 = tokens@;
        let ghost cur0 = cur@;
        let c = characters[i];
        if c == '/' && i + 1 < n && characters[i + 1] == '/' {
            in_com = true;
        } else if in_com {
            if c == '\n' {
                in_com = false;
            }
        } else if c == ' ' || c == '\n' {
            if ws_only(&cur) {
                // A word of nothing but whitespace is not emitted; it is
                // kept and continues into the next word.
            } else if !in_str {
                tokens.push(chars_to_string(&cur));
                cur = Vec::new();
                proof {
                    assert(views_of(tokens@) =~= views_of(tokens0).push(cur0));
                    assert(views_of(tokens0).push(cur0)
                        + spec_lex_at(cs, i + 1 as int, cur@, in_str, in_com) =~= views_of(
                        tokens0,
                    ) + (seq![cur0] + spec_lex_at(cs, i + 1 as int, cur@, in_str, in_com)));
                }
            } else {
                cur.push(' ');
            }
        } else if c == '"' {
            in_str = !in_str;
            cur.push('"');
        } else {
            cur.push(c);
        }
        i = i + 1;
    }
    if !ws_only(&cur) {
        let ghost tokens0 = tokens@;
        let ghost cur0 = cur@;
        tokens.push(chars_to_string(&cur));
        proof {
            assert(views_of(tokens@) =~= views_of(tokens0).push(cur0));
            assert(views_of(tokens0).push(cur0) =~= views_of(tokens0) + seq![cur0]);
        }
    } else {
        proof {
            assert(views_of(tokens@) + seq![] =~= views_of(tokens@));
        }
    }
    tokens
}

/// Whether the text ends inside an unterminated string literal, exactly
/// as [`spec_unterminated`] describes.
pub fn has_unterminated_literal(characters: &Vec<char>) -> (b: bool)
    ensures
        b == spec_unterminated(characters@),
{
    let ghost cs = characters@;
    let n: usize = characters.len();
    let mut in_str: bool = false;
    let mut in_com: bool = false;
    let mut i: usize = 0;
    while i < n
        invariant
            i <= n,
            n == cs.len(),
            cs == characters@,
            spec_unterminated(cs) == spec_in_string_at(cs, i as int, in_str, in_com),
        decreases n - i,
    {
        let c = characters[i];
        if c == '/' && i + 1 < n && characters[i + 1] == '/' {
            in_com = true;
        } else if in_com {
            if c == '\n' {
                in_com = false;
            }
        } else if c == '"' {
            in_str = !in_str;
        }
        i = i + 1;
    }
    in_str
}

} // verus!
