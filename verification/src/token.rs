//! Tokens and the token classifier.
//!
//! A raw word coming out of the lexer is classified into a [`Token`] by
//! [`consume_token`], following an ordered-priority dispatch: string
//! literal, label, braces, `=`, `:`, number literal, boolean literal,
//! reserved words, and finally a possible identifier. The whole dispatch
//! is captured by the spec function [`spec_classify`].

use vstd::prelude::*;
use crate::chars::chars_eq_str;
use crate::chars::chars_range_to_string;
use crate::chars::chars_to_string;
use crate::chars::str_to_chars;

verus! {

/// The kind of a classified token.
#[derive(PartialEq, Eq, Structural, Clone, Copy, Debug)]
pub enum TokenType {
    /// The reserved word `type`, starting a type declaration.
    TypeIdentifier,
    /// The reserved word `list` (tokenized, but no grammar consumes it).
    TypeList,
    /// A `[Name]` label setting the ambient type of later objects.
    Label,
    /// A detached `:` between an object name and its type.
    TypeAssignment,
    /// A quoted string literal, with the quotes already stripped.
    StringLiteral,
    /// A word starting with a digit or `#`.
    NumberLiteral,
    /// `true` or `false`, normalized to canonical text.
    BoolLiteral,
    /// The `=` sign.
    Equals,
    /// An opening `{`.
    CurlyBracketStart,
    /// A closing `}`.
    CurlyBracketEnd,
    /// The reserved word `bool`.
    TypeBool,
    /// The reserved word `string`.
    TypeString,
    /// The reserved word `number`.
    TypeNumber,
    /// The reserved word `map` (tokenized, but no grammar consumes it).
    TypeMap,
    /// Anything else: a name, with one trailing `:` stripped.
    PossibleIdentifier,
    /// The reserved word `use`, starting an import directive.
    Import,
    /// The reserved word `from`, inside an import directive.
    FromKeyword,
    /// The synthetic token ending every token sequence.
    Eof,
    /// The placeholder kind of a blank field's value.
    Uninitialized,
}

/// One classified token: its text and its kind.
#[derive(Clone, Debug)]
pub struct Token {
    pub token: String,
    pub tokentype: TokenType,
}

/// The mathematical model of a token: its text as a character sequence
/// and its kind.
#[verifier::ext_equal]
pub ghost struct TokenModel {
    pub text: Seq<char>,
    pub kind: TokenType,
}

impl View for Token {
    type V = TokenModel;

    open spec fn view(&self) -> TokenModel {
        TokenModel { text: self.token@, kind: self.tokentype }
    }
}

impl Token {
    /// A copy of this token, equal under the model.
    pub fn duplicate(&self) -> (t: Token)
        ensures
            t@ == self@,
    {
        Token { token: self.token.clone(), tokentype: self.tokentype }
    }
}

/// A decimal digit.
pub open spec fn spec_is_digit(c: char) -> bool {
    48 <= c as u32 <= 57
}

/// The text of a string-literal word: one leading quote stripped, one
/// trailing quote stripped if present, and a trailing comma immediately
/// before that trailing quote stripped as well.
pub open spec fn spec_strip_string_word(w: Seq<char>) -> Seq<char>
    recommends
        w.len() > 0,
{
    let body = w.subrange(1, w.len() as int);
    if body.len() > 0 && body.last() == '"' {
        let inner = body.drop_last();
        if inner.len() > 0 && inner.last() == ',' {
            inner.drop_last()
        } else {
            inner
        }
    } else {
        body
    }
}

/// A word with one trailing occurrence of `c` stripped, if present.
pub open spec fn spec_strip_trailing(w: Seq<char>, c: char) -> Seq<char> {
    if w.len() > 0 && w.last() == c {
        w.drop_last()
    } else {
        w
    }
}

/// The ordered-priority classification of one raw word, first match wins:
/// string literal, label, braces, `=`, `:`, number, boolean, reserved
/// word, and finally a possible identifier.
pub open spec fn spec_classify(w: Seq<char>) -> TokenModel {
    if w.len() > 0 && w[0] == '"' {
        TokenModel { text: spec_strip_string_word(w), kind: TokenType::StringLiteral }
    } else if w.len() > 0 && w[0] == '[' {
        TokenModel { text: w, kind: TokenType::Label }
    } else if w.len() > 0 && w[0] == '{' {
        TokenModel { text: w, kind: TokenType::CurlyBracketStart }
    } else if w.len() > 0 && w[0] == '}' {
        TokenModel { text: w, kind: TokenType::CurlyBracketEnd }
    } else if w.len() > 0 && w[0] == '=' {
        TokenModel { text: w, kind: TokenType::Equals }
    } else if w.len() > 0 && w[0] == ':' {
        TokenModel { text: w, kind: TokenType::TypeAssignment }
    } else if w.len() > 0 && (spec_is_digit(w[0]) || w[0] == '#') {
        TokenModel { text: spec_strip_trailing(w, ','), kind: TokenType::NumberLiteral }
    } else if w == "true"@ {
        TokenModel { text: "true"@, kind: TokenType::BoolLiteral }
    } else if w.len() >= 4 && w[0] == 'f' && w[1] == 'a' && w[2] == 'l' && w[3] == 's' {
        TokenModel { text: "false"@, kind: TokenType::BoolLiteral }
    } else if w == "type"@ {
        TokenModel { text: w, kind: TokenType::TypeIdentifier }
    } else if w == "number"@ {
        TokenModel { text: w, kind: TokenType::TypeNumber }
    } else if w == "bool"@ {
        TokenModel { text: w, kind: TokenType::TypeBool }
    } else if w == "string"@ {
        TokenModel { text: w, kind: TokenType::TypeString }
    } else if w == "map"@ {
        TokenModel { text: w, kind: TokenType::TypeMap }
    } else if w == "list"@ {
        TokenModel { text: w, kind: TokenType::TypeList }
    } else if w == "use"@ {
        TokenModel { text: w, kind: TokenType::Import }
    } else if w == "from"@ {
        TokenModel { text: w, kind: TokenType::FromKeyword }
    } else {
        TokenModel { text: spec_strip_trailing(w, ':'), kind: TokenType::PossibleIdentifier }
    }
}

/// The synthetic token that terminates every token sequence.
pub open spec fn spec_eof_token() -> TokenModel {
    TokenModel { text: Seq::empty(), kind: TokenType::Eof }
}

/// Builds the synthetic end-of-input token.
pub fn eof_token() -> (t: Token)
    ensures
        t@ == spec_eof_token(),
{
    Token { token: String::new(), tokentype: TokenType::Eof }
}

/// Classifies one raw word into a token, exactly as [`spec_classify`]
/// describes.
pub fn consume_token(token: String) -> (t: Token)
    ensures
        t@ == spec_classify(token@),
{
    let w = str_to_chars(token.as_str());
    if w.len() > 0 {
        let c0 = w[0];
        if c0 == '"' {
            // Strip the leading quote, a trailing quote, and a comma
            // immediately before the trailing quote.
            let mut end: usize = w.len();
            if end > 1 && w[end - 1] == '"' {
                end = end - 1;
                if end > 1 && w[end - 1] == ',' {
                    end = end - 1;
                }
            }
            let text = chars_range_to_string(&w, 1, end);
            proof {
                assert(text@ =~= spec_strip_string_word(w@));
            }
            return Token { token: text, tokentype: TokenType::StringLiteral };
        }
        if c0 == '[' {
            return Token { token, tokentype: TokenType::Label };
        }
        if c0 == '{' {
            return Token { token, tokentype: TokenType::CurlyBracketStart };
        }
        if c0 == '}' {
            return Token { token, tokentype: TokenType::CurlyBracketEnd };
        }
        if c0 == '=' {
            return Token { token, tokentype: TokenType::Equals };
        }
        if c0 == ':' {
            return Token { token, tokentype: TokenType::TypeAssignment };
        }
        let d: u32 = c0 as u32;
        if (48 <= d && d <= 57) || c0 == '#' {
            let mut end: usize = w.len();
            if w[end - 1] == ',' {
                end = end - 1;
            }
            let text = chars_range_to_string(&w, 0, end);
            proof {
                assert(text@ =~= spec_strip_trailing(w@, ','));
            }
            return Token { token: text, tokentype: TokenType::NumberLiteral };
        }
    }
    if chars_eq_str(&w, "true") {
        return Token { token: token, tokentype: TokenType::BoolLiteral };
    }
    if w.len() >= 4 && w[0] == 'f' && w[1] == 'a' && w[2] == 'l' && w[3] == 's' {
        return Token { token: "false".to_owned(), tokentype: TokenType::BoolLiteral };
    }
    if chars_eq_str(&w, "type") {
        return Token { token, tokentype: TokenType::TypeIdentifier };
    }
    if chars_eq_str(&w, "number") {
        return Token { token, tokentype: TokenType::TypeNumber };
    }
    if chars_eq_str(&w, "bool") {
        return Token { token, tokentype: TokenType::TypeBool };
    }
    if chars_eq_str(&w, "string") {
        return Token { token, tokentype: TokenType::TypeString };
    }
    if chars_eq_str(&w, "map") {
        return Token { token, tokentype: TokenType::TypeMap };
    }
    if chars_eq_str(&w, "list") {
        return Token { token, tokentype: TokenType::TypeList };
    }
    if chars_eq_str(&w, "use") {
        return Token { token, tokentype: TokenType::Import };
    }
    if chars_eq_str(&w, "from") {
        return Token { token, tokentype: TokenType::FromKeyword };
    }
    let mut end: usize = w.len();
    if end > 0 && w[end - 1] == ':' {
        end = end - 1;
    }
    let text = chars_range_to_string(&w, 0, end);
    proof {
        assert(text@ =~= spec_strip_trailing(w@, ':'));
    }
    Token { token: text, tokentype: TokenType::PossibleIdentifier }
}

} // verus!
