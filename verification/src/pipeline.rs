//! The front half of the pipeline as one piece: source characters to raw
//! words, words to tokens, tokens to a parsed compilation unit.

use vstd::prelude::*;
use crate::ast::ParsedFile;
use crate::error::CompileError;
use crate::error::ErrorModel;
use crate::lexer::lex_characters;
use crate::lexer::has_unterminated_literal;
use crate::lexer::spec_lex;
use crate::lexer::spec_unterminated;
use crate::lexer::views_of;
use crate::parser::BlockOutcome;
use crate::parser::construct_ast;
use crate::parser::spec_block_fail;
use crate::parser::spec_parse;
use crate::parser::spec_token_models;
use crate::parser::spec_tokens_wf;
use crate::token::Token;
use crate::token::TokenModel;
use crate::token::consume_token;
use crate::token::eof_token;
use crate::token::spec_classify;
use crate::token::spec_eof_token;

verus! {

/// The classified tokens of a source text: each raw word classified, and
/// the synthetic end-of-input token at the end.
pub open spec fn spec_tokenize(cs: Seq<char>) -> Seq<TokenModel> {
    spec_lex(cs).map_values(|w: Seq<char>| spec_classify(w)).push(spec_eof_token())
}

/// Lexes and classifies a source text, exactly as [`spec_tokenize`]
/// describes. The result always ends with the end-of-input token.
pub fn tokenize(source: &Vec<char>) -> (tokens: Vec<Token>)
    ensures
        spec_token_models(tokens@) == spec_tokenize(source@),
        spec_tokens_wf(spec_token_models(tokens@)),
{
    let words = lex_characters(source);
    let ghost ws = spec_lex(source@);
    let mut tokens: Vec<Token> = Vec::new();
    let mut i: usize = 0;
    while i < words.len()
        invariant
            i <= words@.len(),
            views_of(words@) == ws,
            spec_token_models(tokens@) == ws.map_values(|w: Seq<char>| spec_classify(w)).subrange(
                0,
                i as int,
            ),
        decreases words@.len() - i,
    {
        let ghost toks0 = tokens@;
        let t = consume_token(words[i].clone());
        let ghost tg = t;
        tokens.push(t);
        i = i + 1;
        proof {
            assert(tokens@ == toks0.push(tg));
            assert(spec_token_models(toks0).len() == toks0.len());
            assert(ws.map_values(|w: Seq<char>| spec_classify(w)).len() == ws.len());
            assert(views_of(words@)[i - 1] == words@[i - 1]@);
            assert(ws.map_values(|w: Seq<char>| spec_classify(w))[i - 1] == spec_classify(
                ws[i - 1],
            ));
            assert forall|j: int| 0 <= j < i implies spec_token_models(tokens@)[j] == ws.map_values(
                |w: Seq<char>| spec_classify(w),
            ).subrange(0, i as int)[j] by {
                assert(spec_token_models(tokens@)[j] == tokens@[j]@);
                if j < i - 1 {
                    assert(toks0.push(tg)[j] == toks0[j]);
                    assert(spec_token_models(toks0)[j] == toks0[j]@);
                }
            }
            assert(spec_token_models(tokens@) =~= ws.map_values(
                |w: Seq<char>| spec_classify(w),
            ).subrange(0, i as int));
        }
    }
    let ghost toks0 = tokens@;
    let e = eof_token();
    let ghost eg = e;
    tokens.push(e);
    proof {
        assert(tokens@ == toks0.push(eg));
        assert(spec_token_models(toks0).len() == toks0.len());
        assert(ws.map_values(|w: Seq<char>| spec_classify(w)).subrange(
            0,
            ws.len() as int,
        ) =~= ws.map_values(|w: Seq<char>| spec_classify(w)));
        assert forall|j: int| 0 <= j < tokens@.len() implies spec_token_models(tokens@)[j]
            == spec_tokenize(source@)[j] by {
            assert(spec_token_models(tokens@)[j] == tokens@[j]@);
            if j < tokens@.len() - 1 {
                assert(toks0.push(eg)[j] == toks0[j]);
                assert(spec_token_models(toks0)[j] == toks0[j]@);
            }
        }
        assert(spec_token_models(tokens@) =~= spec_tokenize(source@));
    }
    tokens
}

/// Lexing, classifying and parsing one source text: an unterminated
/// string literal is a fatal lexing error; otherwise the token sequence
/// is parsed whole.
pub open spec fn spec_parse_source(cs: Seq<char>) -> BlockOutcome {
    if spec_unterminated(cs) {
        spec_block_fail(crate::ast::spec_blank_file(), ErrorModel::Lex)
    } else {
        spec_parse(spec_tokenize(cs))
    }
}

/// Compiles one source text into a parsed compilation unit, exactly as
/// [`spec_parse_source`] describes.
pub fn parse_source(source: &Vec<char>) -> (r: Result<ParsedFile, CompileError>)
    ensures
        ({
            let out = spec_parse_source(source@);
            match r {
                Result::Ok(f) => out.ok && f@ == out.file,
                Result::Err(e) => !out.ok && e@ == out.err,
            }
        }),
{
    if has_unterminated_literal(source) {
        return Result::Err(CompileError::Lex);
    }
    let tokens = tokenize(source);
    construct_ast(tokens.as_slice())
}

} // verus!
