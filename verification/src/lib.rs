//! Compiler for a small declarative configuration language: user-defined
//! record types, fields with a declared type or a default literal,
//! label-scoped default typing, and cross-file type imports, all compiled
//! into one JSON document.
//!
//! The pipeline is: source text -> raw words (lexer) -> classified tokens
//! -> a parsed compilation unit (parser) -> resolved objects (resolver)
//! -> JSON text (emitter).

mod ast;
mod chars;
mod compile;
mod emit;
mod error;
mod jsonout;
mod laws;
mod lexer;
mod parser;
mod pipeline;
mod resolver;
mod token;

pub use chars::str_to_chars;
pub use chars::chars_to_string;
pub use token::Token;
pub use token::TokenType;
pub use token::TokenModel;
pub use token::consume_token;
pub use token::eof_token;
pub use token::spec_classify;
pub use lexer::lex_characters;
pub use lexer::has_unterminated_literal;
pub use lexer::spec_lex;
pub use lexer::spec_unterminated;
pub use ast::Field;
pub use ast::FieldModel;
pub use ast::Type;
pub use ast::TypeModel;
pub use ast::Object;
pub use ast::ObjectModel;
pub use ast::ParsedFile;
pub use ast::FileModel;
pub use error::CompileError;
pub use error::ErrorModel;
pub use parser::spec_parse;
pub use parser::spec_block;
pub use parser::spec_tokens_wf;
pub use parser::TokenTraverse;
pub use parser::construct_ast;
pub use pipeline::tokenize;
pub use pipeline::parse_source;
pub use pipeline::spec_tokenize;
pub use pipeline::spec_parse_source;
pub use resolver::CachedImport;
pub use resolver::spec_resolve;
pub use resolver::spec_cache_has;
pub use resolver::Resolver;
pub use resolver::ResolveStep;
pub use emit::emit_json;
pub use emit::coerce;
pub use emit::JsonLeaf;
pub use emit::parse_i64_chars;
pub use emit::spec_coerce;
pub use emit::spec_doc;
pub use emit::spec_parse_i64;
pub use jsonout::JsonModel;
pub use jsonout::json_text_of;
pub use jsonout::spec_set_entry;
pub use compile::ImportText;
pub use compile::compile;
pub use compile::spec_compile;
pub use compile::spec_drive;
pub use compile::spec_imports;
pub use jsonout::spec_lookup_entry;
pub use laws::lemma_idempotence;
pub use laws::lemma_literal_round_trip;
pub use laws::lemma_global_round_trip;
pub use laws::lemma_field_completeness;
pub use laws::lemma_fill_extends;
pub use laws::lemma_override_precedence;
pub use laws::lemma_label_sets_ambient;
pub use laws::lemma_untyped_object_inherits;
pub use laws::lemma_import_memoization;
pub use laws::lemma_field_completeness_exact;
pub use laws::lemma_explicit_type_keeps_ambient;
