//! The parser: a single-pass, one-token-lookahead recursive descent over
//! an explicit cursor, producing one [`ParsedFile`] per token sequence.
//!
//! The top-level loop recognizes, per step: an import directive
//! (`use Name from "path"`), a type declaration (`type Name { fields }`),
//! a label (`[Name]`) setting the ambient type of subsequent untyped
//! objects, a global field (`name = literal`), or an object declaration
//! (`name [: Type] { fields }`). A token where the grammar expects
//! another is a fatal syntax error. The whole parse is captured by the
//! spec function [`spec_block`].

use vstd::prelude::*;
use crate::ast::Field;
use crate::ast::Object;
use crate::ast::ParsedFile;
use crate::ast::Type;
use crate::ast::spec_blank_file;
use crate::ast::spec_fields;
use crate::ast::spec_types;
use crate::chars::chars_to_string;
use crate::chars::str_to_chars;
use crate::error::CompileError;
use crate::ast::FieldModel;
use crate::ast::FileModel;
use crate::ast::ObjectModel;
use crate::ast::TypeModel;
use crate::ast::spec_uninit_token;
use crate::error::ErrorModel;
use crate::token::TokenModel;
use crate::token::Token;
use crate::token::TokenType;

verus! {

/// The models of a sequence of tokens.
pub open spec fn spec_token_models(ts: Seq<Token>) -> Seq<TokenModel> {
    ts.map_values(|t: Token| t@)
}

/// Well-formed token input: nonempty and terminated by the synthetic
/// end-of-input token, so one-token lookahead never runs past the end.
pub open spec fn spec_tokens_wf(ts: Seq<TokenModel>) -> bool {
    ts.len() >= 1 && ts[ts.len() - 1].kind == TokenType::Eof
}

/// The cursor position after one advance: one step right, staying put at
/// the last token.
pub open spec fn spec_next(ts: Seq<TokenModel>, i: int) -> int {
    if i + 1 < ts.len() {
        i + 1
    } else {
        i
    }
}

/// A literal token: number, string or boolean.
pub open spec fn spec_is_literal_kind(k: TokenType) -> bool {
    k == TokenType::NumberLiteral || k == TokenType::StringLiteral || k == TokenType::BoolLiteral
}

/// A type-keyword token.
pub open spec fn spec_is_type_kind(k: TokenType) -> bool {
    k == TokenType::TypeBool || k == TokenType::TypeString || k == TokenType::TypeNumber || k
        == TokenType::TypeMap
}

/// A type keyword the field grammar consumes: `bool`, `string` or
/// `number`. The `map` and `list` keywords are tokenized but no grammar
/// consumes them.
pub open spec fn spec_is_scalar_type_kind(k: TokenType) -> bool {
    k == TokenType::TypeBool || k == TokenType::TypeString || k == TokenType::TypeNumber
}

/// The name of the built-in type behind a scalar type keyword.
pub open spec fn spec_scalar_type_name(k: TokenType) -> Seq<char> {
    if k == TokenType::TypeBool {
        "bool"@
    } else if k == TokenType::TypeString {
        "string"@
    } else {
        "number"@
    }
}

/// The model of a required, typed field: a declared type and no value.
pub open spec fn spec_typed_field(name: Seq<char>, tyname: Seq<char>) -> FieldModel {
    FieldModel {
        identifier: name,
        declared_type: tyname,
        initialized: false,
        value: spec_uninit_token(),
    }
}

/// The model of a value-bearing field.
pub open spec fn spec_value_field(name: Seq<char>, v: TokenModel) -> FieldModel {
    FieldModel { identifier: name, declared_type: Seq::empty(), initialized: true, value: v }
}

/// The outcome of parsing one field: on success a field model and the
/// cursor position after it, otherwise an error.
#[verifier::ext_equal]
pub ghost struct FieldOutcome {
    pub ok: bool,
    pub field: FieldModel,
    pub next: int,
    pub err: ErrorModel,
}

/// The outcome of parsing a field list up to its closing brace.
#[verifier::ext_equal]
pub ghost struct FieldsOutcome {
    pub ok: bool,
    pub fields: Seq<FieldModel>,
    pub next: int,
    pub err: ErrorModel,
}

/// The outcome of parsing a whole token sequence.
#[verifier::ext_equal]
pub ghost struct BlockOutcome {
    pub ok: bool,
    pub file: FileModel,
    pub err: ErrorModel,
}

/// A successful field outcome; the error component is immaterial.
pub open spec fn spec_field_ok(f: FieldModel, next: int) -> FieldOutcome {
    FieldOutcome { ok: true, field: f, next: next, err: ErrorModel::Lex }
}

/// A failed field outcome; the field and cursor components are
/// immaterial.
pub open spec fn spec_field_fail(e: ErrorModel) -> FieldOutcome {
    FieldOutcome {
        ok: false,
        field: spec_typed_field(Seq::empty(), Seq::empty()),
        next: 0,
        err: e,
    }
}

/// A successful field-list outcome; the error component is immaterial.
pub open spec fn spec_fields_ok(fs: Seq<FieldModel>, next: int) -> FieldsOutcome {
    FieldsOutcome { ok: true, fields: fs, next: next, err: ErrorModel::Lex }
}

/// A failed field-list outcome; the fields and cursor components are
/// immaterial.
pub open spec fn spec_fields_fail(e: ErrorModel) -> FieldsOutcome {
    FieldsOutcome { ok: false, fields: Seq::empty(), next: 0, err: e }
}

/// A successful parse outcome; the error component is immaterial.
pub open spec fn spec_block_ok(f: FileModel) -> BlockOutcome {
    BlockOutcome { ok: true, file: f, err: ErrorModel::Lex }
}

/// A failed parse outcome.
pub open spec fn spec_block_fail(f: FileModel, e: ErrorModel) -> BlockOutcome {
    BlockOutcome { ok: false, file: f, err: e }
}

/// Parses one field definition at `i`. A field is either
/// `name : type-keyword` or `name type-keyword` (required and typed;
/// only in type declarations) or `name = literal` / `name literal`
/// (value-bearing). Anything else is a syntax error carrying the
/// offending token's text.
pub open spec fn spec_field(ts: Seq<TokenModel>, i: int, in_object: bool) -> FieldOutcome {
    let name = ts[i];
    if name.kind != TokenType::PossibleIdentifier {
        spec_field_fail(ErrorModel::Syntax { found: name.text })
    } else {
        let j = spec_next(ts, i);
        let t = ts[j];
        if t.kind == TokenType::TypeAssignment {
            let k = spec_next(ts, j);
            let t2 = ts[k];
            if spec_is_scalar_type_kind(t2.kind) && !in_object {
                spec_field_ok(
                    spec_typed_field(name.text, spec_scalar_type_name(t2.kind)),
                    spec_next(ts, k),
                )
            } else {
                spec_field_fail(ErrorModel::Syntax { found: t2.text })
            }
        } else if spec_is_scalar_type_kind(t.kind) {
            if in_object {
                spec_field_fail(ErrorModel::Syntax { found: t.text })
            } else {
                spec_field_ok(
                    spec_typed_field(name.text, spec_scalar_type_name(t.kind)),
                    spec_next(ts, j),
                )
            }
        } else if t.kind == TokenType::Equals {
            let k = spec_next(ts, j);
            let t2 = ts[k];
            if spec_is_literal_kind(t2.kind) {
                spec_field_ok(spec_value_field(name.text, t2), spec_next(ts, k))
            } else {
                spec_field_fail(ErrorModel::Syntax { found: t2.text })
            }
        } else if spec_is_literal_kind(t.kind) {
            spec_field_ok(spec_value_field(name.text, t), spec_next(ts, j))
        } else {
            spec_field_fail(ErrorModel::Syntax { found: t.text })
        }
    }
}

/// A successful field parse moves the cursor strictly forward and stays
/// inside the token sequence.
pub proof fn lemma_field_advances(ts: Seq<TokenModel>, i: int, in_object: bool)
    ensures
        spec_field(ts, i, in_object).ok ==> i < spec_field(ts, i, in_object).next < ts.len(),
{
}

/// Parses fields until a closing brace, which it consumes.
pub open spec fn spec_parse_fields(
    ts: Seq<TokenModel>,
    i: int,
    acc: Seq<FieldModel>,
    in_object: bool,
) -> FieldsOutcome
    decreases ts.len() - i
        via spec_parse_fields_dec
{
    if ts[i].kind == TokenType::CurlyBracketEnd {
        spec_fields_ok(acc, spec_next(ts, i))
    } else {
        let fo = spec_field(ts, i, in_object);
        if !fo.ok {
            spec_fields_fail(fo.err)
        } else {
            spec_parse_fields(ts, fo.next, acc.push(fo.field), in_object)
        }
    }
}

#[via_fn]
proof fn spec_parse_fields_dec(ts: Seq<TokenModel>, i: int, acc: Seq<FieldModel>, in_object: bool) {
    lemma_field_advances(ts, i, in_object);
}

/// A successful field-list parse never moves the cursor backward, and
/// leaves it inside the token sequence.
pub proof fn lemma_parse_fields_advances(
    ts: Seq<TokenModel>,
    i: int,
    acc: Seq<FieldModel>,
    in_object: bool,
)
    requires
        0 <= i < ts.len(),
    ensures
        spec_parse_fields(ts, i, acc, in_object).ok ==> i <= spec_parse_fields(
            ts,
            i,
            acc,
            in_object,
        ).next < ts.len(),
    decreases ts.len() - i,
{
    if ts[i].kind == TokenType::CurlyBracketEnd {
    } else {
        let fo = spec_field(ts, i, in_object);
        if fo.ok {
            lemma_field_advances(ts, i, in_object);
            lemma_parse_fields_advances(ts, fo.next, acc.push(fo.field), in_object);
        }
    }
}

/// The label text with every `[` dropped and everything from the first
/// `]` on cut off, scanning from position `i`.
pub open spec fn spec_strip_label_at(w: Seq<char>, i: int) -> Seq<char>
    decreases w.len() - i,
{
    if i < 0 || i >= w.len() {
        Seq::empty()
    } else if w[i] == ']' {
        Seq::empty()
    } else if w[i] == '[' {
        spec_strip_label_at(w, i + 1)
    } else {
        seq![w[i]] + spec_strip_label_at(w, i + 1)
    }
}

/// The type name inside a label token such as `[Name]`.
pub open spec fn spec_strip_label(w: Seq<char>) -> Seq<char> {
    spec_strip_label_at(w, 0)
}

/// The first type of the list named `name`, scanning from position `i`.
pub open spec fn spec_find_type_at(ts: Seq<TypeModel>, name: Seq<char>, i: int) -> Option<
    TypeModel,
>
    decreases ts.len() - i,
{
    if i < 0 || i >= ts.len() {
        Option::None
    } else if ts[i].typename == name {
        Option::Some(ts[i])
    } else {
        spec_find_type_at(ts, name, i + 1)
    }
}

/// The first type of the list named `name`, if any.
pub open spec fn spec_find_type(ts: Seq<TypeModel>, name: Seq<char>) -> Option<TypeModel> {
    spec_find_type_at(ts, name, 0)
}

/// The model of a deferred type: known by name and source path only.
pub open spec fn spec_deferred_type(name: Seq<char>, path: Seq<char>) -> TypeModel {
    TypeModel { typename: name, queued: true, file_path: path, fields: Seq::empty() }
}

/// The model of a locally declared type.
pub open spec fn spec_local_type(name: Seq<char>, fields: Seq<FieldModel>) -> TypeModel {
    TypeModel { typename: name, queued: false, file_path: Seq::empty(), fields: fields }
}

/// `f` with one more type.
pub open spec fn spec_file_with_type(f: FileModel, t: TypeModel) -> FileModel {
    FileModel { user_types: f.user_types.push(t), ..f }
}

/// `f` with one more object.
pub open spec fn spec_file_with_object(f: FileModel, o: ObjectModel) -> FileModel {
    FileModel { user_objects: f.user_objects.push(o), ..f }
}

/// `f` with one more global field.
pub open spec fn spec_file_with_field(f: FileModel, fd: FieldModel) -> FileModel {
    FileModel { user_fields: f.user_fields.push(fd), ..f }
}

/// Parses the whole token sequence from position `i`, with `ambient` the
/// current label-scoped default type and `file` what has been parsed so
/// far. One step recognizes an import, a type declaration, a label, a
/// global field or an object declaration; the parse ends at the
/// end-of-input token.
pub open spec fn spec_block(
    ts: Seq<TokenModel>,
    i: int,
    ambient: Option<TypeModel>,
    file: FileModel,
) -> BlockOutcome
    decreases ts.len() - i
        via spec_block_dec
{
    let t = ts[i];
    if !(0 <= i < ts.len()) || (t.kind != TokenType::Eof && i + 1 >= ts.len()) {
        spec_block_fail(file, ErrorModel::Syntax { found: t.text })
    } else if t.kind == TokenType::Eof {
        spec_block_ok(file)
    } else if t.kind == TokenType::Import {
        let j = spec_next(ts, i);
        if ts[j].kind != TokenType::PossibleIdentifier {
            spec_block_fail(file, ErrorModel::Syntax { found: ts[j].text })
        } else {
            let k = spec_next(ts, j);
            if ts[k].kind != TokenType::FromKeyword {
                spec_block_fail(file, ErrorModel::Syntax { found: ts[k].text })
            } else {
                let l = spec_next(ts, k);
                if ts[l].kind != TokenType::StringLiteral {
                    spec_block_fail(file, ErrorModel::Syntax { found: ts[l].text })
                } else {
                    spec_block(
                        ts,
                        spec_next(ts, l),
                        ambient,
                        spec_file_with_type(file, spec_deferred_type(ts[j].text, ts[l].text)),
                    )
                }
            }
        }
    } else if t.kind == TokenType::TypeIdentifier {
        let j = spec_next(ts, i);
        if ts[j].kind != TokenType::PossibleIdentifier {
            spec_block_fail(file, ErrorModel::Syntax { found: ts[j].text })
        } else {
            let k = spec_next(ts, j);
            if ts[k].kind != TokenType::CurlyBracketStart {
                spec_block_fail(file, ErrorModel::Syntax { found: ts[k].text })
            } else {
                let fo = spec_parse_fields(ts, spec_next(ts, k), Seq::empty(), false);
                if !fo.ok {
                    spec_block_fail(file, fo.err)
                } else {
                    spec_block(
                        ts,
                        fo.next,
                        ambient,
                        spec_file_with_type(file, spec_local_type(ts[j].text, fo.fields)),
                    )
                }
            }
        }
    } else if t.kind == TokenType::Label {
        let stripped = spec_strip_label(t.text);
        match spec_find_type(file.user_types, stripped) {
            Option::None => spec_block_fail(file, ErrorModel::UnknownType { name: stripped }),
            Option::Some(ty) => spec_block(ts, spec_next(ts, i), Option::Some(ty), file),
        }
    } else if t.kind == TokenType::PossibleIdentifier {
        let j = spec_next(ts, i);
        if ts[j].kind == TokenType::Equals {
            let k = spec_next(ts, j);
            let v = ts[k];
            if spec_is_literal_kind(v.kind) {
                spec_block(
                    ts,
                    spec_next(ts, k),
                    ambient,
                    spec_file_with_field(file, spec_value_field(t.text, v)),
                )
            } else {
                spec_block_fail(file, ErrorModel::Syntax { found: v.text })
            }
        } else if ts[j].kind == TokenType::TypeAssignment {
            let l = spec_next(ts, j);
            let tn = ts[l];
            if tn.kind != TokenType::PossibleIdentifier {
                spec_block_fail(file, ErrorModel::Syntax { found: tn.text })
            } else {
                match spec_find_type(file.user_types, tn.text) {
                    Option::None => spec_block_fail(
                        file,
                        ErrorModel::UnknownType { name: tn.text },
                    ),
                    Option::Some(ty) => {
                        let k = spec_next(ts, l);
                        if ts[k].kind != TokenType::CurlyBracketStart {
                            spec_block_fail(file, ErrorModel::Syntax { found: ts[k].text })
                        } else {
                            let fo = spec_parse_fields(ts, spec_next(ts, k), Seq::empty(), true);
                            if !fo.ok {
                                spec_block_fail(file, fo.err)
                            } else {
                                spec_block(
                                    ts,
                                    fo.next,
                                    ambient,
                                    spec_file_with_object(
                                        file,
                                        ObjectModel {
                                            object_name: t.text,
                                            object_type: Option::Some(ty),
                                            fields: fo.fields,
                                        },
                                    ),
                                )
                            }
                        }
                    },
                }
            }
        } else {
            if ts[j].kind != TokenType::CurlyBracketStart {
                spec_block_fail(file, ErrorModel::Syntax { found: ts[j].text })
            } else {
                let fo = spec_parse_fields(ts, spec_next(ts, j), Seq::empty(), true);
                if !fo.ok {
                    spec_block_fail(file, fo.err)
                } else {
                    spec_block(
                        ts,
                        fo.next,
                        ambient,
                        spec_file_with_object(
                            file,
                            ObjectModel {
                                object_name: t.text,
                                object_type: ambient,
                                fields: fo.fields,
                            },
                        ),
                    )
                }
            }
        }
    } else {
        spec_block_fail(file, ErrorModel::Syntax { found: t.text })
    }
}

#[via_fn]
proof fn spec_block_dec(ts: Seq<TokenModel>, i: int, ambient: Option<TypeModel>, file: FileModel) {
    let t = ts[i];
    if 0 <= i < ts.len() && t.kind != TokenType::Eof && i + 1 < ts.len() {
        if t.kind == TokenType::TypeIdentifier {
            let j = spec_next(ts, i);
            let k = spec_next(ts, j);
            lemma_parse_fields_advances(ts, spec_next(ts, k), Seq::empty(), false);
        }
        if t.kind == TokenType::PossibleIdentifier {
            let j = spec_next(ts, i);
            if ts[j].kind == TokenType::TypeAssignment {
                let l = spec_next(ts, j);
                let k = spec_next(ts, l);
                lemma_parse_fields_advances(ts, spec_next(ts, k), Seq::empty(), true);
            } else {
                lemma_parse_fields_advances(ts, spec_next(ts, j), Seq::empty(), true);
            }
        }
    }
}

/// Parsing a whole token sequence: from its start, with no ambient type
/// and an empty file.
pub open spec fn spec_parse(ts: Seq<TokenModel>) -> BlockOutcome {
    spec_block(ts, 0, Option::None, FileModel {
        user_types: Seq::empty(),
        user_objects: Seq::empty(),
        user_fields: Seq::empty(),
    })
}


/// The type name inside a label token such as `[Name]`: every `[` is
/// dropped and everything from the first `]` on is cut off.
pub fn strip_label_chars(w: &String) -> (r: Vec<char>)
    ensures
        r@ == spec_strip_label(w@),
{
    let cs = str_to_chars(w.as_str());
    let mut out: Vec<char> = Vec::new();
    let mut i: usize = 0;
    while i < cs.len()
        invariant
            i <= cs@.len(),
            cs@ == w@,
            spec_strip_label(w@) == out@ + spec_strip_label_at(w@, i as int),
        decreases cs@.len() - i,
    {
        let ghost out0 = out@;
        let ghost i0 = i as int;
        let c = cs[i];
        if c == ']' {
            i = cs.len();
            proof {
                assert(spec_strip_label_at(w@, i0) =~= Seq::<char>::empty());
                assert(spec_strip_label_at(w@, i as int) =~= Seq::<char>::empty());
            }
        } else if c == '[' {
            i = i + 1;
        } else {
            out.push(c);
            i = i + 1;
            proof {
                assert(out@ == out0.push(c));
                assert(spec_strip_label_at(w@, i0) == seq![c] + spec_strip_label_at(w@, i as int));
                assert(out0 + (seq![c] + spec_strip_label_at(w@, i as int)) =~= out0.push(c)
                    + spec_strip_label_at(w@, i as int));
            }
        }
    }
    proof {
        assert(spec_strip_label_at(w@, i as int) =~= Seq::<char>::empty());
        assert(out@ + Seq::<char>::empty() =~= out@);
    }
    out
}

/// The index of the first type of the list with the given name, if any.
pub fn find_type_index(types: &Vec<Type>, name: &String) -> (r: Option<usize>)
    ensures
        ({
            let fo = spec_find_type(spec_types(types@), name@);
            match r {
                Option::Some(ix) => ix < types@.len() && fo == Option::Some(types@[ix as int]@),
                Option::None => fo == Option::<TypeModel>::None,
            }
        }),
{
    let mut i: usize = 0;
    while i < types.len()
        invariant
            i <= types@.len(),
            spec_find_type(spec_types(types@), name@) == spec_find_type_at(
                spec_types(types@),
                name@,
                i as int,
            ),
        decreases types@.len() - i,
    {
        proof {
            assert(spec_types(types@).len() == types@.len());
            assert(spec_types(types@)[i as int] == types@[i as int]@);
        }
        if types[i].typename == *name {
            return Option::Some(i);
        }
        i = i + 1;
    }
    Option::None
}

/// A required, typed field built from a name and a scalar type keyword.
fn make_typed_field(name: String, k: TokenType) -> (f: Field)
    requires
        spec_is_scalar_type_kind(k),
    ensures
        f@ == spec_typed_field(name@, spec_scalar_type_name(k)),
{
    let mut f = Field::new();
    f.identifier = name;
    f.identifier_type = if k == TokenType::TypeBool {
        Type::new_bool_type()
    } else if k == TokenType::TypeString {
        Type::new_string_type()
    } else {
        Type::new_number_type()
    };
    proof {
        assert(f@ =~= spec_typed_field(f.identifier@, spec_scalar_type_name(k)));
    }
    f
}

/// A value-bearing field built from a name and a literal token.
fn make_value_field(name: String, v: Token) -> (f: Field)
    ensures
        f@ == spec_value_field(name@, v@),
{
    let mut f = Field::new();
    f.identifier = name;
    f.initialized = true;
    f.value = v;
    proof {
        assert(f@ =~= spec_value_field(f.identifier@, f.value@));
    }
    f
}

/// The explicit parsing cursor: the ambient label-scoped type, the
/// position and current token, and the file parsed so far.
pub struct TokenTraverse {
    pub current_type: Option<Type>,
    pub token_index: usize,
    pub current_token: Token,
    pub file: ParsedFile,
}

impl TokenTraverse {
    /// Cursor well-formedness against the token models: the input is
    /// well-formed and the current token is the one at the cursor.
    pub open spec fn wf(&self, ts: Seq<TokenModel>) -> bool {
        &&& spec_tokens_wf(ts)
        &&& (self.token_index as int) < ts.len()
        &&& self.current_token@ == ts[self.token_index as int]
    }

    /// The model of the ambient label-scoped type.
    pub open spec fn spec_ambient(&self) -> Option<TypeModel> {
        match self.current_type {
            Option::Some(t) => Option::Some(t@),
            Option::None => Option::None,
        }
    }

    /// A cursor at the start of a token sequence, with no ambient type
    /// and an empty file.
    pub fn new(tokens: &[Token]) -> (s: TokenTraverse)
        requires
            spec_tokens_wf(spec_token_models(tokens@)),
        ensures
            s.wf(spec_token_models(tokens@)),
            s.token_index == 0,
            s.spec_ambient() == Option::<TypeModel>::None,
            s.file@ == spec_blank_file(),
    {
        proof {
            assert(spec_token_models(tokens@).len() == tokens@.len());
            assert(spec_token_models(tokens@)[0] == tokens@[0]@);
        }
        TokenTraverse {
            token_index: 0,
            current_type: Option::None,
            current_token: tokens[0].duplicate(),
            file: ParsedFile::new(),
        }
    }

    /// A literal token: number, string or boolean.
    pub fn token_is_literal(token: Token) -> (r: bool)
        ensures
            r == spec_is_literal_kind(token@.kind),
    {
        token.tokentype == TokenType::NumberLiteral || token.tokentype == TokenType::StringLiteral
            || token.tokentype == TokenType::BoolLiteral
    }

    /// A type-keyword token.
    pub fn token_is_type(token: Token) -> (r: bool)
        ensures
            r == spec_is_type_kind(token@.kind),
    {
        token.tokentype == TokenType::TypeBool || token.tokentype == TokenType::TypeString
            || token.tokentype == TokenType::TypeNumber || token.tokentype == TokenType::TypeMap
    }

    /// Moves the cursor one token right, staying put at the last token.
    pub fn next_token(&mut self, tokens: &[Token])
        requires
            old(self).wf(spec_token_models(tokens@)),
        ensures
            final(self).wf(spec_token_models(tokens@)),
            final(self).token_index as int == spec_next(
                spec_token_models(tokens@),
                old(self).token_index as int,
            ),
            final(self).file == old(self).file,
            final(self).current_type == old(self).current_type,
    {
        let n = tokens.len();
        proof {
            assert(spec_token_models(tokens@).len() == tokens@.len());
            assert(self.token_index < n);
        }
        if n - self.token_index > 1 {
            self.token_index = self.token_index + 1;
            proof {
                assert(spec_token_models(tokens@)[self.token_index as int] == tokens@[self.token_index as int]@);
            }
            self.current_token = tokens[self.token_index].duplicate();
        }
    }

    /// The token one past the cursor, without moving it.
    pub fn look_at_next_token(&self, tokens: &[Token]) -> (t: Token)
        requires
            self.wf(spec_token_models(tokens@)),
            self.token_index + 1 < tokens@.len(),
        ensures
            t@ == spec_token_models(tokens@)[self.token_index + 1],
    {
        let n = tokens.len();
        proof {
            assert(spec_token_models(tokens@).len() == tokens@.len());
            assert(self.token_index + 1 < n);
            assert(spec_token_models(tokens@)[self.token_index + 1] == tokens@[self.token_index
                + 1]@);
        }
        tokens[self.token_index + 1].duplicate()
    }

    /// Moves past the current token when it has the given kind; reports
    /// whether it did.
    pub fn accept(&mut self, tokentype: TokenType, tokens: &[Token]) -> (r: bool)
        requires
            old(self).wf(spec_token_models(tokens@)),
        ensures
            final(self).wf(spec_token_models(tokens@)),
            final(self).file == old(self).file,
            final(self).current_type == old(self).current_type,
            r == (spec_token_models(tokens@)[old(self).token_index as int].kind == tokentype),
            r ==> final(self).token_index as int == spec_next(
                spec_token_models(tokens@),
                old(self).token_index as int,
            ),
            !r ==> final(self).token_index == old(self).token_index && final(self).current_token
                == old(self).current_token,
    {
        if self.current_token.tokentype == tokentype {
            self.next_token(tokens);
            true
        } else {
            false
        }
    }

    /// The same test as [`TokenTraverse::accept`]: the grammar treats a
    /// failed expectation as a fatal syntax error at the caller.
    pub fn expect(&mut self, tokentype: TokenType, tokens: &[Token]) -> (r: bool)
        requires
            old(self).wf(spec_token_models(tokens@)),
        ensures
            final(self).wf(spec_token_models(tokens@)),
            final(self).file == old(self).file,
            final(self).current_type == old(self).current_type,
            r == (spec_token_models(tokens@)[old(self).token_index as int].kind == tokentype),
            r ==> final(self).token_index as int == spec_next(
                spec_token_models(tokens@),
                old(self).token_index as int,
            ),
            !r ==> final(self).token_index == old(self).token_index && final(self).current_token
                == old(self).current_token,
    {
        self.accept(tokentype, tokens)
    }

    /// Parses one field definition, exactly as [`spec_field`] describes,
    /// leaving the cursor on the first token after it.
    fn field(&mut self, tokens: &[Token], in_object: bool) -> (r: Result<Field, CompileError>)
        requires
            old(self).wf(spec_token_models(tokens@)),
        ensures
            final(self).wf(spec_token_models(tokens@)),
            final(self).file == old(self).file,
            final(self).current_type == old(self).current_type,
            ({
                let fo = spec_field(
                    spec_token_models(tokens@),
                    old(self).token_index as int,
                    in_object,
                );
                match r {
                    Result::Ok(f) => fo.ok && f@ == fo.field && final(self).token_index as int
                        == fo.next,
                    Result::Err(e) => !fo.ok && e@ == fo.err,
                }
            }),
    {
        let ghost ts = spec_token_models(tokens@);
        if self.current_token.tokentype != TokenType::PossibleIdentifier {
            return Result::Err(CompileError::Syntax { found: self.current_token.token.clone() });
        }
        let name = self.current_token.token.clone();
        self.next_token(tokens);
        let k = self.current_token.tokentype;
        if k == TokenType::TypeAssignment {
            self.next_token(tokens);
            let k2 = self.current_token.tokentype;
            if (k2 == TokenType::TypeBool || k2 == TokenType::TypeString || k2
                == TokenType::TypeNumber) && !in_object {
                let f = make_typed_field(name, k2);
                self.next_token(tokens);
                return Result::Ok(f);
            }
            return Result::Err(CompileError::Syntax { found: self.current_token.token.clone() });
        }
        if k == TokenType::TypeBool || k == TokenType::TypeString || k == TokenType::TypeNumber {
            if in_object {
                return Result::Err(
                    CompileError::Syntax { found: self.current_token.token.clone() },
                );
            }
            let f = make_typed_field(name, k);
            self.next_token(tokens);
            return Result::Ok(f);
        }
        if k == TokenType::Equals {
            self.next_token(tokens);
            let k2 = self.current_token.tokentype;
            if k2 == TokenType::NumberLiteral || k2 == TokenType::StringLiteral || k2
                == TokenType::BoolLiteral {
                let f = make_value_field(name, self.current_token.duplicate());
                self.next_token(tokens);
                return Result::Ok(f);
            }
            return Result::Err(CompileError::Syntax { found: self.current_token.token.clone() });
        }
        if k == TokenType::NumberLiteral || k == TokenType::StringLiteral || k
            == TokenType::BoolLiteral {
            let f = make_value_field(name, self.current_token.duplicate());
            self.next_token(tokens);
            return Result::Ok(f);
        }
        Result::Err(CompileError::Syntax { found: self.current_token.token.clone() })
    }

    /// Parses fields up to and through a closing brace, exactly as
    /// [`spec_parse_fields`] describes.
    #[verifier::loop_isolation(false)]
    fn parse_field_list(&mut self, tokens: &[Token], in_object: bool) -> (r: Result<
        Vec<Field>,
        CompileError,
    >)
        requires
            old(self).wf(spec_token_models(tokens@)),
        ensures
            final(self).wf(spec_token_models(tokens@)),
            final(self).file == old(self).file,
            final(self).current_type == old(self).current_type,
            ({
                let fo = spec_parse_fields(
                    spec_token_models(tokens@),
                    old(self).token_index as int,
                    Seq::empty(),
                    in_object,
                );
                match r {
                    Result::Ok(fs) => fo.ok && spec_fields(fs@) == fo.fields
                        && final(self).token_index as int == fo.next,
                    Result::Err(e) => !fo.ok && e@ == fo.err,
                }
            }),
    {
        let ghost ts = spec_token_models(tokens@);
        let ghost i_start = self.token_index as int;
        let ghost file_entry = self.file;
        let ghost ct_entry = self.current_type;
        let mut fields: Vec<Field> = Vec::new();
        proof {
            assert(spec_fields(fields@) =~= Seq::<FieldModel>::empty());
        }
        loop
            invariant
                self.wf(ts),
                ts == spec_token_models(tokens@),
                self.file == file_entry,
                self.current_type == ct_entry,
                spec_parse_fields(ts, i_start, Seq::empty(), in_object) == spec_parse_fields(
                    ts,
                    self.token_index as int,
                    spec_fields(fields@),
                    in_object,
                ),
            decreases ts.len() - self.token_index,
        {
            let ghost cur_i = self.token_index as int;
            let ghost acc = spec_fields(fields@);
            if self.current_token.tokentype == TokenType::CurlyBracketEnd {
                self.next_token(tokens);
                proof {
                    assert(spec_parse_fields(ts, cur_i, acc, in_object) == spec_fields_ok(
                        acc,
                        spec_next(ts, cur_i),
                    ));
                }
                return Result::Ok(fields);
            }
            let ghost fo = spec_field(ts, cur_i, in_object);
            match self.field(tokens, in_object) {
                Result::Err(e) => {
                    proof {
                        assert(spec_parse_fields(ts, cur_i, acc, in_object) == spec_fields_fail(
                            fo.err,
                        ));
                    }
                    return Result::Err(e);
                },
                Result::Ok(f) => {
                    let ghost fs0 = fields@;
                    let ghost fg = f;
                    fields.push(f);
                    proof {
                        lemma_field_advances(ts, cur_i, in_object);
                        crate::ast::lemma_fields_push(fs0, fg);
                        assert(spec_fields(fields@) == spec_fields(fs0).push(fo.field));
                        assert(spec_parse_fields(ts, cur_i, acc, in_object) == spec_parse_fields(
                            ts,
                            fo.next,
                            acc.push(fo.field),
                            in_object,
                        ));
                    }
                },
            }
        }
    }

    /// Parses the whole token sequence, exactly as [`spec_block`]
    /// describes, and hands back the parsed file.
    #[verifier::loop_isolation(false)]
    pub fn block(&mut self, tokens: &[Token]) -> (r: Result<ParsedFile, CompileError>)
        requires
            old(self).wf(spec_token_models(tokens@)),
        ensures
            final(self).wf(spec_token_models(tokens@)),
            ({
                let out = spec_block(
                    spec_token_models(tokens@),
                    old(self).token_index as int,
                    old(self).spec_ambient(),
                    old(self).file@,
                );
                match r {
                    Result::Ok(f) => out.ok && f@ == out.file,
                    Result::Err(e) => !out.ok && e@ == out.err,
                }
            }),
    {
        let ghost ts = spec_token_models(tokens@);
        let ghost i0 = self.token_index as int;
        let ghost amb0 = self.spec_ambient();
        let ghost file0 = self.file@;
        loop
            invariant
                self.wf(ts),
                ts == spec_token_models(tokens@),
                spec_block(ts, i0, amb0, file0) == spec_block(
                    ts,
                    self.token_index as int,
                    self.spec_ambient(),
                    self.file@,
                ),
            decreases ts.len() - self.token_index,
        {
            let ghost cur_i = self.token_index as int;
            let ghost cur_amb = self.spec_ambient();
            let ghost cur_file = self.file@;
            let kind = self.current_token.tokentype;
            if kind == TokenType::Eof {
                let out = self.file.duplicate();
                return Result::Ok(out);
            }
            proof {
                assert(ts[ts.len() - 1].kind == TokenType::Eof);
                assert(cur_i + 1 < ts.len());
            }
            if kind == TokenType::Import {
                self.next_token(tokens);
                if self.current_token.tokentype != TokenType::PossibleIdentifier {
                    return Result::Err(
                        CompileError::Syntax { found: self.current_token.token.clone() },
                    );
                }
                let typename = self.current_token.token.clone();
                self.next_token(tokens);
                if self.current_token.tokentype != TokenType::FromKeyword {
                    return Result::Err(
                        CompileError::Syntax { found: self.current_token.token.clone() },
                    );
                }
                self.next_token(tokens);
                if self.current_token.tokentype != TokenType::StringLiteral {
                    return Result::Err(
                        CompileError::Syntax { found: self.current_token.token.clone() },
                    );
                }
                let path = self.current_token.token.clone();
                let ghost types0 = self.file.user_types@;
                let deferred = Type {
                    typename: typename,
                    queued: true,
                    file_path: path,
                    fields: Vec::new(),
                };
                let ghost dg = deferred;
                self.file.user_types.push(deferred);
                self.next_token(tokens);
                proof {
                    crate::ast::lemma_types_push(types0, dg);
                    assert(self.file@ =~~= spec_file_with_type(
                        cur_file,
                        spec_deferred_type(dg.typename@, dg.file_path@),
                    ));
                }
            } else if kind == TokenType::TypeIdentifier {
                self.next_token(tokens);
                if self.current_token.tokentype != TokenType::PossibleIdentifier {
                    return Result::Err(
                        CompileError::Syntax { found: self.current_token.token.clone() },
                    );
                }
                let typename = self.current_token.token.clone();
                self.next_token(tokens);
                if self.current_token.tokentype != TokenType::CurlyBracketStart {
                    return Result::Err(
                        CompileError::Syntax { found: self.current_token.token.clone() },
                    );
                }
                self.next_token(tokens);
                let ghost fstart = self.token_index as int;
                match self.parse_field_list(tokens, false) {
                    Result::Err(e) => {
                        return Result::Err(e);
                    },
                    Result::Ok(fields) => {
                        proof {
                            lemma_parse_fields_advances(ts, fstart, Seq::empty(), false);
                        }
                        let ghost types0 = self.file.user_types@;
                        let usertype = Type {
                            typename: typename,
                            queued: false,
                            file_path: String::new(),
                            fields: fields,
                        };
                        let ghost tg = usertype;
                        self.file.user_types.push(usertype);
                        proof {
                            crate::ast::lemma_types_push(types0, tg);
                            assert(self.file@ =~~= spec_file_with_type(
                                cur_file,
                                spec_local_type(tg.typename@, spec_fields(tg.fields@)),
                            ));
                        }
                    },
                }
            } else if kind == TokenType::Label {
                let stripped_chars = strip_label_chars(&self.current_token.token);
                let stripped = chars_to_string(&stripped_chars);
                match find_type_index(&self.file.user_types, &stripped) {
                    Option::None => {
                        return Result::Err(CompileError::UnknownType { name: stripped });
                    },
                    Option::Some(ix) => {
                        let t = self.file.user_types[ix].duplicate();
                        self.current_type = Option::Some(t);
                        self.next_token(tokens);
                    },
                }
            } else if kind == TokenType::PossibleIdentifier {
                let look = self.look_at_next_token(tokens);
                if look.tokentype == TokenType::Equals {
                    let fname = self.current_token.token.clone();
                    self.next_token(tokens);
                    self.next_token(tokens);
                    let vk = self.current_token.tokentype;
                    if !(vk == TokenType::NumberLiteral || vk == TokenType::StringLiteral || vk
                        == TokenType::BoolLiteral) {
                        return Result::Err(
                            CompileError::Syntax { found: self.current_token.token.clone() },
                        );
                    }
                    let userfield = make_value_field(fname, self.current_token.duplicate());
                    let ghost fields0 = self.file.user_fields@;
                    let ghost ug = userfield;
                    self.file.user_fields.push(userfield);
                    self.next_token(tokens);
                    proof {
                        crate::ast::lemma_fields_push(fields0, ug);
                        assert(self.file@ =~~= spec_file_with_field(cur_file, ug@));
                    }
                } else {
                    let obj_name = self.current_token.token.clone();
                    self.next_token(tokens);
                    let mut userobject = Object::new();
                    userobject.object_name = obj_name;
                    if self.current_token.tokentype == TokenType::TypeAssignment {
                        self.next_token(tokens);
                        if self.current_token.tokentype != TokenType::PossibleIdentifier {
                            return Result::Err(
                                CompileError::Syntax { found: self.current_token.token.clone() },
                            );
                        }
                        match find_type_index(&self.file.user_types, &self.current_token.token) {
                            Option::None => {
                                return Result::Err(
                                    CompileError::UnknownType {
                                        name: self.current_token.token.clone(),
                                    },
                                );
                            },
                            Option::Some(ix) => {
                                userobject.object_type = Option::Some(
                                    self.file.user_types[ix].duplicate(),
                                );
                            },
                        }
                        self.next_token(tokens);
                    } else {
                        match &self.current_type {
                            Option::Some(t) => {
                                userobject.object_type = Option::Some(t.duplicate());
                            },
                            Option::None => {},
                        }
                    }
                    if self.current_token.tokentype != TokenType::CurlyBracketStart {
                        return Result::Err(
                            CompileError::Syntax { found: self.current_token.token.clone() },
                        );
                    }
                    self.next_token(tokens);
                    let ghost fstart = self.token_index as int;
                    match self.parse_field_list(tokens, true) {
                        Result::Err(e) => {
                            return Result::Err(e);
                        },
                        Result::Ok(fields) => {
                            proof {
                                lemma_parse_fields_advances(ts, fstart, Seq::empty(), true);
                            }
                            userobject.fields = fields;
                            let ghost objects0 = self.file.user_objects@;
                            let ghost og = userobject;
                            self.file.user_objects.push(userobject);
                            proof {
                                crate::ast::lemma_objects_push(objects0, og);
                                assert(self.file@ =~~= spec_file_with_object(cur_file, og@));
                            }
                        },
                    }
                }
            } else {
                return Result::Err(
                    CompileError::Syntax { found: self.current_token.token.clone() },
                );
            }
        }
    }
}

/// Parses a whole token sequence into one compilation unit, exactly as
/// [`spec_parse`] describes.
pub fn construct_ast(tokens: &[Token]) -> (r: Result<ParsedFile, CompileError>)
    requires
        spec_tokens_wf(spec_token_models(tokens@)),
    ensures
        ({
            let out = spec_parse(spec_token_models(tokens@));
            match r {
                Result::Ok(f) => out.ok && f@ == out.file,
                Result::Err(e) => !out.ok && e@ == out.err,
            }
        }),
{
    let mut token_traversal = TokenTraverse::new(tokens);
    let r = token_traversal.block(tokens);
    proof {
        assert(spec_blank_file() =~= FileModel {
            user_types: Seq::empty(),
            user_objects: Seq::empty(),
            user_fields: Seq::empty(),
        });
    }
    r
}

} // verus!
