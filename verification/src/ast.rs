//! The data model: fields, types, objects and the compilation unit.
//!
//! A field is either required-and-typed (a declared type, no default) or
//! value-bearing (a literal value). A type is a named, ordered list of
//! fields; a deferred type is known only by name and source path until
//! the resolver loads that file. An object carries its caller-supplied
//! fields and an optional snapshot of its type. A parsed file holds the
//! types, objects and global fields of one source file.

use vstd::prelude::*;
use crate::token::Token;
use crate::token::TokenModel;
use crate::token::TokenType;

verus! {

/// One field: a name together with either a declared type or a value.
#[derive(Debug)]
pub struct Field {
    pub identifier: String,
    pub identifier_type: Type,
    pub initialized: bool,
    pub value: Token,
}

/// One type: a name, whether its definition is deferred to another file,
/// that file's path, and the ordered fields.
#[derive(Debug)]
pub struct Type {
    pub typename: String,
    pub queued: bool,
    pub file_path: String,
    pub fields: Vec<Field>,
}

/// One object: a name, an optional snapshot of its type, and its fields.
#[derive(Debug)]
pub struct Object {
    pub object_name: String,
    pub object_type: Option<Type>,
    pub fields: Vec<Field>,
}

/// One source file's parse result: types, objects and global fields.
#[derive(Debug)]
pub struct ParsedFile {
    pub user_types: Vec<Type>,
    pub user_objects: Vec<Object>,
    pub user_fields: Vec<Field>,
}

/// The mathematical model of a field. A field's declared type is modeled
/// by its name alone: nothing else of it is ever read.
#[verifier::ext_equal]
pub ghost struct FieldModel {
    pub identifier: Seq<char>,
    pub declared_type: Seq<char>,
    pub initialized: bool,
    pub value: TokenModel,
}

/// The mathematical model of a type.
#[verifier::ext_equal]
pub ghost struct TypeModel {
    pub typename: Seq<char>,
    pub queued: bool,
    pub file_path: Seq<char>,
    pub fields: Seq<FieldModel>,
}

/// The mathematical model of an object.
#[verifier::ext_equal]
pub ghost struct ObjectModel {
    pub object_name: Seq<char>,
    pub object_type: Option<TypeModel>,
    pub fields: Seq<FieldModel>,
}

/// The mathematical model of a parsed file.
#[verifier::ext_equal]
pub ghost struct FileModel {
    pub user_types: Seq<TypeModel>,
    pub user_objects: Seq<ObjectModel>,
    pub user_fields: Seq<FieldModel>,
}

impl View for Field {
    type V = FieldModel;

    open spec fn view(&self) -> FieldModel {
        FieldModel {
            identifier: self.identifier@,
            declared_type: self.identifier_type.typename@,
            initialized: self.initialized,
            value: self.value@,
        }
    }
}

/// The models of a sequence of fields.
pub open spec fn spec_fields(fs: Seq<Field>) -> Seq<FieldModel> {
    fs.map_values(|f: Field| f@)
}

impl View for Type {
    type V = TypeModel;

    open spec fn view(&self) -> TypeModel {
        TypeModel {
            typename: self.typename@,
            queued: self.queued,
            file_path: self.file_path@,
            fields: spec_fields(self.fields@),
        }
    }
}

impl View for Object {
    type V = ObjectModel;

    open spec fn view(&self) -> ObjectModel {
        ObjectModel {
            object_name: self.object_name@,
            object_type: match self.object_type {
                Option::Some(t) => Option::Some(t@),
                Option::None => Option::None,
            },
            fields: spec_fields(self.fields@),
        }
    }
}

/// The models of a sequence of types.
pub open spec fn spec_types(ts: Seq<Type>) -> Seq<TypeModel> {
    ts.map_values(|t: Type| t@)
}

/// The models of a sequence of objects.
pub open spec fn spec_objects(os: Seq<Object>) -> Seq<ObjectModel> {
    os.map_values(|o: Object| o@)
}

impl View for ParsedFile {
    type V = FileModel;

    open spec fn view(&self) -> FileModel {
        FileModel {
            user_types: spec_types(self.user_types@),
            user_objects: spec_objects(self.user_objects@),
            user_fields: spec_fields(self.user_fields@),
        }
    }
}

/// The model of a blank, uninitialized token.
pub open spec fn spec_uninit_token() -> TokenModel {
    TokenModel { text: Seq::empty(), kind: TokenType::Uninitialized }
}

/// The model of a blank type.
pub open spec fn spec_blank_type() -> TypeModel {
    TypeModel {
        typename: Seq::empty(),
        queued: false,
        file_path: Seq::empty(),
        fields: Seq::empty(),
    }
}

/// The model of a built-in scalar type: a name and nothing else.
pub open spec fn spec_named_type(name: Seq<char>) -> TypeModel {
    TypeModel { typename: name, queued: false, file_path: Seq::empty(), fields: Seq::empty() }
}

/// The model of a blank field.
pub open spec fn spec_blank_field() -> FieldModel {
    FieldModel {
        identifier: Seq::empty(),
        declared_type: Seq::empty(),
        initialized: false,
        value: spec_uninit_token(),
    }
}

/// The model of a blank object.
pub open spec fn spec_blank_object() -> ObjectModel {
    ObjectModel { object_name: Seq::empty(), object_type: Option::None, fields: Seq::empty() }
}

/// The model of an empty parse result.
pub open spec fn spec_blank_file() -> FileModel {
    FileModel { user_types: Seq::empty(), user_objects: Seq::empty(), user_fields: Seq::empty() }
}

/// Pushing one field commutes with taking models.
pub proof fn lemma_fields_push(v: Seq<Field>, x: Field)
    ensures
        spec_fields(v.push(x)) == spec_fields(v).push(x@),
{
    assert(spec_fields(v).len() == v.len());
    assert forall|j: int| 0 <= j < v.len() + 1 implies spec_fields(v.push(x))[j] == spec_fields(
        v,
    ).push(x@)[j] by {
        assert(spec_fields(v.push(x))[j] == v.push(x)[j]@);
        if j < v.len() {
            assert(v.push(x)[j] == v[j]);
            assert(spec_fields(v)[j] == v[j]@);
        } else {
            assert(v.push(x)[j] == x);
        }
    }
    assert(spec_fields(v.push(x)) =~= spec_fields(v).push(x@));
}

/// Pushing one type commutes with taking models.
pub proof fn lemma_types_push(v: Seq<Type>, x: Type)
    ensures
        spec_types(v.push(x)) == spec_types(v).push(x@),
{
    assert(spec_types(v).len() == v.len());
    assert forall|j: int| 0 <= j < v.len() + 1 implies spec_types(v.push(x))[j] == spec_types(
        v,
    ).push(x@)[j] by {
        assert(spec_types(v.push(x))[j] == v.push(x)[j]@);
        if j < v.len() {
            assert(v.push(x)[j] == v[j]);
            assert(spec_types(v)[j] == v[j]@);
        } else {
            assert(v.push(x)[j] == x);
        }
    }
    assert(spec_types(v.push(x)) =~= spec_types(v).push(x@));
}

/// Pushing one object commutes with taking models.
pub proof fn lemma_objects_push(v: Seq<Object>, x: Object)
    ensures
        spec_objects(v.push(x)) == spec_objects(v).push(x@),
{
    assert(spec_objects(v).len() == v.len());
    assert forall|j: int| 0 <= j < v.len() + 1 implies spec_objects(v.push(x))[j] == spec_objects(
        v,
    ).push(x@)[j] by {
        assert(spec_objects(v.push(x))[j] == v.push(x)[j]@);
        if j < v.len() {
            assert(v.push(x)[j] == v[j]);
            assert(spec_objects(v)[j] == v[j]@);
        } else {
            assert(v.push(x)[j] == x);
        }
    }
    assert(spec_objects(v.push(x)) =~= spec_objects(v).push(x@));
}

impl Field {
    /// A blank field: no name, no type, no value.
    pub fn new() -> (f: Field)
        ensures
            f@ == spec_blank_field(),
    {
        let f = Field {
            identifier: String::new(),
            identifier_type: Type::new(),
            initialized: false,
            value: Token { token: String::new(), tokentype: TokenType::Uninitialized },
        };
        proof {
            assert(f@ =~= spec_blank_field());
        }
        f
    }

    /// A copy of this field, equal under the model.
    pub fn duplicate(&self) -> (f: Field)
        ensures
            f@ == self@,
    {
        let f = Field {
            identifier: self.identifier.clone(),
            identifier_type: Type {
                typename: self.identifier_type.typename.clone(),
                queued: self.identifier_type.queued,
                file_path: self.identifier_type.file_path.clone(),
                fields: Vec::new(),
            },
            initialized: self.initialized,
            value: Token { token: self.value.token.clone(), tokentype: self.value.tokentype },
        };
        proof {
            assert(f@ =~= self@);
        }
        f
    }
}

/// A copy of a field vector, equal under the model, element by element.
pub fn duplicate_fields(fs: &Vec<Field>) -> (r: Vec<Field>)
    ensures
        spec_fields(r@) == spec_fields(fs@),
{
    let mut r: Vec<Field> = Vec::new();
    let mut i: usize = 0;
    while i < fs.len()
        invariant
            i <= fs@.len(),
            spec_fields(r@) == spec_fields(fs@).subrange(0, i as int),
        decreases fs@.len() - i,
    {
        let ghost r0 = r@;
        let x = fs[i].duplicate();
        let ghost xg = x;
        r.push(x);
        i = i + 1;
        proof {
            assert(r@ == r0.push(xg));
            assert(spec_fields(r0).len() == r0.len());
            assert(r0.len() == i - 1);
            assert forall|j: int| 0 <= j < i implies spec_fields(r@)[j] == spec_fields(
                fs@,
            ).subrange(0, i as int)[j] by {
                assert(spec_fields(r@)[j] == r@[j]@);
                if j < i - 1 {
                    assert(r0.push(xg)[j] == r0[j]);
                    assert(spec_fields(r0)[j] == r0[j]@);
                }
            }
            assert(spec_fields(r@) =~= spec_fields(fs@).subrange(0, i as int));
        }
    }
    proof {
        assert(spec_fields(fs@).subrange(0, fs@.len() as int) =~= spec_fields(fs@));
    }
    r
}

impl Type {
    /// A blank type: no name, not deferred, no fields.
    pub fn new() -> (t: Type)
        ensures
            t@ == spec_blank_type(),
    {
        let t = Type {
            typename: String::new(),
            queued: false,
            file_path: String::new(),
            fields: Vec::new(),
        };
        proof {
            assert(t@ =~= spec_blank_type());
        }
        t
    }

    /// The built-in `string` type.
    pub fn new_string_type() -> (t: Type)
        ensures
            t@ == spec_named_type("string"@),
    {
        let t = Type {
            typename: "string".to_owned(),
            queued: false,
            file_path: String::new(),
            fields: Vec::new(),
        };
        proof {
            assert(t@ =~= spec_named_type("string"@));
        }
        t
    }

    /// The built-in `bool` type.
    pub fn new_bool_type() -> (t: Type)
        ensures
            t@ == spec_named_type("bool"@),
    {
        let t = Type {
            typename: "bool".to_owned(),
            queued: false,
            file_path: String::new(),
            fields: Vec::new(),
        };
        proof {
            assert(t@ =~= spec_named_type("bool"@));
        }
        t
    }

    /// The built-in `number` type.
    pub fn new_number_type() -> (t: Type)
        ensures
            t@ == spec_named_type("number"@),
    {
        let t = Type {
            typename: "number".to_owned(),
            queued: false,
            file_path: String::new(),
            fields: Vec::new(),
        };
        proof {
            assert(t@ =~= spec_named_type("number"@));
        }
        t
    }

    /// A copy of this type, equal under the model.
    pub fn duplicate(&self) -> (t: Type)
        ensures
            t@ == self@,
    {
        let t = Type {
            typename: self.typename.clone(),
            queued: self.queued,
            file_path: self.file_path.clone(),
            fields: duplicate_fields(&self.fields),
        };
        proof {
            assert(t@ =~= self@);
        }
        t
    }
}

impl PartialEq for Type {
    /// Type equality is by name alone.
    fn eq(&self, other: &Type) -> (r: bool) {
        self.typename == other.typename
    }
}

impl vstd::std_specs::cmp::PartialEqSpecImpl for Type {
    open spec fn obeys_eq_spec() -> bool {
        true
    }

    open spec fn eq_spec(&self, other: &Type) -> bool {
        self.typename@ == other.typename@
    }
}

impl Object {
    /// A copy of this object, equal under the model.
    pub fn duplicate(&self) -> (o: Object)
        ensures
            o@ == self@,
    {
        let o = Object {
            object_name: self.object_name.clone(),
            object_type: match &self.object_type {
                Option::Some(t) => Option::Some(t.duplicate()),
                Option::None => Option::None,
            },
            fields: duplicate_fields(&self.fields),
        };
        proof {
            assert(o@ =~= self@);
        }
        o
    }

    /// A blank object: no name, no type, no fields.
    pub fn new() -> (o: Object)
        ensures
            o@ == spec_blank_object(),
    {
        let o = Object { object_name: String::new(), object_type: Option::None, fields: Vec::new() };
        proof {
            assert(o@ =~= spec_blank_object());
        }
        o
    }
}

/// A copy of a type vector, equal under the model, element by element.
pub fn duplicate_types(ts: &Vec<Type>) -> (r: Vec<Type>)
    ensures
        spec_types(r@) == spec_types(ts@),
{
    let mut r: Vec<Type> = Vec::new();
    let mut i: usize = 0;
    while i < ts.len()
        invariant
            i <= ts@.len(),
            spec_types(r@) == spec_types(ts@).subrange(0, i as int),
        decreases ts@.len() - i,
    {
        let ghost r0 = r@;
        let x = ts[i].duplicate();
        let ghost xg = x;
        r.push(x);
        i = i + 1;
        proof {
            assert(r@ == r0.push(xg));
            assert(spec_types(r0).len() == r0.len());
            assert(r0.len() == i - 1);
            assert forall|j: int| 0 <= j < i implies spec_types(r@)[j] == spec_types(
                ts@,
            ).subrange(0, i as int)[j] by {
                assert(spec_types(r@)[j] == r@[j]@);
                if j < i - 1 {
                    assert(r0.push(xg)[j] == r0[j]);
                    assert(spec_types(r0)[j] == r0[j]@);
                }
            }
            assert(spec_types(r@) =~= spec_types(ts@).subrange(0, i as int));
        }
    }
    proof {
        assert(spec_types(ts@).subrange(0, ts@.len() as int) =~= spec_types(ts@));
    }
    r
}

/// A copy of an object vector, equal under the model, element by element.
pub fn duplicate_objects(os: &Vec<Object>) -> (r: Vec<Object>)
    ensures
        spec_objects(r@) == spec_objects(os@),
{
    let mut r: Vec<Object> = Vec::new();
    let mut i: usize = 0;
    while i < os.len()
        invariant
            i <= os@.len(),
            spec_objects(r@) == spec_objects(os@).subrange(0, i as int),
        decreases os@.len() - i,
    {
        let ghost r0 = r@;
        let x = os[i].duplicate();
        let ghost xg = x;
        r.push(x);
        i = i + 1;
        proof {
            assert(r@ == r0.push(xg));
            assert(spec_objects(r0).len() == r0.len());
            assert(r0.len() == i - 1);
            assert forall|j: int| 0 <= j < i implies spec_objects(r@)[j] == spec_objects(
                os@,
            ).subrange(0, i as int)[j] by {
                assert(spec_objects(r@)[j] == r@[j]@);
                if j < i - 1 {
                    assert(r0.push(xg)[j] == r0[j]);
                    assert(spec_objects(r0)[j] == r0[j]@);
                }
            }
            assert(spec_objects(r@) =~= spec_objects(os@).subrange(0, i as int));
        }
    }
    proof {
        assert(spec_objects(os@).subrange(0, os@.len() as int) =~= spec_objects(os@));
    }
    r
}

impl ParsedFile {
    /// A copy of this parse result, equal under the model.
    pub fn duplicate(&self) -> (p: ParsedFile)
        ensures
            p@ == self@,
    {
        let p = ParsedFile {
            user_types: duplicate_types(&self.user_types),
            user_objects: duplicate_objects(&self.user_objects),
            user_fields: duplicate_fields(&self.user_fields),
        };
        proof {
            assert(p@ =~= self@);
        }
        p
    }

    /// An empty parse result.
    pub fn new() -> (p: ParsedFile)
        ensures
            p@ == spec_blank_file(),
    {
        let p = ParsedFile {
            user_types: Vec::new(),
            user_objects: Vec::new(),
            user_fields: Vec::new(),
        };
        proof {
            assert(p@ =~= spec_blank_file());
        }
        p
    }
}

} // verus!
