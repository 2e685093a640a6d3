//! The type resolver: for every object with a type reference, substitutes
//! the concrete definition of a deferred (imported) type and fills the
//! object's fields against its type: the object's own value wins, a
//! defaulted field is appended, and a required field left unset is fatal.
//!
//! Imported files are loaded by the caller, one at a time: the resolver
//! asks for a path, the caller supplies that file's text, and the file is
//! parsed and cached once per distinct path, however many objects refer
//! to it. A chain of deferred definitions is followed through the cache
//! with an in-progress path set; re-entering a path on the chain is a
//! fatal import cycle.

use vstd::prelude::*;
use crate::ast::Field;
use crate::ast::FieldModel;
use crate::ast::FileModel;
use crate::ast::Object;
use crate::ast::ObjectModel;
use crate::ast::ParsedFile;
use crate::ast::Type;
use crate::ast::TypeModel;
use crate::ast::spec_fields;
use crate::ast::spec_objects;
use crate::error::CompileError;
use crate::error::ErrorModel;
use crate::parser::spec_find_type;

verus! {

/// One cached import: a path and the file parsed from it.
pub struct CachedImport {
    pub path: String,
    pub file: ParsedFile,
}

/// The mathematical model of one cached import.
#[verifier::ext_equal]
pub ghost struct CacheEntryModel {
    pub path: Seq<char>,
    pub file: FileModel,
}

impl View for CachedImport {
    type V = CacheEntryModel;

    open spec fn view(&self) -> CacheEntryModel {
        CacheEntryModel { path: self.path@, file: self.file@ }
    }
}

/// The models of a sequence of cached imports.
pub open spec fn spec_cache(cs: Seq<CachedImport>) -> Seq<CacheEntryModel> {
    cs.map_values(|c: CachedImport| c@)
}

/// The models of a sequence of strings.
pub open spec fn spec_strs(v: Seq<String>) -> Seq<Seq<char>> {
    v.map_values(|s: String| s@)
}

/// The file cached for `path`, scanning from position `i`.
pub open spec fn spec_cache_lookup_at(
    cache: Seq<CacheEntryModel>,
    path: Seq<char>,
    i: int,
) -> Option<FileModel>
    decreases cache.len() - i,
{
    if i < 0 || i >= cache.len() {
        Option::None
    } else if cache[i].path == path {
        Option::Some(cache[i].file)
    } else {
        spec_cache_lookup_at(cache, path, i + 1)
    }
}

/// The file cached for `path`, if any.
pub open spec fn spec_cache_lookup(cache: Seq<CacheEntryModel>, path: Seq<char>) -> Option<
    FileModel,
> {
    spec_cache_lookup_at(cache, path, 0)
}

/// Whether a file is cached for `path`.
pub open spec fn spec_cache_has(cache: Seq<CacheEntryModel>, path: Seq<char>) -> bool {
    spec_cache_lookup(cache, path) is Some
}

/// How many cache entries from position `i` on have a path outside
/// `visited`: the measure that shrinks as a deferred-definition chain
/// grows its in-progress path set.
pub open spec fn spec_unvisited_at(
    cache: Seq<CacheEntryModel>,
    visited: Seq<Seq<char>>,
    i: int,
) -> nat
    decreases cache.len() - i,
{
    if i < 0 || i >= cache.len() {
        0
    } else {
        (if visited.contains(cache[i].path) {
            0nat
        } else {
            1nat
        }) + spec_unvisited_at(cache, visited, i + 1)
    }
}

/// Growing the visited set never grows the measure.
proof fn lemma_unvisited_mono(
    cache: Seq<CacheEntryModel>,
    visited: Seq<Seq<char>>,
    path: Seq<char>,
    i: int,
)
    ensures
        spec_unvisited_at(cache, visited.push(path), i) <= spec_unvisited_at(cache, visited, i),
    decreases cache.len() - i,
{
    if 0 <= i < cache.len() {
        lemma_unvisited_mono(cache, visited, path, i + 1);
        if visited.contains(cache[i].path) {
            let w = choose|j: int| 0 <= j < visited.len() && visited[j] == cache[i].path;
            assert(visited.push(path)[w] == cache[i].path);
            assert(visited.push(path).contains(cache[i].path));
        }
    }
}

/// Visiting a cached, unvisited path strictly shrinks the measure.
proof fn lemma_unvisited_dec(
    cache: Seq<CacheEntryModel>,
    visited: Seq<Seq<char>>,
    path: Seq<char>,
    i: int,
)
    requires
        0 <= i,
        !visited.contains(path),
        exists|j: int| 0 <= i <= j < cache.len() && cache[j].path == path,
    ensures
        spec_unvisited_at(cache, visited.push(path), i) < spec_unvisited_at(cache, visited, i),
    decreases cache.len() - i,
{
    let j = choose|j: int| 0 <= i <= j < cache.len() && cache[j].path == path;
    assert(i <= j < cache.len() && cache[j].path == path);
    assert(0 <= i < cache.len());
    if cache[i].path == path {
        assert(visited.push(path)[visited.len() as int] == path);
        assert(visited.push(path).contains(path));
        lemma_unvisited_mono(cache, visited, path, i + 1);
    } else {
        assert(0 <= i + 1 <= j < cache.len() && cache[j].path == path);
        lemma_unvisited_dec(cache, visited, path, i + 1);
        if visited.contains(cache[i].path) {
            let w = choose|k: int| 0 <= k < visited.len() && visited[k] == cache[i].path;
            assert(visited.push(path)[w] == cache[i].path);
            assert(visited.push(path).contains(cache[i].path));
        }
    }
}

/// A cache hit for `path` names an entry with that path.
proof fn lemma_lookup_entry(cache: Seq<CacheEntryModel>, path: Seq<char>, i: int)
    requires
        0 <= i,
        spec_cache_lookup_at(cache, path, i) is Some,
    ensures
        exists|j: int| 0 <= i <= j < cache.len() && cache[j].path == path,
    decreases cache.len() - i,
{
    if 0 <= i < cache.len() {
        if cache[i].path == path {
            assert(0 <= i <= i < cache.len() && cache[i].path == path);
        } else {
            lemma_lookup_entry(cache, path, i + 1);
        }
    }
}

/// The outcome of making one type reference concrete.
#[verifier::ext_equal]
pub ghost enum TypeOutcome {
    /// The file at this path is needed and not yet cached.
    Need { path: Seq<char> },
    /// The concrete definition.
    Found { ty: TypeModel },
    /// A fatal error.
    Fail { err: ErrorModel },
}

/// Follows a deferred definition chain: looks `path` up in the cache,
/// scans that file's type definitions for `name`, and keeps following
/// while the definition found is itself deferred. A path outside the
/// cache must be supplied first; re-entering a path of the in-progress
/// set `visited` is a fatal import cycle; a file without the name is a
/// fatal unknown type.
pub open spec fn spec_resolve_deferred(
    cache: Seq<CacheEntryModel>,
    name: Seq<char>,
    path: Seq<char>,
    visited: Seq<Seq<char>>,
) -> TypeOutcome
    decreases spec_unvisited_at(cache, visited, 0)
        via spec_resolve_deferred_dec
{
    match spec_cache_lookup(cache, path) {
        Option::None => TypeOutcome::Need { path },
        Option::Some(f) => {
            if visited.contains(path) {
                TypeOutcome::Fail { err: ErrorModel::ImportCycle { path } }
            } else {
                match spec_find_type(f.user_types, name) {
                    Option::None => TypeOutcome::Fail {
                        err: ErrorModel::UnknownType { name },
                    },
                    Option::Some(ty) => {
                        if !ty.queued {
                            TypeOutcome::Found { ty }
                        } else {
                            spec_resolve_deferred(cache, name, ty.file_path, visited.push(path))
                        }
                    },
                }
            }
        },
    }
}

#[via_fn]
proof fn spec_resolve_deferred_dec(
    cache: Seq<CacheEntryModel>,
    name: Seq<char>,
    path: Seq<char>,
    visited: Seq<Seq<char>>,
) {
    if spec_cache_lookup(cache, path) is Some && !visited.contains(path) {
        lemma_lookup_entry(cache, path, 0);
        lemma_unvisited_dec(cache, visited, path, 0);
    }
}

/// The concrete definition behind a type snapshot: a local type is
/// already concrete; a deferred one is chased through the cache.
pub open spec fn spec_concrete_type(cache: Seq<CacheEntryModel>, ty: TypeModel) -> TypeOutcome {
    if !ty.queued {
        TypeOutcome::Found { ty }
    } else {
        spec_resolve_deferred(cache, ty.typename, ty.file_path, Seq::empty())
    }
}

/// Whether some field of the list has this name.
pub open spec fn spec_has_field(fields: Seq<FieldModel>, name: Seq<char>) -> bool {
    exists|j: int| 0 <= j < fields.len() && fields[j].identifier == name
}

/// The outcome of filling one object's fields against its type.
#[verifier::ext_equal]
pub ghost struct FillOutcome {
    pub ok: bool,
    pub fields: Seq<FieldModel>,
    pub err: ErrorModel,
}

/// A successful fill; the error component is immaterial.
pub open spec fn spec_fill_ok(fields: Seq<FieldModel>) -> FillOutcome {
    FillOutcome { ok: true, fields: fields, err: ErrorModel::Lex }
}

/// A failed fill; the fields component is immaterial.
pub open spec fn spec_fill_fail(e: ErrorModel) -> FillOutcome {
    FillOutcome { ok: false, fields: Seq::empty(), err: e }
}

/// Fills `fields` against the type fields from position `i` on, in
/// declaration order: a field the object already has (by name) is kept as
/// it is; a defaulted type field is appended; a required type field with
/// no match is a fatal missing-required-field error naming the field and
/// the object.
pub open spec fn spec_fill_at(
    fields: Seq<FieldModel>,
    tfs: Seq<FieldModel>,
    i: int,
    objname: Seq<char>,
) -> FillOutcome
    decreases tfs.len() - i,
{
    if i < 0 || i >= tfs.len() {
        spec_fill_ok(fields)
    } else {
        let tf = tfs[i];
        if spec_has_field(fields, tf.identifier) {
            spec_fill_at(fields, tfs, i + 1, objname)
        } else if tf.initialized {
            spec_fill_at(fields.push(tf), tfs, i + 1, objname)
        } else {
            spec_fill_fail(
                ErrorModel::MissingRequiredField { field: tf.identifier, object: objname },
            )
        }
    }
}

/// The outcome of resolving one object.
#[verifier::ext_equal]
pub ghost enum ObjectOutcome {
    /// An untyped object: left out of the resolved set.
    Skip,
    /// The file at this path is needed and not yet cached.
    Need { path: Seq<char> },
    /// The object, its fields filled against its concrete type.
    Done { obj: ObjectModel },
    /// A fatal error.
    Fail { err: ErrorModel },
}

/// Resolves one object: an untyped object is skipped; otherwise its type
/// is made concrete and its fields are filled against it.
pub open spec fn spec_resolve_object(cache: Seq<CacheEntryModel>, o: ObjectModel) -> ObjectOutcome {
    match o.object_type {
        Option::None => ObjectOutcome::Skip,
        Option::Some(ty) => match spec_concrete_type(cache, ty) {
            TypeOutcome::Need { path } => ObjectOutcome::Need { path },
            TypeOutcome::Fail { err } => ObjectOutcome::Fail { err },
            TypeOutcome::Found { ty: cty } => {
                let fo = spec_fill_at(o.fields, cty.fields, 0, o.object_name);
                if fo.ok {
                    ObjectOutcome::Done {
                        obj: ObjectModel {
                            object_name: o.object_name,
                            object_type: o.object_type,
                            fields: fo.fields,
                        },
                    }
                } else {
                    ObjectOutcome::Fail { err: fo.err }
                }
            },
        },
    }
}

/// The outcome of resolving every object of a compilation unit.
#[verifier::ext_equal]
pub ghost enum ResolveOutcome {
    /// The file at this path is needed and not yet cached.
    Need { path: Seq<char> },
    /// The resolved objects, in declaration order, untyped ones left out.
    Done { objects: Seq<ObjectModel> },
    /// A fatal error.
    Fail { err: ErrorModel },
}

/// Resolves the objects from position `i` on, `acc` holding those
/// already resolved.
pub open spec fn spec_resolve_all_at(
    cache: Seq<CacheEntryModel>,
    objs: Seq<ObjectModel>,
    i: int,
    acc: Seq<ObjectModel>,
) -> ResolveOutcome
    decreases objs.len() - i,
{
    if i < 0 || i >= objs.len() {
        ResolveOutcome::Done { objects: acc }
    } else {
        match spec_resolve_object(cache, objs[i]) {
            ObjectOutcome::Skip => spec_resolve_all_at(cache, objs, i + 1, acc),
            ObjectOutcome::Need { path } => ResolveOutcome::Need { path },
            ObjectOutcome::Fail { err } => ResolveOutcome::Fail { err },
            ObjectOutcome::Done { obj } => spec_resolve_all_at(cache, objs, i + 1, acc.push(obj)),
        }
    }
}

/// Resolving a whole compilation unit against a cache of imports.
pub open spec fn spec_resolve(unit: FileModel, cache: Seq<CacheEntryModel>) -> ResolveOutcome {
    spec_resolve_all_at(cache, unit.user_objects, 0, Seq::empty())
}

/// A needed path is never one that the cache already holds: the chase
/// asks only for files outside the cache.
pub proof fn lemma_deferred_need_not_cached(
    cache: Seq<CacheEntryModel>,
    name: Seq<char>,
    path: Seq<char>,
    visited: Seq<Seq<char>>,
    p: Seq<char>,
)
    requires
        spec_resolve_deferred(cache, name, path, visited) == (TypeOutcome::Need { path: p }),
    ensures
        !spec_cache_has(cache, p),
    decreases spec_unvisited_at(cache, visited, 0),
{
    match spec_cache_lookup(cache, path) {
        Option::None => {},
        Option::Some(f) => {
            if !visited.contains(path) {
                match spec_find_type(f.user_types, name) {
                    Option::None => {},
                    Option::Some(ty) => {
                        if ty.queued {
                            lemma_lookup_entry(cache, path, 0);
                            lemma_unvisited_dec(cache, visited, path, 0);
                            lemma_deferred_need_not_cached(
                                cache,
                                name,
                                ty.file_path,
                                visited.push(path),
                                p,
                            );
                        }
                    },
                }
            }
        },
    }
}

/// A path the resolution asks for is never one that the cache already
/// holds: each distinct import path is supplied, and so parsed, once.
pub proof fn lemma_resolve_need_not_cached(
    cache: Seq<CacheEntryModel>,
    objs: Seq<ObjectModel>,
    i: int,
    acc: Seq<ObjectModel>,
    p: Seq<char>,
)
    requires
        spec_resolve_all_at(cache, objs, i, acc) == (ResolveOutcome::Need { path: p }),
    ensures
        !spec_cache_has(cache, p),
    decreases objs.len() - i,
{
    if 0 <= i < objs.len() {
        match spec_resolve_object(cache, objs[i]) {
            ObjectOutcome::Skip => {
                lemma_resolve_need_not_cached(cache, objs, i + 1, acc, p);
            },
            ObjectOutcome::Need { path } => {
                match objs[i].object_type {
                    Option::None => {},
                    Option::Some(ty) => {
                        if ty.queued {
                            lemma_deferred_need_not_cached(
                                cache,
                                ty.typename,
                                ty.file_path,
                                Seq::empty(),
                                p,
                            );
                        }
                    },
                }
            },
            ObjectOutcome::Fail { err } => {},
            ObjectOutcome::Done { obj } => {
                lemma_resolve_need_not_cached(cache, objs, i + 1, acc.push(obj), p);
            },
        }
    }
}


/// Pushing one cached import commutes with taking models.
pub proof fn lemma_cache_push(v: Seq<CachedImport>, x: CachedImport)
    ensures
        spec_cache(v.push(x)) == spec_cache(v).push(x@),
{
    assert(spec_cache(v).len() == v.len());
    assert forall|j: int| 0 <= j < v.len() + 1 implies spec_cache(v.push(x))[j] == spec_cache(
        v,
    ).push(x@)[j] by {
        assert(spec_cache(v.push(x))[j] == v.push(x)[j]@);
        if j < v.len() {
            assert(v.push(x)[j] == v[j]);
            assert(spec_cache(v)[j] == v[j]@);
        } else {
            assert(v.push(x)[j] == x);
        }
    }
    assert(spec_cache(v.push(x)) =~= spec_cache(v).push(x@));
}

/// Pushing one string commutes with taking models.
pub proof fn lemma_strs_push(v: Seq<String>, x: String)
    ensures
        spec_strs(v.push(x)) == spec_strs(v).push(x@),
{
    assert(spec_strs(v).len() == v.len());
    assert forall|j: int| 0 <= j < v.len() + 1 implies spec_strs(v.push(x))[j] == spec_strs(
        v,
    ).push(x@)[j] by {
        assert(spec_strs(v.push(x))[j] == v.push(x)[j]@);
        if j < v.len() {
            assert(v.push(x)[j] == v[j]);
            assert(spec_strs(v)[j] == v[j]@);
        } else {
            assert(v.push(x)[j] == x);
        }
    }
    assert(spec_strs(v.push(x)) =~= spec_strs(v).push(x@));
}

/// The index of the cache entry for `path`, if any.
fn cache_lookup_index(cache: &Vec<CachedImport>, path: &String) -> (r: Option<usize>)
    ensures
        ({
            let lo = spec_cache_lookup(spec_cache(cache@), path@);
            match r {
                Option::Some(ix) => ix < cache@.len() && lo == Option::Some(
                    cache@[ix as int].file@,
                ) && cache@[ix as int].path@ == path@,
                Option::None => lo is None,
            }
        }),
{
    let mut i: usize = 0;
    while i < cache.len()
        invariant
            i <= cache@.len(),
            spec_cache_lookup(spec_cache(cache@), path@) == spec_cache_lookup_at(
                spec_cache(cache@),
                path@,
                i as int,
            ),
        decreases cache@.len() - i,
    {
        proof {
            assert(spec_cache(cache@).len() == cache@.len());
            assert(spec_cache(cache@)[i as int] == cache@[i as int]@);
        }
        if cache[i].path == *path {
            return Option::Some(i);
        }
        i = i + 1;
    }
    proof {
        assert(spec_cache(cache@).len() == cache@.len());
    }
    Option::None
}

/// Whether the vector holds this string.
fn strs_contains(v: &Vec<String>, s: &String) -> (b: bool)
    ensures
        b == spec_strs(v@).contains(s@),
{
    let mut i: usize = 0;
    while i < v.len()
        invariant
            i <= v@.len(),
            forall|j: int| 0 <= j < i ==> spec_strs(v@)[j] != s@,
        decreases v@.len() - i,
    {
        proof {
            assert(spec_strs(v@)[i as int] == v@[i as int]@);
        }
        if v[i] == *s {
            proof {
                assert(spec_strs(v@)[i as int] == s@);
                assert(spec_strs(v@).contains(s@));
            }
            return true;
        }
        i = i + 1;
    }
    proof {
        assert(spec_strs(v@).len() == v@.len());
        assert(!spec_strs(v@).contains(s@));
    }
    false
}

/// Whether some field of the vector has this name.
fn has_field(fields: &Vec<Field>, name: &String) -> (b: bool)
    ensures
        b == spec_has_field(spec_fields(fields@), name@),
{
    let mut i: usize = 0;
    while i < fields.len()
        invariant
            i <= fields@.len(),
            forall|j: int| 0 <= j < i ==> spec_fields(fields@)[j].identifier != name@,
        decreases fields@.len() - i,
    {
        proof {
            assert(spec_fields(fields@)[i as int] == fields@[i as int]@);
        }
        if fields[i].identifier == *name {
            proof {
                assert(spec_fields(fields@)[i as int].identifier == name@);
            }
            return true;
        }
        i = i + 1;
    }
    proof {
        assert(spec_fields(fields@).len() == fields@.len());
    }
    false
}

/// Fills an object's own fields against its type's fields, exactly as
/// [`spec_fill_at`] describes: an own field wins, a default is appended,
/// a required field left unset is fatal.
#[verifier::loop_isolation(false)]
fn fill_fields(own: &Vec<Field>, tfs: &Vec<Field>, objname: &String) -> (r: Result<
    Vec<Field>,
    CompileError,
>)
    ensures
        ({
            let fo = spec_fill_at(spec_fields(own@), spec_fields(tfs@), 0, objname@);
            match r {
                Result::Ok(fs) => fo.ok && spec_fields(fs@) == fo.fields,
                Result::Err(e) => !fo.ok && e@ == fo.err,
            }
        }),
{
    let mut fields = crate::ast::duplicate_fields(own);
    let mut i: usize = 0;
    while i < tfs.len()
        invariant
            i <= tfs@.len(),
            spec_fill_at(spec_fields(own@), spec_fields(tfs@), 0, objname@) == spec_fill_at(
                spec_fields(fields@),
                spec_fields(tfs@),
                i as int,
                objname@,
            ),
        decreases tfs@.len() - i,
    {
        proof {
            assert(spec_fields(tfs@).len() == tfs@.len());
            assert(spec_fields(tfs@)[i as int] == tfs@[i as int]@);
        }
        let tf = &tfs[i];
        if has_field(&fields, &tf.identifier) {
            i = i + 1;
        } else if tf.initialized {
            let ghost fs0 = fields@;
            let d = tf.duplicate();
            let ghost dg = d;
            fields.push(d);
            i = i + 1;
            proof {
                crate::ast::lemma_fields_push(fs0, dg);
            }
        } else {
            return Result::Err(
                CompileError::MissingRequiredField {
                    field: tf.identifier.clone(),
                    object: objname.clone(),
                },
            );
        }
    }
    proof {
        assert(spec_fields(tfs@).len() == tfs@.len());
    }
    Result::Ok(fields)
}

/// One concrete step of deferred-type resolution, handed back to the
/// caller.
pub enum TypeStep {
    /// The file at this path is needed and not yet cached.
    Need(String),
    /// The concrete definition.
    Found(Type),
    /// A fatal error.
    Failed(CompileError),
}

/// What the resolver asks of its caller, or hands back.
pub enum ResolveStep {
    /// Supply the file at this path, then step again.
    NeedFile(String),
    /// The resolved objects, in declaration order, untyped ones left out.
    Done(Vec<Object>),
    /// A fatal error.
    Failed(CompileError),
}

/// The resolver: one compilation unit and the imports cached so far.
pub struct Resolver {
    pub unit: ParsedFile,
    pub cache: Vec<CachedImport>,
}

impl Resolver {
    /// A resolver over one parsed compilation unit, with nothing cached.
    pub fn new(unit: ParsedFile) -> (r: Resolver)
        ensures
            r.unit == unit,
            spec_cache(r.cache@) == Seq::<CacheEntryModel>::empty(),
    {
        let r = Resolver { unit: unit, cache: Vec::new() };
        proof {
            assert(spec_cache(r.cache@) =~= Seq::<CacheEntryModel>::empty());
        }
        r
    }

    /// Parses and caches one imported file's text under its path. A path
    /// already cached is left untouched: each distinct import path is
    /// parsed at most once.
    pub fn supply(&mut self, path: String, source: &Vec<char>) -> (r: Result<(), CompileError>)
        ensures
            final(self).unit == old(self).unit,
            ({
                let cache0 = spec_cache(old(self).cache@);
                if spec_cache_has(cache0, path@) {
                    r is Ok && final(self).cache@ == old(self).cache@
                } else {
                    let out = crate::pipeline::spec_parse_source(source@);
                    match r {
                        Result::Ok(u) => out.ok && spec_cache(final(self).cache@) == cache0.push(
                            CacheEntryModel { path: path@, file: out.file },
                        ),
                        Result::Err(e) => !out.ok && e@ == out.err && final(self).cache@ == old(
                            self,
                        ).cache@,
                    }
                }
            }),
    {
        match cache_lookup_index(&self.cache, &path) {
            Option::Some(ix) => Result::Ok(()),
            Option::None => {
                match crate::pipeline::parse_source(source) {
                    Result::Err(e) => Result::Err(e),
                    Result::Ok(f) => {
                        let ghost cache0 = self.cache@;
                        let entry = CachedImport { path: path, file: f };
                        let ghost eg = entry;
                        self.cache.push(entry);
                        proof {
                            lemma_cache_push(cache0, eg);
                        }
                        Result::Ok(())
                    },
                }
            },
        }
    }

    /// Chases one deferred type through the cache, exactly as
    /// [`spec_resolve_deferred`] describes.
    #[verifier::loop_isolation(false)]
    fn resolve_deferred(&self, name: &String, path0: &String) -> (r: TypeStep)
        ensures
            ({
                let out = spec_resolve_deferred(
                    spec_cache(self.cache@),
                    name@,
                    path0@,
                    Seq::empty(),
                );
                match r {
                    TypeStep::Need(p) => out == (TypeOutcome::Need { path: p@ }),
                    TypeStep::Found(t) => out == (TypeOutcome::Found { ty: t@ }),
                    TypeStep::Failed(e) => out == (TypeOutcome::Fail { err: e@ }),
                }
            }),
    {
        let ghost cache = spec_cache(self.cache@);
        let mut cur_path: String = path0.clone();
        let mut visited: Vec<String> = Vec::new();
        proof {
            assert(spec_strs(visited@) =~= Seq::<Seq<char>>::empty());
        }
        loop
            invariant
                spec_resolve_deferred(cache, name@, path0@, Seq::empty())
                    == spec_resolve_deferred(cache, name@, cur_path@, spec_strs(visited@)),
            decreases spec_unvisited_at(cache, spec_strs(visited@), 0),
        {
            match cache_lookup_index(&self.cache, &cur_path) {
                Option::None => {
                    return TypeStep::Need(cur_path);
                },
                Option::Some(ix) => {
                    if strs_contains(&visited, &cur_path) {
                        return TypeStep::Failed(CompileError::ImportCycle { path: cur_path });
                    }
                    let f = &self.cache[ix].file;
                    match crate::parser::find_type_index(&f.user_types, name) {
                        Option::None => {
                            return TypeStep::Failed(
                                CompileError::UnknownType { name: name.clone() },
                            );
                        },
                        Option::Some(tix) => {
                            let t = &f.user_types[tix];
                            proof {
                                assert(crate::ast::spec_types(f.user_types@)[tix as int]
                                    == f.user_types@[tix as int]@);
                            }
                            if !t.queued {
                                return TypeStep::Found(t.duplicate());
                            }
                            let new_path = t.file_path.clone();
                            let ghost prev = cur_path;
                            let ghost visited0 = visited@;
                            visited.push(cur_path);
                            cur_path = new_path;
                            proof {
                                lemma_strs_push(visited0, prev);
                                lemma_lookup_entry(cache, prev@, 0);
                                lemma_unvisited_dec(cache, spec_strs(visited0), prev@, 0);
                            }
                        },
                    }
                },
            }
        }
    }

    /// One resolution step over the whole unit, exactly as
    /// [`spec_resolve`] describes: either the path of an import that must
    /// be supplied first (never one already cached), or the resolved
    /// objects, or a fatal error.
    #[verifier::loop_isolation(false)]
    pub fn step(&self) -> (r: ResolveStep)
        ensures
            ({
                let out = spec_resolve(self.unit@, spec_cache(self.cache@));
                match r {
                    ResolveStep::NeedFile(p) => out == (ResolveOutcome::Need { path: p@ })
                        && !spec_cache_has(spec_cache(self.cache@), p@),
                    ResolveStep::Done(objs) => out == (ResolveOutcome::Done {
                        objects: spec_objects(objs@),
                    }),
                    ResolveStep::Failed(e) => out == (ResolveOutcome::Fail { err: e@ }),
                }
            }),
    {
        let ghost cache = spec_cache(self.cache@);
        let ghost objsm = self.unit@.user_objects;
        let mut acc: Vec<Object> = Vec::new();
        let mut i: usize = 0;
        proof {
            assert(spec_objects(acc@) =~= Seq::<ObjectModel>::empty());
            assert(spec_objects(self.unit.user_objects@) == objsm);
        }
        while i < self.unit.user_objects.len()
            invariant
                i <= self.unit.user_objects@.len(),
                spec_resolve(self.unit@, cache) == spec_resolve_all_at(
                    cache,
                    objsm,
                    i as int,
                    spec_objects(acc@),
                ),
            decreases self.unit.user_objects@.len() - i,
        {
            proof {
                assert(objsm.len() == self.unit.user_objects@.len());
                assert(objsm[i as int] == self.unit.user_objects@[i as int]@);
            }
            let o = &self.unit.user_objects[i];
            let ghost om = o@;
            match &o.object_type {
                Option::None => {
                    i = i + 1;
                },
                Option::Some(t) => {
                    let concrete: Type;
                    if !t.queued {
                        concrete = t.duplicate();
                    } else {
                        match self.resolve_deferred(&t.typename, &t.file_path) {
                            TypeStep::Need(p) => {
                                proof {
                                    lemma_resolve_need_not_cached(
                                        cache,
                                        objsm,
                                        i as int,
                                        spec_objects(acc@),
                                        p@,
                                    );
                                }
                                return ResolveStep::NeedFile(p);
                            },
                            TypeStep::Failed(e) => {
                                return ResolveStep::Failed(e);
                            },
                            TypeStep::Found(c) => {
                                concrete = c;
                            },
                        }
                    }
                    match fill_fields(&o.fields, &concrete.fields, &o.object_name) {
                        Result::Err(e) => {
                            return ResolveStep::Failed(e);
                        },
                        Result::Ok(fs) => {
                            let resolved = Object {
                                object_name: o.object_name.clone(),
                                object_type: Option::Some(t.duplicate()),
                                fields: fs,
                            };
                            let ghost acc0 = acc@;
                            let ghost rg = resolved;
                            acc.push(resolved);
                            i = i + 1;
                            proof {
                                crate::ast::lemma_objects_push(acc0, rg);
                                assert(spec_resolve_object(cache, om) == (ObjectOutcome::Done {
                                    obj: rg@,
                                }));
                            }
                        },
                    }
                },
            }
        }
        proof {
            assert(objsm.len() == self.unit.user_objects@.len());
        }
        ResolveStep::Done(acc)
    }
}

} // verus!
