//! One whole compilation: parse the source, resolve every object against
//! the provided import texts (each file parsed once per distinct path),
//! and emit the JSON document. Every compilation either produces one
//! complete document or fails with one fatal error.

use vstd::prelude::*;
use crate::ast::FileModel;
use crate::ast::ObjectModel;
use crate::emit::emit_json;
use crate::emit::spec_doc;
use crate::error::CompileError;
use crate::error::ErrorModel;
use crate::jsonout::json_text_of;
use crate::pipeline::parse_source;
use crate::pipeline::spec_parse_source;
use crate::resolver::CacheEntryModel;
use crate::resolver::ResolveOutcome;
use crate::resolver::ResolveStep;
use crate::resolver::Resolver;
use crate::resolver::lemma_resolve_need_not_cached;
use crate::resolver::spec_cache;
use crate::resolver::spec_cache_lookup_at;
use crate::resolver::spec_resolve;

verus! {

/// One import handed to a compilation: a path and that file's text.
pub struct ImportText {
    pub path: String,
    pub text: Vec<char>,
}

/// The mathematical model of one provided import.
#[verifier::ext_equal]
pub ghost struct ImportTextModel {
    pub path: Seq<char>,
    pub text: Seq<char>,
}

impl View for ImportText {
    type V = ImportTextModel;

    open spec fn view(&self) -> ImportTextModel {
        ImportTextModel { path: self.path@, text: self.text@ }
    }
}

/// The models of a sequence of provided imports.
pub open spec fn spec_imports(v: Seq<ImportText>) -> Seq<ImportTextModel> {
    v.map_values(|t: ImportText| t@)
}

/// The text provided for `path`, scanning from position `i`.
pub open spec fn spec_lookup_text_at(
    imports: Seq<ImportTextModel>,
    path: Seq<char>,
    i: int,
) -> Option<Seq<char>>
    decreases imports.len() - i,
{
    if i < 0 || i >= imports.len() {
        Option::None
    } else if imports[i].path == path {
        Option::Some(imports[i].text)
    } else {
        spec_lookup_text_at(imports, path, i + 1)
    }
}

/// The text provided for `path`, if any.
pub open spec fn spec_lookup_text(imports: Seq<ImportTextModel>, path: Seq<char>) -> Option<
    Seq<char>,
> {
    spec_lookup_text_at(imports, path, 0)
}

/// The paths of the cached imports, in order.
pub open spec fn spec_cache_paths(cache: Seq<CacheEntryModel>) -> Seq<Seq<char>> {
    cache.map_values(|e: CacheEntryModel| e.path)
}

/// How many provided imports from position `i` on have a path outside
/// `loaded`: the measure that shrinks as a compilation loads imports.
pub open spec fn spec_unloaded_at(
    imports: Seq<ImportTextModel>,
    loaded: Seq<Seq<char>>,
    i: int,
) -> nat
    decreases imports.len() - i,
{
    if i < 0 || i >= imports.len() {
        0
    } else {
        (if loaded.contains(imports[i].path) {
            0nat
        } else {
            1nat
        }) + spec_unloaded_at(imports, loaded, i + 1)
    }
}

/// Growing the loaded set never grows the measure.
proof fn lemma_unloaded_mono(
    imports: Seq<ImportTextModel>,
    loaded: Seq<Seq<char>>,
    path: Seq<char>,
    i: int,
)
    ensures
        spec_unloaded_at(imports, loaded.push(path), i) <= spec_unloaded_at(imports, loaded, i),
    decreases imports.len() - i,
{
    if 0 <= i < imports.len() {
        lemma_unloaded_mono(imports, loaded, path, i + 1);
        if loaded.contains(imports[i].path) {
            let w = choose|j: int| 0 <= j < loaded.len() && loaded[j] == imports[i].path;
            assert(loaded.push(path)[w] == imports[i].path);
            assert(loaded.push(path).contains(imports[i].path));
        }
    }
}

/// Loading a provided, unloaded path strictly shrinks the measure.
proof fn lemma_unloaded_dec(
    imports: Seq<ImportTextModel>,
    loaded: Seq<Seq<char>>,
    path: Seq<char>,
    i: int,
)
    requires
        0 <= i,
        !loaded.contains(path),
        exists|j: int| 0 <= i <= j < imports.len() && imports[j].path == path,
    ensures
        spec_unloaded_at(imports, loaded.push(path), i) < spec_unloaded_at(imports, loaded, i),
    decreases imports.len() - i,
{
    let j = choose|j: int| 0 <= i <= j < imports.len() && imports[j].path == path;
    assert(i <= j < imports.len() && imports[j].path == path);
    assert(0 <= i < imports.len());
    if imports[i].path == path {
        assert(loaded.push(path)[loaded.len() as int] == path);
        assert(loaded.push(path).contains(path));
        lemma_unloaded_mono(imports, loaded, path, i + 1);
    } else {
        assert(0 <= i + 1 <= j < imports.len() && imports[j].path == path);
        lemma_unloaded_dec(imports, loaded, path, i + 1);
        if loaded.contains(imports[i].path) {
            let w = choose|k: int| 0 <= k < loaded.len() && loaded[k] == imports[i].path;
            assert(loaded.push(path)[w] == imports[i].path);
            assert(loaded.push(path).contains(imports[i].path));
        }
    }
}

/// A provided text for `path` names an import with that path.
proof fn lemma_text_entry(imports: Seq<ImportTextModel>, path: Seq<char>, i: int)
    requires
        0 <= i,
        spec_lookup_text_at(imports, path, i) is Some,
    ensures
        exists|j: int| 0 <= i <= j < imports.len() && imports[j].path == path,
    decreases imports.len() - i,
{
    if 0 <= i < imports.len() {
        if imports[i].path == path {
            assert(0 <= i <= i < imports.len() && imports[i].path == path);
        } else {
            lemma_text_entry(imports, path, i + 1);
        }
    }
}

/// A path is cached exactly when it is among the cache's paths.
proof fn lemma_has_contains(cache: Seq<CacheEntryModel>, path: Seq<char>, i: int)
    requires
        0 <= i,
    ensures
        (spec_cache_lookup_at(cache, path, i) is Some) == (exists|j: int|
            i <= j < cache.len() && spec_cache_paths(cache)[j] == path),
    decreases cache.len() - i,
{
    assert(spec_cache_paths(cache).len() == cache.len());
    if 0 <= i < cache.len() {
        assert(spec_cache_paths(cache)[i] == cache[i].path);
        if cache[i].path == path {
            assert(i <= i < cache.len() && spec_cache_paths(cache)[i as int] == path);
        } else {
            lemma_has_contains(cache, path, i + 1);
        }
    }
}

/// The outcome of driving one resolution to its end against the
/// provided imports.
#[verifier::ext_equal]
pub ghost enum DriveOutcome {
    /// The resolved objects, in declaration order.
    Resolved { objects: Seq<ObjectModel> },
    /// A fatal error.
    Fail { err: ErrorModel },
}

/// Drives one resolution to its end: while the resolver asks for an
/// import, the provided text for that path is parsed (once per distinct
/// path) and cached; a path with no provided text is a fatal import
/// input error.
pub open spec fn spec_drive(
    unit: FileModel,
    imports: Seq<ImportTextModel>,
    cache: Seq<CacheEntryModel>,
) -> DriveOutcome
    decreases spec_unloaded_at(imports, spec_cache_paths(cache), 0)
        via spec_drive_dec
{
    match spec_resolve(unit, cache) {
        ResolveOutcome::Done { objects } => DriveOutcome::Resolved { objects },
        ResolveOutcome::Fail { err } => DriveOutcome::Fail { err },
        ResolveOutcome::Need { path } => match spec_lookup_text(imports, path) {
            Option::None => DriveOutcome::Fail { err: ErrorModel::ImportIo { path } },
            Option::Some(text) => {
                let out = spec_parse_source(text);
                if !out.ok {
                    DriveOutcome::Fail { err: out.err }
                } else {
                    spec_drive(
                        unit,
                        imports,
                        cache.push(CacheEntryModel { path: path, file: out.file }),
                    )
                }
            },
        },
    }
}

#[via_fn]
proof fn spec_drive_dec(
    unit: FileModel,
    imports: Seq<ImportTextModel>,
    cache: Seq<CacheEntryModel>,
) {
    match spec_resolve(unit, cache) {
        ResolveOutcome::Need { path } => {
            if spec_lookup_text(imports, path) is Some {
                lemma_resolve_need_not_cached(cache, unit.user_objects, 0, Seq::empty(), path);
                lemma_has_contains(cache, path, 0);
                assert(!spec_cache_paths(cache).contains(path));
                lemma_text_entry(imports, path, 0);
                let entry = CacheEntryModel {
                    path: path,
                    file: spec_parse_source(spec_lookup_text(imports, path)->Some_0).file,
                };
                assert(spec_cache_paths(cache.push(entry)) =~= spec_cache_paths(cache).push(
                    path,
                ));
                lemma_unloaded_dec(imports, spec_cache_paths(cache), path, 0);
            }
        },
        _ => {},
    }
}

/// The outcome of one whole compilation.
#[verifier::ext_equal]
pub ghost struct CompileOutcome {
    pub ok: bool,
    pub text: Seq<char>,
    pub err: ErrorModel,
}

/// One whole compilation: the source is parsed, its objects are resolved
/// against the provided imports, and the document is emitted; the first
/// fatal error ends it with no output.
pub open spec fn spec_compile(
    source: Seq<char>,
    imports: Seq<ImportTextModel>,
) -> CompileOutcome {
    let p = spec_parse_source(source);
    if !p.ok {
        CompileOutcome { ok: false, text: Seq::empty(), err: p.err }
    } else {
        match spec_drive(p.file, imports, Seq::empty()) {
            DriveOutcome::Fail { err } => CompileOutcome { ok: false, text: Seq::empty(), err },
            DriveOutcome::Resolved { objects } => CompileOutcome {
                ok: true,
                text: json_text_of(spec_doc(objects, p.file.user_fields)),
                err: ErrorModel::Lex,
            },
        }
    }
}

/// The index of the first provided import with this path, if any.
fn find_import(imports: &Vec<ImportText>, path: &String) -> (r: Option<usize>)
    ensures
        ({
            let lo = spec_lookup_text(spec_imports(imports@), path@);
            match r {
                Option::Some(ix) => ix < imports@.len() && lo == Option::Some(
                    imports@[ix as int].text@,
                ) && imports@[ix as int].path@ == path@,
                Option::None => lo is None,
            }
        }),
{
    let mut i: usize = 0;
    while i < imports.len()
        invariant
            i <= imports@.len(),
            spec_lookup_text(spec_imports(imports@), path@) == spec_lookup_text_at(
                spec_imports(imports@),
                path@,
                i as int,
            ),
        decreases imports@.len() - i,
    {
        proof {
            assert(spec_imports(imports@).len() == imports@.len());
            assert(spec_imports(imports@)[i as int] == imports@[i as int]@);
        }
        if imports[i].path == *path {
            return Option::Some(i);
        }
        i = i + 1;
    }
    proof {
        assert(spec_imports(imports@).len() == imports@.len());
    }
    Option::None
}

/// Compiles one source text against the provided import texts, exactly
/// as [`spec_compile`] describes: either one complete JSON document or
/// one fatal error and no output.
#[verifier::loop_isolation(false)]
pub fn compile(source: &Vec<char>, imports: &Vec<ImportText>) -> (r: Result<String, CompileError>)
    ensures
        ({
            let out = spec_compile(source@, spec_imports(imports@));
            match r {
                Result::Ok(text) => out.ok && text@ == out.text,
                Result::Err(e) => !out.ok && e@ == out.err,
            }
        }),
{
    let ghost importsm = spec_imports(imports@);
    let unit = match parse_source(source) {
        Result::Err(e) => {
            return Result::Err(e);
        },
        Result::Ok(f) => f,
    };
    let ghost unitm = unit@;
    let mut resolver = Resolver::new(unit);
    loop
        invariant
            resolver.unit@ == unitm,
            spec_drive(unitm, importsm, Seq::empty()) == spec_drive(
                unitm,
                importsm,
                spec_cache(resolver.cache@),
            ),
        decreases spec_unloaded_at(importsm, spec_cache_paths(spec_cache(resolver.cache@)), 0),
    {
        let ghost cache0 = spec_cache(resolver.cache@);
        match resolver.step() {
            ResolveStep::Failed(e) => {
                return Result::Err(e);
            },
            ResolveStep::Done(objs) => {
                let text = emit_json(&objs, &resolver.unit.user_fields);
                return Result::Ok(text);
            },
            ResolveStep::NeedFile(p) => {
                match find_import(imports, &p) {
                    Option::None => {
                        return Result::Err(CompileError::ImportIo { path: p });
                    },
                    Option::Some(ix) => {
                        let ghost pm = p@;
                        match resolver.supply(p, &imports[ix].text) {
                            Result::Err(e) => {
                                return Result::Err(e);
                            },
                            Result::Ok(u) => {
                                proof {
                                    lemma_has_contains(cache0, pm, 0);
                                    assert(!spec_cache_paths(cache0).contains(pm));
                                    lemma_text_entry(importsm, pm, 0);
                                    let entry = CacheEntryModel {
                                        path: pm,
                                        file: spec_parse_source(imports@[ix as int].text@).file,
                                    };
                                    assert(spec_cache(resolver.cache@) == cache0.push(entry));
                                    assert(spec_cache_paths(cache0.push(entry))
                                        =~= spec_cache_paths(cache0).push(pm));
                                    lemma_unloaded_dec(importsm, spec_cache_paths(cache0), pm, 0);
                                }
                            },
                        }
                    },
                }
            },
        }
    }
}

} // verus!
