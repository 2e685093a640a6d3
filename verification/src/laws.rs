//! The library's laws, stated and proved over the spec functions that the
//! executable functions' contracts are written in.

use vstd::prelude::*;
use crate::ast::FieldModel;
use crate::ast::FileModel;
use crate::ast::ObjectModel;
use crate::compile::ImportTextModel;
use crate::compile::spec_compile;
use crate::emit::spec_coerce;
use crate::emit::spec_doc;
use crate::emit::spec_emit_fields;
use crate::emit::spec_emit_objects;
use crate::emit::spec_object_entries;
use crate::jsonout::JsonModel;
use crate::jsonout::spec_lookup_entry;
use crate::jsonout::spec_set_entry;
use crate::resolver::CacheEntryModel;
use crate::resolver::ResolveOutcome;
use crate::resolver::lemma_resolve_need_not_cached;
use crate::resolver::spec_cache_has;
use crate::resolver::spec_fill_at;
use crate::resolver::spec_has_field;
use crate::resolver::spec_resolve;

verus! {

/// Idempotence: one compilation's output is a function of the source text
/// and the provided import texts and of nothing else, so identical inputs
/// give byte-identical output.
pub proof fn lemma_idempotence(
    s1: Seq<char>,
    s2: Seq<char>,
    i1: Seq<ImportTextModel>,
    i2: Seq<ImportTextModel>,
)
    requires
        s1 == s2,
        i1 == i2,
    ensures
        spec_compile(s1, i1) == spec_compile(s2, i2),
{
}

/// Setting a key makes it readable with exactly that value.
proof fn lemma_set_entry_same(es: Seq<(Seq<char>, JsonModel)>, k: Seq<char>, v: JsonModel)
    ensures
        spec_lookup_entry(spec_set_entry(es, k, v), k) == Option::Some(v),
    decreases es.len(),
{
    if es.len() == 0 {
        assert(spec_set_entry(es, k, v)[0] == (k, v));
    } else if es[0].0 == k {
        assert(spec_set_entry(es, k, v)[0] == (k, v));
    } else {
        assert(spec_set_entry(es, k, v)[0] == es[0]);
        lemma_set_entry_same(es.drop_first(), k, v);
        assert(spec_set_entry(es, k, v).drop_first() =~= spec_set_entry(es.drop_first(), k, v));
    }
}

/// Setting a key leaves every other key's value as it was.
proof fn lemma_set_entry_other(
    es: Seq<(Seq<char>, JsonModel)>,
    k: Seq<char>,
    v: JsonModel,
    k2: Seq<char>,
)
    requires
        k2 != k,
    ensures
        spec_lookup_entry(spec_set_entry(es, k, v), k2) == spec_lookup_entry(es, k2),
    decreases es.len(),
{
    if es.len() == 0 {
        assert(spec_set_entry(es, k, v)[0] == (k, v));
        assert(spec_set_entry(es, k, v).drop_first() =~= Seq::<(Seq<char>, JsonModel)>::empty());
        assert(spec_lookup_entry(Seq::<(Seq<char>, JsonModel)>::empty(), k2) == Option::<
            JsonModel,
        >::None);
        assert(spec_lookup_entry(es, k2) == Option::<JsonModel>::None);
    } else if es[0].0 == k {
        assert(spec_set_entry(es, k, v)[0] == (k, v));
        assert(spec_set_entry(es, k, v).drop_first() =~= es.drop_first());
        assert(spec_lookup_entry(spec_set_entry(es, k, v), k2) == spec_lookup_entry(
            es.drop_first(),
            k2,
        ));
        assert(spec_lookup_entry(es, k2) == spec_lookup_entry(es.drop_first(), k2));
    } else {
        assert(spec_set_entry(es, k, v)[0] == es[0]);
        lemma_set_entry_other(es.drop_first(), k, v, k2);
        assert(spec_set_entry(es, k, v).drop_first() =~= spec_set_entry(es.drop_first(), k, v));
    }
}

/// Emitting fields that all have other names leaves a key's value as it
/// was.
proof fn lemma_emit_fields_preserves(
    entries: Seq<(Seq<char>, JsonModel)>,
    fields: Seq<FieldModel>,
    i: int,
    key: Seq<char>,
)
    requires
        forall|j: int| i <= j < fields.len() ==> fields[j].identifier != key,
    ensures
        spec_lookup_entry(spec_emit_fields(entries, fields, i), key) == spec_lookup_entry(
            entries,
            key,
        ),
    decreases fields.len() - i,
{
    if 0 <= i < fields.len() {
        lemma_set_entry_other(
            entries,
            fields[i].identifier,
            spec_coerce(fields[i].value.text),
            key,
        );
        lemma_emit_fields_preserves(
            spec_set_entry(entries, fields[i].identifier, spec_coerce(fields[i].value.text)),
            fields,
            i + 1,
            key,
        );
    }
}

/// The last field emitted under a name decides that name's value.
proof fn lemma_emit_fields_lookup(
    entries: Seq<(Seq<char>, JsonModel)>,
    fields: Seq<FieldModel>,
    i: int,
    fi: int,
)
    requires
        0 <= i <= fi < fields.len(),
        forall|j: int| fi < j < fields.len() ==> fields[j].identifier != fields[fi].identifier,
    ensures
        spec_lookup_entry(spec_emit_fields(entries, fields, i), fields[fi].identifier)
            == Option::Some(spec_coerce(fields[fi].value.text)),
    decreases fi - i,
{
    let e2 = spec_set_entry(entries, fields[i].identifier, spec_coerce(fields[i].value.text));
    if i == fi {
        lemma_set_entry_same(entries, fields[fi].identifier, spec_coerce(fields[fi].value.text));
        lemma_emit_fields_preserves(e2, fields, i + 1, fields[fi].identifier);
    } else {
        lemma_emit_fields_lookup(e2, fields, i + 1, fi);
    }
}

/// A key present in the entries, or named by a field yet to be emitted,
/// is present afterward.
proof fn lemma_emit_fields_covers(
    entries: Seq<(Seq<char>, JsonModel)>,
    fields: Seq<FieldModel>,
    i: int,
    key: Seq<char>,
)
    requires
        0 <= i,
        (spec_lookup_entry(entries, key) is Some) || (exists|j: int|
            i <= j < fields.len() && fields[j].identifier == key),
    ensures
        spec_lookup_entry(spec_emit_fields(entries, fields, i), key) is Some,
    decreases fields.len() - i,
{
    if 0 <= i < fields.len() {
        let e2 = spec_set_entry(entries, fields[i].identifier, spec_coerce(fields[i].value.text));
        if fields[i].identifier == key {
            lemma_set_entry_same(entries, key, spec_coerce(fields[i].value.text));
        } else {
            lemma_set_entry_other(
                entries,
                fields[i].identifier,
                spec_coerce(fields[i].value.text),
                key,
            );
            if spec_lookup_entry(entries, key) is None {
                let w = choose|j: int|
                    i <= j < fields.len() && fields[j].identifier == key;
                assert(i + 1 <= w < fields.len() && fields[w].identifier == key);
            }
        }
        lemma_emit_fields_covers(e2, fields, i + 1, key);
    }
}

/// Emitting objects that all have other names leaves a key's value as it
/// was.
proof fn lemma_emit_objects_preserves(
    entries: Seq<(Seq<char>, JsonModel)>,
    objects: Seq<ObjectModel>,
    i: int,
    key: Seq<char>,
)
    requires
        forall|j: int| i <= j < objects.len() ==> objects[j].object_name != key,
    ensures
        spec_lookup_entry(spec_emit_objects(entries, objects, i), key) == spec_lookup_entry(
            entries,
            key,
        ),
    decreases objects.len() - i,
{
    if 0 <= i < objects.len() {
        lemma_set_entry_other(
            entries,
            objects[i].object_name,
            JsonModel::Obj(spec_object_entries(objects[i].fields)),
            key,
        );
        lemma_emit_objects_preserves(
            spec_set_entry(
                entries,
                objects[i].object_name,
                JsonModel::Obj(spec_object_entries(objects[i].fields)),
            ),
            objects,
            i + 1,
            key,
        );
    }
}

/// The last object emitted under a name decides that name's value.
proof fn lemma_emit_objects_lookup(
    entries: Seq<(Seq<char>, JsonModel)>,
    objects: Seq<ObjectModel>,
    i: int,
    oi: int,
)
    requires
        0 <= i <= oi < objects.len(),
        forall|j: int| oi < j < objects.len() ==> objects[j].object_name != objects[oi].object_name,
    ensures
        spec_lookup_entry(spec_emit_objects(entries, objects, i), objects[oi].object_name)
            == Option::Some(JsonModel::Obj(spec_object_entries(objects[oi].fields))),
    decreases oi - i,
{
    let e2 = spec_set_entry(
        entries,
        objects[i].object_name,
        JsonModel::Obj(spec_object_entries(objects[i].fields)),
    );
    if i == oi {
        lemma_set_entry_same(
            entries,
            objects[oi].object_name,
            JsonModel::Obj(spec_object_entries(objects[oi].fields)),
        );
        lemma_emit_objects_preserves(e2, objects, i + 1, objects[oi].object_name);
    } else {
        lemma_emit_objects_lookup(e2, objects, i + 1, oi);
    }
}

/// Literal round-trip, objects: a resolved object stands in the document
/// under its name, and each of its fields stands inside that entry with
/// its literal's coerced value — for the last object of a name and the
/// last field of a name, since a later write to the same key wins.
pub proof fn lemma_literal_round_trip(
    objects: Seq<ObjectModel>,
    gfields: Seq<FieldModel>,
    oi: int,
    fi: int,
)
    requires
        0 <= oi < objects.len(),
        0 <= fi < objects[oi].fields.len(),
        forall|j: int| oi < j < objects.len() ==> objects[j].object_name != objects[oi].object_name,
        forall|j: int|
            fi < j < objects[oi].fields.len() ==> objects[oi].fields[j].identifier
                != objects[oi].fields[fi].identifier,
    ensures
        spec_lookup_entry(spec_doc(objects, gfields), objects[oi].object_name) == Option::Some(
            JsonModel::Obj(spec_object_entries(objects[oi].fields)),
        ),
        spec_lookup_entry(
            spec_object_entries(objects[oi].fields),
            objects[oi].fields[fi].identifier,
        ) == Option::Some(spec_coerce(objects[oi].fields[fi].value.text)),
{
    lemma_emit_objects_lookup(spec_emit_fields(Seq::empty(), gfields, 0), objects, 0, oi);
    lemma_emit_fields_lookup(Seq::empty(), objects[oi].fields, 0, fi);
}

/// Literal round-trip, global fields: a global field stands in the
/// document under its name with its literal's coerced value — for the
/// last global field of a name, and a name no object also carries, since
/// a later write to the same key wins.
pub proof fn lemma_global_round_trip(objects: Seq<ObjectModel>, gfields: Seq<FieldModel>, gi: int)
    requires
        0 <= gi < gfields.len(),
        forall|j: int| gi < j < gfields.len() ==> gfields[j].identifier != gfields[gi].identifier,
        forall|j: int| 0 <= j < objects.len() ==> objects[j].object_name != gfields[gi].identifier,
    ensures
        spec_lookup_entry(spec_doc(objects, gfields), gfields[gi].identifier) == Option::Some(
            spec_coerce(gfields[gi].value.text),
        ),
{
    lemma_emit_fields_lookup(Seq::empty(), gfields, 0, gi);
    lemma_emit_objects_preserves(
        spec_emit_fields(Seq::empty(), gfields, 0),
        objects,
        0,
        gfields[gi].identifier,
    );
}

/// A successful fill only appends: the object's own fields stay, in
/// place and unchanged, and everything appended bears a name the object
/// did not have.
pub proof fn lemma_fill_extends(
    fields: Seq<FieldModel>,
    tfs: Seq<FieldModel>,
    i: int,
    objname: Seq<char>,
)
    requires
        spec_fill_at(fields, tfs, i, objname).ok,
    ensures
        spec_fill_at(fields, tfs, i, objname).fields.len() >= fields.len(),
        forall|k: int|
            0 <= k < fields.len() ==> spec_fill_at(fields, tfs, i, objname).fields[k] == fields[k],
        forall|k: int|
            fields.len() <= k < spec_fill_at(fields, tfs, i, objname).fields.len()
                ==> !spec_has_field(
                fields,
                spec_fill_at(fields, tfs, i, objname).fields[k].identifier,
            ),
    decreases tfs.len() - i,
{
    if i < 0 || i >= tfs.len() {
    } else {
        let tf = tfs[i];
        if spec_has_field(fields, tf.identifier) {
            lemma_fill_extends(fields, tfs, i + 1, objname);
        } else if tf.initialized {
            let grown = fields.push(tf);
            lemma_fill_extends(grown, tfs, i + 1, objname);
            let result = spec_fill_at(fields, tfs, i, objname).fields;
            assert forall|k: int| 0 <= k < fields.len() implies result[k] == fields[k] by {
                assert(result[k] == grown[k]);
                assert(grown[k] == fields[k]);
            }
            assert forall|k: int| fields.len() <= k < result.len() implies !spec_has_field(
                fields,
                result[k].identifier,
            ) by {
                if k == fields.len() {
                    assert(result[k] == grown[k]);
                    assert(grown[fields.len() as int] == tf);
                } else {
                    assert(!spec_has_field(grown, result[k].identifier));
                    if spec_has_field(fields, result[k].identifier) {
                        let w = choose|j: int|
                            0 <= j < fields.len() && fields[j].identifier == result[k].identifier;
                        assert(grown[w] == fields[w]);
                        assert(spec_has_field(grown, result[k].identifier));
                    }
                }
            }
        }
    }
}

/// A successful fill leaves the object with a field for every field of
/// its type, from position `i` on.
proof fn lemma_fill_covers(
    fields: Seq<FieldModel>,
    tfs: Seq<FieldModel>,
    i: int,
    objname: Seq<char>,
    ti: int,
)
    requires
        0 <= i <= ti < tfs.len(),
        spec_fill_at(fields, tfs, i, objname).ok,
    ensures
        spec_has_field(spec_fill_at(fields, tfs, i, objname).fields, tfs[ti].identifier),
    decreases tfs.len() - i,
{
    let tf = tfs[i];
    let result = spec_fill_at(fields, tfs, i, objname).fields;
    if spec_has_field(fields, tf.identifier) {
        if i == ti {
            lemma_fill_extends(fields, tfs, i + 1, objname);
            let w = choose|j: int|
                0 <= j < fields.len() && fields[j].identifier == tf.identifier;
            assert(result[w] == fields[w]);
        } else {
            lemma_fill_covers(fields, tfs, i + 1, objname, ti);
        }
    } else {
        let grown = fields.push(tf);
        if i == ti {
            lemma_fill_extends(grown, tfs, i + 1, objname);
            assert(result[fields.len() as int] == grown[fields.len() as int]);
            assert(grown[fields.len() as int] == tf);
            assert(spec_has_field(result, tf.identifier));
        } else {
            lemma_fill_covers(grown, tfs, i + 1, objname, ti);
        }
    }
}

/// Field completeness: after a successful fill, the emitted object's
/// entries hold a key for every field of its type.
pub proof fn lemma_field_completeness(
    own: Seq<FieldModel>,
    tfs: Seq<FieldModel>,
    objname: Seq<char>,
    ti: int,
)
    requires
        0 <= ti < tfs.len(),
        spec_fill_at(own, tfs, 0, objname).ok,
    ensures
        spec_lookup_entry(
            spec_object_entries(spec_fill_at(own, tfs, 0, objname).fields),
            tfs[ti].identifier,
        ) is Some,
{
    lemma_fill_covers(own, tfs, 0, objname, ti);
    let result = spec_fill_at(own, tfs, 0, objname).fields;
    let w = choose|j: int| 0 <= j < result.len() && result[j].identifier == tfs[ti].identifier;
    lemma_emit_fields_covers(Seq::empty(), result, 0, tfs[ti].identifier);
}

/// Override precedence: a value the object supplied for a field name
/// always wins over the type's default — the fill never appends a field
/// under a name the object already has, so the object's own (last) value
/// for the name is what the document shows.
pub proof fn lemma_override_precedence(
    own: Seq<FieldModel>,
    tfs: Seq<FieldModel>,
    objname: Seq<char>,
    oi: int,
)
    requires
        0 <= oi < own.len(),
        forall|j: int| oi < j < own.len() ==> own[j].identifier != own[oi].identifier,
        spec_fill_at(own, tfs, 0, objname).ok,
    ensures
        spec_lookup_entry(
            spec_object_entries(spec_fill_at(own, tfs, 0, objname).fields),
            own[oi].identifier,
        ) == Option::Some(spec_coerce(own[oi].value.text)),
{
    lemma_fill_extends(own, tfs, 0, objname);
    let result = spec_fill_at(own, tfs, 0, objname).fields;
    assert forall|j: int| oi < j < result.len() implies result[j].identifier
        != own[oi].identifier by {
        if j < own.len() {
            assert(result[j] == own[j]);
        } else {
            assert(!spec_has_field(own, result[j].identifier));
            if result[j].identifier == own[oi].identifier {
                assert(own[oi].identifier == own[oi].identifier);
                assert(spec_has_field(own, own[oi].identifier));
            }
        }
    }
    assert(result[oi] == own[oi]);
    lemma_emit_fields_lookup(Seq::empty(), result, 0, oi);
}

/// Label inheritance, the label step: a label naming a known type sets
/// the ambient type for the rest of the parse.
pub proof fn lemma_label_sets_ambient(
    ts: Seq<crate::token::TokenModel>,
    i: int,
    ambient: Option<crate::ast::TypeModel>,
    file: FileModel,
    ty: crate::ast::TypeModel,
)
    requires
        0 <= i < ts.len() - 1,
        ts[i].kind == crate::token::TokenType::Label,
        crate::parser::spec_find_type(
            file.user_types,
            crate::parser::spec_strip_label(ts[i].text),
        ) == Option::Some(ty),
    ensures
        crate::parser::spec_block(ts, i, ambient, file) == crate::parser::spec_block(
            ts,
            i + 1,
            Option::Some(ty),
            file,
        ),
{
}

/// Label inheritance, the object step: an object declared without an
/// explicit type annotation carries the ambient label type, and the
/// ambient type stays in force for what follows.
pub proof fn lemma_untyped_object_inherits(
    ts: Seq<crate::token::TokenModel>,
    i: int,
    ambient: Option<crate::ast::TypeModel>,
    file: FileModel,
)
    requires
        0 <= i < ts.len() - 1,
        ts[i].kind == crate::token::TokenType::PossibleIdentifier,
        ts[crate::parser::spec_next(ts, i)].kind == crate::token::TokenType::CurlyBracketStart,
        crate::parser::spec_parse_fields(
            ts,
            crate::parser::spec_next(ts, crate::parser::spec_next(ts, i)),
            Seq::empty(),
            true,
        ).ok,
    ensures
        crate::parser::spec_block(ts, i, ambient, file) == crate::parser::spec_block(
            ts,
            crate::parser::spec_parse_fields(
                ts,
                crate::parser::spec_next(ts, crate::parser::spec_next(ts, i)),
                Seq::empty(),
                true,
            ).next,
            ambient,
            crate::parser::spec_file_with_object(
                file,
                ObjectModel {
                    object_name: ts[i].text,
                    object_type: ambient,
                    fields: crate::parser::spec_parse_fields(
                        ts,
                        crate::parser::spec_next(ts, crate::parser::spec_next(ts, i)),
                        Seq::empty(),
                        true,
                    ).fields,
                },
            ),
        ),
{
}

/// Import memoization: whenever resolution asks for a file, its path is
/// outside the cache; a path once cached is never asked for again, so
/// each distinct import path is parsed exactly once per compilation.
pub proof fn lemma_import_memoization(unit: FileModel, cache: Seq<CacheEntryModel>, p: Seq<char>)
    requires
        spec_resolve(unit, cache) == (ResolveOutcome::Need { path: p }),
    ensures
        !spec_cache_has(cache, p),
{
    lemma_resolve_need_not_cached(cache, unit.user_objects, 0, Seq::empty(), p);
}


/// A key read out of set entries was either just set or was already
/// there.
proof fn lemma_set_entry_only(
    es: Seq<(Seq<char>, JsonModel)>,
    k: Seq<char>,
    v: JsonModel,
    k2: Seq<char>,
)
    ensures
        spec_lookup_entry(spec_set_entry(es, k, v), k2) is Some ==> k2 == k || spec_lookup_entry(
            es,
            k2,
        ) is Some,
{
    if k2 != k {
        lemma_set_entry_other(es, k, v, k2);
    }
}

/// A key present after emitting fields was present before, or is some
/// emitted field's name.
proof fn lemma_emit_fields_only(
    entries: Seq<(Seq<char>, JsonModel)>,
    fields: Seq<FieldModel>,
    i: int,
    key: Seq<char>,
)
    requires
        0 <= i,
    ensures
        spec_lookup_entry(spec_emit_fields(entries, fields, i), key) is Some ==> (
        spec_lookup_entry(entries, key) is Some || exists|j: int|
            i <= j < fields.len() && fields[j].identifier == key),
    decreases fields.len() - i,
{
    if 0 <= i < fields.len() {
        let e2 = spec_set_entry(entries, fields[i].identifier, spec_coerce(fields[i].value.text));
        lemma_emit_fields_only(e2, fields, i + 1, key);
        if spec_lookup_entry(spec_emit_fields(entries, fields, i), key) is Some {
            if spec_lookup_entry(e2, key) is Some {
                lemma_set_entry_only(
                    entries,
                    fields[i].identifier,
                    spec_coerce(fields[i].value.text),
                    key,
                );
                if key == fields[i].identifier {
                    assert(i <= i < fields.len() && fields[i].identifier == key);
                }
            } else {
                let w = choose|j: int|
                    i + 1 <= j < fields.len() && fields[j].identifier == key;
                assert(i <= w < fields.len() && fields[w].identifier == key);
            }
        }
    }
}

/// A successful fill appends nothing but fields of the type: every name
/// of the result is a name the object had or a type field's name.
proof fn lemma_fill_from_type(
    fields: Seq<FieldModel>,
    tfs: Seq<FieldModel>,
    i: int,
    objname: Seq<char>,
)
    requires
        spec_fill_at(fields, tfs, i, objname).ok,
    ensures
        forall|k: int|
            0 <= k < spec_fill_at(fields, tfs, i, objname).fields.len() ==> (spec_has_field(
                fields,
                spec_fill_at(fields, tfs, i, objname).fields[k].identifier,
            ) || exists|ti: int|
                i <= ti < tfs.len() && tfs[ti].identifier == spec_fill_at(
                    fields,
                    tfs,
                    i,
                    objname,
                ).fields[k].identifier),
    decreases tfs.len() - i,
{
    if i < 0 || i >= tfs.len() {
        assert forall|k: int|
            0 <= k < spec_fill_at(fields, tfs, i, objname).fields.len() implies spec_has_field(
            fields,
            spec_fill_at(fields, tfs, i, objname).fields[k].identifier,
        ) by {
            assert(spec_fill_at(fields, tfs, i, objname).fields[k] == fields[k]);
        }
    } else {
        let tf = tfs[i];
        let result = spec_fill_at(fields, tfs, i, objname).fields;
        if spec_has_field(fields, tf.identifier) {
            lemma_fill_from_type(fields, tfs, i + 1, objname);
        } else if tf.initialized {
            let grown = fields.push(tf);
            lemma_fill_from_type(grown, tfs, i + 1, objname);
            assert forall|k: int| 0 <= k < result.len() implies (spec_has_field(
                fields,
                result[k].identifier,
            ) || exists|ti: int|
                i <= ti < tfs.len() && tfs[ti].identifier == result[k].identifier) by {
                if spec_has_field(grown, result[k].identifier) {
                    let w = choose|j: int|
                        0 <= j < grown.len() && grown[j].identifier == result[k].identifier;
                    if w < fields.len() {
                        assert(grown[w] == fields[w]);
                        assert(spec_has_field(fields, result[k].identifier));
                    } else {
                        assert(grown[w] == tf);
                        assert(i <= i < tfs.len() && tfs[i].identifier == result[k].identifier);
                    }
                } else {
                    let t = choose|ti: int|
                        i + 1 <= ti < tfs.len() && tfs[ti].identifier == result[k].identifier;
                    assert(i <= t < tfs.len() && tfs[t].identifier == result[k].identifier);
                }
            }
        }
    }
}

/// Field completeness, exactly: an object that supplies no fields of its
/// own is emitted with exactly its type's field names as keys.
pub proof fn lemma_field_completeness_exact(
    tfs: Seq<FieldModel>,
    objname: Seq<char>,
    key: Seq<char>,
)
    requires
        spec_fill_at(Seq::empty(), tfs, 0, objname).ok,
    ensures
        (spec_lookup_entry(
            spec_object_entries(spec_fill_at(Seq::empty(), tfs, 0, objname).fields),
            key,
        ) is Some) == (exists|ti: int| 0 <= ti < tfs.len() && tfs[ti].identifier == key),
{
    let own = Seq::<FieldModel>::empty();
    let result = spec_fill_at(own, tfs, 0, objname).fields;
    if spec_lookup_entry(spec_object_entries(result), key) is Some {
        lemma_emit_fields_only(Seq::empty(), result, 0, key);
        assert(spec_lookup_entry(Seq::<(Seq<char>, JsonModel)>::empty(), key) is None);
        let w = choose|j: int| 0 <= j < result.len() && result[j].identifier == key;
        lemma_fill_from_type(own, tfs, 0, objname);
        assert(!spec_has_field(own, result[w].identifier));
    }
    if exists|ti: int| 0 <= ti < tfs.len() && tfs[ti].identifier == key {
        let ti = choose|ti: int| 0 <= ti < tfs.len() && tfs[ti].identifier == key;
        lemma_field_completeness(own, tfs, objname, ti);
    }
}

/// Label inheritance, the explicit-type step: an object declared with an
/// explicit type annotation carries that type, and the ambient label type
/// stays in force for what follows.
pub proof fn lemma_explicit_type_keeps_ambient(
    ts: Seq<crate::token::TokenModel>,
    i: int,
    ambient: Option<crate::ast::TypeModel>,
    file: FileModel,
    ty: crate::ast::TypeModel,
)
    requires
        0 <= i < ts.len() - 1,
        ts[i].kind == crate::token::TokenType::PossibleIdentifier,
        ts[crate::parser::spec_next(ts, i)].kind == crate::token::TokenType::TypeAssignment,
        ({
            let l = crate::parser::spec_next(ts, crate::parser::spec_next(ts, i));
            ts[l].kind == crate::token::TokenType::PossibleIdentifier
                && crate::parser::spec_find_type(file.user_types, ts[l].text) == Option::Some(ty)
                && ts[crate::parser::spec_next(ts, l)].kind
                == crate::token::TokenType::CurlyBracketStart && crate::parser::spec_parse_fields(
                ts,
                crate::parser::spec_next(ts, crate::parser::spec_next(ts, l)),
                Seq::empty(),
                true,
            ).ok
        }),
    ensures
        ({
            let l = crate::parser::spec_next(ts, crate::parser::spec_next(ts, i));
            let fo = crate::parser::spec_parse_fields(
                ts,
                crate::parser::spec_next(ts, crate::parser::spec_next(ts, l)),
                Seq::empty(),
                true,
            );
            crate::parser::spec_block(ts, i, ambient, file) == crate::parser::spec_block(
                ts,
                fo.next,
                ambient,
                crate::parser::spec_file_with_object(
                    file,
                    ObjectModel {
                        object_name: ts[i].text,
                        object_type: Option::Some(ty),
                        fields: fo.fields,
                    },
                ),
            )
        }),
{
}

} // verus!
