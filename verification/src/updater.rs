//! Applying the update catalog to manifest documents.
//!
//! A manifest is an object carrying a `modules` array. Each module is an
//! object with a `name` string; a module whose name is catalogued also needs
//! a `sources` array of stanza objects, into which every delta of its record
//! is merged in feed order. Modules whose name is not catalogued are left
//! unchanged. Any shape violation aborts the run with a manifest schema
//! error.

use crate::catalog::{
    catalog_has, deltas_view, lemma_deltas_view_len, obj_fields, spec_find_record, SourceDelta,
    UpdateCatalog, UpdateRecordView,
};
use crate::errors::UpdateError;
use crate::json::{
    arr_clone, arr_view, field_view, fields_view, json_clone, json_view, lemma_arr_view_len,
    lemma_fields_view_len, lookup_field, obj_lookup, spec_lookup, Field, FieldView, Json, JsonView,
};
use crate::merge::{merge, merge_spec};
use crate::resolve::{resolve, spec_resolve, unique_exact};
use crate::text::is_exact_key;
use vstd::prelude::*;

verus! {

/// Every entry of a sources array is an object.
pub open spec fn sources_all_objects(sources: Seq<JsonView>) -> bool {
    forall|i: int| 0 <= i < sources.len() ==> (#[trigger] sources[i]) is Obj
}

/// One delta merged into every stanza of a sources array: each matching
/// stanza is merged, the others are unchanged.
pub open spec fn spec_merge_sources(
    sources: Seq<JsonView>,
    delta: Seq<FieldView>,
    ident: Seq<char>,
) -> Seq<JsonView> {
    Seq::new(
        sources.len(),
        |i: int| JsonView::Obj(merge_spec(obj_fields(sources[i]), delta, ident)),
    )
}

/// A record's deltas merged into a sources array in feed order. A delta
/// without a unique identifier key, or a sources entry that is not an
/// object, aborts with the corresponding error.
pub open spec fn spec_apply_deltas(
    sources: Seq<JsonView>,
    deltas: Seq<Seq<FieldView>>,
) -> Result<Seq<JsonView>, UpdateError>
    decreases deltas,
{
    if deltas.len() == 0 {
        Ok(sources)
    } else if !unique_exact(deltas.first()) {
        Err(UpdateError::IdentifierNotFound)
    } else if !sources_all_objects(sources) {
        Err(UpdateError::ManifestSchema)
    } else {
        spec_apply_deltas(
            spec_merge_sources(sources, deltas.first(), spec_resolve(deltas.first())),
            deltas.drop_first(),
        )
    }
}

/// A field list with every field named `key` set to `value`; other fields
/// and the order are untouched.
pub open spec fn spec_set_field(
    fields: Seq<FieldView>,
    key: Seq<char>,
    value: JsonView,
) -> Seq<FieldView> {
    Seq::new(
        fields.len(),
        |i: int| if fields[i].key == key {
            FieldView { key: key, value: value }
        } else {
            fields[i]
        },
    )
}

/// One module after the update pass: unchanged when its name is not
/// catalogued; otherwise its `sources` array carries every delta of its
/// record, merged in feed order.
pub open spec fn spec_update_module(m: JsonView, records: Seq<UpdateRecordView>) -> Result<
    JsonView,
    UpdateError,
> {
    match m {
        JsonView::Obj(fs) => match spec_lookup(fs, "name"@) {
            Some(JsonView::Str(nm)) => match spec_find_record(records, nm) {
                None => Ok(m),
                Some(deltas) => match spec_lookup(fs, "sources"@) {
                    Some(JsonView::Arr(ss)) => match spec_apply_deltas(ss, deltas) {
                        Ok(ss2) => Ok(
                            JsonView::Obj(spec_set_field(fs, "sources"@, JsonView::Arr(ss2))),
                        ),
                        Err(e) => Err(e),
                    },
                    _ => Err(UpdateError::ManifestSchema),
                },
            },
            _ => Err(UpdateError::ManifestSchema),
        },
        _ => Err(UpdateError::ManifestSchema),
    }
}

/// A module list after the update pass; the error of the earliest failing
/// module aborts the pass.
pub open spec fn spec_update_modules(ms: Seq<JsonView>, records: Seq<UpdateRecordView>) -> Result<
    Seq<JsonView>,
    UpdateError,
>
    decreases ms,
{
    if ms.len() == 0 {
        Ok(Seq::empty())
    } else {
        match spec_update_modules(ms.drop_last(), records) {
            Err(e) => Err(e),
            Ok(rest) => match spec_update_module(ms.last(), records) {
                Err(e) => Err(e),
                Ok(m2) => Ok(rest.push(m2)),
            },
        }
    }
}

/// A manifest after the update pass: its `modules` array is updated module
/// by module, everything else is untouched.
pub open spec fn spec_update_manifest(doc: JsonView, records: Seq<UpdateRecordView>) -> Result<
    JsonView,
    UpdateError,
> {
    match doc {
        JsonView::Obj(fs) => match spec_lookup(fs, "modules"@) {
            Some(JsonView::Arr(ms)) => match spec_update_modules(ms, records) {
                Ok(ms2) => Ok(JsonView::Obj(spec_set_field(fs, "modules"@, JsonView::Arr(ms2)))),
                Err(e) => Err(e),
            },
            _ => Err(UpdateError::ManifestSchema),
        },
        _ => Err(UpdateError::ManifestSchema),
    }
}

pub open spec fn json_result_view(r: Result<Json, UpdateError>) -> Result<JsonView, UpdateError> {
    match r {
        Ok(j) => Ok(j@),
        Err(e) => Err(e),
    }
}

pub open spec fn sources_result_view(r: Result<Vec<Json>, UpdateError>) -> Result<
    Seq<JsonView>,
    UpdateError,
> {
    match r {
        Ok(v) => Ok(arr_view(v@)),
        Err(e) => Err(e),
    }
}

/// A module whose name is absent from the catalog is left unchanged by the
/// update pass.
pub proof fn lemma_uncatalogued_module_unchanged(
    m: JsonView,
    records: Seq<UpdateRecordView>,
    fs: Seq<FieldView>,
    nm: Seq<char>,
)
    requires
        m == JsonView::Obj(fs),
        spec_lookup(fs, "name"@) == Some(JsonView::Str(nm)),
        !catalog_has(records, nm),
    ensures
        spec_update_module(m, records) == Ok::<JsonView, UpdateError>(m),
{
}

/// An error in a prefix of the module list decides the whole pass.
proof fn lemma_modules_prefix_error(ms: Seq<JsonView>, records: Seq<UpdateRecordView>, k: int)
    requires
        0 <= k <= ms.len(),
        spec_update_modules(ms.take(k), records) is Err,
    ensures
        spec_update_modules(ms, records) == spec_update_modules(ms.take(k), records),
    decreases ms.len() - k,
{
    if k < ms.len() {
        assert(ms.take(k + 1).drop_last() =~= ms.take(k));
        lemma_modules_prefix_error(ms, records, k + 1);
    } else {
        assert(ms.take(k) =~= ms);
    }
}

/// A field list with every field named `key` set to `value`.
pub fn set_field(fields: &Vec<Field>, key: &String, value: &Json) -> (r: Vec<Field>)
    ensures
        fields_view(r@) == spec_set_field(fields_view(fields@), key@, value@),
{
    let ghost fv = fields_view(fields@);
    proof {
        lemma_fields_view_len(fields@);
    }
    let n = fields.len();
    let mut out: Vec<Field> = Vec::new();
    let mut i: usize = 0;
    while i < n
        invariant
            n == fields.len(),
            i <= n,
            fv == fields_view(fields@),
            fv.len() == n,
            forall|k: int| 0 <= k < n ==> fv[k] == field_view(#[trigger] fields@[k]),
            out@.len() == i,
            forall|k: int|
                0 <= k < i ==> field_view(#[trigger] out@[k]) == (if fv[k].key == key@ {
                    FieldView { key: key@, value: value@ }
                } else {
                    fv[k]
                }),
        decreases n - i,
    {
        if fields[i].key == *key {
            out.push(Field { key: key.clone(), value: json_clone(value) });
        } else {
            out.push(
                Field { key: fields[i].key.clone(), value: json_clone(&fields[i].value) },
            );
        }
        i += 1;
    }
    proof {
        lemma_fields_view_len(out@);
        assert forall|k: int|
            0 <= k < n implies fields_view(out@)[k] == spec_set_field(fv, key@, value@)[k] by {
            assert(fields_view(out@)[k] == field_view(out@[k]));
        }
        assert(fields_view(out@) =~= spec_set_field(fv, key@, value@));
    }
    out
}

/// Merges one delta into every stanza of a sources array. A sources entry
/// that is not an object is a manifest schema error.
pub fn merge_sources(sources: &Vec<Json>, delta: &Vec<Field>, ident: &String) -> (r: Result<
    Vec<Json>,
    UpdateError,
>)
    requires
        is_exact_key(ident@),
    ensures
        r is Ok <==> sources_all_objects(arr_view(sources@)),
        r matches Ok(ss) ==> arr_view(ss@) == spec_merge_sources(
            arr_view(sources@),
            fields_view(delta@),
            ident@,
        ),
        r matches Err(e) ==> e == UpdateError::ManifestSchema,
{
    let ghost sv = arr_view(sources@);
    let ghost dv = fields_view(delta@);
    proof {
        lemma_arr_view_len(sources@);
    }
    let n = sources.len();
    let mut out: Vec<Json> = Vec::new();
    let mut i: usize = 0;
    while i < n
        invariant
            n == sources.len(),
            i <= n,
            is_exact_key(ident@),
            sv == arr_view(sources@),
            dv == fields_view(delta@),
            sv.len() == n,
            forall|k: int| 0 <= k < n ==> sv[k] == json_view(#[trigger] sources@[k]),
            out@.len() == i,
            forall|k: int| 0 <= k < i ==> (#[trigger] sv[k]) is Obj,
            forall|k: int|
                0 <= k < i ==> json_view(#[trigger] out@[k]) == JsonView::Obj(
                    merge_spec(obj_fields(sv[k]), dv, ident@),
                ),
        decreases n - i,
    {
        match &sources[i] {
            Json::Obj(fs) => {
                out.push(Json::Obj(merge(fs, delta, ident)));
            },
            _ => {
                proof {
                    assert(!((sv[i as int]) is Obj));
                }
                return Err(UpdateError::ManifestSchema);
            },
        }
        i += 1;
    }
    proof {
        lemma_arr_view_len(out@);
        assert forall|k: int|
            0 <= k < n implies arr_view(out@)[k] == spec_merge_sources(sv, dv, ident@)[k] by {
            assert(arr_view(out@)[k] == json_view(out@[k]));
        }
        assert(arr_view(out@) =~= spec_merge_sources(sv, dv, ident@));
    }
    Ok(out)
}

/// Merges every delta of a record into a sources array, in feed order.
pub fn apply_deltas(sources: &Vec<Json>, deltas: &Vec<SourceDelta>) -> (r: Result<
    Vec<Json>,
    UpdateError,
>)
    ensures
        sources_result_view(r) == spec_apply_deltas(arr_view(sources@), deltas_view(deltas@)),
{
    let ghost dv = deltas_view(deltas@);
    let ghost sv0 = arr_view(sources@);
    proof {
        lemma_deltas_view_len(deltas@);
        assert(dv.skip(0) =~= dv);
    }
    let m = deltas.len();
    let mut cur = arr_clone(sources);
    let mut j: usize = 0;
    while j < m
        invariant
            m == deltas.len(),
            j <= m,
            sv0 == arr_view(sources@),
            dv == deltas_view(deltas@),
            dv.len() == m,
            forall|k: int| 0 <= k < m ==> dv[k] == (#[trigger] deltas@[k])@,
            spec_apply_deltas(sv0, dv) == spec_apply_deltas(arr_view(cur@), dv.skip(j as int)),
        decreases m - j,
    {
        proof {
            assert(dv.skip(j as int)[0] == dv[j as int]);
            assert(dv.skip(j as int).drop_first() =~= dv.skip(j as int + 1));
        }
        let d = &deltas[j];
        let ident = match resolve(&d.fields) {
            Ok(ident) => ident,
            Err(e) => {
                return Err(e);
            },
        };
        match merge_sources(&cur, &d.fields, &ident) {
            Ok(next) => {
                cur = next;
            },
            Err(e) => {
                return Err(e);
            },
        }
        j += 1;
    }
    proof {
        assert(dv.skip(m as int) =~= Seq::<Seq<FieldView>>::empty());
    }
    Ok(cur)
}

/// Updates one module against the catalog. A module that is not an object
/// or lacks a `name` string is a manifest schema error; one whose name is
/// not catalogued comes back unchanged; a catalogued one has every delta of
/// its record merged into its `sources` array.
pub fn update_module(module: &Json, catalog: &UpdateCatalog) -> (r: Result<Json, UpdateError>)
    ensures
        json_result_view(r) == spec_update_module(module@, catalog@),
{
    let fields = match module {
        Json::Obj(fields) => fields,
        _ => {
            return Err(UpdateError::ManifestSchema);
        },
    };
    let name = match lookup_field(fields, &"name".to_owned()) {
        Some(Json::Str(nm)) => nm,
        _ => {
            return Err(UpdateError::ManifestSchema);
        },
    };
    let deltas = match catalog.lookup(name) {
        Ok(ds) => ds,
        Err(_) => {
            return Ok(json_clone(module));
        },
    };
    let sources = match lookup_field(fields, &"sources".to_owned()) {
        Some(Json::Arr(items)) => items,
        _ => {
            return Err(UpdateError::ManifestSchema);
        },
    };
    let merged = match apply_deltas(sources, deltas) {
        Ok(m) => m,
        Err(e) => {
            return Err(e);
        },
    };
    let new_sources = Json::Arr(merged);
    Ok(Json::Obj(set_field(fields, &"sources".to_owned(), &new_sources)))
}

/// Updates a whole manifest against the catalog: every module of its
/// `modules` array is updated in place; the earliest failing module aborts
/// the run with its error.
pub fn update_manifest(manifest: &Json, catalog: &UpdateCatalog) -> (r: Result<Json, UpdateError>)
    ensures
        json_result_view(r) == spec_update_manifest(manifest@, catalog@),
{
    let fields = match manifest {
        Json::Obj(fields) => fields,
        _ => {
            return Err(UpdateError::ManifestSchema);
        },
    };
    let modules = match lookup_field(fields, &"modules".to_owned()) {
        Some(Json::Arr(items)) => items,
        _ => {
            return Err(UpdateError::ManifestSchema);
        },
    };
    let ghost mv = arr_view(modules@);
    proof {
        lemma_arr_view_len(modules@);
        assert(mv.take(0) =~= Seq::<JsonView>::empty());
    }
    let n = modules.len();
    let mut out: Vec<Json> = Vec::new();
    let mut i: usize = 0;
    while i < n
        invariant
            n == modules.len(),
            i <= n,
            manifest@ is Obj,
            obj_lookup(manifest@, "modules"@) == Some(JsonView::Arr(mv)),
            mv == arr_view(modules@),
            mv.len() == n,
            forall|k: int| 0 <= k < n ==> mv[k] == json_view(#[trigger] modules@[k]),
            spec_update_modules(mv.take(i as int), catalog@) == Ok::<Seq<JsonView>, UpdateError>(
                arr_view(out@),
            ),
        decreases n - i,
    {
        proof {
            assert(mv.take(i as int + 1).drop_last() =~= mv.take(i as int));
            assert(mv.take(i as int + 1).last() == mv[i as int]);
        }
        match update_module(&modules[i], catalog) {
            Ok(m2) => {
                let ghost before = out@;
                out.push(m2);
                proof {
                    assert(out@.drop_last() =~= before);
                    assert(arr_view(out@) == arr_view(before).push(out@.last()@));
                }
            },
            Err(e) => {
                proof {
                    assert(spec_update_modules(mv.take(i as int + 1), catalog@) == Err::<
                        Seq<JsonView>,
                        UpdateError,
                    >(e));
                    lemma_modules_prefix_error(mv, catalog@, i as int + 1);
                }
                return Err(e);
            },
        }
        i += 1;
    }
    proof {
        assert(mv.take(n as int) =~= mv);
    }
    let new_modules = Json::Arr(out);
    Ok(Json::Obj(set_field(fields, &"modules".to_owned(), &new_modules)))
}

} // verus!
