//! A model of JSON documents.
//!
//! A document is either a string, an array, an object (an ordered list of
//! key/value fields), or any other scalar held as its canonical JSON text
//! (`Atom`). Objects keep their fields in document order; well-formed
//! objects have pairwise distinct keys.
//!
//! Equality of documents ([`json_eq`]) is equality of views, which compares
//! an object's fields in order. On documents whose objects carry their keys
//! in one canonical order — as parsers that sort keys produce them — it
//! agrees with order-insensitive object equality.

use vstd::prelude::*;

verus! {

/// Mathematical model of a JSON document.
pub enum JsonView {
    /// A scalar other than a string (null, boolean, number), as its
    /// canonical JSON text.
    Atom(Seq<char>),
    /// A JSON string, as its decoded character sequence.
    Str(Seq<char>),
    Arr(Seq<JsonView>),
    Obj(Seq<FieldView>),
}

/// Mathematical model of one field of a JSON object.
pub struct FieldView {
    pub key: Seq<char>,
    pub value: JsonView,
}

/// A JSON document.
#[derive(Debug)]
pub enum Json {
    /// A scalar other than a string (null, boolean, number), held as its
    /// canonical JSON text.
    Atom(String),
    /// A JSON string (its decoded contents, without quoting).
    Str(String),
    Arr(Vec<Json>),
    Obj(Vec<Field>),
}

/// One field of a JSON object.
#[derive(Debug)]
pub struct Field {
    pub key: String,
    pub value: Json,
}

pub open spec fn json_view(j: Json) -> JsonView
    decreases j,
{
    match j {
        Json::Atom(s) => JsonView::Atom(s@),
        Json::Str(s) => JsonView::Str(s@),
        Json::Arr(items) => JsonView::Arr(arr_view(items@)),
        Json::Obj(fields) => JsonView::Obj(fields_view(fields@)),
    }
}

pub open spec fn arr_view(items: Seq<Json>) -> Seq<JsonView>
    decreases items,
{
    if items.len() == 0 {
        Seq::empty()
    } else {
        arr_view(items.drop_last()).push(json_view(items.last()))
    }
}

pub open spec fn fields_view(fields: Seq<Field>) -> Seq<FieldView>
    decreases fields,
{
    if fields.len() == 0 {
        Seq::empty()
    } else {
        fields_view(fields.drop_last()).push(field_view(fields.last()))
    }
}

pub open spec fn field_view(f: Field) -> FieldView
    decreases f,
{
    FieldView { key: f.key@, value: json_view(f.value) }
}

impl View for Json {
    type V = JsonView;

    open spec fn view(&self) -> JsonView {
        json_view(*self)
    }
}

impl View for Field {
    type V = FieldView;

    open spec fn view(&self) -> FieldView {
        field_view(*self)
    }
}

/// The value of the first field named `key`, if any.
///
/// Well-formed objects have distinct keys, so "first" is then the only one.
pub open spec fn spec_lookup(fields: Seq<FieldView>, key: Seq<char>) -> Option<JsonView>
    decreases fields,
{
    if fields.len() == 0 {
        None
    } else if fields[0].key == key {
        Some(fields[0].value)
    } else {
        spec_lookup(fields.drop_first(), key)
    }
}

pub open spec fn has_key(fields: Seq<FieldView>, key: Seq<char>) -> bool {
    spec_lookup(fields, key) is Some
}

/// An object's field list is well formed when its keys are pairwise distinct.
pub open spec fn wf_fields(fields: Seq<FieldView>) -> bool {
    forall|i: int, j: int|
        0 <= i < j < fields.len() ==> (#[trigger] fields[i].key) != (#[trigger] fields[j].key)
}

pub open spec fn opt_view(r: Option<&Json>) -> Option<JsonView> {
    match r {
        Some(j) => Some(j@),
        None => None,
    }
}

/// A lookup hit is witnessed by an index, and a miss by the absence of the key
/// at every index.
pub proof fn lemma_lookup_index(fields: Seq<FieldView>, key: Seq<char>)
    ensures
        spec_lookup(fields, key) is Some <==> exists|i: int|
            0 <= i < fields.len() && (#[trigger] fields[i].key) == key,
        spec_lookup(fields, key) is Some ==> exists|i: int|
            0 <= i < fields.len() && #[trigger] fields[i].key == key && spec_lookup(fields, key)
                == Some(fields[i].value),
    decreases fields,
{
    if fields.len() > 0 && fields[0].key != key {
        lemma_lookup_index(fields.drop_first(), key);
        assert forall|i: int|
            0 <= i < fields.len() && (#[trigger] fields[i].key) == key implies spec_lookup(
            fields,
            key,
        ) is Some by {
            assert(fields.drop_first()[i - 1] == fields[i]);
        }
        if spec_lookup(fields, key) is Some {
            let i = choose|i: int|
                0 <= i < fields.drop_first().len() && #[trigger] fields.drop_first()[i].key == key
                    && spec_lookup(fields.drop_first(), key) == Some(fields.drop_first()[i].value);
            assert(fields[i + 1] == fields.drop_first()[i]);
        }
    }
}

/// The views of a field list are the fields' views, in order.
pub proof fn lemma_fields_view_len(fields: Seq<Field>)
    ensures
        fields_view(fields).len() == fields.len(),
        forall|i: int|
            0 <= i < fields.len() ==> fields_view(fields)[i] == field_view(#[trigger] fields[i]),
    decreases fields,
{
    if fields.len() > 0 {
        lemma_fields_view_len(fields.drop_last());
        assert forall|i: int|
            0 <= i < fields.len() implies fields_view(fields)[i] == field_view(
            #[trigger] fields[i],
        ) by {
            if i < fields.len() - 1 {
                assert(fields.drop_last()[i] == fields[i]);
            } else {
                assert(fields[i] == fields.last());
            }
        }
    }
}

/// The views of an item list are the items' views, in order.
pub proof fn lemma_arr_view_len(items: Seq<Json>)
    ensures
        arr_view(items).len() == items.len(),
        forall|i: int|
            0 <= i < items.len() ==> arr_view(items)[i] == json_view(#[trigger] items[i]),
    decreases items,
{
    if items.len() > 0 {
        lemma_arr_view_len(items.drop_last());
        assert forall|i: int|
            0 <= i < items.len() implies arr_view(items)[i] == json_view(#[trigger] items[i]) by {
            if i < items.len() - 1 {
                assert(items.drop_last()[i] == items[i]);
            } else {
                assert(items[i] == items.last());
            }
        }
    }
}

/// Decides equality of two documents in the model: equal views.
pub fn json_eq(a: &Json, b: &Json) -> (r: bool)
    ensures
        r == (a@ == b@),
    decreases *a,
{
    match (a, b) {
        (Json::Atom(x), Json::Atom(y)) => (*x).eq(y),
        (Json::Str(x), Json::Str(y)) => (*x).eq(y),
        (Json::Arr(xs), Json::Arr(ys)) => arr_eq(xs, ys),
        (Json::Obj(xs), Json::Obj(ys)) => fields_eq(xs, ys),
        _ => false,
    }
}

/// Decides equality of two item lists in the model.
fn arr_eq(xs: &Vec<Json>, ys: &Vec<Json>) -> (r: bool)
    ensures
        r == (arr_view(xs@) == arr_view(ys@)),
    decreases *xs,
{
    proof {
        lemma_arr_view_len(xs@);
        lemma_arr_view_len(ys@);
    }
    if xs.len() != ys.len() {
        return false;
    }
    let n = xs.len();
    let mut i: usize = 0;
    while i < n
        invariant
            n == xs.len() == ys.len(),
            i <= n,
            arr_view(xs@).len() == n,
            arr_view(ys@).len() == n,
            forall|k: int| 0 <= k < n ==> arr_view(xs@)[k] == json_view(#[trigger] xs@[k]),
            forall|k: int| 0 <= k < n ==> arr_view(ys@)[k] == json_view(#[trigger] ys@[k]),
            forall|k: int| 0 <= k < i ==> json_view(#[trigger] xs@[k]) == json_view(ys@[k]),
        decreases n - i,
    {
        if !json_eq(&xs[i], &ys[i]) {
            proof {
                assert(arr_view(xs@)[i as int] != arr_view(ys@)[i as int]);
            }
            return false;
        }
        i += 1;
    }
    proof {
        assert forall|k: int| 0 <= k < n implies arr_view(xs@)[k] == arr_view(ys@)[k] by {
            assert(arr_view(xs@)[k] == json_view(xs@[k]));
            assert(arr_view(ys@)[k] == json_view(ys@[k]));
        }
        assert(arr_view(xs@) =~= arr_view(ys@));
    }
    true
}

/// Decides equality of two field lists in the model.
fn fields_eq(xs: &Vec<Field>, ys: &Vec<Field>) -> (r: bool)
    ensures
        r == (fields_view(xs@) == fields_view(ys@)),
    decreases *xs,
{
    proof {
        lemma_fields_view_len(xs@);
        lemma_fields_view_len(ys@);
    }
    if xs.len() != ys.len() {
        return false;
    }
    let n = xs.len();
    let mut i: usize = 0;
    while i < n
        invariant
            n == xs.len() == ys.len(),
            i <= n,
            fields_view(xs@).len() == n,
            fields_view(ys@).len() == n,
            forall|k: int| 0 <= k < n ==> fields_view(xs@)[k] == field_view(#[trigger] xs@[k]),
            forall|k: int| 0 <= k < n ==> fields_view(ys@)[k] == field_view(#[trigger] ys@[k]),
            forall|k: int| 0 <= k < i ==> field_view(#[trigger] xs@[k]) == field_view(ys@[k]),
        decreases n - i,
    {
        if !(xs[i].key == ys[i].key) {
            proof {
                assert(fields_view(xs@)[i as int] != fields_view(ys@)[i as int]);
            }
            return false;
        }
        if !json_eq(&xs[i].value, &ys[i].value) {
            proof {
                assert(fields_view(xs@)[i as int] != fields_view(ys@)[i as int]);
            }
            return false;
        }
        i += 1;
    }
    proof {
        assert forall|k: int| 0 <= k < n implies fields_view(xs@)[k] == fields_view(ys@)[k] by {
            assert(fields_view(xs@)[k] == field_view(xs@[k]));
            assert(fields_view(ys@)[k] == field_view(ys@[k]));
        }
        assert(fields_view(xs@) =~= fields_view(ys@));
    }
    true
}

/// A copy of a document with the same view.
pub fn json_clone(j: &Json) -> (r: Json)
    ensures
        r@ == j@,
    decreases *j,
{
    match j {
        Json::Atom(s) => Json::Atom(s.clone()),
        Json::Str(s) => Json::Str(s.clone()),
        Json::Arr(items) => Json::Arr(arr_clone(items)),
        Json::Obj(fields) => Json::Obj(fields_clone(fields)),
    }
}

/// A copy of an item list with the same views.
pub fn arr_clone(items: &Vec<Json>) -> (r: Vec<Json>)
    ensures
        arr_view(r@) == arr_view(items@),
    decreases *items,
{
    proof {
        lemma_arr_view_len(items@);
    }
    let n = items.len();
    let mut out: Vec<Json> = Vec::new();
    let mut i: usize = 0;
    while i < n
        invariant
            n == items.len(),
            i <= n,
            out@.len() == i,
            arr_view(items@).len() == n,
            forall|k: int| 0 <= k < n ==> arr_view(items@)[k] == json_view(#[trigger] items@[k]),
            forall|k: int| 0 <= k < i ==> json_view(#[trigger] out@[k]) == json_view(items@[k]),
        decreases n - i,
    {
        let c = json_clone(&items[i]);
        out.push(c);
        i += 1;
    }
    proof {
        lemma_arr_view_len(out@);
        assert forall|k: int| 0 <= k < n implies arr_view(out@)[k] == arr_view(items@)[k] by {
            assert(arr_view(out@)[k] == json_view(out@[k]));
            assert(arr_view(items@)[k] == json_view(items@[k]));
        }
        assert(arr_view(out@) =~= arr_view(items@));
    }
    out
}

/// A copy of a field list with the same views.
pub fn fields_clone(fields: &Vec<Field>) -> (r: Vec<Field>)
    ensures
        fields_view(r@) == fields_view(fields@),
    decreases *fields,
{
    proof {
        lemma_fields_view_len(fields@);
    }
    let n = fields.len();
    let mut out: Vec<Field> = Vec::new();
    let mut i: usize = 0;
    while i < n
        invariant
            n == fields.len(),
            i <= n,
            out@.len() == i,
            fields_view(fields@).len() == n,
            forall|k: int| 0 <= k < n ==> fields_view(fields@)[k] == field_view(
                #[trigger] fields@[k],
            ),
            forall|k: int| 0 <= k < i ==> field_view(#[trigger] out@[k]) == field_view(fields@[k]),
        decreases n - i,
    {
        let c = Field { key: fields[i].key.clone(), value: json_clone(&fields[i].value) };
        out.push(c);
        i += 1;
    }
    proof {
        lemma_fields_view_len(out@);
        assert forall|k: int| 0 <= k < n implies fields_view(out@)[k] == fields_view(fields@)[k] by {
            assert(fields_view(out@)[k] == field_view(out@[k]));
            assert(fields_view(fields@)[k] == field_view(fields@[k]));
        }
        assert(fields_view(out@) =~= fields_view(fields@));
    }
    out
}

/// The first field named `key` of a field list, if any.
pub fn lookup_field<'a>(fields: &'a Vec<Field>, key: &String) -> (r: Option<&'a Json>)
    ensures
        opt_view(r) == spec_lookup(fields_view(fields@), key@),
{
    proof {
        lemma_fields_view_len(fields@);
    }
    let ghost all = fields_view(fields@);
    proof {
        assert(all.skip(0) =~= all);
    }
    let n = fields.len();
    let mut i: usize = 0;
    while i < n
        invariant
            n == fields.len(),
            i <= n,
            all == fields_view(fields@),
            all.len() == n,
            forall|k: int| 0 <= k < fields.len() ==> all[k] == field_view(#[trigger] fields@[k]),
            spec_lookup(all, key@) == spec_lookup(all.skip(i as int), key@),
        decreases n - i,
    {
        proof {
            assert(all.skip(i as int)[0] == all[i as int]);
        }
        if fields[i].key == *key {
            return Some(&fields[i].value);
        }
        proof {
            assert(all.skip(i as int).drop_first() =~= all.skip(i as int + 1));
        }
        i += 1;
    }
    proof {
        assert(all.skip(n as int) =~= Seq::<FieldView>::empty());
    }
    None
}

/// The value of field `key` when the document is an object holding it.
pub open spec fn obj_lookup(j: JsonView, key: Seq<char>) -> Option<JsonView> {
    match j {
        JsonView::Obj(fields) => spec_lookup(fields, key),
        _ => None,
    }
}

/// The first field named `key` when the document is an object.
pub fn get_field<'a>(j: &'a Json, key: &String) -> (r: Option<&'a Json>)
    ensures
        opt_view(r) == obj_lookup(j@, key@),
{
    match j {
        Json::Obj(fields) => lookup_field(fields, key),
        _ => None,
    }
}

} // verus!
