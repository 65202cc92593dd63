//! The update catalog: indexed update records read from the feed document.
//!
//! The feed is an object carrying an `updates` array; each entry carries a
//! `name` string and a `sources` array of delta objects. Any other shape is
//! a feed schema error. Lookup by package name is exact and case-sensitive.

use crate::errors::UpdateError;
use crate::json::{fields_clone, fields_view, get_field, Field, FieldView, Json, JsonView};
use vstd::prelude::*;

verus! {

/// One source-stanza delta of an update record: the fields to merge.
#[derive(Debug)]
pub struct SourceDelta {
    pub fields: Vec<Field>,
}

impl View for SourceDelta {
    type V = Seq<FieldView>;

    open spec fn view(&self) -> Seq<FieldView> {
        fields_view(self.fields@)
    }
}

/// One update record of the feed.
#[derive(Debug)]
pub struct UpdateRecord {
    pub name: String,
    pub sources: Vec<SourceDelta>,
}

/// Mathematical model of an update record.
pub struct UpdateRecordView {
    pub name: Seq<char>,
    pub sources: Seq<Seq<FieldView>>,
}

/// The views of a delta list, in order.
pub open spec fn deltas_view(deltas: Seq<SourceDelta>) -> Seq<Seq<FieldView>>
    decreases deltas,
{
    if deltas.len() == 0 {
        Seq::empty()
    } else {
        deltas_view(deltas.drop_last()).push(deltas.last()@)
    }
}

pub proof fn lemma_deltas_view_len(deltas: Seq<SourceDelta>)
    ensures
        deltas_view(deltas).len() == deltas.len(),
        forall|i: int|
            0 <= i < deltas.len() ==> deltas_view(deltas)[i] == (#[trigger] deltas[i])@,
    decreases deltas,
{
    if deltas.len() > 0 {
        lemma_deltas_view_len(deltas.drop_last());
        assert forall|i: int|
            0 <= i < deltas.len() implies deltas_view(deltas)[i] == (#[trigger] deltas[i])@ by {
            if i < deltas.len() - 1 {
                assert(deltas.drop_last()[i] == deltas[i]);
            } else {
                assert(deltas[i] == deltas.last());
            }
        }
    }
}

impl View for UpdateRecord {
    type V = UpdateRecordView;

    open spec fn view(&self) -> UpdateRecordView {
        UpdateRecordView { name: self.name@, sources: deltas_view(self.sources@) }
    }
}

/// The catalog of update records, in feed order.
#[derive(Debug)]
pub struct UpdateCatalog {
    pub records: Vec<UpdateRecord>,
}

/// The views of a record list, in order.
pub open spec fn records_view(records: Seq<UpdateRecord>) -> Seq<UpdateRecordView>
    decreases records,
{
    if records.len() == 0 {
        Seq::empty()
    } else {
        records_view(records.drop_last()).push(records.last()@)
    }
}

pub proof fn lemma_records_view_len(records: Seq<UpdateRecord>)
    ensures
        records_view(records).len() == records.len(),
        forall|i: int|
            0 <= i < records.len() ==> records_view(records)[i] == (#[trigger] records[i])@,
    decreases records,
{
    if records.len() > 0 {
        lemma_records_view_len(records.drop_last());
        assert forall|i: int|
            0 <= i < records.len() implies records_view(records)[i] == (#[trigger] records[i])@ by {
            if i < records.len() - 1 {
                assert(records.drop_last()[i] == records[i]);
            } else {
                assert(records[i] == records.last());
            }
        }
    }
}

impl View for UpdateCatalog {
    type V = Seq<UpdateRecordView>;

    open spec fn view(&self) -> Seq<UpdateRecordView> {
        records_view(self.records@)
    }
}

/// The fields of an object document; the empty list for any other document.
pub open spec fn obj_fields(j: JsonView) -> Seq<FieldView> {
    match j {
        JsonView::Obj(fields) => fields,
        _ => Seq::empty(),
    }
}

/// The update record a well-shaped feed entry describes: an object with a
/// `name` string and a `sources` array of objects.
pub open spec fn record_of(j: JsonView) -> Option<UpdateRecordView> {
    match j {
        JsonView::Obj(fs) => match (
            crate::json::spec_lookup(fs, "name"@),
            crate::json::spec_lookup(fs, "sources"@),
        ) {
            (Some(JsonView::Str(nm)), Some(JsonView::Arr(ss))) => if forall|i: int|
                0 <= i < ss.len() ==> (#[trigger] ss[i]) is Obj {
                Some(
                    UpdateRecordView {
                        name: nm,
                        sources: Seq::new(ss.len(), |i: int| obj_fields(ss[i])),
                    },
                )
            } else {
                None
            },
            _ => None,
        },
        _ => None,
    }
}

/// The catalog a well-shaped feed document describes: an object with an
/// `updates` array of well-shaped entries.
pub open spec fn catalog_of(feed: JsonView) -> Option<Seq<UpdateRecordView>> {
    match feed {
        JsonView::Obj(fs) => match crate::json::spec_lookup(fs, "updates"@) {
            Some(JsonView::Arr(us)) => if forall|i: int|
                0 <= i < us.len() ==> (#[trigger] record_of(us[i])) is Some {
                Some(Seq::new(us.len(), |i: int| record_of(us[i])->Some_0))
            } else {
                None
            },
            _ => None,
        },
        _ => None,
    }
}

/// The sources of the first record named `name`, if any.
pub open spec fn spec_find_record(
    records: Seq<UpdateRecordView>,
    name: Seq<char>,
) -> Option<Seq<Seq<FieldView>>>
    decreases records,
{
    if records.len() == 0 {
        None
    } else if records[0].name == name {
        Some(records[0].sources)
    } else {
        spec_find_record(records.drop_first(), name)
    }
}

/// A record named `name` exists in the catalog.
pub open spec fn catalog_has(records: Seq<UpdateRecordView>, name: Seq<char>) -> bool {
    spec_find_record(records, name) is Some
}

/// Builds one update record from a feed entry.
fn build_record(j: &Json) -> (r: Result<UpdateRecord, UpdateError>)
    ensures
        r is Ok <==> record_of(j@) is Some,
        r matches Ok(rec) ==> Some(rec@) == record_of(j@),
        r matches Err(e) ==> e == UpdateError::FeedSchema,
{
    let fields = match j {
        Json::Obj(fields) => fields,
        _ => {
            return Err(UpdateError::FeedSchema);
        },
    };
    let name = match crate::json::lookup_field(fields, &"name".to_owned()) {
        Some(Json::Str(nm)) => nm.clone(),
        _ => {
            return Err(UpdateError::FeedSchema);
        },
    };
    let sources = match crate::json::lookup_field(fields, &"sources".to_owned()) {
        Some(Json::Arr(items)) => items,
        _ => {
            return Err(UpdateError::FeedSchema);
        },
    };
    let ghost sv = crate::json::arr_view(sources@);
    let ghost fsv = fields_view(fields@);
    proof {
        crate::json::lemma_arr_view_len(sources@);
    }
    let n = sources.len();
    let mut deltas: Vec<SourceDelta> = Vec::new();
    let mut i: usize = 0;
    while i < n
        invariant
            n == sources.len(),
            i <= n,
            j@ == JsonView::Obj(fsv),
            crate::json::spec_lookup(fsv, "name"@) == Some(JsonView::Str(name@)),
            crate::json::spec_lookup(fsv, "sources"@) == Some(JsonView::Arr(sv)),
            sv == crate::json::arr_view(sources@),
            sv.len() == n,
            forall|k: int|
                0 <= k < n ==> sv[k] == crate::json::json_view(#[trigger] sources@[k]),
            deltas@.len() == i,
            forall|k: int| 0 <= k < i ==> (#[trigger] sv[k]) is Obj,
            forall|k: int| 0 <= k < i ==> (#[trigger] deltas@[k])@ == obj_fields(sv[k]),
        decreases n - i,
    {
        match &sources[i] {
            Json::Obj(fs) => {
                deltas.push(SourceDelta { fields: fields_clone(fs) });
            },
            _ => {
                proof {
                    assert(!((sv[i as int]) is Obj));
                }
                return Err(UpdateError::FeedSchema);
            },
        }
        i += 1;
    }
    proof {
        lemma_deltas_view_len(deltas@);
        assert forall|k: int| 0 <= k < n implies deltas_view(deltas@)[k] == obj_fields(sv[k]) by {
            assert(deltas_view(deltas@)[k] == deltas@[k]@);
        }
        assert(deltas_view(deltas@) =~= Seq::new(sv.len(), |k: int| obj_fields(sv[k])));
    }
    Ok(UpdateRecord { name, sources: deltas })
}

impl UpdateCatalog {
    /// Builds the catalog from a parsed feed document. A feed without its
    /// `updates` array, or with an entry lacking a `name` string or a
    /// well-shaped `sources` array, is rejected.
    pub fn build(feed: &Json) -> (r: Result<UpdateCatalog, UpdateError>)
        ensures
            r is Ok <==> catalog_of(feed@) is Some,
            r matches Ok(c) ==> Some(c@) == catalog_of(feed@),
            r matches Err(e) ==> e == UpdateError::FeedSchema,
    {
        let updates = match get_field(feed, &"updates".to_owned()) {
            Some(Json::Arr(items)) => items,
            _ => {
                return Err(UpdateError::FeedSchema);
            },
        };
        let ghost uv = crate::json::arr_view(updates@);
        proof {
            crate::json::lemma_arr_view_len(updates@);
        }
        let n = updates.len();
        let mut records: Vec<UpdateRecord> = Vec::new();
        let mut i: usize = 0;
        while i < n
            invariant
                n == updates.len(),
                i <= n,
                crate::json::obj_lookup(feed@, "updates"@) == Some(JsonView::Arr(uv)),
                uv == crate::json::arr_view(updates@),
                uv.len() == n,
                forall|k: int|
                    0 <= k < n ==> uv[k] == crate::json::json_view(#[trigger] updates@[k]),
                records@.len() == i,
                forall|k: int| 0 <= k < i ==> (#[trigger] record_of(uv[k])) is Some,
                forall|k: int|
                    0 <= k < i ==> Some((#[trigger] records@[k])@) == record_of(uv[k]),
            decreases n - i,
        {
            match build_record(&updates[i]) {
                Ok(rec) => {
                    records.push(rec);
                },
                Err(e) => {
                    proof {
                        assert((record_of(uv[i as int])) is None);
                    }
                    return Err(e);
                },
            }
            i += 1;
        }
        proof {
            lemma_records_view_len(records@);
            assert forall|k: int|
                0 <= k < n implies records_view(records@)[k] == record_of(uv[k])->Some_0 by {
                assert(records_view(records@)[k] == records@[k]@);
            }
            assert(records_view(records@) =~= Seq::new(
                uv.len(),
                |k: int| record_of(uv[k])->Some_0,
            ));
        }
        Ok(UpdateCatalog { records })
    }

    /// The source deltas recorded for `name`: those of the first record with
    /// that name, or `UpdateNotFound` when no record carries it.
    pub fn lookup(&self, name: &String) -> (r: Result<&Vec<SourceDelta>, UpdateError>)
        ensures
            r is Ok <==> catalog_has(self@, name@),
            r matches Ok(ds) ==> Some(deltas_view(ds@)) == spec_find_record(self@, name@),
            r matches Err(e) ==> e == UpdateError::UpdateNotFound,
    {
        proof {
            lemma_records_view_len(self.records@);
        }
        let ghost all = records_view(self.records@);
        proof {
            assert(all.skip(0) =~= all);
        }
        let n = self.records.len();
        let mut i: usize = 0;
        while i < n
            invariant
                n == self.records.len(),
                i <= n,
                all == records_view(self.records@),
                all.len() == n,
                forall|k: int|
                    0 <= k < n ==> all[k] == (#[trigger] self.records@[k])@,
                spec_find_record(all, name@) == spec_find_record(all.skip(i as int), name@),
            decreases n - i,
        {
            proof {
                assert(all.skip(i as int)[0] == all[i as int]);
            }
            if self.records[i].name == *name {
                return Ok(&self.records[i].sources);
            }
            proof {
                assert(all.skip(i as int).drop_first() =~= all.skip(i as int + 1));
            }
            i += 1;
        }
        proof {
            assert(all.skip(n as int) =~= Seq::<UpdateRecordView>::empty());
        }
        Err(UpdateError::UpdateNotFound)
    }
}

} // verus!
