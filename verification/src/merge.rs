//! Merging one source delta into a source stanza.
//!
//! A delta designates a stanza field through its identifier key
//! (`<field>__exact`): a stanza matches when its `<field>` value equals the
//! delta's identifier value. Into a matching stanza every delta field other
//! than the identifier key is written: existing fields are overwritten in
//! place, new ones are appended in delta order. The identifier key itself is
//! never written. A stanza that does not match is left unchanged.

use crate::json::{
    fields_clone, fields_view, field_view, has_key, json_clone, json_eq, lookup_field,
    spec_lookup, Field, FieldView,
};
use crate::text::{identifier_field, ident_field, is_exact_key};
use vstd::prelude::*;

verus! {

/// The stanza's field named by the identifier equals the delta's identifier
/// value.
pub open spec fn stanza_matches(
    stanza: Seq<FieldView>,
    delta: Seq<FieldView>,
    ident: Seq<char>,
) -> bool {
    &&& spec_lookup(delta, ident) is Some
    &&& spec_lookup(stanza, ident_field(ident)) == spec_lookup(delta, ident)
}

/// One stanza field after the merge pass: overwritten by the delta's value
/// of the same key, unless the key is the identifier key or absent from the
/// delta.
pub open spec fn overwrite_field(f: FieldView, delta: Seq<FieldView>, ident: Seq<char>) -> FieldView {
    if f.key == ident {
        f
    } else {
        match spec_lookup(delta, f.key) {
            Some(v) => FieldView { key: f.key, value: v },
            None => f,
        }
    }
}

/// The stanza's fields after the overwrite pass, in stanza order.
pub open spec fn overwritten_fields(
    stanza: Seq<FieldView>,
    delta: Seq<FieldView>,
    ident: Seq<char>,
) -> Seq<FieldView>
    decreases stanza,
{
    if stanza.len() == 0 {
        Seq::empty()
    } else {
        overwritten_fields(stanza.drop_last(), delta, ident).push(
            overwrite_field(stanza.last(), delta, ident),
        )
    }
}

/// The delta fields that the merge appends: those whose key is neither the
/// identifier key nor present in the stanza, in delta order.
pub open spec fn appended_fields(
    stanza: Seq<FieldView>,
    delta: Seq<FieldView>,
    ident: Seq<char>,
) -> Seq<FieldView>
    decreases delta,
{
    if delta.len() == 0 {
        Seq::empty()
    } else {
        let rest = appended_fields(stanza, delta.drop_last(), ident);
        let f = delta.last();
        if f.key != ident && !has_key(stanza, f.key) {
            rest.push(f)
        } else {
            rest
        }
    }
}

/// A matching stanza's fields after the merge.
pub open spec fn merged_fields(
    stanza: Seq<FieldView>,
    delta: Seq<FieldView>,
    ident: Seq<char>,
) -> Seq<FieldView> {
    overwritten_fields(stanza, delta, ident) + appended_fields(stanza, delta, ident)
}

/// The stanza's fields after `merge`: merged when the stanza matches the
/// delta, unchanged otherwise.
pub open spec fn merge_spec(
    stanza: Seq<FieldView>,
    delta: Seq<FieldView>,
    ident: Seq<char>,
) -> Seq<FieldView> {
    if stanza_matches(stanza, delta, ident) {
        merged_fields(stanza, delta, ident)
    } else {
        stanza
    }
}

/// The overwrite pass keeps length and transforms fields pointwise.
pub proof fn lemma_overwritten_elems(stanza: Seq<FieldView>, delta: Seq<FieldView>, ident: Seq<char>)
    ensures
        overwritten_fields(stanza, delta, ident).len() == stanza.len(),
        forall|i: int|
            0 <= i < stanza.len() ==> overwritten_fields(stanza, delta, ident)[i]
                == overwrite_field(#[trigger] stanza[i], delta, ident),
    decreases stanza,
{
    if stanza.len() > 0 {
        lemma_overwritten_elems(stanza.drop_last(), delta, ident);
        assert forall|i: int|
            0 <= i < stanza.len() implies overwritten_fields(stanza, delta, ident)[i]
            == overwrite_field(#[trigger] stanza[i], delta, ident) by {
            if i < stanza.len() - 1 {
                assert(stanza.drop_last()[i] == stanza[i]);
            } else {
                assert(stanza[i] == stanza.last());
            }
        }
    }
}

/// Looking a key up in a concatenation finds it in the front part first.
pub proof fn lemma_lookup_append(a: Seq<FieldView>, b: Seq<FieldView>, k: Seq<char>)
    ensures
        spec_lookup(a + b, k) == if has_key(a, k) {
            spec_lookup(a, k)
        } else {
            spec_lookup(b, k)
        },
    decreases a,
{
    if a.len() == 0 {
        assert(a + b =~= b);
    } else {
        lemma_lookup_append(a.drop_first(), b, k);
        assert((a + b).drop_first() =~= a.drop_first() + b);
        assert((a + b)[0] == a[0]);
    }
}

/// Looking a key up after the overwrite pass: a key the delta holds (other
/// than the identifier key) now carries the delta's value; every other key
/// keeps the stanza's value.
pub proof fn lemma_lookup_overwritten(
    stanza: Seq<FieldView>,
    delta: Seq<FieldView>,
    ident: Seq<char>,
    k: Seq<char>,
)
    ensures
        spec_lookup(overwritten_fields(stanza, delta, ident), k) == match spec_lookup(stanza, k) {
            None => None::<crate::json::JsonView>,
            Some(v) => if k != ident && has_key(delta, k) {
                spec_lookup(delta, k)
            } else {
                Some(v)
            },
        },
    decreases stanza,
{
    lemma_overwritten_elems(stanza, delta, ident);
    if stanza.len() > 0 {
        lemma_lookup_overwritten(stanza.drop_first(), delta, ident, k);
        lemma_overwritten_elems(stanza.drop_first(), delta, ident);
        let ow = overwritten_fields(stanza, delta, ident);
        let owd = overwritten_fields(stanza.drop_first(), delta, ident);
        lemma_overwritten_elems(stanza.drop_first(), delta, ident);
        assert forall|i: int| 0 <= i < owd.len() implies ow.drop_first()[i] == owd[i] by {
            assert(stanza.drop_first()[i] == stanza[i + 1]);
        }
        assert(ow.drop_first() =~= owd);
        assert(ow[0] == overwrite_field(stanza[0], delta, ident));
    }
}

/// Looking a key up in a one-field list.
pub proof fn lemma_lookup_singleton(f: FieldView, k: Seq<char>)
    ensures
        spec_lookup(seq![f], k) == if f.key == k {
            Some(f.value)
        } else {
            None::<crate::json::JsonView>
        },
{
    reveal_with_fuel(spec_lookup, 3);
    assert(seq![f].drop_first() =~= Seq::<FieldView>::empty());
}

/// Looking a key up among the appended fields: only a delta key that is
/// neither the identifier key nor present in the stanza is found, with the
/// delta's value.
pub proof fn lemma_lookup_appended(
    stanza: Seq<FieldView>,
    delta: Seq<FieldView>,
    ident: Seq<char>,
    k: Seq<char>,
)
    ensures
        spec_lookup(appended_fields(stanza, delta, ident), k) == if k != ident && !has_key(
            stanza,
            k,
        ) {
            spec_lookup(delta, k)
        } else {
            None::<crate::json::JsonView>
        },
    decreases delta,
{
    if delta.len() > 0 {
        lemma_lookup_appended(stanza, delta.drop_last(), ident, k);
        let rest = appended_fields(stanza, delta.drop_last(), ident);
        let f = delta.last();
        lemma_lookup_singleton(f, k);
        lemma_lookup_append(delta.drop_last(), seq![f], k);
        assert(delta.drop_last() + seq![f] =~= delta);
        if f.key != ident && !has_key(stanza, f.key) {
            lemma_lookup_append(rest, seq![f], k);
            assert(rest + seq![f] =~= appended_fields(stanza, delta, ident));
        }
    }
}

/// Looking a key up after a merge into a matching stanza: a delta key other
/// than the identifier key carries the delta's value; every other key —
/// the identifier key among them — keeps the stanza's value.
pub proof fn lemma_merged_lookup(
    stanza: Seq<FieldView>,
    delta: Seq<FieldView>,
    ident: Seq<char>,
    k: Seq<char>,
)
    ensures
        spec_lookup(merged_fields(stanza, delta, ident), k) == if k != ident && has_key(delta, k) {
            spec_lookup(delta, k)
        } else {
            spec_lookup(stanza, k)
        },
{
    lemma_lookup_append(
        overwritten_fields(stanza, delta, ident),
        appended_fields(stanza, delta, ident),
        k,
    );
    lemma_lookup_overwritten(stanza, delta, ident, k);
    lemma_lookup_appended(stanza, delta, ident, k);
}

/// Merge never writes the identifier key into the stanza: its value there
/// — present or absent — is what it was.
pub proof fn lemma_merge_spares_identifier(
    stanza: Seq<FieldView>,
    delta: Seq<FieldView>,
    ident: Seq<char>,
)
    ensures
        spec_lookup(merge_spec(stanza, delta, ident), ident) == spec_lookup(stanza, ident),
{
    if stanza_matches(stanza, delta, ident) {
        lemma_merged_lookup(stanza, delta, ident, ident);
    }
}

/// A stanza whose matched field differs from the delta's identifier value is
/// left unchanged.
pub proof fn lemma_merge_unmatched(stanza: Seq<FieldView>, delta: Seq<FieldView>, ident: Seq<char>)
    requires
        spec_lookup(stanza, ident_field(ident)) != spec_lookup(delta, ident),
    ensures
        merge_spec(stanza, delta, ident) == stanza,
{
}

/// Every appended field is a delta field whose key is neither the identifier
/// key nor a key of the stanza.
pub proof fn lemma_appended_elems(stanza: Seq<FieldView>, delta: Seq<FieldView>, ident: Seq<char>)
    ensures
        forall|i: int|
            0 <= i < appended_fields(stanza, delta, ident).len() ==> exists|j: int|
                0 <= j < delta.len() && #[trigger] appended_fields(stanza, delta, ident)[i]
                    == delta[j] && delta[j].key != ident && !has_key(stanza, delta[j].key),
    decreases delta,
{
    if delta.len() > 0 {
        lemma_appended_elems(stanza, delta.drop_last(), ident);
        let rest = appended_fields(stanza, delta.drop_last(), ident);
        let app = appended_fields(stanza, delta, ident);
        let f = delta.last();
        assert forall|i: int| 0 <= i < app.len() implies exists|j: int|
            0 <= j < delta.len() && #[trigger] app[i] == delta[j] && delta[j].key != ident
                && !has_key(stanza, delta[j].key) by {
            if i < rest.len() {
                assert(app[i] == rest[i]);
                let j = choose|j: int|
                    0 <= j < delta.drop_last().len() && rest[i] == delta.drop_last()[j]
                        && delta.drop_last()[j].key != ident && !has_key(
                        stanza,
                        delta.drop_last()[j].key,
                    );
                assert(delta.drop_last()[j] == delta[j]);
                assert(app[i] == delta[j] && delta[j].key != ident && !has_key(
                    stanza,
                    delta[j].key,
                ));
            } else {
                let j = delta.len() - 1;
                assert(app[i] == delta[j] && delta[j].key != ident && !has_key(
                    stanza,
                    delta[j].key,
                ));
            }
        }
    }
}

/// When every delta key is the identifier key or already a key of the
/// stanza, nothing is appended.
pub proof fn lemma_appended_empty(stanza: Seq<FieldView>, delta: Seq<FieldView>, ident: Seq<char>)
    requires
        forall|j: int|
            0 <= j < delta.len() ==> (#[trigger] delta[j].key) == ident || has_key(
                stanza,
                delta[j].key,
            ),
    ensures
        appended_fields(stanza, delta, ident) == Seq::<FieldView>::empty(),
    decreases delta,
{
    if delta.len() > 0 {
        assert forall|j: int|
            0 <= j < delta.drop_last().len() implies (#[trigger] delta.drop_last()[j].key) == ident
            || has_key(stanza, delta.drop_last()[j].key) by {
            assert(delta.drop_last()[j] == delta[j]);
        }
        lemma_appended_empty(stanza, delta.drop_last(), ident);
        assert(delta.last() == delta[delta.len() - 1]);
    }
}

/// In a well-formed field list, looking up a field's own key finds that
/// field's value.
pub proof fn lemma_wf_lookup(fields: Seq<FieldView>, j: int)
    requires
        crate::json::wf_fields(fields),
        0 <= j < fields.len(),
    ensures
        spec_lookup(fields, fields[j].key) == Some(fields[j].value),
{
    crate::json::lemma_lookup_index(fields, fields[j].key);
    let i = choose|i: int|
        0 <= i < fields.len() && #[trigger] fields[i].key == fields[j].key && spec_lookup(
            fields,
            fields[j].key,
        ) == Some(fields[i].value);
    assert(i == j);
}

/// Merging a well-formed delta is idempotent: a second merge of the same
/// delta under the same identifier key changes nothing.
pub proof fn lemma_merge_idempotent(stanza: Seq<FieldView>, delta: Seq<FieldView>, ident: Seq<char>)
    requires
        crate::json::wf_fields(delta),
    ensures
        merge_spec(merge_spec(stanza, delta, ident), delta, ident) == merge_spec(
            stanza,
            delta,
            ident,
        ),
{
    let m1 = merge_spec(stanza, delta, ident);
    if stanza_matches(stanza, delta, ident) && stanza_matches(m1, delta, ident) {
        assert(m1 == merged_fields(stanza, delta, ident));
        let ow = overwritten_fields(stanza, delta, ident);
        let app = appended_fields(stanza, delta, ident);
        lemma_overwritten_elems(stanza, delta, ident);
        lemma_appended_elems(stanza, delta, ident);
        // Nothing is appended a second time: every delta key other than the
        // identifier key is a key of the merged stanza already.
        assert forall|j: int|
            0 <= j < delta.len() implies (#[trigger] delta[j].key) == ident || has_key(
            m1,
            delta[j].key,
        ) by {
            if delta[j].key != ident {
                crate::json::lemma_lookup_index(delta, delta[j].key);
                lemma_merged_lookup(stanza, delta, ident, delta[j].key);
            }
        }
        lemma_appended_empty(m1, delta, ident);
        // The second overwrite pass changes no field.
        lemma_overwritten_elems(m1, delta, ident);
        let ow2 = overwritten_fields(m1, delta, ident);
        assert forall|i: int| 0 <= i < m1.len() implies ow2[i] == m1[i] by {
            if i < stanza.len() {
                assert(m1[i] == ow[i]);
                assert(ow[i] == overwrite_field(stanza[i], delta, ident));
            } else {
                assert(m1[i] == app[i - stanza.len()]);
                let j = choose|j: int|
                    0 <= j < delta.len() && app[i - stanza.len()] == delta[j] && delta[j].key
                        != ident && !has_key(stanza, delta[j].key);
                lemma_wf_lookup(delta, j);
            }
        }
        assert(merged_fields(m1, delta, ident) =~= ow2);
        assert(ow2 =~= m1);
    }
}

/// Merges `delta` into `stanza` under identifier key `ident`.
///
/// When the stanza's `<field>` value (for identifier key `<field>__exact`)
/// equals the delta's identifier value, every delta field except the
/// identifier key overwrites the stanza's field of the same key, and fields
/// the stanza lacks are appended in delta order. Otherwise the stanza comes
/// back unchanged.
pub fn merge(stanza: &Vec<Field>, delta: &Vec<Field>, ident: &String) -> (r: Vec<Field>)
    requires
        is_exact_key(ident@),
    ensures
        fields_view(r@) == merge_spec(fields_view(stanza@), fields_view(delta@), ident@),
{
    let ghost sv = fields_view(stanza@);
    let ghost dv = fields_view(delta@);
    proof {
        crate::json::lemma_fields_view_len(stanza@);
        crate::json::lemma_fields_view_len(delta@);
    }
    let ident_value = lookup_field(delta, ident);
    let field_name = identifier_field(ident);
    let stanza_value = lookup_field(stanza, &field_name);
    let matched = match (stanza_value, ident_value) {
        (Some(a), Some(b)) => json_eq(a, b),
        _ => false,
    };
    proof {
        assert(matched == stanza_matches(sv, dv, ident@));
    }
    if !matched {
        return fields_clone(stanza);
    }
    let n = stanza.len();
    let mut out: Vec<Field> = Vec::new();
    let mut i: usize = 0;
    while i < n
        invariant
            n == stanza.len(),
            i <= n,
            out@.len() == i,
            sv == fields_view(stanza@),
            dv == fields_view(delta@),
            sv.len() == n,
            forall|k: int| 0 <= k < n ==> sv[k] == field_view(#[trigger] stanza@[k]),
            forall|k: int|
                0 <= k < i ==> field_view(#[trigger] out@[k]) == overwrite_field(sv[k], dv, ident@),
        decreases n - i,
    {
        let f = &stanza[i];
        let replacement = if f.key == *ident {
            None
        } else {
            lookup_field(delta, &f.key)
        };
        match replacement {
            Some(v) => {
                out.push(Field { key: f.key.clone(), value: json_clone(v) });
            },
            None => {
                out.push(Field { key: f.key.clone(), value: json_clone(&f.value) });
            },
        }
        i += 1;
    }
    let ghost ow = overwritten_fields(sv, dv, ident@);
    proof {
        lemma_overwritten_elems(sv, dv, ident@);
        crate::json::lemma_fields_view_len(out@);
        assert forall|k: int| 0 <= k < n implies fields_view(out@)[k] == ow[k] by {
            assert(fields_view(out@)[k] == field_view(out@[k]));
        }
        assert(fields_view(out@) =~= ow);
    }
    let m = delta.len();
    let mut j: usize = 0;
    while j < m
        invariant
            m == delta.len(),
            sv == fields_view(stanza@),
            dv == fields_view(delta@),
            ow == overwritten_fields(sv, dv, ident@),
            j <= m,
            dv.len() == m,
            forall|k: int| 0 <= k < m ==> dv[k] == field_view(#[trigger] delta@[k]),
            fields_view(out@) == ow + appended_fields(sv, dv.take(j as int), ident@),
        decreases m - j,
    {
        let ghost before = fields_view(out@);
        let ghost before_raw = out@;
        let f = &delta[j];
        let appended = if f.key == *ident {
            false
        } else {
            lookup_field(stanza, &f.key).is_none()
        };
        proof {
            assert(dv.take(j + 1).drop_last() =~= dv.take(j as int));
            assert(dv.take(j + 1).last() == dv[j as int]);
        }
        if appended {
            out.push(Field { key: f.key.clone(), value: json_clone(&f.value) });
            proof {
                assert(out@.drop_last() =~= before_raw);
            }
        }
        proof {
            if appended {
                assert(out@.last() == out@[out@.len() - 1]);
                assert(field_view(out@.last()) == dv[j as int]);
                assert(fields_view(out@) == fields_view(out@.drop_last()).push(
                    field_view(out@.last()),
                ));
                assert(fields_view(out@) == before.push(dv[j as int]));
                assert(ow + appended_fields(sv, dv.take(j + 1), ident@) =~= before.push(
                    dv[j as int],
                ));
            } else {
                assert(ow + appended_fields(sv, dv.take(j + 1), ident@) =~= before);
            }
        }
        j += 1;
    }
    proof {
        assert(dv.take(m as int) =~= dv);
        assert(merge_spec(sv, dv, ident@) == ow + appended_fields(sv, dv, ident@));
    }
    out
}

} // verus!
