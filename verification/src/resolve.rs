//! Resolving a source delta's identifier key.
//!
//! A delta must designate exactly one identifier key — one key ending in the
//! reserved suffix. A delta with none, or with several, is rejected: the
//! ambiguity of several candidate identifiers is treated as an error rather
//! than resolved by precedence.

use crate::errors::UpdateError;
use crate::json::{field_view, fields_view, lemma_fields_view_len, Field, FieldView};
use crate::text::{is_exact_key, is_identifier_key};
use vstd::prelude::*;

verus! {

/// Delta field `i` carries an identifier key.
pub open spec fn exact_at(fields: Seq<FieldView>, i: int) -> bool {
    0 <= i < fields.len() && is_exact_key(fields[i].key)
}

/// The delta designates exactly one identifier key.
pub open spec fn unique_exact(fields: Seq<FieldView>) -> bool {
    exists|i: int|
        #[trigger] exact_at(fields, i) && forall|j: int| #[trigger] exact_at(fields, j) ==> j == i
}

/// The identifier key of a delta that designates exactly one.
pub open spec fn spec_resolve(fields: Seq<FieldView>) -> Seq<char> {
    fields[choose|i: int| exact_at(fields, i)].key
}

/// Finds the delta's identifier key: the single key ending in the reserved
/// suffix. A delta with no such key, or with more than one, is rejected.
pub fn resolve(delta: &Vec<Field>) -> (r: Result<String, UpdateError>)
    ensures
        r is Ok <==> unique_exact(fields_view(delta@)),
        r matches Ok(k) ==> k@ == spec_resolve(fields_view(delta@)) && is_exact_key(k@),
        r matches Err(e) ==> e == UpdateError::IdentifierNotFound,
{
    proof {
        lemma_fields_view_len(delta@);
    }
    let ghost fv = fields_view(delta@);
    let n = delta.len();
    let mut found: Option<usize> = None;
    let mut i: usize = 0;
    while i < n
        invariant
            n == delta.len(),
            i <= n,
            fv == fields_view(delta@),
            fv.len() == n,
            forall|k: int| 0 <= k < n ==> fv[k] == field_view(#[trigger] delta@[k]),
            match found {
                None => forall|k: int| 0 <= k < i ==> !exact_at(fv, k),
                Some(f) => f < i && exact_at(fv, f as int) && (forall|k: int|
                    0 <= k < i && k != f ==> !exact_at(fv, k)),
            },
        decreases n - i,
    {
        if is_identifier_key(&delta[i].key) {
            proof {
                assert(exact_at(fv, i as int));
            }
            match found {
                None => {
                    found = Some(i);
                },
                Some(f) => {
                    proof {
                        assert(exact_at(fv, f as int));
                        assert(!unique_exact(fv));
                    }
                    return Err(UpdateError::IdentifierNotFound);
                },
            }
        }
        i += 1;
    }
    match found {
        Some(f) => {
            proof {
                assert(unique_exact(fv));
                let w = choose|w: int| exact_at(fv, w);
                assert(w == f);
            }
            Ok(delta[f].key.clone())
        },
        None => {
            proof {
                assert(!unique_exact(fv));
            }
            Err(UpdateError::IdentifierNotFound)
        },
    }
}

} // verus!
