//! Character-sequence helpers: suffix tests and the reserved identifier
//! suffix of source deltas.

use vstd::prelude::*;
use vstd::string::StrSliceExecFns;

verus! {

/// `s` ends with `suffix`.
pub open spec fn has_suffix(s: Seq<char>, suffix: Seq<char>) -> bool {
    suffix.len() <= s.len() && s.subrange(s.len() - suffix.len(), s.len() as int) == suffix
}

/// The reserved suffix that designates a delta's identifier key.
pub open spec fn exact_suffix() -> Seq<char> {
    "__exact"@
}

/// A delta key that designates the matching field of a stanza.
pub open spec fn is_exact_key(key: Seq<char>) -> bool {
    has_suffix(key, exact_suffix())
}

/// The stanza field that identifier key `ident` refers to: the key with the
/// reserved suffix stripped.
pub open spec fn ident_field(ident: Seq<char>) -> Seq<char> {
    ident.subrange(0, ident.len() - exact_suffix().len())
}

/// Decides whether `s` ends with `suffix`.
pub fn str_has_suffix(s: &str, suffix: &str) -> (r: bool)
    ensures
        r == has_suffix(s@, suffix@),
{
    let n = s.unicode_len();
    let m = suffix.unicode_len();
    if m > n {
        return false;
    }
    let ghost tail = s@.subrange(s@.len() - suffix@.len(), s@.len() as int);
    let mut i: usize = 0;
    while i < m
        invariant
            n == s@.len(),
            m == suffix@.len(),
            m <= n,
            i <= m,
            tail == s@.subrange(s@.len() - suffix@.len(), s@.len() as int),
            forall|k: int| 0 <= k < i ==> #[trigger] tail[k] == suffix@[k],
        decreases m - i,
    {
        let c1 = s.get_char(n - m + i);
        let c2 = suffix.get_char(i);
        proof {
            assert(tail[i as int] == s@[n - m + i]);
        }
        if c1 != c2 {
            proof {
                assert(tail[i as int] != suffix@[i as int]);
            }
            return false;
        }
        i += 1;
    }
    proof {
        assert(tail =~= suffix@);
    }
    true
}

/// Decides whether `key` is an identifier key: it ends with the reserved
/// suffix.
pub fn is_identifier_key(key: &String) -> (r: bool)
    ensures
        r == is_exact_key(key@),
{
    str_has_suffix(key.as_str(), "__exact")
}

/// The stanza field referred to by identifier key `ident`.
pub fn identifier_field(ident: &String) -> (r: String)
    requires
        is_exact_key(ident@),
    ensures
        r@ == ident_field(ident@),
{
    proof {
        reveal_strlit("__exact");
    }
    let n = ident.as_str().unicode_len();
    let f = ident.as_str().substring_char(0, n - 7);
    f.to_owned()
}

} // verus!
