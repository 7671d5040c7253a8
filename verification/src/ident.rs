//! Generation of entity identifiers.
//!
//! Identifiers are a short fixed prefix (such as `s-`, `w-` or `a-`) followed
//! by the leading characters of a freshly drawn random UUID. Randomness gives
//! no guarantee of uniqueness, so the registry re-checks every identifier it
//! stores and lengthens one that collides (see `registry`).

use vstd::prelude::*;
use vstd::string::{StrSliceExecFns, StringExecFns};

verus! {

/// Relies on uuid's `Uuid::new_v4` and the `Simple` formatter: the result is
/// the 32-character simple rendering of a random UUID. Nothing is promised of
/// its characters beyond the length; two calls may or may not differ.
#[verifier::external_body]
pub fn uuid_simple() -> (r: String)
    ensures
        r@.len() == 32,
{
    uuid::Uuid::new_v4().simple().to_string()
}

/// Whether some string in `v` has exactly the characters of `s`.
pub open spec fn spec_contains_string(v: Seq<String>, s: Seq<char>) -> bool {
    exists|j: int| 0 <= j < v.len() && v[j]@ == s
}


/// Whether the strings of `v` are pairwise distinct.
pub open spec fn spec_strings_distinct(v: Seq<String>) -> bool {
    forall|t1: int, t2: int|
        0 <= t1 < v.len() && 0 <= t2 < v.len() && t1 != t2 ==> (#[trigger] v[t1])@ != (
        #[trigger] v[t2])@
}

/// Whether the strings of `v` are pairwise distinct.
pub fn strings_distinct(v: &Vec<String>) -> (r: bool)
    ensures
        r == spec_strings_distinct(v@),
{
    let mut i: usize = 0;
    while i < v.len()
        invariant
            i <= v@.len(),
            forall|a: int, b: int|
                0 <= a < i && a < b < v@.len() ==> (#[trigger] v@[a])@ != (#[trigger] v@[b])@,
        decreases v@.len() - i,
    {
        let mut j: usize = i + 1;
        while j < v.len()
            invariant
                i < v@.len(),
                i < j <= v@.len(),
                forall|b: int| i < b < j ==> (#[trigger] v@[b])@ != v@[i as int]@,
            decreases v@.len() - j,
        {
            if crate::strutil::str_eq(v[i].as_str(), v[j].as_str()) {
                proof {
                    assert(v@[i as int]@ == v@[j as int]@);
                }
                return false;
            }
            j += 1;
        }
        i += 1;
    }
    proof {
        assert forall|t1: int, t2: int|
            0 <= t1 < v@.len() && 0 <= t2 < v@.len() && t1 != t2 implies (#[trigger] v@[t1])@
            != (#[trigger] v@[t2])@ by {
            if t1 < t2 {
            } else {
                assert(v@[t2]@ != v@[t1]@);
            }
        }
    }
    true
}

/// Membership survives appending another string.
pub proof fn lemma_contains_string_push(v: Seq<String>, x: String, s: Seq<char>)
    requires
        spec_contains_string(v, s),
    ensures
        spec_contains_string(v.push(x), s),
{
    let t = choose|t: int| 0 <= t < v.len() && v[t]@ == s;
    assert(v.push(x)[t]@ == s);
}

/// Whether some string in `v` equals `s`.
pub fn contains_string(v: &Vec<String>, s: &str) -> (r: bool)
    ensures
        r == spec_contains_string(v@, s@),
{
    let mut i: usize = 0;
    while i < v.len()
        invariant
            i <= v@.len(),
            forall|j: int| 0 <= j < i ==> v@[j]@ != s@,
        decreases v@.len() - i,
    {
        if crate::strutil::str_eq(v[i].as_str(), s) {
            return true;
        }
        i += 1;
    }
    false
}

/// The largest length of any string in `v` (zero when `v` is empty).
pub fn max_string_len(v: &Vec<String>) -> (m: usize)
    ensures
        forall|j: int| 0 <= j < v@.len() ==> (#[trigger] v@[j])@.len() <= m,
{
    let mut m: usize = 0;
    let mut i: usize = 0;
    while i < v.len()
        invariant
            i <= v@.len(),
            forall|j: int| 0 <= j < i ==> (#[trigger] v@[j])@.len() <= m,
        decreases v@.len() - i,
    {
        let l = v[i].as_str().unicode_len();
        if l > m {
            m = l;
        }
        i += 1;
    }
    m
}

/// An identifier that is certainly not in `existing`: `prefix` plus random
/// characters, lengthened past every existing identifier in the (negligibly
/// likely) case of a collision.
pub fn fresh_id(prefix: &str, len: usize, existing: &Vec<String>) -> (id: String)
    requires
        len <= 32,
    ensures
        !spec_contains_string(existing@, id@),
        id@.len() >= prefix@.len() + len,
        id@.subrange(0, prefix@.len() as int) == prefix@,
{
    let mut id = gen_id(prefix, len);
    if contains_string(existing, id.as_str()) {
        let ghost original_len = id@.len();
        let m = max_string_len(existing);
        proof {
            reveal_strlit("x");
        }
        while id.as_str().unicode_len() <= m
            invariant
                id@.len() >= original_len,
                original_len >= prefix@.len() + len,
                id@.subrange(0, prefix@.len() as int) == prefix@,
            decreases m + 1 - id@.len(),
        {
            let ghost before = id@;
            id.append("x");
            proof {
                reveal_strlit("x");
                assert(id@.len() == before.len() + 1);
                assert(id@.subrange(0, prefix@.len() as int) =~= before.subrange(
                    0,
                    prefix@.len() as int,
                ));
            }
        }
        proof {
            assert(forall|j: int| 0 <= j < existing@.len() ==> (#[trigger] existing@[j])@ != id@)
                by {
                assert(forall|j: int|
                    0 <= j < existing@.len() ==> (#[trigger] existing@[j])@.len() <= m);
            }
        }
    }
    id
}

/// A fresh identifier: `prefix` followed by `len` characters drawn from a
/// random UUID.
pub fn gen_id(prefix: &str, len: usize) -> (r: String)
    requires
        len <= 32,
    ensures
        r@.len() == prefix@.len() + len,
        r@.subrange(0, prefix@.len() as int) == prefix@,
{
    let base = uuid_simple();
    let suffix = base.as_str().substring_char(0, len);
    let r = String::from_str(prefix).concat(suffix);
    proof {
        assert(r@.subrange(0, prefix@.len() as int) =~= prefix@);
    }
    r
}

} // verus!
