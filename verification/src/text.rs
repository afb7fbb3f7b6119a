//! Text helpers: equality of string slices and the short name of a type.
use vstd::prelude::*;
use vstd::utf8::encode_utf8_decode_utf8;
use vstd::string::StringSliceAdditionalSpecFns;
use vstd::string::StrSliceExecFns;

verus! {

/// Whether two string slices hold the same characters.
pub fn str_eq(a: &str, b: &str) -> (r: bool)
    ensures
        r == (a@ == b@),
{
    let ab = a.as_bytes();
    let bb = b.as_bytes();
    proof {
        encode_utf8_decode_utf8(a@);
        encode_utf8_decode_utf8(b@);
    }
    if ab.len() != bb.len() {
        return false;
    }
    let mut i: usize = 0;
    while i < ab.len()
        invariant
            ab@ == a.spec_bytes(),
            bb@ == b.spec_bytes(),
            ab@.len() == bb@.len(),
            0 <= i <= ab@.len(),
            forall|j: int| 0 <= j < i ==> ab@[j] == bb@[j],
        decreases ab@.len() - i,
    {
        if ab[i] != bb[i] {
            return false;
        }
        i = i + 1;
    }
    assert(ab@ =~= bb@);
    true
}

/// Whether `s[p]` and `s[p + 1]` are the path separator `::`.
pub open spec fn is_path_separator_at(s: Seq<char>, p: int) -> bool {
    &&& 0 <= p
    &&& p + 1 < s.len()
    &&& s[p] == ':'
    &&& s[p + 1] == ':'
}

/// The short name of a type: what follows the last `::` of its full path, or
/// the whole name where it has no `::`.
pub open spec fn spec_short_type_name(s: Seq<char>) -> Seq<char> {
    if exists|p: int| is_path_separator_at(s, p) {
        let p = choose|p: int| is_path_separator_at(s, p) && forall|q: int| p < q ==> !is_path_separator_at(s, q);
        s.subrange(p + 2, s.len() as int)
    } else {
        s
    }
}

/// Strips the module path from a full type name (`a::b::Scale` gives
/// `Scale`), as `str::rfind("::")` and slicing after it do.
pub fn short_type_name(full_name: &str) -> (name: &str)
    ensures
        name@ == spec_short_type_name(full_name@),
{
    let len = full_name.unicode_len();
    if len < 2 {
        assert forall|p: int| !is_path_separator_at(full_name@, p) by {}
        return full_name;
    }
    let mut p: usize = len - 1;
    // look at positions p - 1, p for p from len - 1 down to 1
    while p > 0
        invariant
            len == full_name@.len(),
            len >= 2,
            0 <= p < len,
            forall|q: int| p <= q && q < len ==> !is_path_separator_at(full_name@, q),
        decreases p,
    {
        let c0 = full_name.get_char(p - 1);
        let c1 = full_name.get_char(p);
        if c0 == ':' && c1 == ':' {
            let ghost sep = (p - 1) as int;
            assert(is_path_separator_at(full_name@, sep));
            assert forall|q: int| sep < q implies !is_path_separator_at(full_name@, q) by {
                if q >= len - 1 {
                } else {
                    assert(p <= q);
                }
            }
            proof {
                let c = choose|c: int| is_path_separator_at(full_name@, c) && forall|q: int| c < q ==> !is_path_separator_at(full_name@, q);
                assert(is_path_separator_at(full_name@, c));
                if c < sep {
                    assert(!is_path_separator_at(full_name@, sep));
                }
                if c > sep {
                    assert(!is_path_separator_at(full_name@, c));
                }
                assert(c == sep);
            }
            return full_name.substring_char(p + 1, len);
        }
        assert(!is_path_separator_at(full_name@, (p - 1) as int));
        p = p - 1;
    }
    assert forall|q: int| !is_path_separator_at(full_name@, q) by {
        if q < 0 {
        }
    }
    full_name
}

} // verus!
