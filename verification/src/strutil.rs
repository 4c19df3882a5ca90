//! Verified helpers over strings and byte slices: equality and
//! substring search, with contracts over the UTF-8 byte model.

use vstd::prelude::*;
use vstd::string::StringSliceAdditionalSpecFns;
use vstd::utf8::encode_utf8;

verus! {

/// Whether `n` occurs in `h` starting at byte offset `i`.
pub open spec fn sub_at(h: Seq<u8>, n: Seq<u8>, i: int) -> bool {
    0 <= i && i + n.len() <= h.len() && h.subrange(i, i + n.len() as int) == n
}

/// Whether `n` occurs somewhere in `h`.
pub open spec fn contains_sub(h: Seq<u8>, n: Seq<u8>) -> bool {
    exists|i: int| sub_at(h, n, i)
}

/// Byte-slice equality.
pub fn bytes_eq(a: &[u8], b: &[u8]) -> (r: bool)
    ensures
        r == (a@ == b@),
{
    if a.len() != b.len() {
        assert(a@.len() != b@.len());
        return false;
    }
    let mut i: usize = 0;
    while i < a.len()
        invariant
            i <= a@.len(),
            a@.len() == b@.len(),
            forall|j: int| 0 <= j < i ==> a@[j] == b@[j],
        decreases a@.len() - i,
    {
        if a[i] != b[i] {
            return false;
        }
        i = i + 1;
    }
    proof {
        assert(a@ =~= b@);
    }
    true
}

/// String-slice equality, stated over the character views.
pub fn str_eq(a: &str, b: &str) -> (r: bool)
    ensures
        r == (a@ == b@),
{
    let ab = a.as_bytes();
    let bb = b.as_bytes();
    let r = bytes_eq(ab, bb);
    proof {
        if encode_utf8(a@) == encode_utf8(b@) {
            vstd::utf8::encode_utf8_decode_utf8(a@);
            vstd::utf8::encode_utf8_decode_utf8(b@);
            assert(a@ == b@);
        }
    }
    r
}

/// Whether the bytes of `n` occur as a contiguous run inside the bytes
/// of `h`, which for valid UTF-8 text is substring search.
pub fn str_contains(h: &str, n: &str) -> (r: bool)
    ensures
        r == contains_sub(h.spec_bytes(), n.spec_bytes()),
{
    let hb = h.as_bytes();
    let nb = n.as_bytes();
    if nb.len() == 0 {
        proof {
            assert(hb@.subrange(0, 0) =~= nb@);
            assert(sub_at(hb@, nb@, 0));
        }
        return true;
    }
    if nb.len() > hb.len() {
        assert(forall|k: int| !#[trigger] sub_at(hb@, nb@, k));
        return false;
    }
    let hl = hb.len();
    assert(hb@.len() == hl);
    let mut i: usize = 0;
    while nb.len() <= hb.len() - i
        invariant
            hb@.len() <= usize::MAX,
            1 <= nb@.len() <= hb@.len(),
            i <= hb@.len(),
            hb@ == h.spec_bytes(),
            nb@ == n.spec_bytes(),
            forall|k: int| 0 <= k < i ==> !#[trigger] sub_at(hb@, nb@, k),
        decreases hb@.len() - i,
    {
        let mut j: usize = 0;
        let mut matched = true;
        while j < nb.len()
            invariant
                hb@.len() <= usize::MAX,
                i + nb@.len() <= hb@.len(),
                j <= nb@.len(),
                matched ==> forall|m: int| 0 <= m < j ==> hb@[i + m] == nb@[m],
                !matched ==> exists|m: int| 0 <= m < nb@.len() && hb@[i + m] != nb@[m],
            decreases nb@.len() - j,
        {
            if hb[i + j] != nb[j] {
                matched = false;
                j = nb.len();
            } else {
                j = j + 1;
            }
        }
        if matched {
            proof {
                assert(hb@.subrange(i as int, i + nb@.len() as int) =~= nb@);
                assert(sub_at(hb@, nb@, i as int));
            }
            return true;
        }
        proof {
            if sub_at(hb@, nb@, i as int) {
                let m = choose|m: int| 0 <= m < nb@.len() && hb@[i + m] != nb@[m];
                assert(hb@.subrange(i as int, i + nb@.len() as int)[m] == hb@[i + m]);
                assert(false);
            }
        }
        i = i + 1;
    }
    proof {
        assert(forall|k: int| #[trigger] sub_at(hb@, nb@, k) ==> 0 <= k < i);
    }
    false
}

} // verus!
