//! Wire format of the data model: deterministic encoders, decoders
//! mirrored by specification functions, and round-trip proofs. Decoding
//! the encoding of any value yields that value back.

use vstd::prelude::*;
use vstd::utf8::{decode_utf8, encode_utf8, valid_utf8};
use crate::codec::{
    dec_len, enc_le, lemma_dec_len_round, lemma_enc_le_len, lemma_starts_with_concat, read_le,
    starts_with, write_le,
};
use crate::retry::pow_nat;
use crate::errors::ErrorClass;
use crate::graph::DependencyEdge;
use crate::mesh::MeshNode;
use crate::types::{
    DependencyType, ExecutionMetrics, SubTask, Task, TaskDefinition, TaskResult, TaskStatus,
    WorkflowStrategy,
};

verus! {

broadcast use vstd::seq_lib::group_seq_properties;

/// Bound on lengths that fit the eight-byte length prefix.
pub open spec fn fits_len(n: nat) -> bool {
    n < pow_nat(256, 8)
}

// === Unsigned integers =====================================================

/// Appends the eight-byte encoding of `v`.
pub fn write_u64(out: &mut Vec<u8>, v: u64)
    ensures
        final(out)@ == old(out)@ + enc_le(v as nat, 8),
{
    write_le(out, v as u128, 8);
}

/// Appends the sixteen-byte encoding of `v`.
pub fn write_u128(out: &mut Vec<u8>, v: u128)
    ensures
        final(out)@ == old(out)@ + enc_le(v as nat, 16),
{
    write_le(out, v, 16);
}

/// Appends the four-byte encoding of `v`.
pub fn write_u32(out: &mut Vec<u8>, v: u32)
    ensures
        final(out)@ == old(out)@ + enc_le(v as nat, 4),
{
    write_le(out, v as u128, 4);
}

/// Appends the one-byte encoding of `v`.
pub fn write_u8(out: &mut Vec<u8>, v: u8)
    ensures
        final(out)@ == old(out)@ + enc_le(v as nat, 1),
{
    write_le(out, v as u128, 1);
}

/// Reads an eight-byte value.
pub fn read_u64(buf: &Vec<u8>, pos: usize) -> (r: Option<(u64, usize)>)
    ensures
        dec_len(buf@, pos as int, 8) is None ==> r is None,
        r is None ==> dec_len(buf@, pos as int, 8) is None,
        r matches Some(p) ==> (dec_len(buf@, pos as int, 8) matches Some(q) && p.0 as nat == q.0
            && p.1 as int == q.1),
{
    proof {
        crate::codec::lemma_pow256_8();
    }
    match read_le(buf, pos, 8) {
        Some((v, next)) => Some((v as u64, next)),
        None => None,
    }
}

/// Reads a sixteen-byte value.
pub fn read_u128(buf: &Vec<u8>, pos: usize) -> (r: Option<(u128, usize)>)
    ensures
        r is None <==> dec_len(buf@, pos as int, 16) is None,
        r matches Some(p) ==> (dec_len(buf@, pos as int, 16) matches Some(q) && p.0 as nat == q.0
            && p.1 as int == q.1),
{
    match read_le(buf, pos, 16) {
        Some((v, next)) => Some((v, next)),
        None => None,
    }
}

/// Reads a four-byte value.
pub fn read_u32(buf: &Vec<u8>, pos: usize) -> (r: Option<(u32, usize)>)
    ensures
        r is None <==> dec_len(buf@, pos as int, 4) is None,
        r matches Some(p) ==> (dec_len(buf@, pos as int, 4) matches Some(q) && p.0 as nat == q.0
            && p.1 as int == q.1),
{
    proof {
        crate::codec::lemma_pow256_4();
    }
    match read_le(buf, pos, 4) {
        Some((v, next)) => Some((v as u32, next)),
        None => None,
    }
}

/// Reads a one-byte value.
pub fn read_u8(buf: &Vec<u8>, pos: usize) -> (r: Option<(u8, usize)>)
    ensures
        r is None <==> dec_len(buf@, pos as int, 1) is None,
        r matches Some(p) ==> (dec_len(buf@, pos as int, 1) matches Some(q) && p.0 as nat == q.0
            && p.1 as int == q.1),
{
    proof {
        crate::codec::lemma_pow256_1();
    }
    match read_le(buf, pos, 1) {
        Some((v, next)) => Some((v as u8, next)),
        None => None,
    }
}

// === Strings ===============================================================

/// The encoding of a string: byte length, then UTF-8 bytes.
pub open spec fn enc_str(sv: Seq<char>) -> Seq<u8> {
    enc_le(encode_utf8(sv).len(), 8) + encode_utf8(sv)
}

/// The mirrored decoder for strings.
pub open spec fn dec_str(b: Seq<u8>, p: int) -> Option<(Seq<char>, int)> {
    match dec_len(b, p, 8) {
        None => None,
        Some((n, q)) => {
            if q + n <= b.len() && valid_utf8(b.subrange(q, q + n as int)) {
                Some((decode_utf8(b.subrange(q, q + n as int)), q + n))
            } else {
                None
            }
        },
    }
}

/// Decoding inverts string encoding.
pub proof fn lemma_dec_str_round(b: Seq<u8>, p: int, sv: Seq<char>)
    requires
        starts_with(b, p, enc_str(sv)),
        fits_len(encode_utf8(sv).len()),
    ensures
        dec_str(b, p) == Some((sv, p + enc_str(sv).len() as int)),
{
    let bytes = encode_utf8(sv);
    lemma_starts_with_concat(b, p, enc_le(bytes.len(), 8), bytes);
    lemma_dec_len_round(b, p, bytes.len(), 8);
    lemma_enc_le_len(bytes.len(), 8);
    assert(b.subrange(p + 8, p + 8 + bytes.len() as int) == bytes);
    vstd::utf8::encode_utf8_valid_utf8(sv);
    vstd::utf8::encode_utf8_decode_utf8(sv);
}

/// Appends the encoding of a string.
pub fn write_str(out: &mut Vec<u8>, s: &str)
    ensures
        final(out)@ == old(out)@ + enc_str(s@),
        fits_len(encode_utf8(s@).len()),
{
    let bytes = s.as_bytes();
    let n = bytes.len();
    proof {
        crate::codec::lemma_pow256_8();
    }
    write_le(out, n as u128, 8);
    let ghost mid = out@;
    let mut i: usize = 0;
    while i < n
        invariant
            i <= n,
            n == bytes@.len(),
            out@ == mid + bytes@.take(i as int),
        decreases n - i,
    {
        let ghost prev = out@;
        out.push(bytes[i]);
        proof {
            assert(out@ =~= mid + bytes@.take(i + 1));
        }
        i = i + 1;
    }
    proof {
        assert(bytes@.take(n as int) =~= bytes@);
        assert(out@ =~= old(out)@ + enc_str(s@));
    }
}

/// Reads a string.
pub fn read_str(buf: &Vec<u8>, pos: usize) -> (r: Option<(String, usize)>)
    ensures
        r is None <==> dec_str(buf@, pos as int) is None,
        r matches Some(p) ==> (dec_str(buf@, pos as int) matches Some(q) && p.0@ == q.0 && p.1
            as int == q.1),
{
    let (n128, q) = match read_le(buf, pos, 8) {
        Some(v) => v,
        None => {
            return None;
        },
    };
    if n128 > (buf.len() - q) as u128 {
        return None;
    }
    let n = n128 as usize;
    let blen = buf.len();
    let mut bytes: Vec<u8> = Vec::new();
    let mut i: usize = 0;
    while i < n
        invariant
            i <= n,
            buf@.len() == blen,
            q + n <= buf@.len(),
            bytes@ == buf@.subrange(q as int, q + i as int),
        decreases n - i,
    {
        bytes.push(buf[q + i]);
        proof {
            assert(bytes@ =~= buf@.subrange(q as int, q + i + 1));
        }
        i = i + 1;
    }
    proof {
        assert(bytes@ =~= buf@.subrange(q as int, q + n as int));
    }
    match crate::trusted::string_from_utf8(bytes) {
        Some(s) => {
            proof {
                vstd::utf8::encode_utf8_decode_utf8(s@);
            }
            Some((s, q + n))
        },
        None => None,
    }
}

// === Options and lists =====================================================

/// The encoding of an optional string: presence byte, then the string.
pub open spec fn enc_opt_str(v: Option<Seq<char>>) -> Seq<u8> {
    match v {
        None => enc_le(0, 1),
        Some(sv) => enc_le(1, 1) + enc_str(sv),
    }
}

/// The mirrored decoder for an optional string.
pub open spec fn dec_opt_str(b: Seq<u8>, p: int) -> Option<(Option<Seq<char>>, int)> {
    match dec_len(b, p, 1) {
        None => None,
        Some((tag, q)) => {
            if tag == 0 {
                Some((None, q))
            } else if tag == 1 {
                match dec_str(b, q) {
                    None => None,
                    Some((sv, e)) => Some((Some(sv), e)),
                }
            } else {
                None
            }
        },
    }
}

/// Decoding inverts optional-string encoding.
pub proof fn lemma_dec_opt_str_round(b: Seq<u8>, p: int, v: Option<Seq<char>>)
    requires
        starts_with(b, p, enc_opt_str(v)),
        v matches Some(sv) ==> fits_len(encode_utf8(sv).len()),
    ensures
        dec_opt_str(b, p) == Some((v, p + enc_opt_str(v).len() as int)),
{
    crate::codec::lemma_pow256_1();
    lemma_enc_le_len(0, 1);
    lemma_enc_le_len(1, 1);
    match v {
        None => {
            lemma_dec_len_round(b, p, 0, 1);
        },
        Some(sv) => {
            lemma_starts_with_concat(b, p, enc_le(1, 1), enc_str(sv));
            lemma_dec_len_round(b, p, 1, 1);
            lemma_dec_str_round(b, p + 1, sv);
        },
    }
}

/// Appends the encoding of an optional string.
pub fn write_opt_str(out: &mut Vec<u8>, v: &Option<String>)
    ensures
        final(out)@ == old(out)@ + enc_opt_str(match v {
            Some(s) => Some(s@),
            None => None,
        }),
        v matches Some(s) ==> fits_len(encode_utf8(s@).len()),
{
    match v {
        None => {
            write_u8(out, 0);
        },
        Some(s) => {
            write_u8(out, 1);
            write_str(out, s.as_str());
        },
    }
}

/// Reads an optional string.
pub fn read_opt_str(buf: &Vec<u8>, pos: usize) -> (r: Option<(Option<String>, usize)>)
    ensures
        r is None <==> dec_opt_str(buf@, pos as int) is None,
        r matches Some(p) ==> (dec_opt_str(buf@, pos as int) matches Some(q) && (match p.0 {
            Some(s) => q.0 matches Some(sv) && s@ == sv,
            None => q.0 is None,
        }) && p.1 as int == q.1),
{
    let (tag, q) = match read_u8(buf, pos) {
        Some(v) => v,
        None => {
            return None;
        },
    };
    if tag == 0 {
        Some((None, q))
    } else if tag == 1 {
        match read_str(buf, q) {
            Some((s, e)) => Some((Some(s), e)),
            None => None,
        }
    } else {
        None
    }
}

/// The encoding of an optional 64-bit value.
pub open spec fn enc_opt_u64(v: Option<u64>) -> Seq<u8> {
    match v {
        None => enc_le(0, 1),
        Some(x) => enc_le(1, 1) + enc_le(x as nat, 8),
    }
}

/// The mirrored decoder for an optional 64-bit value.
pub open spec fn dec_opt_u64(b: Seq<u8>, p: int) -> Option<(Option<u64>, int)> {
    match dec_len(b, p, 1) {
        None => None,
        Some((tag, q)) => {
            if tag == 0 {
                Some((None, q))
            } else if tag == 1 {
                match dec_len(b, q, 8) {
                    None => None,
                    Some((x, e)) => Some((Some(x as u64), e)),
                }
            } else {
                None
            }
        },
    }
}

/// Decoding inverts optional-value encoding.
pub proof fn lemma_dec_opt_u64_round(b: Seq<u8>, p: int, v: Option<u64>)
    requires
        starts_with(b, p, enc_opt_u64(v)),
    ensures
        dec_opt_u64(b, p) == Some((v, p + enc_opt_u64(v).len() as int)),
{
    crate::codec::lemma_pow256_1();
    crate::codec::lemma_pow256_8();
    lemma_enc_le_len(0, 1);
    lemma_enc_le_len(1, 1);
    match v {
        None => {
            lemma_dec_len_round(b, p, 0, 1);
        },
        Some(x) => {
            lemma_starts_with_concat(b, p, enc_le(1, 1), enc_le(x as nat, 8));
            lemma_dec_len_round(b, p, 1, 1);
            lemma_dec_len_round(b, p + 1, x as nat, 8);
            lemma_enc_le_len(x as nat, 8);
        },
    }
}

/// Appends the encoding of an optional 64-bit value.
pub fn write_opt_u64(out: &mut Vec<u8>, v: &Option<u64>)
    ensures
        final(out)@ == old(out)@ + enc_opt_u64(*v),
{
    match v {
        None => {
            write_u8(out, 0);
        },
        Some(x) => {
            write_u8(out, 1);
            write_u64(out, *x);
        },
    }
}

/// Reads an optional 64-bit value.
pub fn read_opt_u64(buf: &Vec<u8>, pos: usize) -> (r: Option<(Option<u64>, usize)>)
    ensures
        r is None <==> dec_opt_u64(buf@, pos as int) is None,
        r matches Some(p) ==> (dec_opt_u64(buf@, pos as int) matches Some(q) && p.0 == q.0 && p.1
            as int == q.1),
{
    let (tag, q) = match read_u8(buf, pos) {
        Some(v) => v,
        None => {
            return None;
        },
    };
    if tag == 0 {
        Some((None, q))
    } else if tag == 1 {
        match read_u64(buf, q) {
            Some((x, e)) => Some((Some(x), e)),
            None => None,
        }
    } else {
        None
    }
}

/// The concatenated encodings of a list of identifiers.
pub open spec fn enc_id_list(xs: Seq<u128>) -> Seq<u8>
    decreases xs.len(),
{
    if xs.len() == 0 {
        Seq::empty()
    } else {
        enc_le(xs.first() as nat, 16) + enc_id_list(xs.drop_first())
    }
}

/// The encoding of an identifier vector: count, then elements.
pub open spec fn enc_ids(xs: Seq<u128>) -> Seq<u8> {
    enc_le(xs.len(), 8) + enc_id_list(xs)
}

/// The mirrored decoder for `cnt` identifiers.
pub open spec fn dec_id_list(b: Seq<u8>, p: int, cnt: nat) -> Option<(Seq<u128>, int)>
    decreases cnt,
{
    if cnt == 0 {
        Some((Seq::empty(), p))
    } else {
        match dec_len(b, p, 16) {
            None => None,
            Some((v, q)) => match dec_id_list(b, q, (cnt - 1) as nat) {
                None => None,
                Some((rest, e)) => Some((seq![v as u128] + rest, e)),
            },
        }
    }
}

/// The mirrored decoder for an identifier vector.
pub open spec fn dec_ids(b: Seq<u8>, p: int) -> Option<(Seq<u128>, int)> {
    match dec_len(b, p, 8) {
        None => None,
        Some((c, q)) => dec_id_list(b, q, c),
    }
}

/// Decoding inverts identifier-list encoding.
pub proof fn lemma_dec_id_list_round(b: Seq<u8>, p: int, xs: Seq<u128>)
    requires
        starts_with(b, p, enc_id_list(xs)),
    ensures
        dec_id_list(b, p, xs.len()) == Some((xs, p + enc_id_list(xs).len() as int)),
    decreases xs.len(),
{
    crate::codec::lemma_pow256_16();
    if xs.len() > 0 {
        lemma_starts_with_concat(b, p, enc_le(xs.first() as nat, 16), enc_id_list(xs.drop_first()));
        lemma_dec_len_round(b, p, xs.first() as nat, 16);
        lemma_enc_le_len(xs.first() as nat, 16);
        lemma_dec_id_list_round(b, p + 16, xs.drop_first());
        assert(seq![xs.first()] + xs.drop_first() =~= xs);
    }
}

/// Decoding inverts identifier-vector encoding.
pub proof fn lemma_dec_ids_round(b: Seq<u8>, p: int, xs: Seq<u128>)
    requires
        starts_with(b, p, enc_ids(xs)),
        fits_len(xs.len()),
    ensures
        dec_ids(b, p) == Some((xs, p + enc_ids(xs).len() as int)),
{
    lemma_starts_with_concat(b, p, enc_le(xs.len(), 8), enc_id_list(xs));
    lemma_dec_len_round(b, p, xs.len(), 8);
    lemma_enc_le_len(xs.len(), 8);
    lemma_dec_id_list_round(b, p + 8, xs);
}

/// Appends the encoding of an identifier vector.
pub fn write_ids(out: &mut Vec<u8>, xs: &Vec<u128>)
    ensures
        final(out)@ == old(out)@ + enc_ids(xs@),
        fits_len(xs@.len()),
{
    proof {
        crate::codec::lemma_pow256_8();
    }
    write_le(out, xs.len() as u128, 8);
    let ghost mid = out@;
    let mut i: usize = 0;
    while i < xs.len()
        invariant
            i <= xs@.len(),
            out@ == mid + enc_id_list(xs@.take(i as int)),
        decreases xs@.len() - i,
    {
        let ghost prev = out@;
        write_u128(out, xs[i]);
        proof {
            lemma_enc_id_list_snoc(xs@.take(i as int), xs@[i as int]);
            assert(xs@.take(i + 1) =~= xs@.take(i as int).push(xs@[i as int]));
            assert(out@ =~= mid + enc_id_list(xs@.take(i + 1)));
        }
        i = i + 1;
    }
    proof {
        assert(xs@.take(xs@.len() as int) =~= xs@);
    }
}

/// Appending one element extends the list encoding at the end.
pub proof fn lemma_enc_id_list_snoc(xs: Seq<u128>, x: u128)
    ensures
        enc_id_list(xs.push(x)) == enc_id_list(xs) + enc_le(x as nat, 16),
    decreases xs.len(),
{
    if xs.len() == 0 {
        assert(xs.push(x).len() == 1);
        assert(xs.push(x).first() == x);
        assert(xs.push(x).drop_first() =~= Seq::<u128>::empty());
        assert(enc_id_list(xs.push(x).drop_first()) =~= Seq::<u8>::empty());
        assert(enc_id_list(xs.push(x)) =~= enc_le(x as nat, 16) + Seq::<u8>::empty());
        assert(enc_id_list(xs.push(x)) =~= enc_id_list(xs) + enc_le(x as nat, 16));
    } else {
        assert(xs.push(x).drop_first() =~= xs.drop_first().push(x));
        assert(xs.push(x).first() == xs.first());
        lemma_enc_id_list_snoc(xs.drop_first(), x);
        assert(enc_id_list(xs.push(x)) =~= enc_le(xs.first() as nat, 16) + (enc_id_list(
            xs.drop_first(),
        ) + enc_le(x as nat, 16)));
        assert(enc_id_list(xs) + enc_le(x as nat, 16) =~= enc_le(xs.first() as nat, 16) + (
        enc_id_list(xs.drop_first()) + enc_le(x as nat, 16)));
    }
}

/// Reads an identifier vector.
pub fn read_ids(buf: &Vec<u8>, pos: usize) -> (r: Option<(Vec<u128>, usize)>)
    ensures
        r is None <==> dec_ids(buf@, pos as int) is None,
        r matches Some(p) ==> (dec_ids(buf@, pos as int) matches Some(q) && p.0@ == q.0 && p.1
            as int == q.1),
{
    let (cnt128, q0) = match read_le(buf, pos, 8) {
        Some(v) => v,
        None => {
            return None;
        },
    };
    proof {
        crate::codec::lemma_pow256_8();
        lemma_enc_le_len(cnt128 as nat, 8);
        assert(dec_len(buf@, pos as int, 8) == Some((cnt128 as nat, q0 as int)));
    }
    let cnt = cnt128 as u64;
    let ghost cntn = cnt128 as nat;
    let mut acc: Vec<u128> = Vec::new();
    let mut q = q0;
    let mut i: u64 = 0;
    while i < cnt
        invariant
            cntn == cnt,
            i <= cnt,
            acc@.len() == i,
            dec_ids(buf@, pos as int) == dec_id_list(buf@, q0 as int, cntn),
            dec_id_list(buf@, q0 as int, cntn) == (match dec_id_list(
                buf@,
                q as int,
                (cntn - i) as nat,
            ) {
                None => None::<(Seq<u128>, int)>,
                Some((tail, e)) => Some((acc@ + tail, e)),
            }),
        decreases cnt - i,
    {
        let ghost qq = q as int;
        let ghost acc0 = acc@;
        let ghost remaining = (cntn - i) as nat;
        let (v, q2) = match read_u128(buf, q) {
            Some(v) => v,
            None => {
                proof {
                    assert(dec_id_list(buf@, qq, remaining) is None);
                }
                return None;
            },
        };
        acc.push(v);
        q = q2;
        i = i + 1;
        proof {
            assert(dec_len(buf@, qq, 16) == Some((v as nat, q as int)));
            assert((v as nat) as u128 == v);
            assert(dec_id_list(buf@, qq, remaining) == (match dec_id_list(
                buf@,
                q as int,
                (remaining - 1) as nat,
            ) {
                None => None::<(Seq<u128>, int)>,
                Some((rest, e)) => Some((seq![v] + rest, e)),
            }));
            let dd = dec_id_list(buf@, q as int, (remaining - 1) as nat);
            match dd {
                Some(pr) => {
                    assert(acc0 + (seq![v] + pr.0) =~= acc@ + pr.0);
                },
                None => {},
            }
        }
    }
    proof {
        assert(dec_id_list(buf@, q as int, 0) == Some((Seq::<u128>::empty(), q as int)));
        assert(acc@ + Seq::<u128>::empty() =~= acc@);
    }
    Some((acc, q))
}

// === String lists and pair lists ===========================================

/// Whether a string fits the length prefix.
pub open spec fn str_ok(sv: Seq<char>) -> bool {
    fits_len(encode_utf8(sv).len())
}

/// The concatenated encodings of a list of strings.
pub open spec fn enc_str_list(xs: Seq<Seq<char>>) -> Seq<u8>
    decreases xs.len(),
{
    if xs.len() == 0 {
        Seq::empty()
    } else {
        enc_str(xs.first()) + enc_str_list(xs.drop_first())
    }
}

/// The encoding of a string vector: count, then elements.
pub open spec fn enc_strs(xs: Seq<Seq<char>>) -> Seq<u8> {
    enc_le(xs.len(), 8) + enc_str_list(xs)
}

/// Whether every string of the vector fits.
pub open spec fn strs_ok(xs: Seq<Seq<char>>) -> bool {
    fits_len(xs.len()) && forall|i: int| 0 <= i < xs.len() ==> str_ok(#[trigger] xs[i])
}

/// The mirrored decoder for `cnt` strings.
pub open spec fn dec_str_list(b: Seq<u8>, p: int, cnt: nat) -> Option<(Seq<Seq<char>>, int)>
    decreases cnt,
{
    if cnt == 0 {
        Some((Seq::empty(), p))
    } else {
        match dec_str(b, p) {
            None => None,
            Some((sv, q)) => match dec_str_list(b, q, (cnt - 1) as nat) {
                None => None,
                Some((rest, e)) => Some((seq![sv] + rest, e)),
            },
        }
    }
}

/// The mirrored decoder for a string vector.
pub open spec fn dec_strs(b: Seq<u8>, p: int) -> Option<(Seq<Seq<char>>, int)> {
    match dec_len(b, p, 8) {
        None => None,
        Some((c, q)) => dec_str_list(b, q, c),
    }
}

/// Decoding inverts string-list encoding.
pub proof fn lemma_dec_str_list_round(b: Seq<u8>, p: int, xs: Seq<Seq<char>>)
    requires
        starts_with(b, p, enc_str_list(xs)),
        forall|i: int| 0 <= i < xs.len() ==> str_ok(#[trigger] xs[i]),
    ensures
        dec_str_list(b, p, xs.len()) == Some((xs, p + enc_str_list(xs).len() as int)),
    decreases xs.len(),
{
    if xs.len() > 0 {
        lemma_starts_with_concat(b, p, enc_str(xs.first()), enc_str_list(xs.drop_first()));
        assert(xs[0] == xs.first());
        lemma_dec_str_round(b, p, xs.first());
        lemma_dec_str_list_round(b, p + enc_str(xs.first()).len(), xs.drop_first());
        assert(seq![xs.first()] + xs.drop_first() =~= xs);
    }
}

/// Decoding inverts string-vector encoding.
pub proof fn lemma_dec_strs_round(b: Seq<u8>, p: int, xs: Seq<Seq<char>>)
    requires
        starts_with(b, p, enc_strs(xs)),
        strs_ok(xs),
    ensures
        dec_strs(b, p) == Some((xs, p + enc_strs(xs).len() as int)),
{
    lemma_starts_with_concat(b, p, enc_le(xs.len(), 8), enc_str_list(xs));
    lemma_dec_len_round(b, p, xs.len(), 8);
    lemma_enc_le_len(xs.len(), 8);
    lemma_dec_str_list_round(b, p + 8, xs);
}

/// Appending one string extends the list encoding at the end.
pub proof fn lemma_enc_str_list_snoc(xs: Seq<Seq<char>>, x: Seq<char>)
    ensures
        enc_str_list(xs.push(x)) == enc_str_list(xs) + enc_str(x),
    decreases xs.len(),
{
    if xs.len() == 0 {
        assert(xs.push(x).len() == 1);
        assert(xs.push(x).first() == x);
        assert(xs.push(x).drop_first() =~= Seq::<Seq<char>>::empty());
        assert(enc_str_list(xs.push(x).drop_first()) =~= Seq::<u8>::empty());
        assert(enc_str_list(xs.push(x)) =~= enc_str(x) + Seq::<u8>::empty());
        assert(enc_str_list(xs.push(x)) =~= enc_str_list(xs) + enc_str(x));
    } else {
        assert(xs.push(x).drop_first() =~= xs.drop_first().push(x));
        assert(xs.push(x).first() == xs.first());
        lemma_enc_str_list_snoc(xs.drop_first(), x);
        assert(enc_str_list(xs.push(x)) =~= enc_str(xs.first()) + (enc_str_list(xs.drop_first())
            + enc_str(x)));
        assert(enc_str_list(xs) + enc_str(x) =~= enc_str(xs.first()) + (enc_str_list(
            xs.drop_first(),
        ) + enc_str(x)));
    }
}

/// The views of a string vector.
pub open spec fn strs_view(xs: Seq<String>) -> Seq<Seq<char>> {
    xs.map_values(|s: String| s@)
}

/// Appends the encoding of a string vector.
pub fn write_strs(out: &mut Vec<u8>, xs: &Vec<String>)
    ensures
        final(out)@ == old(out)@ + enc_strs(strs_view(xs@)),
        strs_ok(strs_view(xs@)),
{
    proof {
        crate::codec::lemma_pow256_8();
        assert(strs_view(xs@).len() == xs@.len());
    }
    write_le(out, xs.len() as u128, 8);
    let ghost mid = out@;
    let mut i: usize = 0;
    while i < xs.len()
        invariant
            i <= xs@.len(),
            out@ == mid + enc_str_list(strs_view(xs@).take(i as int)),
            forall|j: int| 0 <= j < i ==> str_ok(#[trigger] strs_view(xs@)[j]),
        decreases xs@.len() - i,
    {
        write_str(out, xs[i].as_str());
        proof {
            lemma_enc_str_list_snoc(strs_view(xs@).take(i as int), xs@[i as int]@);
            assert(strs_view(xs@).take(i + 1) =~= strs_view(xs@).take(i as int).push(
                xs@[i as int]@,
            ));
            assert(out@ =~= mid + enc_str_list(strs_view(xs@).take(i + 1)));
        }
        i = i + 1;
    }
    proof {
        assert(strs_view(xs@).take(xs@.len() as int) =~= strs_view(xs@));
    }
}

/// Reads a string vector.
pub fn read_strs(buf: &Vec<u8>, pos: usize) -> (r: Option<(Vec<String>, usize)>)
    ensures
        r is None <==> dec_strs(buf@, pos as int) is None,
        r matches Some(p) ==> (dec_strs(buf@, pos as int) matches Some(q) && strs_view(p.0@)
            == q.0 && p.1 as int == q.1),
{
    let (cnt128, q0) = match read_le(buf, pos, 8) {
        Some(v) => v,
        None => {
            return None;
        },
    };
    proof {
        crate::codec::lemma_pow256_8();
        lemma_enc_le_len(cnt128 as nat, 8);
        assert(dec_len(buf@, pos as int, 8) == Some((cnt128 as nat, q0 as int)));
    }
    let cnt = cnt128 as u64;
    let ghost cntn = cnt128 as nat;
    let mut acc: Vec<String> = Vec::new();
    let mut q = q0;
    let mut i: u64 = 0;
    while i < cnt
        invariant
            cntn == cnt,
            i <= cnt,
            acc@.len() == i,
            dec_strs(buf@, pos as int) == dec_str_list(buf@, q0 as int, cntn),
            dec_str_list(buf@, q0 as int, cntn) == (match dec_str_list(
                buf@,
                q as int,
                (cntn - i) as nat,
            ) {
                None => None::<(Seq<Seq<char>>, int)>,
                Some((tail, e)) => Some((strs_view(acc@) + tail, e)),
            }),
        decreases cnt - i,
    {
        let ghost qq = q as int;
        let ghost acc0 = strs_view(acc@);
        let ghost remaining = (cntn - i) as nat;
        let (v, q2) = match read_str(buf, q) {
            Some(v) => v,
            None => {
                proof {
                    assert(dec_str_list(buf@, qq, remaining) is None);
                }
                return None;
            },
        };
        let ghost vv = v@;
        acc.push(v);
        q = q2;
        i = i + 1;
        proof {
            assert(strs_view(acc@) =~= acc0.push(vv));
            assert(dec_str_list(buf@, qq, remaining) == (match dec_str_list(
                buf@,
                q as int,
                (remaining - 1) as nat,
            ) {
                None => None::<(Seq<Seq<char>>, int)>,
                Some((rest, e)) => Some((seq![vv] + rest, e)),
            }));
            let dd = dec_str_list(buf@, q as int, (remaining - 1) as nat);
            match dd {
                Some(pr) => {
                    assert(acc0 + (seq![vv] + pr.0) =~= strs_view(acc@) + pr.0);
                },
                None => {},
            }
        }
    }
    proof {
        assert(dec_str_list(buf@, q as int, 0) == Some((Seq::<Seq<char>>::empty(), q as int)));
        assert(strs_view(acc@) + Seq::<Seq<char>>::empty() =~= strs_view(acc@));
    }
    Some((acc, q))
}

/// The encoding of a pair of strings.
pub open spec fn enc_pair(pv: (Seq<char>, Seq<char>)) -> Seq<u8> {
    enc_str(pv.0) + enc_str(pv.1)
}

/// Whether both members of a pair fit.
pub open spec fn pair_ok(pv: (Seq<char>, Seq<char>)) -> bool {
    str_ok(pv.0) && str_ok(pv.1)
}

/// The mirrored decoder for a pair of strings.
pub open spec fn dec_pair(b: Seq<u8>, p: int) -> Option<((Seq<char>, Seq<char>), int)> {
    match dec_str(b, p) {
        None => None,
        Some((a, q)) => match dec_str(b, q) {
            None => None,
            Some((c, e)) => Some(((a, c), e)),
        },
    }
}

/// Decoding inverts pair encoding.
pub proof fn lemma_dec_pair_round(b: Seq<u8>, p: int, pv: (Seq<char>, Seq<char>))
    requires
        starts_with(b, p, enc_pair(pv)),
        pair_ok(pv),
    ensures
        dec_pair(b, p) == Some((pv, p + enc_pair(pv).len() as int)),
{
    lemma_starts_with_concat(b, p, enc_str(pv.0), enc_str(pv.1));
    lemma_dec_str_round(b, p, pv.0);
    lemma_dec_str_round(b, p + enc_str(pv.0).len(), pv.1);
}

/// The concatenated encodings of a list of pairs.
pub open spec fn enc_pair_list(xs: Seq<(Seq<char>, Seq<char>)>) -> Seq<u8>
    decreases xs.len(),
{
    if xs.len() == 0 {
        Seq::empty()
    } else {
        enc_pair(xs.first()) + enc_pair_list(xs.drop_first())
    }
}

/// The encoding of a pair vector: count, then elements.
pub open spec fn enc_pairs(xs: Seq<(Seq<char>, Seq<char>)>) -> Seq<u8> {
    enc_le(xs.len(), 8) + enc_pair_list(xs)
}

/// Whether every pair of the vector fits.
pub open spec fn pairs_ok(xs: Seq<(Seq<char>, Seq<char>)>) -> bool {
    fits_len(xs.len()) && forall|i: int| 0 <= i < xs.len() ==> pair_ok(#[trigger] xs[i])
}

/// The mirrored decoder for `cnt` pairs.
pub open spec fn dec_pair_list(b: Seq<u8>, p: int, cnt: nat) -> Option<(
    Seq<(Seq<char>, Seq<char>)>,
    int,
)>
    decreases cnt,
{
    if cnt == 0 {
        Some((Seq::empty(), p))
    } else {
        match dec_pair(b, p) {
            None => None,
            Some((pv, q)) => match dec_pair_list(b, q, (cnt - 1) as nat) {
                None => None,
                Some((rest, e)) => Some((seq![pv] + rest, e)),
            },
        }
    }
}

/// The mirrored decoder for a pair vector.
pub open spec fn dec_pairs(b: Seq<u8>, p: int) -> Option<(Seq<(Seq<char>, Seq<char>)>, int)> {
    match dec_len(b, p, 8) {
        None => None,
        Some((c, q)) => dec_pair_list(b, q, c),
    }
}

/// Decoding inverts pair-list encoding.
pub proof fn lemma_dec_pair_list_round(b: Seq<u8>, p: int, xs: Seq<(Seq<char>, Seq<char>)>)
    requires
        starts_with(b, p, enc_pair_list(xs)),
        forall|i: int| 0 <= i < xs.len() ==> pair_ok(#[trigger] xs[i]),
    ensures
        dec_pair_list(b, p, xs.len()) == Some((xs, p + enc_pair_list(xs).len() as int)),
    decreases xs.len(),
{
    if xs.len() > 0 {
        lemma_starts_with_concat(b, p, enc_pair(xs.first()), enc_pair_list(xs.drop_first()));
        assert(xs[0] == xs.first());
        lemma_dec_pair_round(b, p, xs.first());
        lemma_dec_pair_list_round(b, p + enc_pair(xs.first()).len(), xs.drop_first());
        assert(seq![xs.first()] + xs.drop_first() =~= xs);
    }
}

/// Decoding inverts pair-vector encoding.
pub proof fn lemma_dec_pairs_round(b: Seq<u8>, p: int, xs: Seq<(Seq<char>, Seq<char>)>)
    requires
        starts_with(b, p, enc_pairs(xs)),
        pairs_ok(xs),
    ensures
        dec_pairs(b, p) == Some((xs, p + enc_pairs(xs).len() as int)),
{
    lemma_starts_with_concat(b, p, enc_le(xs.len(), 8), enc_pair_list(xs));
    lemma_dec_len_round(b, p, xs.len(), 8);
    lemma_enc_le_len(xs.len(), 8);
    lemma_dec_pair_list_round(b, p + 8, xs);
}

/// Appending one pair extends the list encoding at the end.
pub proof fn lemma_enc_pair_list_snoc(xs: Seq<(Seq<char>, Seq<char>)>, x: (Seq<char>, Seq<char>))
    ensures
        enc_pair_list(xs.push(x)) == enc_pair_list(xs) + enc_pair(x),
    decreases xs.len(),
{
    if xs.len() == 0 {
        assert(xs.push(x).len() == 1);
        assert(xs.push(x).first() == x);
        assert(xs.push(x).drop_first() =~= Seq::<(Seq<char>, Seq<char>)>::empty());
        assert(enc_pair_list(xs.push(x).drop_first()) =~= Seq::<u8>::empty());
        assert(enc_pair_list(xs.push(x)) =~= enc_pair(x) + Seq::<u8>::empty());
        assert(enc_pair_list(xs.push(x)) =~= enc_pair_list(xs) + enc_pair(x));
    } else {
        assert(xs.push(x).drop_first() =~= xs.drop_first().push(x));
        assert(xs.push(x).first() == xs.first());
        lemma_enc_pair_list_snoc(xs.drop_first(), x);
        assert(enc_pair_list(xs.push(x)) =~= enc_pair(xs.first()) + (enc_pair_list(
            xs.drop_first(),
        ) + enc_pair(x)));
        assert(enc_pair_list(xs) + enc_pair(x) =~= enc_pair(xs.first()) + (enc_pair_list(
            xs.drop_first(),
        ) + enc_pair(x)));
    }
}

/// The views of a vector of string pairs.
pub open spec fn pairs_view(xs: Seq<(String, String)>) -> Seq<(Seq<char>, Seq<char>)> {
    xs.map_values(|pr: (String, String)| (pr.0@, pr.1@))
}

/// Appends the encoding of a vector of string pairs.
pub fn write_pairs(out: &mut Vec<u8>, xs: &Vec<(String, String)>)
    ensures
        final(out)@ == old(out)@ + enc_pairs(pairs_view(xs@)),
        pairs_ok(pairs_view(xs@)),
{
    proof {
        crate::codec::lemma_pow256_8();
        assert(pairs_view(xs@).len() == xs@.len());
    }
    write_le(out, xs.len() as u128, 8);
    let ghost mid = out@;
    let mut i: usize = 0;
    while i < xs.len()
        invariant
            i <= xs@.len(),
            out@ == mid + enc_pair_list(pairs_view(xs@).take(i as int)),
            forall|j: int| 0 <= j < i ==> pair_ok(#[trigger] pairs_view(xs@)[j]),
        decreases xs@.len() - i,
    {
        write_str(out, xs[i].0.as_str());
        write_str(out, xs[i].1.as_str());
        proof {
            lemma_enc_pair_list_snoc(
                pairs_view(xs@).take(i as int),
                (xs@[i as int].0@, xs@[i as int].1@),
            );
            assert(pairs_view(xs@).take(i + 1) =~= pairs_view(xs@).take(i as int).push(
                (xs@[i as int].0@, xs@[i as int].1@),
            ));
            assert(out@ =~= mid + enc_pair_list(pairs_view(xs@).take(i + 1)));
        }
        i = i + 1;
    }
    proof {
        assert(pairs_view(xs@).take(xs@.len() as int) =~= pairs_view(xs@));
    }
}

/// Reads a vector of string pairs.
pub fn read_pairs(buf: &Vec<u8>, pos: usize) -> (r: Option<(Vec<(String, String)>, usize)>)
    ensures
        r is None <==> dec_pairs(buf@, pos as int) is None,
        r matches Some(p) ==> (dec_pairs(buf@, pos as int) matches Some(q) && pairs_view(p.0@)
            == q.0 && p.1 as int == q.1),
{
    let (cnt128, q0) = match read_le(buf, pos, 8) {
        Some(v) => v,
        None => {
            return None;
        },
    };
    proof {
        crate::codec::lemma_pow256_8();
        lemma_enc_le_len(cnt128 as nat, 8);
        assert(dec_len(buf@, pos as int, 8) == Some((cnt128 as nat, q0 as int)));
    }
    let cnt = cnt128 as u64;
    let ghost cntn = cnt128 as nat;
    let mut acc: Vec<(String, String)> = Vec::new();
    let mut q = q0;
    let mut i: u64 = 0;
    while i < cnt
        invariant
            cntn == cnt,
            i <= cnt,
            acc@.len() == i,
            dec_pairs(buf@, pos as int) == dec_pair_list(buf@, q0 as int, cntn),
            dec_pair_list(buf@, q0 as int, cntn) == (match dec_pair_list(
                buf@,
                q as int,
                (cntn - i) as nat,
            ) {
                None => None::<(Seq<(Seq<char>, Seq<char>)>, int)>,
                Some((tail, e)) => Some((pairs_view(acc@) + tail, e)),
            }),
        decreases cnt - i,
    {
        let ghost qq = q as int;
        let ghost acc0 = pairs_view(acc@);
        let ghost remaining = (cntn - i) as nat;
        let (a, q1) = match read_str(buf, q) {
            Some(v) => v,
            None => {
                proof {
                    assert(dec_pair(buf@, qq) is None);
                    assert(dec_pair_list(buf@, qq, remaining) is None);
                }
                return None;
            },
        };
        let (c, q2) = match read_str(buf, q1) {
            Some(v) => v,
            None => {
                proof {
                    assert(dec_pair(buf@, qq) is None);
                    assert(dec_pair_list(buf@, qq, remaining) is None);
                }
                return None;
            },
        };
        let ghost pv = (a@, c@);
        acc.push((a, c));
        q = q2;
        i = i + 1;
        proof {
            assert(dec_pair(buf@, qq) == Some((pv, q as int)));
            assert(pairs_view(acc@) =~= acc0.push(pv));
            assert(dec_pair_list(buf@, qq, remaining) == (match dec_pair_list(
                buf@,
                q as int,
                (remaining - 1) as nat,
            ) {
                None => None::<(Seq<(Seq<char>, Seq<char>)>, int)>,
                Some((rest, e)) => Some((seq![pv] + rest, e)),
            }));
            let dd = dec_pair_list(buf@, q as int, (remaining - 1) as nat);
            match dd {
                Some(pr) => {
                    assert(acc0 + (seq![pv] + pr.0) =~= pairs_view(acc@) + pr.0);
                },
                None => {},
            }
        }
    }
    proof {
        assert(dec_pair_list(buf@, q as int, 0) == Some(
            (Seq::<(Seq<char>, Seq<char>)>::empty(), q as int),
        ));
        assert(pairs_view(acc@) + Seq::<(Seq<char>, Seq<char>)>::empty() =~= pairs_view(acc@));
    }
    Some((acc, q))
}

// === Small enumerations and signed integers ================================

/// The tag byte of a workflow strategy.
pub open spec fn ws_tag(w: WorkflowStrategy) -> nat {
    match w {
        WorkflowStrategy::Sequential => 0,
        WorkflowStrategy::Parallel => 1,
        WorkflowStrategy::DAG => 2,
    }
}

/// The encoding of a workflow strategy.
pub open spec fn enc_ws(w: WorkflowStrategy) -> Seq<u8> {
    enc_le(ws_tag(w), 1)
}

/// The mirrored decoder for a workflow strategy.
pub open spec fn dec_ws(b: Seq<u8>, p: int) -> Option<(WorkflowStrategy, int)> {
    match dec_len(b, p, 1) {
        None => None,
        Some((t, q)) => {
            if t == 0 {
                Some((WorkflowStrategy::Sequential, q))
            } else if t == 1 {
                Some((WorkflowStrategy::Parallel, q))
            } else if t == 2 {
                Some((WorkflowStrategy::DAG, q))
            } else {
                None
            }
        },
    }
}

/// Decoding inverts strategy encoding.
pub proof fn lemma_dec_ws_round(b: Seq<u8>, p: int, w: WorkflowStrategy)
    requires
        starts_with(b, p, enc_ws(w)),
    ensures
        dec_ws(b, p) == Some((w, p + 1)),
{
    crate::codec::lemma_pow256_1();
    lemma_dec_len_round(b, p, ws_tag(w), 1);
    lemma_enc_le_len(ws_tag(w), 1);
}

/// Appends the encoding of a workflow strategy.
pub fn write_ws(out: &mut Vec<u8>, w: &WorkflowStrategy)
    ensures
        final(out)@ == old(out)@ + enc_ws(*w),
{
    let t: u8 = match w {
        WorkflowStrategy::Sequential => 0,
        WorkflowStrategy::Parallel => 1,
        WorkflowStrategy::DAG => 2,
    };
    write_u8(out, t);
}

/// Reads a workflow strategy.
pub fn read_ws(buf: &Vec<u8>, pos: usize) -> (r: Option<(WorkflowStrategy, usize)>)
    ensures
        r is None <==> dec_ws(buf@, pos as int) is None,
        r matches Some(p) ==> (dec_ws(buf@, pos as int) matches Some(q) && p.0 == q.0 && p.1
            as int == q.1),
{
    let (t, q) = match read_u8(buf, pos) {
        Some(v) => v,
        None => {
            return None;
        },
    };
    if t == 0 {
        Some((WorkflowStrategy::Sequential, q))
    } else if t == 1 {
        Some((WorkflowStrategy::Parallel, q))
    } else if t == 2 {
        Some((WorkflowStrategy::DAG, q))
    } else {
        None
    }
}

/// The tag byte of a dependency kind.
pub open spec fn dt_tag(d: DependencyType) -> nat {
    match d {
        DependencyType::Hard => 0,
        DependencyType::Soft => 1,
        DependencyType::Resource => 2,
        DependencyType::Data => 3,
    }
}

/// The encoding of a dependency kind.
pub open spec fn enc_dt(d: DependencyType) -> Seq<u8> {
    enc_le(dt_tag(d), 1)
}

/// The mirrored decoder for a dependency kind.
pub open spec fn dec_dt(b: Seq<u8>, p: int) -> Option<(DependencyType, int)> {
    match dec_len(b, p, 1) {
        None => None,
        Some((t, q)) => {
            if t == 0 {
                Some((DependencyType::Hard, q))
            } else if t == 1 {
                Some((DependencyType::Soft, q))
            } else if t == 2 {
                Some((DependencyType::Resource, q))
            } else if t == 3 {
                Some((DependencyType::Data, q))
            } else {
                None
            }
        },
    }
}

/// Decoding inverts dependency-kind encoding.
pub proof fn lemma_dec_dt_round(b: Seq<u8>, p: int, d: DependencyType)
    requires
        starts_with(b, p, enc_dt(d)),
    ensures
        dec_dt(b, p) == Some((d, p + 1)),
{
    crate::codec::lemma_pow256_1();
    lemma_dec_len_round(b, p, dt_tag(d), 1);
    lemma_enc_le_len(dt_tag(d), 1);
}

/// Appends the encoding of a dependency kind.
pub fn write_dt(out: &mut Vec<u8>, d: &DependencyType)
    ensures
        final(out)@ == old(out)@ + enc_dt(*d),
{
    let t: u8 = match d {
        DependencyType::Hard => 0,
        DependencyType::Soft => 1,
        DependencyType::Resource => 2,
        DependencyType::Data => 3,
    };
    write_u8(out, t);
}

/// Reads a dependency kind.
pub fn read_dt(buf: &Vec<u8>, pos: usize) -> (r: Option<(DependencyType, usize)>)
    ensures
        r is None <==> dec_dt(buf@, pos as int) is None,
        r matches Some(p) ==> (dec_dt(buf@, pos as int) matches Some(q) && p.0 == q.0 && p.1
            as int == q.1),
{
    let (t, q) = match read_u8(buf, pos) {
        Some(v) => v,
        None => {
            return None;
        },
    };
    if t == 0 {
        Some((DependencyType::Hard, q))
    } else if t == 1 {
        Some((DependencyType::Soft, q))
    } else if t == 2 {
        Some((DependencyType::Resource, q))
    } else if t == 3 {
        Some((DependencyType::Data, q))
    } else {
        None
    }
}

/// The tag byte of an error class.
pub open spec fn ec_tag(c: ErrorClass) -> nat {
    match c {
        ErrorClass::Validation => 0,
        ErrorClass::Runtime => 1,
        ErrorClass::External => 2,
        ErrorClass::Timeout => 3,
        ErrorClass::Cancel => 4,
        ErrorClass::Persist => 5,
        ErrorClass::Fatal => 6,
    }
}

/// The encoding of an error class.
pub open spec fn enc_ec(c: ErrorClass) -> Seq<u8> {
    enc_le(ec_tag(c), 1)
}

/// The mirrored decoder for an error class.
pub open spec fn dec_ec(b: Seq<u8>, p: int) -> Option<(ErrorClass, int)> {
    match dec_len(b, p, 1) {
        None => None,
        Some((t, q)) => {
            if t == 0 {
                Some((ErrorClass::Validation, q))
            } else if t == 1 {
                Some((ErrorClass::Runtime, q))
            } else if t == 2 {
                Some((ErrorClass::External, q))
            } else if t == 3 {
                Some((ErrorClass::Timeout, q))
            } else if t == 4 {
                Some((ErrorClass::Cancel, q))
            } else if t == 5 {
                Some((ErrorClass::Persist, q))
            } else if t == 6 {
                Some((ErrorClass::Fatal, q))
            } else {
                None
            }
        },
    }
}

/// Decoding inverts error-class encoding.
pub proof fn lemma_dec_ec_round(b: Seq<u8>, p: int, c: ErrorClass)
    requires
        starts_with(b, p, enc_ec(c)),
    ensures
        dec_ec(b, p) == Some((c, p + 1)),
{
    crate::codec::lemma_pow256_1();
    lemma_dec_len_round(b, p, ec_tag(c), 1);
    lemma_enc_le_len(ec_tag(c), 1);
}

/// Appends the encoding of an error class.
pub fn write_ec(out: &mut Vec<u8>, c: &ErrorClass)
    ensures
        final(out)@ == old(out)@ + enc_ec(*c),
{
    let t: u8 = match c {
        ErrorClass::Validation => 0,
        ErrorClass::Runtime => 1,
        ErrorClass::External => 2,
        ErrorClass::Timeout => 3,
        ErrorClass::Cancel => 4,
        ErrorClass::Persist => 5,
        ErrorClass::Fatal => 6,
    };
    write_u8(out, t);
}

/// Reads an error class.
pub fn read_ec(buf: &Vec<u8>, pos: usize) -> (r: Option<(ErrorClass, usize)>)
    ensures
        r is None <==> dec_ec(buf@, pos as int) is None,
        r matches Some(p) ==> (dec_ec(buf@, pos as int) matches Some(q) && p.0 == q.0 && p.1
            as int == q.1),
{
    let (t, q) = match read_u8(buf, pos) {
        Some(v) => v,
        None => {
            return None;
        },
    };
    if t == 0 {
        Some((ErrorClass::Validation, q))
    } else if t == 1 {
        Some((ErrorClass::Runtime, q))
    } else if t == 2 {
        Some((ErrorClass::External, q))
    } else if t == 3 {
        Some((ErrorClass::Timeout, q))
    } else if t == 4 {
        Some((ErrorClass::Cancel, q))
    } else if t == 5 {
        Some((ErrorClass::Persist, q))
    } else if t == 6 {
        Some((ErrorClass::Fatal, q))
    } else {
        None
    }
}

/// The unsigned 32-bit pattern of a signed value, two's complement.
pub open spec fn i32_bits(v: i32) -> nat {
    if v >= 0 {
        v as nat
    } else {
        (v + 0x1_0000_0000) as nat
    }
}

/// The signed value of an unsigned 32-bit pattern.
pub open spec fn bits_i32(n: nat) -> int {
    if n < 0x8000_0000 {
        n as int
    } else {
        n - 0x1_0000_0000
    }
}

/// The encoding of a signed 32-bit value.
pub open spec fn enc_i32(v: i32) -> Seq<u8> {
    enc_le(i32_bits(v), 4)
}

/// The mirrored decoder for a signed 32-bit value.
pub open spec fn dec_i32(b: Seq<u8>, p: int) -> Option<(int, int)> {
    match dec_len(b, p, 4) {
        None => None,
        Some((n, q)) => Some((bits_i32(n), q)),
    }
}

/// Decoding inverts signed encoding.
pub proof fn lemma_dec_i32_round(b: Seq<u8>, p: int, v: i32)
    requires
        starts_with(b, p, enc_i32(v)),
    ensures
        dec_i32(b, p) == Some((v as int, p + 4)),
{
    crate::codec::lemma_pow256_4();
    lemma_dec_len_round(b, p, i32_bits(v), 4);
    lemma_enc_le_len(i32_bits(v), 4);
}

/// Appends the encoding of a signed 32-bit value.
pub fn write_i32(out: &mut Vec<u8>, v: i32)
    ensures
        final(out)@ == old(out)@ + enc_i32(v),
{
    let bits: u32 = if v >= 0 {
        v as u32
    } else {
        let w: i64 = v as i64 + 0x1_0000_0000;
        w as u32
    };
    proof {
        assert(bits as nat == i32_bits(v));
    }
    write_u32(out, bits);
}

/// Reads a signed 32-bit value.
pub fn read_i32(buf: &Vec<u8>, pos: usize) -> (r: Option<(i32, usize)>)
    ensures
        r is None <==> dec_i32(buf@, pos as int) is None,
        r matches Some(p) ==> (dec_i32(buf@, pos as int) matches Some(q) && p.0 as int == q.0
            && p.1 as int == q.1),
{
    let (bits, q) = match read_u32(buf, pos) {
        Some(v) => v,
        None => {
            return None;
        },
    };
    let v: i32 = if bits < 0x8000_0000 {
        bits as i32
    } else {
        let w: i64 = bits as i64 - 0x1_0000_0000;
        w as i32
    };
    Some((v, q))
}

// === Metrics and results ===================================================

/// The encoding of execution metrics.
pub open spec fn enc_metrics(m: ExecutionMetrics) -> Seq<u8> {
    enc_le(m.execution_time_ms as nat, 8) + enc_le(m.cpu_permille as nat, 4) + enc_le(
        m.memory_usage as nat,
        8,
    ) + enc_le(m.network_read as nat, 8) + enc_le(m.network_write as nat, 8) + enc_le(
        m.disk_read as nat,
        8,
    ) + enc_le(m.disk_write as nat, 8)
}

/// The mirrored decoder for execution metrics.
pub open spec fn dec_metrics(b: Seq<u8>, p: int) -> Option<(ExecutionMetrics, int)> {
    match dec_len(b, p, 8) {
        None => None,
        Some((t, p1)) => match dec_len(b, p1, 4) {
            None => None,
            Some((c, p2)) => match dec_len(b, p2, 8) {
                None => None,
                Some((m, p3)) => match dec_len(b, p3, 8) {
                    None => None,
                    Some((nr, p4)) => match dec_len(b, p4, 8) {
                        None => None,
                        Some((nw, p5)) => match dec_len(b, p5, 8) {
                            None => None,
                            Some((dr, p6)) => match dec_len(b, p6, 8) {
                                None => None,
                                Some((dw, p7)) => Some(
                                    (
                                        ExecutionMetrics {
                                            execution_time_ms: t as u64,
                                            cpu_permille: c as u32,
                                            memory_usage: m as u64,
                                            network_read: nr as u64,
                                            network_write: nw as u64,
                                            disk_read: dr as u64,
                                            disk_write: dw as u64,
                                        },
                                        p7,
                                    ),
                                ),
                            },
                        },
                    },
                },
            },
        },
    }
}

/// Decoding inverts metrics encoding.
pub proof fn lemma_dec_metrics_round(b: Seq<u8>, p: int, m: ExecutionMetrics)
    requires
        starts_with(b, p, enc_metrics(m)),
    ensures
        dec_metrics(b, p) == Some((m, p + enc_metrics(m).len() as int)),
{
    crate::codec::lemma_pow256_8();
    crate::codec::lemma_pow256_4();
    let e1 = enc_le(m.execution_time_ms as nat, 8);
    let e2 = enc_le(m.cpu_permille as nat, 4);
    let e3 = enc_le(m.memory_usage as nat, 8);
    let e4 = enc_le(m.network_read as nat, 8);
    let e5 = enc_le(m.network_write as nat, 8);
    let e6 = enc_le(m.disk_read as nat, 8);
    let e7 = enc_le(m.disk_write as nat, 8);
    lemma_enc_le_len(m.execution_time_ms as nat, 8);
    lemma_enc_le_len(m.cpu_permille as nat, 4);
    lemma_enc_le_len(m.memory_usage as nat, 8);
    lemma_enc_le_len(m.network_read as nat, 8);
    lemma_enc_le_len(m.network_write as nat, 8);
    lemma_enc_le_len(m.disk_read as nat, 8);
    lemma_enc_le_len(m.disk_write as nat, 8);
    assert(enc_metrics(m) =~= e1 + (e2 + (e3 + (e4 + (e5 + (e6 + e7))))));
    lemma_starts_with_concat(b, p, e1, e2 + (e3 + (e4 + (e5 + (e6 + e7)))));
    lemma_dec_len_round(b, p, m.execution_time_ms as nat, 8);
    lemma_starts_with_concat(b, p + 8, e2, e3 + (e4 + (e5 + (e6 + e7))));
    lemma_dec_len_round(b, p + 8, m.cpu_permille as nat, 4);
    lemma_starts_with_concat(b, p + 12, e3, e4 + (e5 + (e6 + e7)));
    lemma_dec_len_round(b, p + 12, m.memory_usage as nat, 8);
    lemma_starts_with_concat(b, p + 20, e4, e5 + (e6 + e7));
    lemma_dec_len_round(b, p + 20, m.network_read as nat, 8);
    lemma_starts_with_concat(b, p + 28, e5, e6 + e7);
    lemma_dec_len_round(b, p + 28, m.network_write as nat, 8);
    lemma_starts_with_concat(b, p + 36, e6, e7);
    lemma_dec_len_round(b, p + 36, m.disk_read as nat, 8);
    lemma_dec_len_round(b, p + 44, m.disk_write as nat, 8);
}

/// Appends the encoding of execution metrics.
pub fn write_metrics(out: &mut Vec<u8>, m: &ExecutionMetrics)
    ensures
        final(out)@ == old(out)@ + enc_metrics(*m),
{
    write_u64(out, m.execution_time_ms);
    write_u32(out, m.cpu_permille);
    write_u64(out, m.memory_usage);
    write_u64(out, m.network_read);
    write_u64(out, m.network_write);
    write_u64(out, m.disk_read);
    write_u64(out, m.disk_write);
    proof {
        assert(final(out)@ =~= old(out)@ + enc_metrics(*m));
    }
}

/// Reads execution metrics.
pub fn read_metrics(buf: &Vec<u8>, pos: usize) -> (r: Option<(ExecutionMetrics, usize)>)
    ensures
        r is None <==> dec_metrics(buf@, pos as int) is None,
        r matches Some(p) ==> (dec_metrics(buf@, pos as int) matches Some(q) && p.0 == q.0 && p.1
            as int == q.1),
{
    let (t, p1) = match read_u64(buf, pos) {
        Some(v) => v,
        None => {
            return None;
        },
    };
    let (c, p2) = match read_u32(buf, p1) {
        Some(v) => v,
        None => {
            return None;
        },
    };
    let (m, p3) = match read_u64(buf, p2) {
        Some(v) => v,
        None => {
            return None;
        },
    };
    let (nr, p4) = match read_u64(buf, p3) {
        Some(v) => v,
        None => {
            return None;
        },
    };
    let (nw, p5) = match read_u64(buf, p4) {
        Some(v) => v,
        None => {
            return None;
        },
    };
    let (dr, p6) = match read_u64(buf, p5) {
        Some(v) => v,
        None => {
            return None;
        },
    };
    let (dw, p7) = match read_u64(buf, p6) {
        Some(v) => v,
        None => {
            return None;
        },
    };
    Some(
        (
            ExecutionMetrics {
                execution_time_ms: t,
                cpu_permille: c,
                memory_usage: m,
                network_read: nr,
                network_write: nw,
                disk_read: dr,
                disk_write: dw,
            },
            p7,
        ),
    )
}

// === Task results and statuses =============================================

/// The observable content of a task result.
pub struct TaskResultView {
    pub exit_code: int,
    pub stdout: Seq<char>,
    pub stderr: Seq<char>,
    pub output_data: Option<Seq<char>>,
    pub metrics: ExecutionMetrics,
}

/// The view of a task result.
pub open spec fn result_view(r: TaskResult) -> TaskResultView {
    TaskResultView {
        exit_code: r.exit_code as int,
        stdout: r.stdout@,
        stderr: r.stderr@,
        output_data: match r.output_data {
            Some(s) => Some(s@),
            None => None,
        },
        metrics: r.metrics,
    }
}

/// Whether a result view fits the wire format.
pub open spec fn result_ok(rv: TaskResultView) -> bool {
    &&& -0x8000_0000 <= rv.exit_code < 0x8000_0000
    &&& str_ok(rv.stdout)
    &&& str_ok(rv.stderr)
    &&& (rv.output_data matches Some(sv) ==> str_ok(sv))
}

/// The encoding of a task result.
pub open spec fn enc_result(rv: TaskResultView) -> Seq<u8> {
    enc_le(i32_bits(rv.exit_code as i32), 4) + enc_str(rv.stdout) + enc_str(rv.stderr)
        + enc_opt_str(rv.output_data) + enc_metrics(rv.metrics)
}

/// The mirrored decoder for a task result.
pub open spec fn dec_result(b: Seq<u8>, p: int) -> Option<(TaskResultView, int)> {
    match dec_i32(b, p) {
        None => None,
        Some((x, p1)) => match dec_str(b, p1) {
            None => None,
            Some((so, p2)) => match dec_str(b, p2) {
                None => None,
                Some((se, p3)) => match dec_opt_str(b, p3) {
                    None => None,
                    Some((od, p4)) => match dec_metrics(b, p4) {
                        None => None,
                        Some((m, p5)) => Some(
                            (
                                TaskResultView {
                                    exit_code: x,
                                    stdout: so,
                                    stderr: se,
                                    output_data: od,
                                    metrics: m,
                                },
                                p5,
                            ),
                        ),
                    },
                },
            },
        },
    }
}

/// Decoding inverts result encoding.
#[verifier::rlimit(100)]
pub proof fn lemma_dec_result_round(b: Seq<u8>, p: int, rv: TaskResultView)
    requires
        starts_with(b, p, enc_result(rv)),
        result_ok(rv),
    ensures
        dec_result(b, p) == Some((rv, p + enc_result(rv).len() as int)),
{
    let e1 = enc_le(i32_bits(rv.exit_code as i32), 4);
    let e2 = enc_str(rv.stdout);
    let e3 = enc_str(rv.stderr);
    let e4 = enc_opt_str(rv.output_data);
    let e5 = enc_metrics(rv.metrics);
    assert(enc_result(rv) =~= e1 + (e2 + (e3 + (e4 + e5))));
    lemma_starts_with_concat(b, p, e1, e2 + (e3 + (e4 + e5)));
    lemma_dec_i32_round(b, p, rv.exit_code as i32);
    lemma_enc_le_len(i32_bits(rv.exit_code as i32), 4);
    let p1 = p + 4;
    lemma_starts_with_concat(b, p1, e2, e3 + (e4 + e5));
    lemma_dec_str_round(b, p1, rv.stdout);
    let p2 = p1 + e2.len();
    lemma_starts_with_concat(b, p2, e3, e4 + e5);
    lemma_dec_str_round(b, p2, rv.stderr);
    let p3 = p2 + e3.len();
    lemma_starts_with_concat(b, p3, e4, e5);
    lemma_dec_opt_str_round(b, p3, rv.output_data);
    let p4 = p3 + e4.len();
    lemma_dec_metrics_round(b, p4, rv.metrics);
}

/// Appends the encoding of a task result.
pub fn write_result(out: &mut Vec<u8>, r: &TaskResult)
    ensures
        final(out)@ == old(out)@ + enc_result(result_view(*r)),
        result_ok(result_view(*r)),
{
    write_i32(out, r.exit_code);
    write_str(out, r.stdout.as_str());
    write_str(out, r.stderr.as_str());
    write_opt_str(out, &r.output_data);
    write_metrics(out, &r.metrics);
    proof {
        assert(final(out)@ =~= old(out)@ + enc_result(result_view(*r)));
    }
}

/// Reads a task result.
pub fn read_result(buf: &Vec<u8>, pos: usize) -> (r: Option<(TaskResult, usize)>)
    ensures
        r is None <==> dec_result(buf@, pos as int) is None,
        r matches Some(p) ==> (dec_result(buf@, pos as int) matches Some(q) && result_view(p.0)
            == q.0 && p.1 as int == q.1),
{
    let (x, p1) = match read_i32(buf, pos) {
        Some(v) => v,
        None => {
            return None;
        },
    };
    let (so, p2) = match read_str(buf, p1) {
        Some(v) => v,
        None => {
            return None;
        },
    };
    let (se, p3) = match read_str(buf, p2) {
        Some(v) => v,
        None => {
            return None;
        },
    };
    let (od, p4) = match read_opt_str(buf, p3) {
        Some(v) => v,
        None => {
            return None;
        },
    };
    let (m, p5) = match read_metrics(buf, p4) {
        Some(v) => v,
        None => {
            return None;
        },
    };
    Some(
        (
            TaskResult { exit_code: x, stdout: so, stderr: se, output_data: od, metrics: m },
            p5,
        ),
    )
}

/// The observable content of a task status.
pub enum StatusView {
    Pending,
    Ready,
    Running { worker: u64, started_at_ms: u64 },
    Completed { started_at_ms: u64, completed_at_ms: u64, result: TaskResultView },
    Failed { error: Seq<char>, class: ErrorClass, attempt: u32, failed_at_ms: u64 },
    Cancelled { reason: Seq<char>, cancelled_at_ms: u64 },
    Paused { reason: Seq<char>, paused_at_ms: u64 },
}

/// The view of a task status.
pub open spec fn status_view(s: TaskStatus) -> StatusView {
    match s {
        TaskStatus::Pending => StatusView::Pending,
        TaskStatus::Ready => StatusView::Ready,
        TaskStatus::Running { worker, started_at_ms } => StatusView::Running {
            worker,
            started_at_ms,
        },
        TaskStatus::Completed { started_at_ms, completed_at_ms, result } => StatusView::Completed {
            started_at_ms,
            completed_at_ms,
            result: result_view(result),
        },
        TaskStatus::Failed { error, class, attempt, failed_at_ms } => StatusView::Failed {
            error: error@,
            class,
            attempt,
            failed_at_ms,
        },
        TaskStatus::Cancelled { reason, cancelled_at_ms } => StatusView::Cancelled {
            reason: reason@,
            cancelled_at_ms,
        },
        TaskStatus::Paused { reason, paused_at_ms } => StatusView::Paused {
            reason: reason@,
            paused_at_ms,
        },
    }
}

/// Whether a status view fits the wire format.
pub open spec fn status_ok(sv: StatusView) -> bool {
    match sv {
        StatusView::Completed { result, .. } => result_ok(result),
        StatusView::Failed { error, .. } => str_ok(error),
        StatusView::Cancelled { reason, .. } => str_ok(reason),
        StatusView::Paused { reason, .. } => str_ok(reason),
        _ => true,
    }
}

/// The encoding of a task status.
pub open spec fn enc_status(sv: StatusView) -> Seq<u8> {
    match sv {
        StatusView::Pending => enc_le(0, 1),
        StatusView::Ready => enc_le(1, 1),
        StatusView::Running { worker, started_at_ms } => enc_le(2, 1) + enc_le(worker as nat, 8)
            + enc_le(started_at_ms as nat, 8),
        StatusView::Completed { started_at_ms, completed_at_ms, result } => enc_le(3, 1) + enc_le(
            started_at_ms as nat,
            8,
        ) + enc_le(completed_at_ms as nat, 8) + enc_result(result),
        StatusView::Failed { error, class, attempt, failed_at_ms } => enc_le(4, 1) + enc_str(error)
            + enc_ec(class) + enc_le(attempt as nat, 4) + enc_le(failed_at_ms as nat, 8),
        StatusView::Cancelled { reason, cancelled_at_ms } => enc_le(5, 1) + enc_str(reason)
            + enc_le(cancelled_at_ms as nat, 8),
        StatusView::Paused { reason, paused_at_ms } => enc_le(6, 1) + enc_str(reason) + enc_le(
            paused_at_ms as nat,
            8,
        ),
    }
}

/// The mirrored decoder for a task status.
pub open spec fn dec_status(b: Seq<u8>, p: int) -> Option<(StatusView, int)> {
    match dec_len(b, p, 1) {
        None => None,
        Some((t, q)) => {
            if t == 0 {
                Some((StatusView::Pending, q))
            } else if t == 1 {
                Some((StatusView::Ready, q))
            } else if t == 2 {
                match dec_len(b, q, 8) {
                    None => None,
                    Some((w, q1)) => match dec_len(b, q1, 8) {
                        None => None,
                        Some((st, q2)) => Some(
                            (
                                StatusView::Running {
                                    worker: w as u64,
                                    started_at_ms: st as u64,
                                },
                                q2,
                            ),
                        ),
                    },
                }
            } else if t == 3 {
                match dec_len(b, q, 8) {
                    None => None,
                    Some((st, q1)) => match dec_len(b, q1, 8) {
                        None => None,
                        Some((ct, q2)) => match dec_result(b, q2) {
                            None => None,
                            Some((res, q3)) => Some(
                                (
                                    StatusView::Completed {
                                        started_at_ms: st as u64,
                                        completed_at_ms: ct as u64,
                                        result: res,
                                    },
                                    q3,
                                ),
                            ),
                        },
                    },
                }
            } else if t == 4 {
                match dec_str(b, q) {
                    None => None,
                    Some((er, q1)) => match dec_ec(b, q1) {
                        None => None,
                        Some((cl, q2)) => match dec_len(b, q2, 4) {
                            None => None,
                            Some((at, q3)) => match dec_len(b, q3, 8) {
                                None => None,
                                Some((ft, q4)) => Some(
                                    (
                                        StatusView::Failed {
                                            error: er,
                                            class: cl,
                                            attempt: at as u32,
                                            failed_at_ms: ft as u64,
                                        },
                                        q4,
                                    ),
                                ),
                            },
                        },
                    },
                }
            } else if t == 5 {
                match dec_str(b, q) {
                    None => None,
                    Some((re, q1)) => match dec_len(b, q1, 8) {
                        None => None,
                        Some((ct, q2)) => Some(
                            (
                                StatusView::Cancelled {
                                    reason: re,
                                    cancelled_at_ms: ct as u64,
                                },
                                q2,
                            ),
                        ),
                    },
                }
            } else if t == 6 {
                match dec_str(b, q) {
                    None => None,
                    Some((re, q1)) => match dec_len(b, q1, 8) {
                        None => None,
                        Some((pt, q2)) => Some(
                            (
                                StatusView::Paused {
                                    reason: re,
                                    paused_at_ms: pt as u64,
                                },
                                q2,
                            ),
                        ),
                    },
                }
            } else {
                None
            }
        },
    }
}

/// Decoding inverts status encoding: the running case.
proof fn lemma_dec_status_round_running(b: Seq<u8>, p: int, worker: u64, started_at_ms: u64)
    requires
        starts_with(b, p, enc_status(StatusView::Running { worker, started_at_ms })),
    ensures
        dec_status(b, p) == Some(
            (
                StatusView::Running { worker, started_at_ms },
                p + enc_status(StatusView::Running { worker, started_at_ms }).len() as int,
            ),
        ),
{
    crate::codec::lemma_pow256_1();
    crate::codec::lemma_pow256_8();
    let sv = StatusView::Running { worker, started_at_ms };
    let e1 = enc_le(2, 1);
    let e2 = enc_le(worker as nat, 8);
    let e3 = enc_le(started_at_ms as nat, 8);
    assert(enc_status(sv) =~= e1 + (e2 + e3));
    lemma_starts_with_concat(b, p, e1, e2 + e3);
    lemma_dec_len_round(b, p, 2, 1);
    lemma_enc_le_len(2, 1);
    lemma_starts_with_concat(b, p + 1, e2, e3);
    lemma_dec_len_round(b, p + 1, worker as nat, 8);
    lemma_enc_le_len(worker as nat, 8);
    lemma_dec_len_round(b, p + 9, started_at_ms as nat, 8);
    lemma_enc_le_len(started_at_ms as nat, 8);
}

/// Decoding inverts status encoding: the completed case.
#[verifier::rlimit(100)]
proof fn lemma_dec_status_round_completed(
    b: Seq<u8>,
    p: int,
    started_at_ms: u64,
    completed_at_ms: u64,
    result: TaskResultView,
)
    requires
        starts_with(
            b,
            p,
            enc_status(StatusView::Completed { started_at_ms, completed_at_ms, result }),
        ),
        result_ok(result),
    ensures
        dec_status(b, p) == Some(
            (
                StatusView::Completed { started_at_ms, completed_at_ms, result },
                p + enc_status(
                    StatusView::Completed { started_at_ms, completed_at_ms, result },
                ).len() as int,
            ),
        ),
{
    crate::codec::lemma_pow256_1();
    crate::codec::lemma_pow256_8();
    let sv = StatusView::Completed { started_at_ms, completed_at_ms, result };
    let e1 = enc_le(3, 1);
    let e2 = enc_le(started_at_ms as nat, 8);
    let e3 = enc_le(completed_at_ms as nat, 8);
    let e4 = enc_result(result);
    assert(enc_status(sv) =~= e1 + (e2 + (e3 + e4)));
    lemma_starts_with_concat(b, p, e1, e2 + (e3 + e4));
    lemma_dec_len_round(b, p, 3, 1);
    lemma_enc_le_len(3, 1);
    lemma_starts_with_concat(b, p + 1, e2, e3 + e4);
    lemma_dec_len_round(b, p + 1, started_at_ms as nat, 8);
    lemma_enc_le_len(started_at_ms as nat, 8);
    lemma_starts_with_concat(b, p + 9, e3, e4);
    lemma_dec_len_round(b, p + 9, completed_at_ms as nat, 8);
    lemma_enc_le_len(completed_at_ms as nat, 8);
    lemma_dec_result_round(b, p + 17, result);
}

/// Decoding inverts status encoding: the failed case.
#[verifier::rlimit(100)]
proof fn lemma_dec_status_round_failed(
    b: Seq<u8>,
    p: int,
    error: Seq<char>,
    class: ErrorClass,
    attempt: u32,
    failed_at_ms: u64,
)
    requires
        starts_with(b, p, enc_status(StatusView::Failed { error, class, attempt, failed_at_ms })),
        str_ok(error),
    ensures
        dec_status(b, p) == Some(
            (
                StatusView::Failed { error, class, attempt, failed_at_ms },
                p + enc_status(StatusView::Failed { error, class, attempt, failed_at_ms }).len()
                    as int,
            ),
        ),
{
    crate::codec::lemma_pow256_1();
    crate::codec::lemma_pow256_4();
    crate::codec::lemma_pow256_8();
    let sv = StatusView::Failed { error, class, attempt, failed_at_ms };
    let e1 = enc_le(4, 1);
    let e2 = enc_str(error);
    let e3 = enc_ec(class);
    let e4 = enc_le(attempt as nat, 4);
    let e5 = enc_le(failed_at_ms as nat, 8);
    assert(enc_status(sv) =~= e1 + (e2 + (e3 + (e4 + e5))));
    lemma_starts_with_concat(b, p, e1, e2 + (e3 + (e4 + e5)));
    lemma_dec_len_round(b, p, 4, 1);
    lemma_enc_le_len(4, 1);
    lemma_starts_with_concat(b, p + 1, e2, e3 + (e4 + e5));
    lemma_dec_str_round(b, p + 1, error);
    let p2 = p + 1 + e2.len();
    lemma_starts_with_concat(b, p2, e3, e4 + e5);
    lemma_dec_ec_round(b, p2, class);
    lemma_enc_le_len(ec_tag(class), 1);
    lemma_starts_with_concat(b, p2 + 1, e4, e5);
    lemma_dec_len_round(b, p2 + 1, attempt as nat, 4);
    lemma_enc_le_len(attempt as nat, 4);
    lemma_dec_len_round(b, p2 + 5, failed_at_ms as nat, 8);
    lemma_enc_le_len(failed_at_ms as nat, 8);
}

/// Decoding inverts status encoding: the cancelled case.
proof fn lemma_dec_status_round_cancelled(b: Seq<u8>, p: int, reason: Seq<char>, at_ms: u64)
    requires
        starts_with(b, p, enc_status(StatusView::Cancelled { reason, cancelled_at_ms: at_ms })),
        str_ok(reason),
    ensures
        dec_status(b, p) == Some(
            (
                StatusView::Cancelled { reason, cancelled_at_ms: at_ms },
                p + enc_status(StatusView::Cancelled { reason, cancelled_at_ms: at_ms }).len()
                    as int,
            ),
        ),
{
    crate::codec::lemma_pow256_1();
    crate::codec::lemma_pow256_8();
    let sv = StatusView::Cancelled { reason, cancelled_at_ms: at_ms };
    let e1 = enc_le(5, 1);
    let e2 = enc_str(reason);
    let e3 = enc_le(at_ms as nat, 8);
    assert(enc_status(sv) =~= e1 + (e2 + e3));
    lemma_starts_with_concat(b, p, e1, e2 + e3);
    lemma_dec_len_round(b, p, 5, 1);
    lemma_enc_le_len(5, 1);
    lemma_starts_with_concat(b, p + 1, e2, e3);
    lemma_dec_str_round(b, p + 1, reason);
    lemma_dec_len_round(b, p + 1 + e2.len(), at_ms as nat, 8);
    lemma_enc_le_len(at_ms as nat, 8);
}

/// Decoding inverts status encoding: the paused case.
proof fn lemma_dec_status_round_paused(b: Seq<u8>, p: int, reason: Seq<char>, at_ms: u64)
    requires
        starts_with(b, p, enc_status(StatusView::Paused { reason, paused_at_ms: at_ms })),
        str_ok(reason),
    ensures
        dec_status(b, p) == Some(
            (
                StatusView::Paused { reason, paused_at_ms: at_ms },
                p + enc_status(StatusView::Paused { reason, paused_at_ms: at_ms }).len() as int,
            ),
        ),
{
    crate::codec::lemma_pow256_1();
    crate::codec::lemma_pow256_8();
    let sv = StatusView::Paused { reason, paused_at_ms: at_ms };
    let e1 = enc_le(6, 1);
    let e2 = enc_str(reason);
    let e3 = enc_le(at_ms as nat, 8);
    assert(enc_status(sv) =~= e1 + (e2 + e3));
    lemma_starts_with_concat(b, p, e1, e2 + e3);
    lemma_dec_len_round(b, p, 6, 1);
    lemma_enc_le_len(6, 1);
    lemma_starts_with_concat(b, p + 1, e2, e3);
    lemma_dec_str_round(b, p + 1, reason);
    lemma_dec_len_round(b, p + 1 + e2.len(), at_ms as nat, 8);
    lemma_enc_le_len(at_ms as nat, 8);
}

/// Decoding inverts status encoding.
pub proof fn lemma_dec_status_round(b: Seq<u8>, p: int, sv: StatusView)
    requires
        starts_with(b, p, enc_status(sv)),
        status_ok(sv),
    ensures
        dec_status(b, p) == Some((sv, p + enc_status(sv).len() as int)),
{
    crate::codec::lemma_pow256_1();
    match sv {
        StatusView::Pending => {
            lemma_dec_len_round(b, p, 0, 1);
            lemma_enc_le_len(0, 1);
        },
        StatusView::Ready => {
            lemma_dec_len_round(b, p, 1, 1);
            lemma_enc_le_len(1, 1);
        },
        StatusView::Running { worker, started_at_ms } => {
            lemma_dec_status_round_running(b, p, worker, started_at_ms);
        },
        StatusView::Completed { started_at_ms, completed_at_ms, result } => {
            lemma_dec_status_round_completed(b, p, started_at_ms, completed_at_ms, result);
        },
        StatusView::Failed { error, class, attempt, failed_at_ms } => {
            lemma_dec_status_round_failed(b, p, error, class, attempt, failed_at_ms);
        },
        StatusView::Cancelled { reason, cancelled_at_ms } => {
            lemma_dec_status_round_cancelled(b, p, reason, cancelled_at_ms);
        },
        StatusView::Paused { reason, paused_at_ms } => {
            lemma_dec_status_round_paused(b, p, reason, paused_at_ms);
        },
    }
}

/// Appends the encoding of a task status.
pub fn write_status(out: &mut Vec<u8>, s: &TaskStatus)
    ensures
        final(out)@ == old(out)@ + enc_status(status_view(*s)),
        status_ok(status_view(*s)),
{
    match s {
        TaskStatus::Pending => {
            write_u8(out, 0);
        },
        TaskStatus::Ready => {
            write_u8(out, 1);
        },
        TaskStatus::Running { worker, started_at_ms } => {
            write_u8(out, 2);
            write_u64(out, *worker);
            write_u64(out, *started_at_ms);
        },
        TaskStatus::Completed { started_at_ms, completed_at_ms, result } => {
            write_u8(out, 3);
            write_u64(out, *started_at_ms);
            write_u64(out, *completed_at_ms);
            write_result(out, result);
        },
        TaskStatus::Failed { error, class, attempt, failed_at_ms } => {
            write_u8(out, 4);
            write_str(out, error.as_str());
            write_ec(out, class);
            write_u32(out, *attempt);
            write_u64(out, *failed_at_ms);
        },
        TaskStatus::Cancelled { reason, cancelled_at_ms } => {
            write_u8(out, 5);
            write_str(out, reason.as_str());
            write_u64(out, *cancelled_at_ms);
        },
        TaskStatus::Paused { reason, paused_at_ms } => {
            write_u8(out, 6);
            write_str(out, reason.as_str());
            write_u64(out, *paused_at_ms);
        },
    }
    proof {
        assert(final(out)@ =~= old(out)@ + enc_status(status_view(*s)));
    }
}

/// Reads a task status.
pub fn read_status(buf: &Vec<u8>, pos: usize) -> (r: Option<(TaskStatus, usize)>)
    ensures
        r is None <==> dec_status(buf@, pos as int) is None,
        r matches Some(p) ==> (dec_status(buf@, pos as int) matches Some(q) && status_view(p.0)
            == q.0 && p.1 as int == q.1),
{
    let (t, q) = match read_u8(buf, pos) {
        Some(v) => v,
        None => {
            return None;
        },
    };
    if t == 0 {
        Some((TaskStatus::Pending, q))
    } else if t == 1 {
        Some((TaskStatus::Ready, q))
    } else if t == 2 {
        let (w, q1) = match read_u64(buf, q) {
            Some(v) => v,
            None => {
                return None;
            },
        };
        let (st, q2) = match read_u64(buf, q1) {
            Some(v) => v,
            None => {
                return None;
            },
        };
        Some((TaskStatus::Running { worker: w, started_at_ms: st }, q2))
    } else if t == 3 {
        let (st, q1) = match read_u64(buf, q) {
            Some(v) => v,
            None => {
                return None;
            },
        };
        let (ct, q2) = match read_u64(buf, q1) {
            Some(v) => v,
            None => {
                return None;
            },
        };
        let (res, q3) = match read_result(buf, q2) {
            Some(v) => v,
            None => {
                return None;
            },
        };
        Some(
            (
                TaskStatus::Completed {
                    started_at_ms: st,
                    completed_at_ms: ct,
                    result: res,
                },
                q3,
            ),
        )
    } else if t == 4 {
        let (er, q1) = match read_str(buf, q) {
            Some(v) => v,
            None => {
                return None;
            },
        };
        let (cl, q2) = match read_ec(buf, q1) {
            Some(v) => v,
            None => {
                return None;
            },
        };
        let (at, q3) = match read_u32(buf, q2) {
            Some(v) => v,
            None => {
                return None;
            },
        };
        let (ft, q4) = match read_u64(buf, q3) {
            Some(v) => v,
            None => {
                return None;
            },
        };
        Some(
            (
                TaskStatus::Failed { error: er, class: cl, attempt: at, failed_at_ms: ft },
                q4,
            ),
        )
    } else if t == 5 {
        let (re, q1) = match read_str(buf, q) {
            Some(v) => v,
            None => {
                return None;
            },
        };
        let (ct, q2) = match read_u64(buf, q1) {
            Some(v) => v,
            None => {
                return None;
            },
        };
        Some((TaskStatus::Cancelled { reason: re, cancelled_at_ms: ct }, q2))
    } else if t == 6 {
        let (re, q1) = match read_str(buf, q) {
            Some(v) => v,
            None => {
                return None;
            },
        };
        let (pt, q2) = match read_u64(buf, q1) {
            Some(v) => v,
            None => {
                return None;
            },
        };
        Some((TaskStatus::Paused { reason: re, paused_at_ms: pt }, q2))
    } else {
        None
    }
}

// === Task definitions ======================================================

/// The views of a vector of workflow steps.
pub open spec fn subtasks_view(xs: Seq<SubTask>) -> Seq<(Seq<char>, Seq<char>)> {
    xs.map_values(|t: SubTask| (t.name@, t.command@))
}

/// Appends the encoding of a vector of workflow steps, reusing the
/// pair layout.
pub fn write_subtasks(out: &mut Vec<u8>, xs: &Vec<SubTask>)
    ensures
        final(out)@ == old(out)@ + enc_pairs(subtasks_view(xs@)),
        pairs_ok(subtasks_view(xs@)),
{
    proof {
        crate::codec::lemma_pow256_8();
        assert(subtasks_view(xs@).len() == xs@.len());
    }
    write_le(out, xs.len() as u128, 8);
    let ghost mid = out@;
    let mut i: usize = 0;
    while i < xs.len()
        invariant
            i <= xs@.len(),
            out@ == mid + enc_pair_list(subtasks_view(xs@).take(i as int)),
            forall|j: int| 0 <= j < i ==> pair_ok(#[trigger] subtasks_view(xs@)[j]),
        decreases xs@.len() - i,
    {
        write_str(out, xs[i].name.as_str());
        write_str(out, xs[i].command.as_str());
        proof {
            lemma_enc_pair_list_snoc(
                subtasks_view(xs@).take(i as int),
                (xs@[i as int].name@, xs@[i as int].command@),
            );
            assert(subtasks_view(xs@).take(i + 1) =~= subtasks_view(xs@).take(i as int).push(
                (xs@[i as int].name@, xs@[i as int].command@),
            ));
            assert(out@ =~= mid + enc_pair_list(subtasks_view(xs@).take(i + 1)));
        }
        i = i + 1;
    }
    proof {
        assert(subtasks_view(xs@).take(xs@.len() as int) =~= subtasks_view(xs@));
    }
}

/// Reads a vector of workflow steps.
pub fn read_subtasks(buf: &Vec<u8>, pos: usize) -> (r: Option<(Vec<SubTask>, usize)>)
    ensures
        r is None <==> dec_pairs(buf@, pos as int) is None,
        r matches Some(p) ==> (dec_pairs(buf@, pos as int) matches Some(q) && subtasks_view(p.0@)
            == q.0 && p.1 as int == q.1),
{
    let (prs, q) = match read_pairs(buf, pos) {
        Some(v) => v,
        None => {
            return None;
        },
    };
    let mut acc: Vec<SubTask> = Vec::new();
    let mut i: usize = 0;
    while i < prs.len()
        invariant
            i <= prs@.len(),
            acc@.len() == i,
            forall|j: int|
                0 <= j < i ==> (#[trigger] subtasks_view(acc@)[j]) == pairs_view(prs@)[j],
        decreases prs@.len() - i,
    {
        let pr = &prs[i];
        let st = SubTask { name: pr.0.clone(), command: pr.1.clone() };
        proof {
            assert(st.name@ == prs@[i as int].0@);
            assert(st.command@ == prs@[i as int].1@);
        }
        let ghost before = acc@;
        acc.push(st);
        proof {
            assert(acc@[i as int] == st);
            assert(forall|j: int| 0 <= j < i ==> acc@[j] == before[j]);
            assert(forall|j: int|
                0 <= j < i ==> #[trigger] subtasks_view(acc@)[j] == subtasks_view(before)[j]);
            assert(subtasks_view(acc@)[i as int] == (st.name@, st.command@));
            assert(subtasks_view(acc@)[i as int] == pairs_view(prs@)[i as int]);
        }
        i = i + 1;
    }
    proof {
        assert(subtasks_view(acc@) =~= pairs_view(prs@));
    }
    Some((acc, q))
}

/// The observable content of a task definition.
pub enum TaskDefView {
    Command(Seq<char>),
    PythonScript { script: Seq<char>, args: Seq<Seq<char>>, env: Seq<(Seq<char>, Seq<char>)> },
    RustFunction { function_name: Seq<char>, args: Seq<char> },
    HttpRequest {
        method: Seq<char>,
        url: Seq<char>,
        headers: Seq<(Seq<char>, Seq<char>)>,
        body: Option<Seq<char>>,
    },
    Workflow { tasks: Seq<(Seq<char>, Seq<char>)>, execution_strategy: WorkflowStrategy },
}

/// The view of a task definition.
pub open spec fn def_view(d: TaskDefinition) -> TaskDefView {
    match d {
        TaskDefinition::Command(c) => TaskDefView::Command(c@),
        TaskDefinition::PythonScript { script, args, env } => TaskDefView::PythonScript {
            script: script@,
            args: strs_view(args@),
            env: pairs_view(env@),
        },
        TaskDefinition::RustFunction { function_name, args } => TaskDefView::RustFunction {
            function_name: function_name@,
            args: args@,
        },
        TaskDefinition::HttpRequest { method, url, headers, body } => TaskDefView::HttpRequest {
            method: method@,
            url: url@,
            headers: pairs_view(headers@),
            body: match body {
                Some(s) => Some(s@),
                None => None,
            },
        },
        TaskDefinition::Workflow { tasks, execution_strategy } => TaskDefView::Workflow {
            tasks: subtasks_view(tasks@),
            execution_strategy,
        },
    }
}

/// Whether a definition view fits the wire format.
pub open spec fn def_ok(dv: TaskDefView) -> bool {
    match dv {
        TaskDefView::Command(c) => str_ok(c),
        TaskDefView::PythonScript { script, args, env } => str_ok(script) && strs_ok(args)
            && pairs_ok(env),
        TaskDefView::RustFunction { function_name, args } => str_ok(function_name) && str_ok(args),
        TaskDefView::HttpRequest { method, url, headers, body } => str_ok(method) && str_ok(url)
            && pairs_ok(headers) && (body matches Some(sv) ==> str_ok(sv)),
        TaskDefView::Workflow { tasks, .. } => pairs_ok(tasks),
    }
}

/// The encoding of a task definition.
pub open spec fn enc_def(dv: TaskDefView) -> Seq<u8> {
    match dv {
        TaskDefView::Command(c) => enc_le(0, 1) + enc_str(c),
        TaskDefView::PythonScript { script, args, env } => enc_le(1, 1) + enc_str(script)
            + enc_strs(args) + enc_pairs(env),
        TaskDefView::RustFunction { function_name, args } => enc_le(2, 1) + enc_str(function_name)
            + enc_str(args),
        TaskDefView::HttpRequest { method, url, headers, body } => enc_le(3, 1) + enc_str(method)
            + enc_str(url) + enc_pairs(headers) + enc_opt_str(body),
        TaskDefView::Workflow { tasks, execution_strategy } => enc_le(4, 1) + enc_pairs(tasks)
            + enc_ws(execution_strategy),
    }
}

/// The mirrored decoder for a task definition.
pub open spec fn dec_def(b: Seq<u8>, p: int) -> Option<(TaskDefView, int)> {
    match dec_len(b, p, 1) {
        None => None,
        Some((t, q)) => {
            if t == 0 {
                match dec_str(b, q) {
                    None => None,
                    Some((c, e)) => Some((TaskDefView::Command(c), e)),
                }
            } else if t == 1 {
                match dec_str(b, q) {
                    None => None,
                    Some((sc, q1)) => match dec_strs(b, q1) {
                        None => None,
                        Some((ar, q2)) => match dec_pairs(b, q2) {
                            None => None,
                            Some((en, q3)) => Some(
                                (
                                    TaskDefView::PythonScript { script: sc, args: ar, env: en },
                                    q3,
                                ),
                            ),
                        },
                    },
                }
            } else if t == 2 {
                match dec_str(b, q) {
                    None => None,
                    Some((fname, q1)) => match dec_str(b, q1) {
                        None => None,
                        Some((ar, q2)) => Some(
                            (TaskDefView::RustFunction { function_name: fname, args: ar }, q2),
                        ),
                    },
                }
            } else if t == 3 {
                match dec_str(b, q) {
                    None => None,
                    Some((me, q1)) => match dec_str(b, q1) {
                        None => None,
                        Some((ur, q2)) => match dec_pairs(b, q2) {
                            None => None,
                            Some((he, q3)) => match dec_opt_str(b, q3) {
                                None => None,
                                Some((bo, q4)) => Some(
                                    (
                                        TaskDefView::HttpRequest {
                                            method: me,
                                            url: ur,
                                            headers: he,
                                            body: bo,
                                        },
                                        q4,
                                    ),
                                ),
                            },
                        },
                    },
                }
            } else if t == 4 {
                match dec_pairs(b, q) {
                    None => None,
                    Some((ts, q1)) => match dec_ws(b, q1) {
                        None => None,
                        Some((st, q2)) => Some(
                            (
                                TaskDefView::Workflow { tasks: ts, execution_strategy: st },
                                q2,
                            ),
                        ),
                    },
                }
            } else {
                None
            }
        },
    }
}

/// Decoding inverts definition encoding: the script case.
#[verifier::rlimit(100)]
proof fn lemma_dec_def_round_python(
    b: Seq<u8>,
    p: int,
    script: Seq<char>,
    args: Seq<Seq<char>>,
    env: Seq<(Seq<char>, Seq<char>)>,
)
    requires
        starts_with(b, p, enc_def(TaskDefView::PythonScript { script, args, env })),
        str_ok(script),
        strs_ok(args),
        pairs_ok(env),
    ensures
        dec_def(b, p) == Some(
            (
                TaskDefView::PythonScript { script, args, env },
                p + enc_def(TaskDefView::PythonScript { script, args, env }).len() as int,
            ),
        ),
{
    crate::codec::lemma_pow256_1();
    let dv = TaskDefView::PythonScript { script, args, env };
    let e1 = enc_le(1, 1);
    let e2 = enc_str(script);
    let e3 = enc_strs(args);
    let e4 = enc_pairs(env);
    assert(enc_def(dv) =~= e1 + (e2 + (e3 + e4)));
    lemma_starts_with_concat(b, p, e1, e2 + (e3 + e4));
    lemma_dec_len_round(b, p, 1, 1);
    lemma_enc_le_len(1, 1);
    lemma_starts_with_concat(b, p + 1, e2, e3 + e4);
    lemma_dec_str_round(b, p + 1, script);
    let p2 = p + 1 + e2.len();
    lemma_starts_with_concat(b, p2, e3, e4);
    lemma_dec_strs_round(b, p2, args);
    lemma_dec_pairs_round(b, p2 + e3.len(), env);
}

/// Decoding inverts definition encoding: the request case.
#[verifier::rlimit(100)]
proof fn lemma_dec_def_round_http(
    b: Seq<u8>,
    p: int,
    method: Seq<char>,
    url: Seq<char>,
    headers: Seq<(Seq<char>, Seq<char>)>,
    body: Option<Seq<char>>,
)
    requires
        starts_with(b, p, enc_def(TaskDefView::HttpRequest { method, url, headers, body })),
        str_ok(method),
        str_ok(url),
        pairs_ok(headers),
        body matches Some(sv) ==> str_ok(sv),
    ensures
        dec_def(b, p) == Some(
            (
                TaskDefView::HttpRequest { method, url, headers, body },
                p + enc_def(TaskDefView::HttpRequest { method, url, headers, body }).len() as int,
            ),
        ),
{
    crate::codec::lemma_pow256_1();
    let dv = TaskDefView::HttpRequest { method, url, headers, body };
    let e1 = enc_le(3, 1);
    let e2 = enc_str(method);
    let e3 = enc_str(url);
    let e4 = enc_pairs(headers);
    let e5 = enc_opt_str(body);
    assert(enc_def(dv) =~= e1 + (e2 + (e3 + (e4 + e5))));
    lemma_starts_with_concat(b, p, e1, e2 + (e3 + (e4 + e5)));
    lemma_dec_len_round(b, p, 3, 1);
    lemma_enc_le_len(3, 1);
    lemma_starts_with_concat(b, p + 1, e2, e3 + (e4 + e5));
    lemma_dec_str_round(b, p + 1, method);
    let p2 = p + 1 + e2.len();
    lemma_starts_with_concat(b, p2, e3, e4 + e5);
    lemma_dec_str_round(b, p2, url);
    let p3 = p2 + e3.len();
    lemma_starts_with_concat(b, p3, e4, e5);
    lemma_dec_pairs_round(b, p3, headers);
    lemma_dec_opt_str_round(b, p3 + e4.len(), body);
}

/// Decoding inverts definition encoding.
#[verifier::rlimit(100)]
pub proof fn lemma_dec_def_round(b: Seq<u8>, p: int, dv: TaskDefView)
    requires
        starts_with(b, p, enc_def(dv)),
        def_ok(dv),
    ensures
        dec_def(b, p) == Some((dv, p + enc_def(dv).len() as int)),
{
    crate::codec::lemma_pow256_1();
    match dv {
        TaskDefView::Command(c) => {
            let e1 = enc_le(0, 1);
            let e2 = enc_str(c);
            lemma_starts_with_concat(b, p, e1, e2);
            lemma_dec_len_round(b, p, 0, 1);
            lemma_enc_le_len(0, 1);
            lemma_dec_str_round(b, p + 1, c);
        },
        TaskDefView::PythonScript { script, args, env } => {
            lemma_dec_def_round_python(b, p, script, args, env);
        },
        TaskDefView::RustFunction { function_name, args } => {
            let e1 = enc_le(2, 1);
            let e2 = enc_str(function_name);
            let e3 = enc_str(args);
            assert(enc_def(dv) =~= e1 + (e2 + e3));
            lemma_starts_with_concat(b, p, e1, e2 + e3);
            lemma_dec_len_round(b, p, 2, 1);
            lemma_enc_le_len(2, 1);
            lemma_starts_with_concat(b, p + 1, e2, e3);
            lemma_dec_str_round(b, p + 1, function_name);
            lemma_dec_str_round(b, p + 1 + e2.len(), args);
        },
        TaskDefView::HttpRequest { method, url, headers, body } => {
            lemma_dec_def_round_http(b, p, method, url, headers, body);
        },
        TaskDefView::Workflow { tasks, execution_strategy } => {
            let e1 = enc_le(4, 1);
            let e2 = enc_pairs(tasks);
            let e3 = enc_ws(execution_strategy);
            assert(enc_def(dv) =~= e1 + (e2 + e3));
            lemma_starts_with_concat(b, p, e1, e2 + e3);
            lemma_dec_len_round(b, p, 4, 1);
            lemma_enc_le_len(4, 1);
            lemma_starts_with_concat(b, p + 1, e2, e3);
            lemma_dec_pairs_round(b, p + 1, tasks);
            lemma_dec_ws_round(b, p + 1 + e2.len(), execution_strategy);
        },
    }
}

/// Appends the encoding of a task definition.
pub fn write_def(out: &mut Vec<u8>, d: &TaskDefinition)
    ensures
        final(out)@ == old(out)@ + enc_def(def_view(*d)),
        def_ok(def_view(*d)),
{
    match d {
        TaskDefinition::Command(c) => {
            write_u8(out, 0);
            write_str(out, c.as_str());
            proof {
                assert(out@ =~= old(out)@ + enc_def(def_view(*d)));
            }
        },
        TaskDefinition::PythonScript { script, args, env } => {
            write_u8(out, 1);
            write_str(out, script.as_str());
            write_strs(out, args);
            write_pairs(out, env);
            proof {
                assert(out@ =~= old(out)@ + enc_def(def_view(*d)));
            }
        },
        TaskDefinition::RustFunction { function_name, args } => {
            write_u8(out, 2);
            write_str(out, function_name.as_str());
            write_str(out, args.as_str());
            proof {
                assert(out@ =~= old(out)@ + enc_def(def_view(*d)));
            }
        },
        TaskDefinition::HttpRequest { method, url, headers, body } => {
            write_u8(out, 3);
            write_str(out, method.as_str());
            write_str(out, url.as_str());
            write_pairs(out, headers);
            write_opt_str(out, body);
            proof {
                assert(out@ =~= old(out)@ + enc_def(def_view(*d)));
            }
        },
        TaskDefinition::Workflow { tasks, execution_strategy } => {
            write_u8(out, 4);
            write_subtasks(out, tasks);
            write_ws(out, execution_strategy);
            proof {
                assert(out@ =~= old(out)@ + enc_def(def_view(*d)));
            }
        },
    }
}

/// Reads a task definition.
pub fn read_def(buf: &Vec<u8>, pos: usize) -> (r: Option<(TaskDefinition, usize)>)
    ensures
        r is None <==> dec_def(buf@, pos as int) is None,
        r matches Some(p) ==> (dec_def(buf@, pos as int) matches Some(q) && def_view(p.0) == q.0
            && p.1 as int == q.1),
{
    let (t, q) = match read_u8(buf, pos) {
        Some(v) => v,
        None => {
            return None;
        },
    };
    if t == 0 {
        let (c, e) = match read_str(buf, q) {
            Some(v) => v,
            None => {
                return None;
            },
        };
        Some((TaskDefinition::Command(c), e))
    } else if t == 1 {
        let (sc, q1) = match read_str(buf, q) {
            Some(v) => v,
            None => {
                return None;
            },
        };
        let (ar, q2) = match read_strs(buf, q1) {
            Some(v) => v,
            None => {
                return None;
            },
        };
        let (en, q3) = match read_pairs(buf, q2) {
            Some(v) => v,
            None => {
                return None;
            },
        };
        Some((TaskDefinition::PythonScript { script: sc, args: ar, env: en }, q3))
    } else if t == 2 {
        let (fname, q1) = match read_str(buf, q) {
            Some(v) => v,
            None => {
                return None;
            },
        };
        let (ar, q2) = match read_str(buf, q1) {
            Some(v) => v,
            None => {
                return None;
            },
        };
        Some((TaskDefinition::RustFunction { function_name: fname, args: ar }, q2))
    } else if t == 3 {
        let (me, q1) = match read_str(buf, q) {
            Some(v) => v,
            None => {
                return None;
            },
        };
        let (ur, q2) = match read_str(buf, q1) {
            Some(v) => v,
            None => {
                return None;
            },
        };
        let (he, q3) = match read_pairs(buf, q2) {
            Some(v) => v,
            None => {
                return None;
            },
        };
        let (bo, q4) = match read_opt_str(buf, q3) {
            Some(v) => v,
            None => {
                return None;
            },
        };
        Some((TaskDefinition::HttpRequest { method: me, url: ur, headers: he, body: bo }, q4))
    } else if t == 4 {
        let (ts, q1) = match read_subtasks(buf, q) {
            Some(v) => v,
            None => {
                return None;
            },
        };
        let (st, q2) = match read_ws(buf, q1) {
            Some(v) => v,
            None => {
                return None;
            },
        };
        Some((TaskDefinition::Workflow { tasks: ts, execution_strategy: st }, q2))
    } else {
        None
    }
}

// === Tasks =================================================================

/// The observable content of a task.
pub struct TaskView {
    pub id: u128,
    pub name: Seq<char>,
    pub definition: TaskDefView,
    pub dependencies: Seq<u128>,
    pub priority: u8,
    pub metadata: Seq<(Seq<char>, Seq<char>)>,
    pub created_at_ms: u64,
    pub timeout_ms: Option<u64>,
    pub max_retries: u32,
    pub tags: Seq<Seq<char>>,
}

/// The view of a task.
pub open spec fn task_view(t: Task) -> TaskView {
    TaskView {
        id: t.id,
        name: t.name@,
        definition: def_view(t.definition),
        dependencies: t.dependencies@,
        priority: t.priority,
        metadata: pairs_view(t.metadata@),
        created_at_ms: t.created_at_ms,
        timeout_ms: t.timeout_ms,
        max_retries: t.max_retries,
        tags: strs_view(t.tags@),
    }
}

/// Whether a task view fits the wire format.
pub open spec fn task_ok(tv: TaskView) -> bool {
    &&& str_ok(tv.name)
    &&& def_ok(tv.definition)
    &&& fits_len(tv.dependencies.len())
    &&& pairs_ok(tv.metadata)
    &&& strs_ok(tv.tags)
}

/// The encoding of a task.
pub open spec fn enc_task(tv: TaskView) -> Seq<u8> {
    enc_le(tv.id as nat, 16) + enc_str(tv.name) + enc_def(tv.definition) + enc_ids(
        tv.dependencies,
    ) + enc_le(tv.priority as nat, 1) + enc_pairs(tv.metadata) + enc_le(tv.created_at_ms as nat, 8)
        + enc_opt_u64(tv.timeout_ms) + enc_le(tv.max_retries as nat, 4) + enc_strs(tv.tags)
}

/// The mirrored decoder for a task.
pub open spec fn dec_task(b: Seq<u8>, p: int) -> Option<(TaskView, int)> {
    match dec_len(b, p, 16) {
        None => None,
        Some((id, p1)) => match dec_str(b, p1) {
            None => None,
            Some((name, p2)) => match dec_def(b, p2) {
                None => None,
                Some((df, p3)) => match dec_ids(b, p3) {
                    None => None,
                    Some((deps, p4)) => match dec_len(b, p4, 1) {
                        None => None,
                        Some((pr, p5)) => match dec_pairs(b, p5) {
                            None => None,
                            Some((md, p6)) => match dec_len(b, p6, 8) {
                                None => None,
                                Some((ct, p7)) => match dec_opt_u64(b, p7) {
                                    None => None,
                                    Some((to, p8)) => match dec_len(b, p8, 4) {
                                        None => None,
                                        Some((mr, p9)) => match dec_strs(b, p9) {
                                            None => None,
                                            Some((tg, p10)) => Some(
                                                (
                                                    TaskView {
                                                        id: id as u128,
                                                        name,
                                                        definition: df,
                                                        dependencies: deps,
                                                        priority: pr as u8,
                                                        metadata: md,
                                                        created_at_ms: ct as u64,
                                                        timeout_ms: to,
                                                        max_retries: mr as u32,
                                                        tags: tg,
                                                    },
                                                    p10,
                                                ),
                                            ),
                                        },
                                    },
                                },
                            },
                        },
                    },
                },
            },
        },
    }
}

/// Decoding inverts task encoding.
#[verifier::rlimit(100)]
#[verifier::spinoff_prover]
pub proof fn lemma_dec_task_round(b: Seq<u8>, p: int, tv: TaskView)
    requires
        starts_with(b, p, enc_task(tv)),
        task_ok(tv),
    ensures
        dec_task(b, p) == Some((tv, p + enc_task(tv).len() as int)),
{
    crate::codec::lemma_pow256_1();
    crate::codec::lemma_pow256_4();
    crate::codec::lemma_pow256_8();
    crate::codec::lemma_pow256_16();
    let e1 = enc_le(tv.id as nat, 16);
    let e2 = enc_str(tv.name);
    let e3 = enc_def(tv.definition);
    let e4 = enc_ids(tv.dependencies);
    let e5 = enc_le(tv.priority as nat, 1);
    let e6 = enc_pairs(tv.metadata);
    let e7 = enc_le(tv.created_at_ms as nat, 8);
    let e8 = enc_opt_u64(tv.timeout_ms);
    let e9 = enc_le(tv.max_retries as nat, 4);
    let e10 = enc_strs(tv.tags);
    assert(enc_task(tv) =~= e1 + (e2 + (e3 + (e4 + (e5 + (e6 + (e7 + (e8 + (e9 + e10)))))))));
    lemma_starts_with_concat(b, p, e1, e2 + (e3 + (e4 + (e5 + (e6 + (e7 + (e8 + (e9 + e10))))))));
    lemma_dec_len_round(b, p, tv.id as nat, 16);
    lemma_enc_le_len(tv.id as nat, 16);
    let p1 = p + 16;
    lemma_starts_with_concat(b, p1, e2, e3 + (e4 + (e5 + (e6 + (e7 + (e8 + (e9 + e10)))))));
    lemma_dec_str_round(b, p1, tv.name);
    let p2 = p1 + e2.len();
    lemma_starts_with_concat(b, p2, e3, e4 + (e5 + (e6 + (e7 + (e8 + (e9 + e10))))));
    lemma_dec_def_round(b, p2, tv.definition);
    let p3 = p2 + e3.len();
    lemma_starts_with_concat(b, p3, e4, e5 + (e6 + (e7 + (e8 + (e9 + e10)))));
    lemma_dec_ids_round(b, p3, tv.dependencies);
    let p4 = p3 + e4.len();
    lemma_starts_with_concat(b, p4, e5, e6 + (e7 + (e8 + (e9 + e10))));
    lemma_dec_len_round(b, p4, tv.priority as nat, 1);
    lemma_enc_le_len(tv.priority as nat, 1);
    let p5 = p4 + 1;
    lemma_starts_with_concat(b, p5, e6, e7 + (e8 + (e9 + e10)));
    lemma_dec_pairs_round(b, p5, tv.metadata);
    let p6 = p5 + e6.len();
    lemma_starts_with_concat(b, p6, e7, e8 + (e9 + e10));
    lemma_dec_len_round(b, p6, tv.created_at_ms as nat, 8);
    lemma_enc_le_len(tv.created_at_ms as nat, 8);
    let p7 = p6 + 8;
    lemma_starts_with_concat(b, p7, e8, e9 + e10);
    lemma_dec_opt_u64_round(b, p7, tv.timeout_ms);
    let p8 = p7 + e8.len();
    lemma_starts_with_concat(b, p8, e9, e10);
    lemma_dec_len_round(b, p8, tv.max_retries as nat, 4);
    lemma_enc_le_len(tv.max_retries as nat, 4);
    let p9 = p8 + 4;
    lemma_dec_strs_round(b, p9, tv.tags);
}

/// Appends the encoding of a task.
pub fn write_task(out: &mut Vec<u8>, t: &Task)
    ensures
        final(out)@ == old(out)@ + enc_task(task_view(*t)),
        task_ok(task_view(*t)),
{
    write_u128(out, t.id);
    write_str(out, t.name.as_str());
    write_def(out, &t.definition);
    write_ids(out, &t.dependencies);
    write_u8(out, t.priority);
    write_pairs(out, &t.metadata);
    write_u64(out, t.created_at_ms);
    write_opt_u64(out, &t.timeout_ms);
    write_u32(out, t.max_retries);
    write_strs(out, &t.tags);
    proof {
        assert(final(out)@ =~= old(out)@ + enc_task(task_view(*t)));
    }
}

/// Reads a task.
pub fn read_task(buf: &Vec<u8>, pos: usize) -> (r: Option<(Task, usize)>)
    ensures
        r is None <==> dec_task(buf@, pos as int) is None,
        r matches Some(p) ==> (dec_task(buf@, pos as int) matches Some(q) && task_view(p.0) == q.0
            && p.1 as int == q.1),
{
    let (id, p1) = match read_u128(buf, pos) {
        Some(v) => v,
        None => {
            return None;
        },
    };
    let (name, p2) = match read_str(buf, p1) {
        Some(v) => v,
        None => {
            return None;
        },
    };
    let (df, p3) = match read_def(buf, p2) {
        Some(v) => v,
        None => {
            return None;
        },
    };
    let (deps, p4) = match read_ids(buf, p3) {
        Some(v) => v,
        None => {
            return None;
        },
    };
    let (pr, p5) = match read_u8(buf, p4) {
        Some(v) => v,
        None => {
            return None;
        },
    };
    let (md, p6) = match read_pairs(buf, p5) {
        Some(v) => v,
        None => {
            return None;
        },
    };
    let (ct, p7) = match read_u64(buf, p6) {
        Some(v) => v,
        None => {
            return None;
        },
    };
    let (to, p8) = match read_opt_u64(buf, p7) {
        Some(v) => v,
        None => {
            return None;
        },
    };
    let (mr, p9) = match read_u32(buf, p8) {
        Some(v) => v,
        None => {
            return None;
        },
    };
    let (tg, p10) = match read_strs(buf, p9) {
        Some(v) => v,
        None => {
            return None;
        },
    };
    Some(
        (
            Task {
                id,
                name,
                definition: df,
                dependencies: deps,
                priority: pr,
                metadata: md,
                created_at_ms: ct,
                timeout_ms: to,
                max_retries: mr,
                tags: tg,
            },
            p10,
        ),
    )
}

// === Edges, nodes and the mesh payload =====================================

/// The encoding of a dependency edge.
pub open spec fn enc_edge(e: DependencyEdge) -> Seq<u8> {
    enc_le(e.id as nat, 16) + enc_le(e.source as nat, 16) + enc_le(e.target as nat, 16) + enc_dt(
        e.dependency_type,
    ) + enc_le(e.created_at_ms as nat, 8)
}

/// The mirrored decoder for a dependency edge.
pub open spec fn dec_edge(b: Seq<u8>, p: int) -> Option<(DependencyEdge, int)> {
    match dec_len(b, p, 16) {
        None => None,
        Some((id, p1)) => match dec_len(b, p1, 16) {
            None => None,
            Some((so, p2)) => match dec_len(b, p2, 16) {
                None => None,
                Some((ta, p3)) => match dec_dt(b, p3) {
                    None => None,
                    Some((dt, p4)) => match dec_len(b, p4, 8) {
                        None => None,
                        Some((ct, p5)) => Some(
                            (
                                DependencyEdge {
                                    id: id as u128,
                                    source: so as u128,
                                    target: ta as u128,
                                    dependency_type: dt,
                                    created_at_ms: ct as u64,
                                },
                                p5,
                            ),
                        ),
                    },
                },
            },
        },
    }
}

/// Decoding inverts edge encoding.
#[verifier::rlimit(100)]
pub proof fn lemma_dec_edge_round(b: Seq<u8>, p: int, e: DependencyEdge)
    requires
        starts_with(b, p, enc_edge(e)),
    ensures
        dec_edge(b, p) == Some((e, p + enc_edge(e).len() as int)),
{
    crate::codec::lemma_pow256_1();
    crate::codec::lemma_pow256_8();
    crate::codec::lemma_pow256_16();
    let e1 = enc_le(e.id as nat, 16);
    let e2 = enc_le(e.source as nat, 16);
    let e3 = enc_le(e.target as nat, 16);
    let e4 = enc_dt(e.dependency_type);
    let e5 = enc_le(e.created_at_ms as nat, 8);
    assert(enc_edge(e) =~= e1 + (e2 + (e3 + (e4 + e5))));
    lemma_starts_with_concat(b, p, e1, e2 + (e3 + (e4 + e5)));
    lemma_dec_len_round(b, p, e.id as nat, 16);
    lemma_enc_le_len(e.id as nat, 16);
    lemma_starts_with_concat(b, p + 16, e2, e3 + (e4 + e5));
    lemma_dec_len_round(b, p + 16, e.source as nat, 16);
    lemma_enc_le_len(e.source as nat, 16);
    lemma_starts_with_concat(b, p + 32, e3, e4 + e5);
    lemma_dec_len_round(b, p + 32, e.target as nat, 16);
    lemma_enc_le_len(e.target as nat, 16);
    lemma_starts_with_concat(b, p + 48, e4, e5);
    lemma_dec_dt_round(b, p + 48, e.dependency_type);
    lemma_enc_le_len(dt_tag(e.dependency_type), 1);
    lemma_dec_len_round(b, p + 49, e.created_at_ms as nat, 8);
    lemma_enc_le_len(e.created_at_ms as nat, 8);
}

/// Appends the encoding of a dependency edge.
pub fn write_edge(out: &mut Vec<u8>, e: &DependencyEdge)
    ensures
        final(out)@ == old(out)@ + enc_edge(*e),
{
    write_u128(out, e.id);
    write_u128(out, e.source);
    write_u128(out, e.target);
    write_dt(out, &e.dependency_type);
    write_u64(out, e.created_at_ms);
    proof {
        assert(final(out)@ =~= old(out)@ + enc_edge(*e));
    }
}

/// Reads a dependency edge.
pub fn read_edge(buf: &Vec<u8>, pos: usize) -> (r: Option<(DependencyEdge, usize)>)
    ensures
        r is None <==> dec_edge(buf@, pos as int) is None,
        r matches Some(p) ==> (dec_edge(buf@, pos as int) matches Some(q) && p.0 == q.0 && p.1
            as int == q.1),
{
    let (id, p1) = match read_u128(buf, pos) {
        Some(v) => v,
        None => {
            return None;
        },
    };
    let (so, p2) = match read_u128(buf, p1) {
        Some(v) => v,
        None => {
            return None;
        },
    };
    let (ta, p3) = match read_u128(buf, p2) {
        Some(v) => v,
        None => {
            return None;
        },
    };
    let (dt, p4) = match read_dt(buf, p3) {
        Some(v) => v,
        None => {
            return None;
        },
    };
    let (ct, p5) = match read_u64(buf, p4) {
        Some(v) => v,
        None => {
            return None;
        },
    };
    Some(
        (
            DependencyEdge {
                id,
                source: so,
                target: ta,
                dependency_type: dt,
                created_at_ms: ct,
            },
            p5,
        ),
    )
}

/// The observable content of a mesh node.
pub struct NodeView {
    pub task: TaskView,
    pub status: StatusView,
    pub ever_completed: bool,
}

/// The view of a mesh node.
pub open spec fn node_view(n: MeshNode) -> NodeView {
    NodeView {
        task: task_view(n.task),
        status: status_view(n.status),
        ever_completed: n.ever_completed,
    }
}

/// Whether a node view fits the wire format.
pub open spec fn node_ok(nv: NodeView) -> bool {
    task_ok(nv.task) && status_ok(nv.status)
}

/// The encoding of a mesh node.
pub open spec fn enc_node(nv: NodeView) -> Seq<u8> {
    enc_task(nv.task) + enc_status(nv.status) + enc_le(
        if nv.ever_completed {
            1
        } else {
            0
        },
        1,
    )
}

/// The mirrored decoder for a mesh node.
pub open spec fn dec_node(b: Seq<u8>, p: int) -> Option<(NodeView, int)> {
    match dec_task(b, p) {
        None => None,
        Some((t, p1)) => match dec_status(b, p1) {
            None => None,
            Some((st, p2)) => match dec_len(b, p2, 1) {
                None => None,
                Some((f, p3)) => {
                    if f == 0 || f == 1 {
                        Some((NodeView { task: t, status: st, ever_completed: f == 1 }, p3))
                    } else {
                        None
                    }
                },
            },
        },
    }
}

/// Decoding inverts node encoding.
#[verifier::rlimit(100)]
pub proof fn lemma_dec_node_round(b: Seq<u8>, p: int, nv: NodeView)
    requires
        starts_with(b, p, enc_node(nv)),
        node_ok(nv),
    ensures
        dec_node(b, p) == Some((nv, p + enc_node(nv).len() as int)),
{
    crate::codec::lemma_pow256_1();
    let e1 = enc_task(nv.task);
    let e2 = enc_status(nv.status);
    let flag: nat = if nv.ever_completed {
        1
    } else {
        0
    };
    let e3 = enc_le(flag, 1);
    assert(enc_node(nv) =~= e1 + (e2 + e3));
    lemma_starts_with_concat(b, p, e1, e2 + e3);
    lemma_dec_task_round(b, p, nv.task);
    let p1 = p + e1.len();
    lemma_starts_with_concat(b, p1, e2, e3);
    lemma_dec_status_round(b, p1, nv.status);
    let p2 = p1 + e2.len();
    lemma_dec_len_round(b, p2, flag, 1);
    lemma_enc_le_len(flag, 1);
}

/// Appends the encoding of a mesh node.
pub fn write_node(out: &mut Vec<u8>, n: &MeshNode)
    ensures
        final(out)@ == old(out)@ + enc_node(node_view(*n)),
        node_ok(node_view(*n)),
{
    write_task(out, &n.task);
    write_status(out, &n.status);
    write_u8(
        out,
        if n.ever_completed {
            1
        } else {
            0
        },
    );
    proof {
        assert(final(out)@ =~= old(out)@ + enc_node(node_view(*n)));
    }
}

/// Reads a mesh node.
pub fn read_node(buf: &Vec<u8>, pos: usize) -> (r: Option<(MeshNode, usize)>)
    ensures
        r is None <==> dec_node(buf@, pos as int) is None,
        r matches Some(p) ==> (dec_node(buf@, pos as int) matches Some(q) && node_view(p.0) == q.0
            && p.1 as int == q.1),
{
    let (t, p1) = match read_task(buf, pos) {
        Some(v) => v,
        None => {
            return None;
        },
    };
    let (st, p2) = match read_status(buf, p1) {
        Some(v) => v,
        None => {
            return None;
        },
    };
    let (f, p3) = match read_u8(buf, p2) {
        Some(v) => v,
        None => {
            return None;
        },
    };
    if f == 0 || f == 1 {
        Some((MeshNode { task: t, status: st, ever_completed: f == 1 }, p3))
    } else {
        None
    }
}

/// The concatenated encodings of an edge list.
pub open spec fn enc_edge_list(xs: Seq<DependencyEdge>) -> Seq<u8>
    decreases xs.len(),
{
    if xs.len() == 0 {
        Seq::empty()
    } else {
        enc_edge(xs.first()) + enc_edge_list(xs.drop_first())
    }
}

/// The encoding of an edge vector: count, then elements.
pub open spec fn enc_edges(xs: Seq<DependencyEdge>) -> Seq<u8> {
    enc_le(xs.len(), 8) + enc_edge_list(xs)
}

/// The mirrored decoder for `cnt` edges.
pub open spec fn dec_edge_list(b: Seq<u8>, p: int, cnt: nat) -> Option<(Seq<DependencyEdge>, int)>
    decreases cnt,
{
    if cnt == 0 {
        Some((Seq::empty(), p))
    } else {
        match dec_edge(b, p) {
            None => None,
            Some((e, q)) => match dec_edge_list(b, q, (cnt - 1) as nat) {
                None => None,
                Some((rest, en)) => Some((seq![e] + rest, en)),
            },
        }
    }
}

/// The mirrored decoder for an edge vector.
pub open spec fn dec_edges(b: Seq<u8>, p: int) -> Option<(Seq<DependencyEdge>, int)> {
    match dec_len(b, p, 8) {
        None => None,
        Some((c, q)) => dec_edge_list(b, q, c),
    }
}

/// Decoding inverts edge-list encoding.
pub proof fn lemma_dec_edge_list_round(b: Seq<u8>, p: int, xs: Seq<DependencyEdge>)
    requires
        starts_with(b, p, enc_edge_list(xs)),
    ensures
        dec_edge_list(b, p, xs.len()) == Some((xs, p + enc_edge_list(xs).len() as int)),
    decreases xs.len(),
{
    if xs.len() > 0 {
        lemma_starts_with_concat(b, p, enc_edge(xs.first()), enc_edge_list(xs.drop_first()));
        lemma_dec_edge_round(b, p, xs.first());
        lemma_dec_edge_list_round(b, p + enc_edge(xs.first()).len(), xs.drop_first());
        assert(seq![xs.first()] + xs.drop_first() =~= xs);
    }
}

/// Decoding inverts edge-vector encoding.
pub proof fn lemma_dec_edges_round(b: Seq<u8>, p: int, xs: Seq<DependencyEdge>)
    requires
        starts_with(b, p, enc_edges(xs)),
        fits_len(xs.len()),
    ensures
        dec_edges(b, p) == Some((xs, p + enc_edges(xs).len() as int)),
{
    lemma_starts_with_concat(b, p, enc_le(xs.len(), 8), enc_edge_list(xs));
    lemma_dec_len_round(b, p, xs.len(), 8);
    lemma_enc_le_len(xs.len(), 8);
    lemma_dec_edge_list_round(b, p + 8, xs);
}

/// Appending one edge extends the list encoding at the end.
pub proof fn lemma_enc_edge_list_snoc(xs: Seq<DependencyEdge>, x: DependencyEdge)
    ensures
        enc_edge_list(xs.push(x)) == enc_edge_list(xs) + enc_edge(x),
    decreases xs.len(),
{
    if xs.len() == 0 {
        assert(xs.push(x).len() == 1);
        assert(xs.push(x).first() == x);
        assert(xs.push(x).drop_first() =~= Seq::<DependencyEdge>::empty());
        assert(enc_edge_list(xs.push(x).drop_first()) =~= Seq::<u8>::empty());
        assert(enc_edge_list(xs.push(x)) =~= enc_edge(x) + Seq::<u8>::empty());
        assert(enc_edge_list(xs.push(x)) =~= enc_edge_list(xs) + enc_edge(x));
    } else {
        assert(xs.push(x).drop_first() =~= xs.drop_first().push(x));
        assert(xs.push(x).first() == xs.first());
        lemma_enc_edge_list_snoc(xs.drop_first(), x);
        assert(enc_edge_list(xs.push(x)) =~= enc_edge(xs.first()) + (enc_edge_list(
            xs.drop_first(),
        ) + enc_edge(x)));
        assert(enc_edge_list(xs) + enc_edge(x) =~= enc_edge(xs.first()) + (enc_edge_list(
            xs.drop_first(),
        ) + enc_edge(x)));
    }
}

/// Appends the encoding of an edge vector.
pub fn write_edges(out: &mut Vec<u8>, xs: &Vec<DependencyEdge>)
    ensures
        final(out)@ == old(out)@ + enc_edges(xs@),
        fits_len(xs@.len()),
{
    proof {
        crate::codec::lemma_pow256_8();
    }
    write_le(out, xs.len() as u128, 8);
    let ghost mid = out@;
    let mut i: usize = 0;
    while i < xs.len()
        invariant
            i <= xs@.len(),
            out@ == mid + enc_edge_list(xs@.take(i as int)),
        decreases xs@.len() - i,
    {
        write_edge(out, &xs[i]);
        proof {
            lemma_enc_edge_list_snoc(xs@.take(i as int), xs@[i as int]);
            assert(xs@.take(i + 1) =~= xs@.take(i as int).push(xs@[i as int]));
            assert(out@ =~= mid + enc_edge_list(xs@.take(i + 1)));
        }
        i = i + 1;
    }
    proof {
        assert(xs@.take(xs@.len() as int) =~= xs@);
    }
}

/// Reads an edge vector.
pub fn read_edges(buf: &Vec<u8>, pos: usize) -> (r: Option<(Vec<DependencyEdge>, usize)>)
    ensures
        r is None <==> dec_edges(buf@, pos as int) is None,
        r matches Some(p) ==> (dec_edges(buf@, pos as int) matches Some(q) && p.0@ == q.0 && p.1
            as int == q.1),
{
    let (cnt128, q0) = match read_le(buf, pos, 8) {
        Some(v) => v,
        None => {
            return None;
        },
    };
    proof {
        crate::codec::lemma_pow256_8();
        lemma_enc_le_len(cnt128 as nat, 8);
        assert(dec_len(buf@, pos as int, 8) == Some((cnt128 as nat, q0 as int)));
    }
    let cnt = cnt128 as u64;
    let ghost cntn = cnt128 as nat;
    let mut acc: Vec<DependencyEdge> = Vec::new();
    let mut q = q0;
    let mut i: u64 = 0;
    while i < cnt
        invariant
            cntn == cnt,
            i <= cnt,
            acc@.len() == i,
            dec_edges(buf@, pos as int) == dec_edge_list(buf@, q0 as int, cntn),
            dec_edge_list(buf@, q0 as int, cntn) == (match dec_edge_list(
                buf@,
                q as int,
                (cntn - i) as nat,
            ) {
                None => None::<(Seq<DependencyEdge>, int)>,
                Some((tail, e)) => Some((acc@ + tail, e)),
            }),
        decreases cnt - i,
    {
        let ghost qq = q as int;
        let ghost acc0 = acc@;
        let ghost remaining = (cntn - i) as nat;
        let (v, q2) = match read_edge(buf, q) {
            Some(v) => v,
            None => {
                proof {
                    assert(dec_edge_list(buf@, qq, remaining) is None);
                }
                return None;
            },
        };
        acc.push(v);
        q = q2;
        i = i + 1;
        proof {
            assert(dec_edge(buf@, qq) == Some((v, q as int)));
            assert(dec_edge_list(buf@, qq, remaining) == (match dec_edge_list(
                buf@,
                q as int,
                (remaining - 1) as nat,
            ) {
                None => None::<(Seq<DependencyEdge>, int)>,
                Some((rest, e)) => Some((seq![v] + rest, e)),
            }));
            let dd = dec_edge_list(buf@, q as int, (remaining - 1) as nat);
            match dd {
                Some(pr) => {
                    assert(acc0 + (seq![v] + pr.0) =~= acc@ + pr.0);
                },
                None => {},
            }
        }
    }
    proof {
        assert(dec_edge_list(buf@, q as int, 0) == Some((Seq::<DependencyEdge>::empty(), q as int)));
        assert(acc@ + Seq::<DependencyEdge>::empty() =~= acc@);
    }
    Some((acc, q))
}

/// The views of a node vector.
pub open spec fn nodes_view(xs: Seq<MeshNode>) -> Seq<NodeView> {
    xs.map_values(|n: MeshNode| node_view(n))
}

/// The concatenated encodings of a node list.
pub open spec fn enc_node_list(xs: Seq<NodeView>) -> Seq<u8>
    decreases xs.len(),
{
    if xs.len() == 0 {
        Seq::empty()
    } else {
        enc_node(xs.first()) + enc_node_list(xs.drop_first())
    }
}

/// The encoding of a node vector: count, then elements.
pub open spec fn enc_nodes(xs: Seq<NodeView>) -> Seq<u8> {
    enc_le(xs.len(), 8) + enc_node_list(xs)
}

/// Whether every node of the vector fits.
pub open spec fn nodes_ok(xs: Seq<NodeView>) -> bool {
    fits_len(xs.len()) && forall|i: int| 0 <= i < xs.len() ==> node_ok(#[trigger] xs[i])
}

/// The mirrored decoder for `cnt` nodes.
pub open spec fn dec_node_list(b: Seq<u8>, p: int, cnt: nat) -> Option<(Seq<NodeView>, int)>
    decreases cnt,
{
    if cnt == 0 {
        Some((Seq::empty(), p))
    } else {
        match dec_node(b, p) {
            None => None,
            Some((nv, q)) => match dec_node_list(b, q, (cnt - 1) as nat) {
                None => None,
                Some((rest, e)) => Some((seq![nv] + rest, e)),
            },
        }
    }
}

/// The mirrored decoder for a node vector.
pub open spec fn dec_nodes(b: Seq<u8>, p: int) -> Option<(Seq<NodeView>, int)> {
    match dec_len(b, p, 8) {
        None => None,
        Some((c, q)) => dec_node_list(b, q, c),
    }
}

/// Decoding inverts node-list encoding.
#[verifier::rlimit(100)]
pub proof fn lemma_dec_node_list_round(b: Seq<u8>, p: int, xs: Seq<NodeView>)
    requires
        starts_with(b, p, enc_node_list(xs)),
        forall|i: int| 0 <= i < xs.len() ==> node_ok(#[trigger] xs[i]),
    ensures
        dec_node_list(b, p, xs.len()) == Some((xs, p + enc_node_list(xs).len() as int)),
    decreases xs.len(),
{
    if xs.len() > 0 {
        lemma_starts_with_concat(b, p, enc_node(xs.first()), enc_node_list(xs.drop_first()));
        assert(xs[0] == xs.first());
        lemma_dec_node_round(b, p, xs.first());
        lemma_dec_node_list_round(b, p + enc_node(xs.first()).len(), xs.drop_first());
        assert(seq![xs.first()] + xs.drop_first() =~= xs);
    }
}

/// Decoding inverts node-vector encoding.
pub proof fn lemma_dec_nodes_round(b: Seq<u8>, p: int, xs: Seq<NodeView>)
    requires
        starts_with(b, p, enc_nodes(xs)),
        nodes_ok(xs),
    ensures
        dec_nodes(b, p) == Some((xs, p + enc_nodes(xs).len() as int)),
{
    lemma_starts_with_concat(b, p, enc_le(xs.len(), 8), enc_node_list(xs));
    lemma_dec_len_round(b, p, xs.len(), 8);
    lemma_enc_le_len(xs.len(), 8);
    lemma_dec_node_list_round(b, p + 8, xs);
}

/// Appending one node extends the list encoding at the end.
pub proof fn lemma_enc_node_list_snoc(xs: Seq<NodeView>, x: NodeView)
    ensures
        enc_node_list(xs.push(x)) == enc_node_list(xs) + enc_node(x),
    decreases xs.len(),
{
    if xs.len() == 0 {
        assert(xs.push(x).len() == 1);
        assert(xs.push(x).first() == x);
        assert(xs.push(x).drop_first() =~= Seq::<NodeView>::empty());
        assert(enc_node_list(xs.push(x).drop_first()) =~= Seq::<u8>::empty());
        assert(enc_node_list(xs.push(x)) =~= enc_node(x) + Seq::<u8>::empty());
        assert(enc_node_list(xs.push(x)) =~= enc_node_list(xs) + enc_node(x));
    } else {
        assert(xs.push(x).drop_first() =~= xs.drop_first().push(x));
        assert(xs.push(x).first() == xs.first());
        lemma_enc_node_list_snoc(xs.drop_first(), x);
        assert(enc_node_list(xs.push(x)) =~= enc_node(xs.first()) + (enc_node_list(
            xs.drop_first(),
        ) + enc_node(x)));
        assert(enc_node_list(xs) + enc_node(x) =~= enc_node(xs.first()) + (enc_node_list(
            xs.drop_first(),
        ) + enc_node(x)));
    }
}

/// Appends the encoding of a node vector.
pub fn write_nodes(out: &mut Vec<u8>, xs: &Vec<MeshNode>)
    ensures
        final(out)@ == old(out)@ + enc_nodes(nodes_view(xs@)),
        nodes_ok(nodes_view(xs@)),
{
    proof {
        crate::codec::lemma_pow256_8();
        assert(nodes_view(xs@).len() == xs@.len());
    }
    write_le(out, xs.len() as u128, 8);
    let ghost mid = out@;
    let mut i: usize = 0;
    while i < xs.len()
        invariant
            i <= xs@.len(),
            out@ == mid + enc_node_list(nodes_view(xs@).take(i as int)),
            forall|j: int| 0 <= j < i ==> node_ok(#[trigger] nodes_view(xs@)[j]),
        decreases xs@.len() - i,
    {
        write_node(out, &xs[i]);
        proof {
            lemma_enc_node_list_snoc(nodes_view(xs@).take(i as int), node_view(xs@[i as int]));
            assert(nodes_view(xs@).take(i + 1) =~= nodes_view(xs@).take(i as int).push(
                node_view(xs@[i as int]),
            ));
            assert(out@ =~= mid + enc_node_list(nodes_view(xs@).take(i + 1)));
        }
        i = i + 1;
    }
    proof {
        assert(nodes_view(xs@).take(xs@.len() as int) =~= nodes_view(xs@));
    }
}

/// Reads a node vector.
pub fn read_nodes(buf: &Vec<u8>, pos: usize) -> (r: Option<(Vec<MeshNode>, usize)>)
    ensures
        r is None <==> dec_nodes(buf@, pos as int) is None,
        r matches Some(p) ==> (dec_nodes(buf@, pos as int) matches Some(q) && nodes_view(p.0@)
            == q.0 && p.1 as int == q.1),
{
    let (cnt128, q0) = match read_le(buf, pos, 8) {
        Some(v) => v,
        None => {
            return None;
        },
    };
    proof {
        crate::codec::lemma_pow256_8();
        lemma_enc_le_len(cnt128 as nat, 8);
        assert(dec_len(buf@, pos as int, 8) == Some((cnt128 as nat, q0 as int)));
    }
    let cnt = cnt128 as u64;
    let ghost cntn = cnt128 as nat;
    let mut acc: Vec<MeshNode> = Vec::new();
    let mut q = q0;
    let mut i: u64 = 0;
    while i < cnt
        invariant
            cntn == cnt,
            i <= cnt,
            acc@.len() == i,
            dec_nodes(buf@, pos as int) == dec_node_list(buf@, q0 as int, cntn),
            dec_node_list(buf@, q0 as int, cntn) == (match dec_node_list(
                buf@,
                q as int,
                (cntn - i) as nat,
            ) {
                None => None::<(Seq<NodeView>, int)>,
                Some((tail, e)) => Some((nodes_view(acc@) + tail, e)),
            }),
        decreases cnt - i,
    {
        let ghost qq = q as int;
        let ghost acc0 = nodes_view(acc@);
        let ghost remaining = (cntn - i) as nat;
        let (v, q2) = match read_node(buf, q) {
            Some(v) => v,
            None => {
                proof {
                    assert(dec_node_list(buf@, qq, remaining) is None);
                }
                return None;
            },
        };
        let ghost vv = node_view(v);
        acc.push(v);
        q = q2;
        i = i + 1;
        proof {
            assert(dec_node(buf@, qq) == Some((vv, q as int)));
            assert(nodes_view(acc@) =~= acc0.push(vv));
            assert(dec_node_list(buf@, qq, remaining) == (match dec_node_list(
                buf@,
                q as int,
                (remaining - 1) as nat,
            ) {
                None => None::<(Seq<NodeView>, int)>,
                Some((rest, e)) => Some((seq![vv] + rest, e)),
            }));
            let dd = dec_node_list(buf@, q as int, (remaining - 1) as nat);
            match dd {
                Some(pr) => {
                    assert(acc0 + (seq![vv] + pr.0) =~= nodes_view(acc@) + pr.0);
                },
                None => {},
            }
        }
    }
    proof {
        assert(dec_node_list(buf@, q as int, 0) == Some((Seq::<NodeView>::empty(), q as int)));
        assert(nodes_view(acc@) + Seq::<NodeView>::empty() =~= nodes_view(acc@));
    }
    Some((acc, q))
}

// === Whole-value entry points ==============================================

/// Encodes one task as a byte vector.
pub fn encode_task(t: &Task) -> (r: Vec<u8>)
    ensures
        r@ == enc_task(task_view(*t)),
        task_ok(task_view(*t)),
{
    let mut out: Vec<u8> = Vec::new();
    write_task(&mut out, t);
    proof {
        assert(out@ =~= enc_task(task_view(*t)));
    }
    out
}

/// Decodes one task from a byte vector. On the encoding of any task it
/// returns that task back.
pub fn decode_task(buf: &Vec<u8>) -> (r: Option<Task>)
    ensures
        r matches Some(t) ==> (dec_task(buf@, 0) matches Some(q) && task_view(t) == q.0),
        forall|tv: TaskView|
            (buf@ == enc_task(tv) && task_ok(tv)) ==> (r matches Some(t) && task_view(t) == tv),
{
    let r = read_task(buf, 0);
    proof {
        assert forall|tv: TaskView| buf@ == enc_task(tv) && task_ok(tv) implies (
        r matches Some(t) && task_view(t.0) == tv) by {
            assert(buf@.subrange(0, enc_task(tv).len() as int) =~= buf@);
            lemma_dec_task_round(buf@, 0, tv);
        };
    }
    match r {
        Some((t, _)) => Some(t),
        None => None,
    }
}

/// Encodes one task status as a byte vector.
pub fn encode_status(s: &TaskStatus) -> (r: Vec<u8>)
    ensures
        r@ == enc_status(status_view(*s)),
        status_ok(status_view(*s)),
{
    let mut out: Vec<u8> = Vec::new();
    write_status(&mut out, s);
    proof {
        assert(out@ =~= enc_status(status_view(*s)));
    }
    out
}

/// Decodes one task status from a byte vector. On the encoding of any
/// status it returns that status back.
pub fn decode_status(buf: &Vec<u8>) -> (r: Option<TaskStatus>)
    ensures
        r matches Some(st) ==> (dec_status(buf@, 0) matches Some(q) && status_view(st) == q.0),
        forall|sv: StatusView|
            (buf@ == enc_status(sv) && status_ok(sv)) ==> (r matches Some(st) && status_view(st)
                == sv),
{
    let r = read_status(buf, 0);
    proof {
        assert forall|sv: StatusView| buf@ == enc_status(sv) && status_ok(sv) implies (
        r matches Some(st) && status_view(st.0) == sv) by {
            assert(buf@.subrange(0, enc_status(sv).len() as int) =~= buf@);
            lemma_dec_status_round(buf@, 0, sv);
        };
    }
    match r {
        Some((st, _)) => Some(st),
        None => None,
    }
}

/// The encoding of a raw byte blob: length, then the bytes.
pub open spec fn enc_bytes(bs: Seq<u8>) -> Seq<u8> {
    enc_le(bs.len(), 8) + bs
}

/// The mirrored decoder for a byte blob.
pub open spec fn dec_bytes(b: Seq<u8>, p: int) -> Option<(Seq<u8>, int)> {
    match dec_len(b, p, 8) {
        None => None,
        Some((n, q)) => {
            if q + n <= b.len() {
                Some((b.subrange(q, q + n as int), q + n))
            } else {
                None
            }
        },
    }
}

/// Decoding inverts blob encoding.
pub proof fn lemma_dec_bytes_round(b: Seq<u8>, p: int, bs: Seq<u8>)
    requires
        starts_with(b, p, enc_bytes(bs)),
        fits_len(bs.len()),
    ensures
        dec_bytes(b, p) == Some((bs, p + enc_bytes(bs).len() as int)),
{
    lemma_starts_with_concat(b, p, enc_le(bs.len(), 8), bs);
    lemma_dec_len_round(b, p, bs.len(), 8);
    lemma_enc_le_len(bs.len(), 8);
    assert(b.subrange(p + 8, p + 8 + bs.len() as int) == bs);
}

/// Appends the encoding of a byte blob.
pub fn write_bytes(out: &mut Vec<u8>, bs: &Vec<u8>)
    ensures
        final(out)@ == old(out)@ + enc_bytes(bs@),
        fits_len(bs@.len()),
{
    proof {
        crate::codec::lemma_pow256_8();
    }
    write_le(out, bs.len() as u128, 8);
    let ghost mid = out@;
    let mut i: usize = 0;
    while i < bs.len()
        invariant
            i <= bs@.len(),
            out@ == mid + bs@.take(i as int),
        decreases bs@.len() - i,
    {
        out.push(bs[i]);
        proof {
            assert(out@ =~= mid + bs@.take(i + 1));
        }
        i = i + 1;
    }
    proof {
        assert(bs@.take(bs@.len() as int) =~= bs@);
        assert(out@ =~= old(out)@ + enc_bytes(bs@));
    }
}

/// Reads a byte blob.
pub fn read_bytes(buf: &Vec<u8>, pos: usize) -> (r: Option<(Vec<u8>, usize)>)
    ensures
        r is None <==> dec_bytes(buf@, pos as int) is None,
        r matches Some(p) ==> (dec_bytes(buf@, pos as int) matches Some(q) && p.0@ == q.0 && p.1
            as int == q.1),
{
    let (n128, q) = match read_le(buf, pos, 8) {
        Some(v) => v,
        None => {
            return None;
        },
    };
    if n128 > (buf.len() - q) as u128 {
        return None;
    }
    let n = n128 as usize;
    let blen = buf.len();
    let mut bytes: Vec<u8> = Vec::new();
    let mut i: usize = 0;
    while i < n
        invariant
            i <= n,
            buf@.len() == blen,
            q + n <= buf@.len(),
            bytes@ == buf@.subrange(q as int, q + i as int),
        decreases n - i,
    {
        bytes.push(buf[q + i]);
        proof {
            assert(bytes@ =~= buf@.subrange(q as int, q + i + 1));
        }
        i = i + 1;
    }
    proof {
        assert(bytes@ =~= buf@.subrange(q as int, q + n as int));
    }
    Some((bytes, q + n))
}

/// The encoding of an optional 128-bit identifier.
pub open spec fn enc_opt_u128(v: Option<u128>) -> Seq<u8> {
    match v {
        None => enc_le(0, 1),
        Some(x) => enc_le(1, 1) + enc_le(x as nat, 16),
    }
}

/// The mirrored decoder for an optional 128-bit identifier.
pub open spec fn dec_opt_u128(b: Seq<u8>, p: int) -> Option<(Option<u128>, int)> {
    match dec_len(b, p, 1) {
        None => None,
        Some((tag, q)) => {
            if tag == 0 {
                Some((None, q))
            } else if tag == 1 {
                match dec_len(b, q, 16) {
                    None => None,
                    Some((x, e)) => Some((Some(x as u128), e)),
                }
            } else {
                None
            }
        },
    }
}

/// Decoding inverts optional-identifier encoding.
pub proof fn lemma_dec_opt_u128_round(b: Seq<u8>, p: int, v: Option<u128>)
    requires
        starts_with(b, p, enc_opt_u128(v)),
    ensures
        dec_opt_u128(b, p) == Some((v, p + enc_opt_u128(v).len() as int)),
{
    crate::codec::lemma_pow256_1();
    crate::codec::lemma_pow256_16();
    lemma_enc_le_len(0, 1);
    lemma_enc_le_len(1, 1);
    match v {
        None => {
            lemma_dec_len_round(b, p, 0, 1);
        },
        Some(x) => {
            lemma_starts_with_concat(b, p, enc_le(1, 1), enc_le(x as nat, 16));
            lemma_dec_len_round(b, p, 1, 1);
            lemma_dec_len_round(b, p + 1, x as nat, 16);
            lemma_enc_le_len(x as nat, 16);
        },
    }
}

/// Appends the encoding of an optional 128-bit identifier.
pub fn write_opt_u128(out: &mut Vec<u8>, v: &Option<u128>)
    ensures
        final(out)@ == old(out)@ + enc_opt_u128(*v),
{
    match v {
        None => {
            write_u8(out, 0);
        },
        Some(x) => {
            write_u8(out, 1);
            write_u128(out, *x);
        },
    }
}

/// Reads an optional 128-bit identifier.
pub fn read_opt_u128(buf: &Vec<u8>, pos: usize) -> (r: Option<(Option<u128>, usize)>)
    ensures
        r is None <==> dec_opt_u128(buf@, pos as int) is None,
        r matches Some(p) ==> (dec_opt_u128(buf@, pos as int) matches Some(q) && p.0 == q.0 && p.1
            as int == q.1),
{
    let (tag, q) = match read_u8(buf, pos) {
        Some(v) => v,
        None => {
            return None;
        },
    };
    if tag == 0 {
        Some((None, q))
    } else if tag == 1 {
        match read_u128(buf, q) {
            Some((x, e)) => Some((Some(x), e)),
            None => None,
        }
    } else {
        None
    }
}

} // verus!
