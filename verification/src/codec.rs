//! A deterministic byte codec for the orchestrator's data model.
//! Encoders are specification functions over byte sequences; every
//! decoder is proved to invert them: whenever a buffer holds an
//! encoding, decoding returns the encoded value and the position past
//! it.

use vstd::prelude::*;
use vstd::arithmetic::div_mod::lemma_fundamental_div_mod;
use crate::retry::pow_nat;

verus! {

/// Whether `pat` occurs in `b` at offset `pos`.
pub open spec fn starts_with(b: Seq<u8>, pos: int, pat: Seq<u8>) -> bool {
    0 <= pos && pos + pat.len() <= b.len() && b.subrange(pos, pos + pat.len() as int) == pat
}

/// A pattern that is a concatenation splits into its parts.
pub proof fn lemma_starts_with_concat(b: Seq<u8>, pos: int, s1: Seq<u8>, s2: Seq<u8>)
    requires
        starts_with(b, pos, s1 + s2),
    ensures
        starts_with(b, pos, s1),
        starts_with(b, pos + s1.len(), s2),
{
    let whole = s1 + s2;
    assert(b.subrange(pos, pos + s1.len() as int) =~= s1) by {
        assert forall|i: int| 0 <= i < s1.len() implies #[trigger] b.subrange(
            pos,
            pos + s1.len() as int,
        )[i] == s1[i] by {
            assert(b.subrange(pos, pos + whole.len() as int)[i] == b[pos + i]);
            assert(whole[i] == s1[i]);
        };
    }
    assert(b.subrange(pos + s1.len(), pos + s1.len() + s2.len() as int) =~= s2) by {
        assert forall|i: int| 0 <= i < s2.len() implies #[trigger] b.subrange(
            pos + s1.len(),
            pos + s1.len() + s2.len() as int,
        )[i] == s2[i] by {
            assert(b.subrange(pos, pos + whole.len() as int)[s1.len() + i] == b[pos + s1.len()
                + i]);
            assert(whole[s1.len() + i] == s2[i]);
        };
    }
}

/// The little-endian encoding of `v` in `n` bytes.
pub open spec fn enc_le(v: nat, n: nat) -> Seq<u8>
    decreases n,
{
    if n == 0 {
        Seq::empty()
    } else {
        seq![(v % 256) as u8] + enc_le(v / 256, (n - 1) as nat)
    }
}

/// The value of a little-endian byte sequence.
pub open spec fn le_val(b: Seq<u8>) -> nat
    decreases b.len(),
{
    if b.len() == 0 {
        0
    } else {
        b[0] as nat + 256 * le_val(b.drop_first())
    }
}

/// The encoding always has the requested length.
pub proof fn lemma_enc_le_len(v: nat, n: nat)
    ensures
        enc_le(v, n).len() == n,
    decreases n,
{
    if n > 0 {
        lemma_enc_le_len(v / 256, (n - 1) as nat);
    }
}

/// Decoding inverts encoding for values within range.
pub proof fn lemma_le_roundtrip(v: nat, n: nat)
    requires
        v < pow_nat(256, n),
    ensures
        le_val(enc_le(v, n)) == v,
    decreases n,
{
    if n == 0 {
    } else {
        let rest = enc_le(v / 256, (n - 1) as nat);
        assert(enc_le(v, n).drop_first() =~= rest);
        let pw1 = pow_nat(256, (n - 1) as nat);
        assert(pow_nat(256, n) == 256 * pw1);
        assert(v / 256 < pw1) by (nonlinear_arith)
            requires
                v < 256 * pw1,
        ;
        lemma_le_roundtrip(v / 256, (n - 1) as nat);
        lemma_fundamental_div_mod(v as int, 256);
    }
}

/// Appends the `n`-byte little-endian encoding of `v`.
pub fn write_le(out: &mut Vec<u8>, v: u128, n: usize)
    requires
        n <= 16,
    ensures
        final(out)@ == old(out)@ + enc_le(v as nat, n as nat),
{
    let ghost orig = out@;
    let ghost v0 = v as nat;
    let mut cur = v;
    let mut k: usize = 0;
    proof {
        assert(out@ + enc_le(cur as nat, (n - k) as nat) =~= orig + enc_le(v0, n as nat));
    }
    while k < n
        invariant
            k <= n,
            orig + enc_le(v0, n as nat) =~= out@ + enc_le(cur as nat, (n - k) as nat),
        decreases n - k,
    {
        let b = (cur % 256) as u8;
        let ghost prev = out@;
        let ghost prevcur = cur as nat;
        out.push(b);
        cur = cur / 256;
        proof {
            assert(enc_le(prevcur, (n - k) as nat) =~= seq![(prevcur % 256) as u8] + enc_le(
                prevcur / 256,
                (n - k - 1) as nat,
            ));
            assert(out@ =~= prev + seq![(prevcur % 256) as u8]);
            assert(out@ + enc_le(cur as nat, (n - (k + 1)) as nat) =~= prev + enc_le(
                prevcur,
                (n - k) as nat,
            ));
        }
        k = k + 1;
    }
    proof {
        assert(enc_le(cur as nat, 0) =~= Seq::<u8>::empty());
        assert(out@ =~= out@ + Seq::<u8>::empty());
    }
}

/// Reads an `n`-byte little-endian value. Returns the value and the
/// position past it; fails exactly when the buffer is too short.
pub fn read_le(buf: &Vec<u8>, pos: usize, n: usize) -> (r: Option<(u128, usize)>)
    requires
        n <= 16,
    ensures
        r is None <==> pos + n > buf@.len(),
        r matches Some(p) ==> p.0 < pow_nat(256, n as nat) && p.1 == pos + n && starts_with(
            buf@,
            pos as int,
            enc_le(p.0 as nat, n as nat),
        ) && p.0 as nat == le_val(buf@.subrange(pos as int, pos + n as int)),
        forall|v: u128|
            starts_with(buf@, pos as int, enc_le(v as nat, n as nat)) && v < pow_nat(
                256,
                n as nat,
            ) ==> (r matches Some(p) && p.0 == v),
{
    if pos > buf.len() || n > buf.len() - pos {
        proof {
            assert forall|v: u128| !starts_with(
                buf@,
                pos as int,
                enc_le(v as nat, n as nat),
            ) by {
                lemma_enc_le_len(v as nat, n as nat);
            };
        }
        return None;
    }
    let blen = buf.len();
    let mut val: u128 = 0;
    let mut i: usize = n;
    while i > 0
        invariant
            i <= n,
            n <= 16,
            buf@.len() == blen,
            pos + n <= buf@.len(),
            val == le_val(buf@.subrange(pos + i, pos + n as int)),
            val < pow_nat(256, (n - i) as nat),
        decreases i,
    {
        i = i - 1;
        let b = buf[pos + i];
        proof {
            let sub = buf@.subrange(pos + i, pos + n as int);
            assert(sub[0] == buf@[pos + i]);
            assert(sub.drop_first() =~= buf@.subrange(pos + i + 1, pos + n as int));
            assert(pow_nat(256, (n - i) as nat) == 256 * pow_nat(256, (n - i - 1) as nat));
            let restv = le_val(sub.drop_first());
            let pw = pow_nat(256, (n - i - 1) as nat);
            let bn = b as nat;
            assert(bn + 256 * restv < 256 * pw) by (nonlinear_arith)
                requires
                    bn < 256,
                    restv < pw,
            ;
            lemma_pow256_16();
            assert(pow_nat(256, (n - i) as nat) <= pow_nat(256, 16)) by {
                lemma_pow256_monotone((n - i) as nat, 16);
            }
        }
        val = val * 256 + (b as u128);
    }
    proof {
        let sub = buf@.subrange(pos as int, pos + n as int);
        assert(val == le_val(sub));
        // The recomposed bytes are exactly the buffer bytes.
        lemma_le_val_enc(sub);
        assert(starts_with(buf@, pos as int, enc_le(val as nat, n as nat))) by {
            assert(enc_le(le_val(sub), sub.len() as nat) =~= sub);
        }
        assert forall|v: u128|
            starts_with(buf@, pos as int, enc_le(v as nat, n as nat)) && v < pow_nat(
                256,
                n as nat,
            ) implies val == v by {
            lemma_enc_le_len(v as nat, n as nat);
            assert(buf@.subrange(pos as int, pos + n as int) == enc_le(v as nat, n as nat));
            lemma_le_roundtrip(v as nat, n as nat);
        };
    }
    Some((val, pos + n))
}

/// Sixteen bytes cover exactly the 128-bit range.
pub proof fn lemma_pow256_16()
    ensures
        pow_nat(256, 16) == 0x1_0000_0000_0000_0000_0000_0000_0000_0000,
{
    reveal_with_fuel(pow_nat, 17);
}

/// Eight bytes cover exactly the 64-bit range.
pub proof fn lemma_pow256_8()
    ensures
        pow_nat(256, 8) == 0x1_0000_0000_0000_0000,
{
    reveal_with_fuel(pow_nat, 9);
}

/// Four bytes cover exactly the 32-bit range.
pub proof fn lemma_pow256_4()
    ensures
        pow_nat(256, 4) == 0x1_0000_0000,
{
    reveal_with_fuel(pow_nat, 5);
}

/// One byte covers exactly the 8-bit range.
pub proof fn lemma_pow256_1()
    ensures
        pow_nat(256, 1) == 256,
{
    reveal_with_fuel(pow_nat, 2);
}

/// The mirrored decoder for an `n`-byte little-endian value.
pub open spec fn dec_len(b: Seq<u8>, p: int, n: nat) -> Option<(nat, int)> {
    if 0 <= p && p + n <= b.len() {
        Some((le_val(b.subrange(p, p + n as int)), p + n))
    } else {
        None
    }
}

/// Decoding inverts encoding at any buffer position.
pub proof fn lemma_dec_len_round(b: Seq<u8>, p: int, v: nat, n: nat)
    requires
        starts_with(b, p, enc_le(v, n)),
        v < pow_nat(256, n),
    ensures
        dec_len(b, p, n) == Some((v, p + n)),
{
    lemma_enc_le_len(v, n);
    assert(b.subrange(p, p + n as int) == enc_le(v, n));
    lemma_le_roundtrip(v, n);
}

/// Powers of 256 are monotone in the exponent.
pub proof fn lemma_pow256_monotone(a: nat, b: nat)
    requires
        a <= b,
    ensures
        pow_nat(256, a) <= pow_nat(256, b),
    decreases b,
{
    if a < b {
        lemma_pow256_monotone(a, (b - 1) as nat);
        assert(pow_nat(256, b) == 256 * pow_nat(256, (b - 1) as nat));
        assert(256 * pow_nat(256, (b - 1) as nat) >= pow_nat(256, (b - 1) as nat)) by (
        nonlinear_arith)
            requires
                pow_nat(256, (b - 1) as nat) >= 0,
        ;
    }
}

/// Any byte sequence is the encoding of its value.
pub proof fn lemma_le_val_enc(b: Seq<u8>)
    ensures
        le_val(b) < pow_nat(256, b.len() as nat),
        enc_le(le_val(b), b.len() as nat) =~= b,
    decreases b.len(),
{
    if b.len() == 0 {
    } else {
        lemma_le_val_enc(b.drop_first());
        let v = le_val(b);
        let restv = le_val(b.drop_first());
        let b0 = b[0] as nat;
        let pw = pow_nat(256, (b.len() - 1) as nat);
        assert(v == b0 + 256 * restv);
        assert(v % 256 == b0 && v / 256 == restv) by (nonlinear_arith)
            requires
                v == b0 + 256 * restv,
                0 <= b0 < 256,
                restv >= 0,
        ;
        assert(pow_nat(256, b.len() as nat) == 256 * pow_nat(256, (b.len() - 1) as nat));
        assert(v < 256 * pw) by (nonlinear_arith)
            requires
                v == b0 + 256 * restv,
                0 <= b0 < 256,
                restv < pw,
        ;
        assert(enc_le(v, b.len() as nat) =~= seq![(v % 256) as u8] + enc_le(
            v / 256,
            (b.len() - 1) as nat,
        ));
        assert(enc_le(v, b.len() as nat) =~= b);
    }
}

} // verus!
