//! Big-endian byte encodings of unsigned integers, used both for the
//! 32-bit length prefixes of the SSH wire format and for the values
//! of DER `INTEGER` contents.

use vstd::prelude::*;

verus! {

/// 256 raised to `k`.
pub open spec fn pow256(k: nat) -> nat
    decreases k,
{
    if k == 0 {
        1
    } else {
        256 * pow256((k - 1) as nat)
    }
}

/// The unsigned value of a big-endian byte sequence.
pub open spec fn be_val(b: Seq<u8>) -> nat
    decreases b.len(),
{
    if b.len() == 0 {
        0
    } else {
        (b[0] * pow256((b.len() - 1) as nat) + be_val(b.skip(1))) as nat
    }
}

/// The `k`-byte big-endian encoding of `v` (truncated to `k` bytes).
pub open spec fn be_bytes(v: nat, k: nat) -> Seq<u8>
    decreases k,
{
    if k == 0 {
        Seq::empty()
    } else {
        be_bytes(v / 256, (k - 1) as nat).push((v % 256) as u8)
    }
}

/// Appending a low byte multiplies the value by 256 and adds the byte.
pub proof fn lemma_be_val_push(b: Seq<u8>, x: u8)
    ensures
        be_val(b.push(x)) == 256 * be_val(b) + x,
    decreases b.len(),
{
    if b.len() == 0 {
        assert(b.push(x) =~= seq![x]);
        assert(seq![x].skip(1) =~= Seq::<u8>::empty());
        assert(be_val(Seq::<u8>::empty()) == 0);
        assert(pow256(0) == 1);
        assert(be_val(seq![x]) == x * 1 + 0);
    } else {
        assert(b.push(x).skip(1) =~= b.skip(1).push(x));
        lemma_be_val_push(b.skip(1), x);
        let p = pow256((b.len() - 1) as nat);
        assert(pow256(b.len() as nat) == 256 * p);
        assert(be_val(b.push(x)) == b[0] * (256 * p) + 256 * be_val(b.skip(1)) + x);
        assert(b[0] * (256 * p) == 256 * (b[0] * p)) by (nonlinear_arith);
        assert(256 * (b[0] * p) + 256 * be_val(b.skip(1)) == 256 * (b[0] * p + be_val(b.skip(1))))
            by (nonlinear_arith);
    }
}

/// `be_bytes` always produces exactly `k` bytes.
pub proof fn lemma_be_bytes_len(v: nat, k: nat)
    ensures
        be_bytes(v, k).len() == k,
    decreases k,
{
    if k > 0 {
        lemma_be_bytes_len(v / 256, (k - 1) as nat);
    }
}

/// `be_bytes` produces `k` bytes whose big-endian value is `v` again,
/// provided `v` fits in `k` bytes.
pub proof fn lemma_be_bytes_val(v: nat, k: nat)
    requires
        v < pow256(k),
    ensures
        be_bytes(v, k).len() == k,
        be_val(be_bytes(v, k)) == v,
    decreases k,
{
    if k == 0 {
    } else {
        assert(pow256(k) == 256 * pow256((k - 1) as nat));
        assert(v / 256 < pow256((k - 1) as nat)) by (nonlinear_arith)
            requires
                v < 256 * pow256((k - 1) as nat),
        ;
        lemma_be_bytes_val(v / 256, (k - 1) as nat);
        lemma_be_val_push(be_bytes(v / 256, (k - 1) as nat), (v % 256) as u8);
        assert(256 * (v / 256) + v % 256 == v) by (nonlinear_arith);
    }
}

/// The four-byte big-endian encoding of a 32-bit value.
pub fn u32_be(v: u32) -> (r: Vec<u8>)
    ensures
        r@ == be_bytes(v as nat, 4),
        r@.len() == 4,
{
    let b3: u8 = (v % 256) as u8;
    let m1: u32 = v / 256;
    let b2: u8 = (m1 % 256) as u8;
    let m2: u32 = m1 / 256;
    let b1: u8 = (m2 % 256) as u8;
    let m3: u32 = m2 / 256;
    let b0: u8 = (m3 % 256) as u8;
    let mut r: Vec<u8> = Vec::new();
    r.push(b0);
    r.push(b1);
    r.push(b2);
    r.push(b3);
    proof {
        reveal_with_fuel(be_bytes, 5);
        assert(m3 as nat / 256 == 0) by (nonlinear_arith)
            requires
                m3 == (v as nat / 256) / 256 / 256,
                v < 0x100000000,
        ;
        assert(r@ =~= be_bytes(v as nat, 4));
    }
    r
}

} // verus!
