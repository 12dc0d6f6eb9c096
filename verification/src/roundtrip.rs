//! The round trip at the heart of the encoder: the DER
//! `SubjectPublicKeyInfo` of any RSA public key parses back to
//! exactly that key's OID, modulus and exponent. Together with the
//! contract of `der_to_openssh` this pins the output line for every
//! freshly generated key.

use vstd::prelude::*;

use crate::bytes::be_bytes;
use crate::bytes::be_val;
use crate::bytes::lemma_be_bytes_len;
use crate::bytes::lemma_be_bytes_val;
use crate::bytes::pow256;
use crate::der::int_content_ok;
use crate::der::len_at;
use crate::der::oid_components;
use crate::der::oid_subids;
use crate::der::rsa_oid;
use crate::der::spki_parse;
use crate::der::tlv_at;

verus! {

/// The minimal DER encoding of a length below 2^24.
pub open spec fn der_len_enc(l: nat) -> Seq<u8> {
    if l < 0x80 {
        seq![l as u8]
    } else if l < 0x100 {
        seq![0x81u8] + be_bytes(l, 1)
    } else if l < 0x10000 {
        seq![0x82u8] + be_bytes(l, 2)
    } else {
        seq![0x83u8] + be_bytes(l, 3)
    }
}

/// A DER TLV: tag, minimal length, content.
pub open spec fn tlv(tag: u8, c: Seq<u8>) -> Seq<u8> {
    seq![tag] + der_len_enc(c.len()) + c
}

/// The content bytes of the RSA-encryption OID 1.2.840.113549.1.1.1.
pub open spec fn rsa_oid_bytes() -> Seq<u8> {
    seq![0x2Au8, 0x86u8, 0x48u8, 0x86u8, 0xF7u8, 0x0Du8, 0x01u8, 0x01u8, 0x01u8]
}

/// The DER `SubjectPublicKeyInfo` of an RSA public key with modulus
/// content `n` and exponent content `e`.
pub open spec fn spki_der_of(n: Seq<u8>, e: Seq<u8>) -> Seq<u8> {
    tlv(
        0x30,
        tlv(0x30, tlv(0x06, rsa_oid_bytes()) + tlv(0x05, Seq::empty())) + tlv(
            0x03,
            seq![0u8] + tlv(0x30, tlv(0x02, n) + tlv(0x02, e)),
        ),
    )
}

proof fn lemma_der_len_enc_len(l: nat)
    requires
        l < 0x1000000,
    ensures
        1 <= der_len_enc(l).len() <= 4,
{
    if l < 0x80 {
    } else if l < 0x100 {
        lemma_be_bytes_len(l, 1);
    } else if l < 0x10000 {
        lemma_be_bytes_len(l, 2);
    } else {
        lemma_be_bytes_len(l, 3);
    }
}

proof fn lemma_tlv_len(tag: u8, c: Seq<u8>)
    requires
        c.len() < 0x1000000,
    ensures
        tlv(tag, c).len() == 1 + der_len_enc(c.len()).len() + c.len(),
        1 <= der_len_enc(c.len()).len() <= 4,
{
    lemma_der_len_enc_len(c.len());
}

/// A subrange known to hold `x + y` holds `x` and then `y`.
proof fn lemma_subrange_split(s: Seq<u8>, a: int, x: Seq<u8>, y: Seq<u8>)
    requires
        0 <= a,
        a + x.len() + y.len() <= s.len(),
        s.subrange(a, a + x.len() + y.len()) == x + y,
    ensures
        s.subrange(a, a + x.len() as int) == x,
        s.subrange(a + x.len(), a + x.len() + y.len()) == y,
{
    assert forall|k: int| 0 <= k < x.len() implies s.subrange(a, a + x.len() as int)[k]
        == x[k] by {
        assert(s.subrange(a, a + x.len() + y.len())[k] == s[a + k]);
        assert((x + y)[k] == x[k]);
    }
    assert(s.subrange(a, a + x.len() as int) =~= x);
    assert forall|k: int| 0 <= k < y.len() implies s.subrange(
        a + x.len(),
        a + x.len() + y.len(),
    )[k] == y[k] by {
        assert(s.subrange(a, a + x.len() + y.len())[x.len() + k] == s[a + x.len() + k]);
        assert((x + y)[x.len() + k] == y[k]);
    }
    assert(s.subrange(a + x.len(), a + x.len() + y.len()) =~= y);
}

proof fn proof_be_val_2(b: Seq<u8>)
    requires
        b.len() == 2,
    ensures
        be_val(b) == b[0] * 256 + b[1],
{
    reveal_with_fuel(pow256, 3);
    assert(pow256(0) == 1 && pow256(1) == 256);
    assert(b.skip(1).skip(1) =~= Seq::<u8>::empty());
    assert(b.skip(1)[0] == b[1]);
    assert(be_val(Seq::<u8>::empty()) == 0);
    assert(be_val(b.skip(1)) == b[1] * pow256(0) + be_val(b.skip(1).skip(1)));
    assert(be_val(b) == b[0] * pow256(1) + be_val(b.skip(1)));
}

proof fn proof_be_val_3(b: Seq<u8>)
    requires
        b.len() == 3,
    ensures
        be_val(b) == b[0] * 0x10000 + b[1] * 256 + b[2],
{
    reveal_with_fuel(pow256, 4);
    assert(b.skip(1) =~= seq![b[1], b[2]]);
    proof_be_val_2(seq![b[1], b[2]]);
    assert(be_val(b) == b[0] * pow256(2) + be_val(b.skip(1)));
}

/// Reading a DER length where a minimal length encoding was written
/// yields the encoded value.
proof fn lemma_len_at_enc(s: Seq<u8>, i: int, l: nat)
    requires
        l < 0x1000000,
        0 <= i,
        i + der_len_enc(l).len() <= s.len(),
        s.subrange(i, i + der_len_enc(l).len() as int) == der_len_enc(l),
    ensures
        len_at(s, i) == Some((l, i + der_len_enc(l).len() as int)),
{
    reveal_with_fuel(pow256, 5);
    let d = der_len_enc(l);
    if l < 0x80 {
        assert(s[i] == d[0]) by {
            assert(s.subrange(i, i + d.len() as int)[0] == s[i]);
        }
    } else if l < 0x100 {
        lemma_be_bytes_len(l, 1);
        lemma_be_bytes_val(l, 1);
        let b = be_bytes(l, 1);
        assert(b.skip(1) =~= Seq::<u8>::empty());
        assert(be_val(b) == b[0] * pow256(0) + be_val(b.skip(1)));
        assert(b[0] == l);
        assert(s[i] == d[0] && s[i + 1] == d[1]) by {
            assert(s.subrange(i, i + d.len() as int)[0] == s[i]);
            assert(s.subrange(i, i + d.len() as int)[1] == s[i + 1]);
        }
        assert(d[1] == b[0]);
    } else if l < 0x10000 {
        lemma_be_bytes_len(l, 2);
        lemma_be_bytes_val(l, 2);
        let b = be_bytes(l, 2);
        proof_be_val_2(b);
        assert(s[i] == d[0] && s[i + 1] == d[1] && s[i + 2] == d[2]) by {
            assert(s.subrange(i, i + d.len() as int)[0] == s[i]);
            assert(s.subrange(i, i + d.len() as int)[1] == s[i + 1]);
            assert(s.subrange(i, i + d.len() as int)[2] == s[i + 2]);
        }
        assert(d[1] == b[0] && d[2] == b[1]);
        assert(b[0] * 256 + b[1] == l);
        assert(b[0] != 0);
    } else {
        lemma_be_bytes_len(l, 3);
        lemma_be_bytes_val(l, 3);
        let b = be_bytes(l, 3);
        proof_be_val_3(b);
        assert(s[i] == d[0] && s[i + 1] == d[1] && s[i + 2] == d[2] && s[i + 3] == d[3]) by {
            assert(s.subrange(i, i + d.len() as int)[0] == s[i]);
            assert(s.subrange(i, i + d.len() as int)[1] == s[i + 1]);
            assert(s.subrange(i, i + d.len() as int)[2] == s[i + 2]);
            assert(s.subrange(i, i + d.len() as int)[3] == s[i + 3]);
        }
        assert(d[1] == b[0] && d[2] == b[1] && d[3] == b[2]);
        assert(b[0] * 0x10000 + b[1] * 256 + b[2] == l);
        assert(b[0] != 0);
    }
}

/// Reading a TLV where one was written yields its content bounds and
/// content.
proof fn lemma_tlv_at_enc(s: Seq<u8>, i: int, tag: u8, c: Seq<u8>)
    requires
        c.len() < 0x1000000,
        0 <= i,
        i + tlv(tag, c).len() <= s.len(),
        s.subrange(i, i + tlv(tag, c).len() as int) == tlv(tag, c),
    ensures
        ({
            let c0 = i + 1 + der_len_enc(c.len()).len();
            let c1 = i + tlv(tag, c).len();
            &&& tlv_at(s, i, tag) == Some((c0 as int, c1 as int))
            &&& s.subrange(c0 as int, c1 as int) == c
        }),
{
    let t = tlv(tag, c);
    let d = der_len_enc(c.len());
    lemma_tlv_len(tag, c);
    lemma_subrange_split(s, i, seq![tag] + d, c);
    lemma_subrange_split(s, i, seq![tag], d);
    assert(s[i] == tag) by {
        assert(s.subrange(i, i + 1)[0] == s[i]);
        assert(seq![tag][0] == tag);
    }
    lemma_len_at_enc(s, i + 1, c.len());
}

/// The RSA-encryption OID content decodes to the component tuple
/// (1, 2, 840, 113549, 1, 1, 1).
proof fn lemma_rsa_oid_components()
    ensures
        oid_components(rsa_oid_bytes()) == Some(rsa_oid()),
{
    let c9 = rsa_oid_bytes();
    let c8 = seq![0x86u8, 0x48u8, 0x86u8, 0xF7u8, 0x0Du8, 0x01u8, 0x01u8, 0x01u8];
    let c7 = seq![0x48u8, 0x86u8, 0xF7u8, 0x0Du8, 0x01u8, 0x01u8, 0x01u8];
    let c6 = seq![0x86u8, 0xF7u8, 0x0Du8, 0x01u8, 0x01u8, 0x01u8];
    let c5 = seq![0xF7u8, 0x0Du8, 0x01u8, 0x01u8, 0x01u8];
    let c4 = seq![0x0Du8, 0x01u8, 0x01u8, 0x01u8];
    let c3 = seq![0x01u8, 0x01u8, 0x01u8];
    let c2 = seq![0x01u8, 0x01u8];
    let c1 = seq![0x01u8];
    let c0 = Seq::<u8>::empty();
    assert(c9.skip(1) =~= c8);
    assert(c8.skip(1) =~= c7);
    assert(c7.skip(1) =~= c6);
    assert(c6.skip(1) =~= c5);
    assert(c5.skip(1) =~= c4);
    assert(c4.skip(1) =~= c3);
    assert(c3.skip(1) =~= c2);
    assert(c2.skip(1) =~= c1);
    assert(c1.skip(1) =~= c0);
    assert(oid_subids(c0, 0, false) == Some(Seq::<nat>::empty()));
    assert(oid_subids(c1, 0, false) == Some(seq![1nat] + Seq::<nat>::empty()));
    assert(oid_subids(c2, 0, false) == Some(seq![1nat] + (seq![1nat] + Seq::<nat>::empty())));
    assert(oid_subids(c3, 0, false) == Some(
        seq![1nat] + (seq![1nat] + (seq![1nat] + Seq::<nat>::empty())),
    ));
    let tail3 = seq![1nat] + (seq![1nat] + (seq![1nat] + Seq::<nat>::empty()));
    assert(oid_subids(c4, 887, true) == Some(seq![113549nat] + tail3));
    assert(oid_subids(c5, 6, true) == oid_subids(c4, 887, true));
    assert(oid_subids(c6, 0, false) == oid_subids(c5, 6, true));
    let tail6 = seq![113549nat] + tail3;
    assert(oid_subids(c7, 6, true) == Some(seq![840nat] + tail6));
    assert(oid_subids(c8, 0, false) == oid_subids(c7, 6, true));
    let tail8 = seq![840nat] + tail6;
    assert(oid_subids(c9, 0, false) == Some(seq![42nat] + tail8));
    let vs = seq![42nat] + tail8;
    assert(vs =~= seq![42nat, 840nat, 113549nat, 1nat, 1nat, 1nat]);
    let ws = seq![42nat, 840nat, 113549nat, 1nat, 1nat, 1nat];
    assert(oid_subids(c9, 0, false) == Some(ws));
    assert(forall|k: int| 0 <= k < ws.len() ==> ws[k] < 0x10000000000000000);
    assert(seq![1u64, 2u64] + ws.skip(1).map_values(|v: nat| v as u64) =~= rsa_oid());
}

/// Where every TLV of the grammar sits where the parser looks for it
/// and every side condition holds, the parse succeeds with the OID
/// and the two INTEGER contents.
proof fn lemma_spki_parse_eval(
    s: Seq<u8>,
    b0: int,
    b1: int,
    a0: int,
    a1: int,
    o0: int,
    o1: int,
    s0: int,
    s1: int,
    r0: int,
    r1: int,
    n0: int,
    n1: int,
    e0: int,
    e1: int,
    oid: Seq<u64>,
)
    requires
        tlv_at(s, 0, 0x30) == Some((b0, b1)),
        b1 == s.len(),
        tlv_at(s, b0, 0x30) == Some((a0, a1)),
        tlv_at(s, a0, 0x06) == Some((o0, o1)),
        tlv_at(s, o1, 0x05) == Some((a1, a1)),
        oid_components(s.subrange(o0, o1)) == Some(oid),
        tlv_at(s, a1, 0x03) == Some((s0, s1)),
        s1 == b1,
        s0 < s1,
        s[s0] == 0,
        tlv_at(s, s0 + 1, 0x30) == Some((r0, r1)),
        r1 == s1,
        tlv_at(s, r0, 0x02) == Some((n0, n1)),
        int_content_ok(s.subrange(n0, n1)),
        tlv_at(s, n1, 0x02) == Some((e0, e1)),
        e1 == r1,
        int_content_ok(s.subrange(e0, e1)),
    ensures
        spki_parse(s) == Some((oid, s.subrange(n0, n1), s.subrange(e0, e1))),
{
}

/// Round trip: the DER of an RSA public key parses back to exactly
/// the RSA OID and the key's modulus and exponent contents. With the
/// contract of `der_to_openssh`, the output blob of a freshly
/// generated key carries that very modulus and exponent.
#[verifier::rlimit(100)]
pub proof fn lemma_spki_round_trip(n: Seq<u8>, e: Seq<u8>)
    requires
        int_content_ok(n),
        int_content_ok(e),
        n.len() < 0x100000,
        e.len() < 0x100000,
    ensures
        spki_parse(spki_der_of(n, e)) == Some((rsa_oid(), n, e)),
{
    let oid_t = tlv(0x06, rsa_oid_bytes());
    let null_t = tlv(0x05, Seq::<u8>::empty());
    let alg_c = oid_t + null_t;
    let alg_t = tlv(0x30, alg_c);
    let n_t = tlv(0x02, n);
    let e_t = tlv(0x02, e);
    let rsa_c = n_t + e_t;
    let rsa_t = tlv(0x30, rsa_c);
    let bits_c = seq![0u8] + rsa_t;
    let bits_t = tlv(0x03, bits_c);
    let body = alg_t + bits_t;
    let s = tlv(0x30, body);
    assert(spki_der_of(n, e) == s);

    lemma_tlv_len(0x06, rsa_oid_bytes());
    lemma_tlv_len(0x05, Seq::<u8>::empty());
    lemma_tlv_len(0x30, alg_c);
    lemma_tlv_len(0x02, n);
    lemma_tlv_len(0x02, e);
    lemma_tlv_len(0x30, rsa_c);
    lemma_tlv_len(0x03, bits_c);
    lemma_tlv_len(0x30, body);

    // the outer SEQUENCE fills the input exactly
    assert(s.subrange(0, s.len() as int) =~= s);
    lemma_tlv_at_enc(s, 0, 0x30, body);
    let b0 = 1 + der_len_enc(body.len()).len() as int;
    let b1 = s.len() as int;
    assert(tlv_at(s, 0, 0x30) == Some((b0, b1)));
    assert(b1 == b0 + body.len());

    // the algorithm SEQUENCE, then the BIT STRING, fill the outer one
    lemma_subrange_split(s, b0, alg_t, bits_t);
    lemma_tlv_at_enc(s, b0, 0x30, alg_c);
    let a0 = b0 + 1 + der_len_enc(alg_c.len()).len() as int;
    let a1 = b0 + alg_t.len() as int;
    assert(tlv_at(s, b0, 0x30) == Some((a0, a1)));

    // the OID, then the NULL, fill the algorithm SEQUENCE
    lemma_subrange_split(s, a0, oid_t, null_t);
    lemma_tlv_at_enc(s, a0, 0x06, rsa_oid_bytes());
    let o0 = a0 + 1 + der_len_enc(9).len() as int;
    let o1 = a0 + oid_t.len() as int;
    assert(tlv_at(s, a0, 0x06) == Some((o0, o1)));

    lemma_tlv_at_enc(s, o1, 0x05, Seq::<u8>::empty());
    assert(tlv_at(s, o1, 0x05) == Some((o1 + 2, o1 + 2)));
    assert(o1 + 2 == a1);
    assert(tlv_at(s, o1, 0x05) == Some((a1, a1)));

    // the OID bytes decode to the RSA components
    lemma_rsa_oid_components();
    assert(oid_components(s.subrange(o0, o1)) == Some(rsa_oid()));

    // the BIT STRING ends with the outer SEQUENCE
    lemma_tlv_at_enc(s, a1, 0x03, bits_c);
    let s0 = a1 + 1 + der_len_enc(bits_c.len()).len() as int;
    let s1 = a1 + bits_t.len() as int;
    assert(tlv_at(s, a1, 0x03) == Some((s0, s1)));
    assert(s1 == b1);

    // no unused bits, and the inner SEQUENCE fills the payload
    lemma_subrange_split(s, s0, seq![0u8], rsa_t);
    assert(s[s0] == 0) by {
        assert(s.subrange(s0, s0 + 1)[0] == s[s0]);
        assert(seq![0u8][0] == 0);
    }
    lemma_tlv_at_enc(s, s0 + 1, 0x30, rsa_c);
    let r0 = s0 + 2 + der_len_enc(rsa_c.len()).len() as int;
    let r1 = s0 + 1 + rsa_t.len() as int;
    assert(tlv_at(s, s0 + 1, 0x30) == Some((r0, r1)));
    assert(r1 == s1);

    // the two INTEGERs fill the inner SEQUENCE exactly
    lemma_subrange_split(s, r0, n_t, e_t);
    lemma_tlv_at_enc(s, r0, 0x02, n);
    let n0 = r0 + 1 + der_len_enc(n.len()).len() as int;
    let n1 = r0 + n_t.len() as int;
    assert(tlv_at(s, r0, 0x02) == Some((n0, n1)));
    assert(s.subrange(n0, n1) == n);

    lemma_tlv_at_enc(s, n1, 0x02, e);
    let e0 = n1 + 1 + der_len_enc(e.len()).len() as int;
    let e1 = n1 + e_t.len() as int;
    assert(tlv_at(s, n1, 0x02) == Some((e0, e1)));
    assert(e1 == r1);
    assert(s.subrange(e0, e1) == e);

    lemma_spki_parse_eval(
        s,
        b0,
        b1,
        a0,
        a1,
        o0,
        o1,
        s0,
        s1,
        r0,
        r1,
        n0,
        n1,
        e0,
        e1,
        rsa_oid(),
    );
}

} // verus!
