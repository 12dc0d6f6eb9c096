//! The OpenSSH single-line encoding of an RSA public key: a blob of
//! three length-prefixed fields (`"ssh-rsa"`, the exponent `mpint`,
//! the modulus `mpint`), emitted as `ssh-rsa <base64 of the blob>`.

use vstd::prelude::*;

use crate::Error;
use crate::b64::b64_encode_of;
use crate::b64::encode_base64;
use crate::bytes::be_bytes;
use crate::bytes::be_val;
use crate::bytes::lemma_be_bytes_val;
use crate::bytes::pow256;
use crate::bytes::u32_be;
use crate::der::parse_spki;
use crate::der::rsa_oid;
use crate::der::spki_parse;

verus! {

/// `b` without its leading zero bytes.
pub open spec fn strip_zeros(b: Seq<u8>) -> Seq<u8>
    decreases b.len(),
{
    if b.len() > 0 && b[0] == 0 {
        strip_zeros(b.skip(1))
    } else {
        b
    }
}

/// The SSH `mpint` payload of the non-negative big-endian integer
/// `b`: empty for zero; otherwise the minimal unsigned encoding, with
/// one zero byte prepended where its top bit would read as a sign.
pub open spec fn mpint_of(b: Seq<u8>) -> Seq<u8> {
    let m = strip_zeros(b);
    if m.len() == 0 {
        m
    } else if m[0] >= 0x80 {
        seq![0u8] + m
    } else {
        m
    }
}

/// A length-prefixed field: a 32-bit big-endian byte count, then the
/// payload.
pub open spec fn frame(p: Seq<u8>) -> Seq<u8> {
    be_bytes(p.len(), 4) + p
}

/// The ASCII bytes of `ssh-rsa`.
pub open spec fn ssh_rsa_tag() -> Seq<u8> {
    seq![115u8, 115u8, 104u8, 45u8, 114u8, 115u8, 97u8]
}

/// The SSH public-key blob for modulus content `n` and exponent
/// content `e` (both unsigned big-endian).
pub open spec fn ssh_blob(n: Seq<u8>, e: Seq<u8>) -> Seq<u8> {
    frame(ssh_rsa_tag()) + frame(mpint_of(e)) + frame(mpint_of(n))
}

/// The full output line: `ssh-rsa `, then the base64 of the blob.
pub open spec fn ssh_line(n: Seq<u8>, e: Seq<u8>) -> Seq<char> {
    "ssh-rsa "@ + b64_encode_of(ssh_blob(n, e))
}

proof fn lemma_strip_zeros_val(b: Seq<u8>)
    ensures
        be_val(strip_zeros(b)) == be_val(b),
        strip_zeros(b).len() <= b.len(),
        strip_zeros(b).len() > 0 ==> strip_zeros(b)[0] != 0,
    decreases b.len(),
{
    if b.len() > 0 && b[0] == 0 {
        lemma_strip_zeros_val(b.skip(1));
    }
}

/// The `mpint` sign rule and value: the payload is empty exactly for
/// the value zero, never reads as negative, and stands for the same
/// unsigned big-endian integer as the input.
pub proof fn lemma_mpint_value(b: Seq<u8>)
    ensures
        be_val(mpint_of(b)) == be_val(b),
        mpint_of(b).len() == 0 ==> be_val(b) == 0,
        mpint_of(b).len() > 0 ==> mpint_of(b)[0] < 0x80,
        mpint_of(b).len() <= b.len() + 1,
{
    lemma_strip_zeros_val(b);
    let m = strip_zeros(b);
    if m.len() != 0 && m[0] >= 0x80 {
        assert((seq![0u8] + m).skip(1) =~= m);
        assert(be_val(seq![0u8] + m) == 0 * pow256((m.len()) as nat) + be_val(m));
    }
}

/// The `mpint` encoding is minimal: its only possible leading zero
/// byte is the mandated sign byte, behind which the top bit is set.
pub proof fn lemma_mpint_minimal(b: Seq<u8>)
    ensures
        mpint_of(b).len() > 0 && mpint_of(b)[0] == 0 ==> mpint_of(b).len() >= 2 && mpint_of(b)[1]
            >= 0x80,
{
    lemma_strip_zeros_val(b);
    let m = strip_zeros(b);
    if m.len() != 0 && m[0] >= 0x80 {
        assert((seq![0u8] + m)[1] == m[0]);
    }
}

/// Splits the first length-prefixed field off a byte sequence.
pub open spec fn take_frame(s: Seq<u8>) -> Option<(Seq<u8>, Seq<u8>)> {
    if s.len() >= 4 {
        let l = be_val(s.take(4)) as int;
        if 4 + l <= s.len() {
            Some((s.subrange(4, 4 + l), s.skip(4 + l)))
        } else {
            None
        }
    } else {
        None
    }
}

proof fn lemma_take_frame(p: Seq<u8>, rest: Seq<u8>)
    requires
        p.len() < 0x100000000,
    ensures
        take_frame(frame(p) + rest) == Some((p, rest)),
{
    reveal_with_fuel(pow256, 5);
    assert(pow256(4) == 0x100000000);
    lemma_be_bytes_val(p.len(), 4);
    let s = frame(p) + rest;
    assert(s.take(4) =~= be_bytes(p.len(), 4));
    assert(s.subrange(4, 4 + p.len() as int) =~= p);
    assert(s.skip(4 + p.len() as int) =~= rest);
}

/// The framing of the blob: reading three length-prefixed fields off
/// it yields exactly `"ssh-rsa"`, the exponent `mpint` and the
/// modulus `mpint`, in that order, with nothing trailing.
pub proof fn lemma_blob_framing(n: Seq<u8>, e: Seq<u8>)
    requires
        n.len() < 0x1000000,
        e.len() < 0x1000000,
    ensures
        take_frame(ssh_blob(n, e)) == Some(
            (ssh_rsa_tag(), frame(mpint_of(e)) + frame(mpint_of(n))),
        ),
        take_frame(frame(mpint_of(e)) + frame(mpint_of(n))) == Some(
            (mpint_of(e), frame(mpint_of(n))),
        ),
        take_frame(frame(mpint_of(n))) == Some((mpint_of(n), Seq::<u8>::empty())),
{
    lemma_mpint_value(n);
    lemma_mpint_value(e);
    assert(ssh_blob(n, e) =~= frame(ssh_rsa_tag()) + (frame(mpint_of(e)) + frame(mpint_of(n))));
    lemma_take_frame(ssh_rsa_tag(), frame(mpint_of(e)) + frame(mpint_of(n)));
    lemma_take_frame(mpint_of(e), frame(mpint_of(n)));
    assert(frame(mpint_of(n)) =~= frame(mpint_of(n)) + Seq::<u8>::empty());
    lemma_take_frame(mpint_of(n), Seq::<u8>::empty());
}

/// Relies on `String::push_str`: it appends exactly the given
/// characters to the string.
#[verifier::external_body]
fn push_str(out: &mut String, s: &str)
    ensures
        final(out)@ == old(out)@ + s@,
{
    out.push_str(s);
}

/// The `mpint` payload for the unsigned big-endian bytes `b`.
fn mpint_bytes(b: &[u8]) -> (r: Vec<u8>)
    ensures
        r@ == mpint_of(b@),
{
    let n = b.len();
    let mut i: usize = 0;
    proof {
        assert(b@.skip(0) =~= b@);
    }
    while i < n && b[i] == 0
        invariant
            i <= n,
            n == b@.len(),
            strip_zeros(b@) == strip_zeros(b@.skip(i as int)),
        decreases n - i,
    {
        proof {
            assert(b@.skip(i as int)[0] == b@[i as int]);
            assert(b@.skip(i as int).skip(1) =~= b@.skip(i + 1));
        }
        i = i + 1;
    }
    proof {
        if i == n {
            assert(b@.skip(n as int) =~= Seq::<u8>::empty());
        } else {
            assert(b@.skip(i as int)[0] == b@[i as int]);
            assert(strip_zeros(b@.skip(i as int)) == b@.skip(i as int));
        }
    }
    let mut r: Vec<u8> = Vec::new();
    if i == n {
        return r;
    }
    if b[i] >= 0x80 {
        r.push(0);
    }
    let ghost r0 = r@;
    let mut m: usize = i;
    while m < n
        invariant
            i <= m <= n,
            n == b@.len(),
            r@ == r0 + b@.subrange(i as int, m as int),
        decreases n - m,
    {
        r.push(b[m]);
        m = m + 1;
        proof {
            assert(b@.subrange(i as int, m as int) =~= b@.subrange(i as int, m - 1).push(
                b@[m - 1],
            ));
        }
    }
    proof {
        assert(b@.subrange(i as int, n as int) =~= b@.skip(i as int));
        if b@[i as int] >= 0x80 {
            assert(r@ =~= seq![0u8] + b@.skip(i as int));
        } else {
            assert(r@ =~= b@.skip(i as int));
        }
    }
    r
}

/// Appends a length-prefixed field to `blob`.
fn push_frame(blob: &mut Vec<u8>, p: Vec<u8>)
    requires
        p@.len() < 0x100000000,
    ensures
        final(blob)@ == old(blob)@ + frame(p@),
{
    let ghost b0 = blob@;
    let ghost pv = p@;
    let pre_len: u32 = p.len() as u32;
    proof {
        assert(pre_len as nat == pv.len());
    }
    let mut pre = u32_be(pre_len);
    blob.append(&mut pre);
    let mut body = p;
    blob.append(&mut body);
    proof {
        assert(blob@ =~= b0 + frame(pv));
    }
}

/// The SSH public-key blob for the given modulus and exponent
/// contents.
fn build_blob(n: &Vec<u8>, e: &Vec<u8>) -> (r: Vec<u8>)
    requires
        n@.len() < 0x1000000,
        e@.len() < 0x1000000,
    ensures
        r@ == ssh_blob(n@, e@),
{
    let mut blob: Vec<u8> = Vec::new();
    let mut tag: Vec<u8> = Vec::new();
    tag.push(115);
    tag.push(115);
    tag.push(104);
    tag.push(45);
    tag.push(114);
    tag.push(115);
    tag.push(97);
    proof {
        assert(tag@ =~= ssh_rsa_tag());
        lemma_mpint_value(n@);
        lemma_mpint_value(e@);
    }
    push_frame(&mut blob, tag);
    let em = mpint_bytes(e.as_slice());
    push_frame(&mut blob, em);
    let nm = mpint_bytes(n.as_slice());
    push_frame(&mut blob, nm);
    proof {
        assert(blob@ =~= ssh_blob(n@, e@));
    }
    blob
}

/// Parses a DER `SubjectPublicKeyInfo`, enforces the RSA-encryption
/// algorithm OID, and emits the OpenSSH `authorized_keys` line
/// `ssh-rsa <base64 of the blob>`. Fails with `DerParse` where the
/// bytes do not match the grammar, and with `UnsupportedAlgorithm`
/// where they do but the OID is not 1.2.840.113549.1.1.1.
pub fn der_to_openssh(der: &[u8]) -> (r: Result<String, Error>)
    ensures
        match spki_parse(der@) {
            None => r == Err::<String, Error>(Error::DerParse),
            Some(p) => {
                if p.0 == rsa_oid() {
                    r is Ok && r->Ok_0@ == ssh_line(p.1, p.2)
                } else {
                    r == Err::<String, Error>(Error::UnsupportedAlgorithm)
                }
            },
        },
{
    let parts = match parse_spki(der) {
        Ok(v) => v,
        Err(e) => return Err(e),
    };
    let (oid, nb, eb) = parts;
    let rsa_ok = oid.len() == 7 && oid[0] == 1 && oid[1] == 2 && oid[2] == 840 && oid[3] == 113549
        && oid[4] == 1 && oid[5] == 1 && oid[6] == 1;
    if !rsa_ok {
        proof {
            assert(oid@ != rsa_oid());
        }
        return Err(Error::UnsupportedAlgorithm);
    }
    proof {
        assert(oid@ =~= rsa_oid());
    }
    let blob = build_blob(&nb, &eb);
    let b64 = encode_base64(blob.as_slice());
    let mut out = String::new();
    push_str(&mut out, "ssh-rsa ");
    push_str(&mut out, b64.as_str());
    proof {
        assert(out@ =~= ssh_line(nb@, eb@));
    }
    Ok(out)
}

} // verus!
