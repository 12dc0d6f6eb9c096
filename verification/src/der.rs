//! DER parsing of the X.509 `SubjectPublicKeyInfo` structure of an
//! RSA public key:
//!
//! ```text
//! SEQUENCE {
//!   SEQUENCE { OBJECT IDENTIFIER, NULL },
//!   BIT STRING {  -- zero unused bits, containing:
//!     SEQUENCE { INTEGER (modulus), INTEGER (exponent) }
//!   }
//! }
//! ```
//!
//! Lengths are definite and minimally encoded, as DER demands; up to
//! three length bytes (contents below 2^24 bytes) are accepted, which
//! is ample for public keys.

use vstd::prelude::*;

use crate::Error;

verus! {

/// The DER length at position `i` of `s`: the decoded length value
/// and the index just after the length bytes; or nothing where the
/// length is indefinite, runs past the input, is not minimal, or
/// needs more than three length bytes.
pub open spec fn len_at(s: Seq<u8>, i: int) -> Option<(nat, int)> {
    if !(0 <= i < s.len()) {
        None
    } else if s[i] < 0x80 {
        Some((s[i] as nat, i + 1))
    } else if s[i] == 0x81 {
        if i + 2 <= s.len() && s[i + 1] >= 0x80 {
            Some((s[i + 1] as nat, i + 2))
        } else {
            None
        }
    } else if s[i] == 0x82 {
        if i + 3 <= s.len() && s[i + 1] != 0 {
            Some(((s[i + 1] * 256 + s[i + 2]) as nat, i + 3))
        } else {
            None
        }
    } else if s[i] == 0x83 {
        if i + 4 <= s.len() && s[i + 1] != 0 {
            Some(((s[i + 1] * 0x10000 + s[i + 2] * 256 + s[i + 3]) as nat, i + 4))
        } else {
            None
        }
    } else {
        None
    }
}

/// The TLV with tag `tag` at position `i` of `s`: the start and end
/// of its content, when the tag matches, the length is well formed
/// and the content lies within `s`.
pub open spec fn tlv_at(s: Seq<u8>, i: int, tag: u8) -> Option<(int, int)> {
    if 0 <= i < s.len() && s[i] == tag {
        match len_at(s, i + 1) {
            Some(lj) => {
                if lj.1 + lj.0 <= s.len() {
                    Some((lj.1, lj.1 + lj.0 as int))
                } else {
                    None
                }
            },
            None => None,
        }
    } else {
        None
    }
}

/// The base-128 subidentifier values of an OID content. Each
/// subidentifier is a run of bytes with the high bit set closed by
/// one byte with it clear, most significant group first; it must not
/// begin with the padding byte 0x80, and must not end mid-run.
pub open spec fn oid_subids(c: Seq<u8>, acc: nat, started: bool) -> Option<Seq<nat>>
    decreases c.len(),
{
    if c.len() == 0 {
        if started {
            None
        } else {
            Some(Seq::empty())
        }
    } else if c[0] >= 0x80 {
        if !started && c[0] == 0x80 {
            None
        } else {
            oid_subids(c.skip(1), (acc * 128 + (c[0] - 0x80)) as nat, true)
        }
    } else {
        match oid_subids(c.skip(1), 0, false) {
            Some(rest) => Some(seq![(acc * 128 + c[0]) as nat] + rest),
            None => None,
        }
    }
}

/// The numeric components of an OID content: the first subidentifier
/// splits into the first two components by the 40/80 rule, and every
/// component must fit in a `u64`.
pub open spec fn oid_components(c: Seq<u8>) -> Option<Seq<u64>> {
    match oid_subids(c, 0, false) {
        Some(vs) => {
            if vs.len() == 0 {
                None
            } else if exists|k: int| 0 <= k < vs.len() && vs[k] >= 0x10000000000000000 {
                None
            } else {
                let head: Seq<u64> = if vs[0] < 40 {
                    seq![0u64, vs[0] as u64]
                } else if vs[0] < 80 {
                    seq![1u64, (vs[0] - 40) as u64]
                } else {
                    seq![2u64, (vs[0] - 80) as u64]
                };
                Some(head + vs.skip(1).map_values(|v: nat| v as u64))
            }
        },
        None => None,
    }
}

/// A DER INTEGER content holding a non-negative value: non-empty, the
/// sign bit of the first byte clear, and minimal (a leading zero byte
/// only where the next byte would otherwise set the sign bit).
pub open spec fn int_content_ok(c: Seq<u8>) -> bool {
    &&& c.len() >= 1
    &&& c[0] < 0x80
    &&& (c.len() >= 2 && c[0] == 0 ==> c[1] >= 0x80)
}

/// The RSA-encryption OID, 1.2.840.113549.1.1.1.
pub open spec fn rsa_oid() -> Seq<u64> {
    seq![1u64, 2u64, 840u64, 113549u64, 1u64, 1u64, 1u64]
}

/// The result of parsing a DER `SubjectPublicKeyInfo`: the algorithm
/// OID components, the modulus content bytes and the exponent content
/// bytes; or nothing where the bytes do not match the grammar. The
/// whole input must be consumed, every nested structure must fill its
/// container exactly, the NULL parameters must be empty, the BIT
/// STRING must have no unused bits, and both INTEGERs must be
/// non-negative and minimal.
pub open spec fn spki_parse(der: Seq<u8>) -> Option<(Seq<u64>, Seq<u8>, Seq<u8>)> {
    if tlv_at(der, 0, 0x30) is None {
        None
    } else {
        let (b0, b1) = tlv_at(der, 0, 0x30)->Some_0;
        if b1 != der.len() || tlv_at(der, b0, 0x30) is None {
            None
        } else {
            let (a0, a1) = tlv_at(der, b0, 0x30)->Some_0;
            if tlv_at(der, a0, 0x06) is None {
                None
            } else {
                let (o0, o1) = tlv_at(der, a0, 0x06)->Some_0;
                if tlv_at(der, o1, 0x05) is None {
                    None
                } else {
                    let (z0, z1) = tlv_at(der, o1, 0x05)->Some_0;
                    if !(z0 == z1 && z1 == a1) || oid_components(der.subrange(o0, o1)) is None
                        || tlv_at(der, a1, 0x03) is None {
                        None
                    } else {
                        let oid = oid_components(der.subrange(o0, o1))->Some_0;
                        let (s0, s1) = tlv_at(der, a1, 0x03)->Some_0;
                        if !(s1 == b1 && s0 < s1 && der[s0] == 0) || tlv_at(
                            der,
                            s0 + 1,
                            0x30,
                        ) is None {
                            None
                        } else {
                            let (r0, r1) = tlv_at(der, s0 + 1, 0x30)->Some_0;
                            if r1 != s1 || tlv_at(der, r0, 0x02) is None {
                                None
                            } else {
                                let (n0, n1) = tlv_at(der, r0, 0x02)->Some_0;
                                if !int_content_ok(der.subrange(n0, n1)) || tlv_at(
                                    der,
                                    n1,
                                    0x02,
                                ) is None {
                                    None
                                } else {
                                    let (e0, e1) = tlv_at(der, n1, 0x02)->Some_0;
                                    if e1 == r1 && int_content_ok(der.subrange(e0, e1)) {
                                        Some((oid, der.subrange(n0, n1), der.subrange(e0, e1)))
                                    } else {
                                        None
                                    }
                                }
                            }
                        }
                    }
                }
            }
        }
    }
}

/// Reads the DER length at `i`.
fn read_len(s: &[u8], i: usize) -> (r: Result<(usize, usize), Error>)
    ensures
        match r {
            Ok(lj) => {
                &&& len_at(s@, i as int) == Some((lj.0 as nat, lj.1 as int))
                &&& i < lj.1 <= s@.len()
                &&& lj.0 < 0x1000000
            },
            Err(e) => len_at(s@, i as int) is None && e == Error::DerParse,
        },
{
    if i >= s.len() {
        return Err(Error::DerParse);
    }
    let b = s[i];
    if b < 0x80 {
        Ok((b as usize, i + 1))
    } else if b == 0x81 {
        if s.len() - i >= 2 && s[i + 1] >= 0x80 {
            Ok((s[i + 1] as usize, i + 2))
        } else {
            Err(Error::DerParse)
        }
    } else if b == 0x82 {
        if s.len() - i >= 3 && s[i + 1] != 0 {
            Ok(((s[i + 1] as usize) * 256 + (s[i + 2] as usize), i + 3))
        } else {
            Err(Error::DerParse)
        }
    } else if b == 0x83 {
        if s.len() - i >= 4 && s[i + 1] != 0 {
            Ok(
                (
                    (s[i + 1] as usize) * 65536 + (s[i + 2] as usize) * 256 + (s[i + 3] as usize),
                    i + 4,
                ),
            )
        } else {
            Err(Error::DerParse)
        }
    } else {
        Err(Error::DerParse)
    }
}

/// Reads the TLV with tag `tag` at `i`; returns the bounds of its
/// content.
fn read_tlv(s: &[u8], i: usize, tag: u8) -> (r: Result<(usize, usize), Error>)
    ensures
        match r {
            Ok(ce) => {
                &&& tlv_at(s@, i as int, tag) == Some((ce.0 as int, ce.1 as int))
                &&& i < ce.0 <= ce.1 <= s@.len()
                &&& ce.1 - ce.0 < 0x1000000
            },
            Err(e) => tlv_at(s@, i as int, tag) is None && e == Error::DerParse,
        },
{
    if i >= s.len() || s[i] != tag {
        return Err(Error::DerParse);
    }
    let lj = match read_len(s, i + 1) {
        Ok(v) => v,
        Err(e) => return Err(e),
    };
    let (l, j) = lj;
    if l <= s.len() - j {
        Ok((j, j + l))
    } else {
        Err(Error::DerParse)
    }
}

/// Prepends already-decoded subidentifiers to the outcome for the
/// rest of an OID content.
spec fn prepend_subids(pre: Seq<nat>, rest: Option<Seq<nat>>) -> Option<Seq<nat>> {
    match rest {
        Some(vs) => Some(pre + vs),
        None => None,
    }
}

/// A subidentifier decoded from a pending accumulator is at least the
/// accumulator: further bytes only grow it.
proof fn lemma_subids_head_ge(c: Seq<u8>, acc: nat)
    ensures
        oid_subids(c, acc, true) is Some ==> {
            &&& oid_subids(c, acc, true)->Some_0.len() > 0
            &&& oid_subids(c, acc, true)->Some_0[0] >= acc
        },
    decreases c.len(),
{
    if c.len() == 0 {
    } else if c[0] >= 0x80 {
        let accp = (acc * 128 + (c[0] - 0x80)) as nat;
        lemma_subids_head_ge(c.skip(1), accp);
        assert(acc * 128 >= acc) by (nonlinear_arith);
    } else {
        assert(acc * 128 >= acc) by (nonlinear_arith);
        if oid_subids(c.skip(1), 0, false) is Some {
            let rest = oid_subids(c.skip(1), 0, false)->Some_0;
            assert((seq![(acc * 128 + c[0]) as nat] + rest)[0] == (acc * 128 + c[0]) as nat);
        }
    }
}

/// Decodes the OID content in `s[c0..c1]` into its components.
fn parse_oid(s: &[u8], c0: usize, c1: usize) -> (r: Result<Vec<u64>, Error>)
    requires
        c0 <= c1 <= s@.len(),
    ensures
        match r {
            Ok(v) => oid_components(s@.subrange(c0 as int, c1 as int)) == Some(v@),
            Err(e) => oid_components(s@.subrange(c0 as int, c1 as int)) is None && e
                == Error::DerParse,
        },
{
    let ghost full = s@.subrange(c0 as int, c1 as int);
    let ghost to_nat = |x: u64| x as nat;
    let mut subs: Vec<u64> = Vec::new();
    let mut acc: u64 = 0;
    let mut started: bool = false;
    let mut i: usize = c0;
    proof {
        assert(subs@.map_values(to_nat) =~= Seq::<nat>::empty());
        assert(Seq::<nat>::empty() + oid_subids(full, 0, false)->Some_0 =~= oid_subids(
            full,
            0,
            false,
        )->Some_0);
    }
    while i < c1
        invariant
            c0 <= i <= c1 <= s@.len(),
            full == s@.subrange(c0 as int, c1 as int),
            to_nat == (|x: u64| x as nat),
            oid_subids(full, 0, false) == prepend_subids(
                subs@.map_values(to_nat),
                oid_subids(s@.subrange(i as int, c1 as int), acc as nat, started),
            ),
            !started ==> acc == 0,
        decreases c1 - i,
    {
        let ghost rem = s@.subrange(i as int, c1 as int);
        let ghost pre = subs@.map_values(to_nat);
        let b = s[i];
        proof {
            assert(rem[0] == s@[i as int]);
            assert(rem.skip(1) =~= s@.subrange(i + 1, c1 as int));
        }
        if b >= 0x80 {
            if !started && b == 0x80 {
                return Err(Error::DerParse);
            }
            if acc >= 0x200000000000000 {
                proof {
                    let accp = ((acc as nat) * 128 + (b - 0x80)) as nat;
                    assert(accp >= 0x10000000000000000);
                    if oid_subids(rem.skip(1), accp, true) is Some {
                        lemma_subids_head_ge(rem.skip(1), accp);
                        let rest = oid_subids(rem.skip(1), accp, true)->Some_0;
                        let vs = pre + rest;
                        assert(vs[pre.len() as int] == rest[0]);
                        assert(0 <= pre.len() < vs.len() && vs[pre.len() as int]
                            >= 0x10000000000000000);
                    }
                }
                return Err(Error::DerParse);
            }
            acc = acc * 128 + ((b - 0x80) as u64);
            started = true;
        } else {
            if acc >= 0x200000000000000 {
                proof {
                    let v = ((acc as nat) * 128 + b) as nat;
                    assert(v >= 0x10000000000000000);
                    if oid_subids(rem.skip(1), 0, false) is Some {
                        let rest = oid_subids(rem.skip(1), 0, false)->Some_0;
                        let vs = pre + (seq![v] + rest);
                        assert(vs[pre.len() as int] == (seq![v] + rest)[0]);
                        assert(0 <= pre.len() < vs.len() && vs[pre.len() as int]
                            >= 0x10000000000000000);
                    }
                }
                return Err(Error::DerParse);
            }
            let v = acc * 128 + (b as u64);
            subs.push(v);
            acc = 0;
            started = false;
            proof {
                assert(subs@.map_values(to_nat) =~= pre + seq![v as nat]);
                if oid_subids(rem.skip(1), 0, false) is Some {
                    let rest = oid_subids(rem.skip(1), 0, false)->Some_0;
                    assert((pre + seq![v as nat]) + rest =~= pre + (seq![v as nat] + rest));
                }
            }
        }
        i = i + 1;
    }
    proof {
        assert(s@.subrange(c1 as int, c1 as int) =~= Seq::<u8>::empty());
    }
    if started {
        return Err(Error::DerParse);
    }
    proof {
        assert(subs@.map_values(to_nat) + Seq::<nat>::empty() =~= subs@.map_values(to_nat));
        assert(oid_subids(full, 0, false) == Some(subs@.map_values(to_nat)));
    }
    if subs.len() == 0 {
        return Err(Error::DerParse);
    }
    let ghost vs = subs@.map_values(to_nat);
    proof {
        assert forall|k: int| 0 <= k < vs.len() implies vs[k] < 0x10000000000000000 by {
            assert(vs[k] == subs@[k] as nat);
        }
    }
    let first = subs[0];
    let mut out: Vec<u64> = Vec::new();
    if first < 40 {
        out.push(0);
        out.push(first);
    } else if first < 80 {
        out.push(1);
        out.push(first - 40);
    } else {
        out.push(2);
        out.push(first - 80);
    }
    let ghost head = out@;
    let mut k: usize = 1;
    while k < subs.len()
        invariant
            1 <= k <= subs@.len(),
            out@ == head + subs@.subrange(1, k as int),
        decreases subs@.len() - k,
    {
        out.push(subs[k]);
        k = k + 1;
        proof {
            assert(head + subs@.subrange(1, k as int) =~= (head + subs@.subrange(1, k - 1)).push(
                subs@[k - 1],
            ));
        }
    }
    proof {
        assert(out@ =~= head + vs.skip(1).map_values(|v: nat| v as u64));
    }
    Ok(out)
}

/// Checks that `s[a..b]` is a valid non-negative DER INTEGER content.
fn int_content_check(s: &[u8], a: usize, b: usize) -> (r: bool)
    requires
        a <= b <= s@.len(),
    ensures
        r == int_content_ok(s@.subrange(a as int, b as int)),
{
    let ghost c = s@.subrange(a as int, b as int);
    if b - a < 1 {
        return false;
    }
    proof {
        assert(c[0] == s@[a as int]);
    }
    if s[a] >= 0x80 {
        return false;
    }
    if b - a >= 2 {
        proof {
            assert(c[1] == s@[a + 1]);
        }
        if s[a] == 0 && s[a + 1] < 0x80 {
            return false;
        }
    }
    true
}

/// Copies `s[a..b]` into a fresh vector.
fn copy_range(s: &[u8], a: usize, b: usize) -> (r: Vec<u8>)
    requires
        a <= b <= s@.len(),
    ensures
        r@ == s@.subrange(a as int, b as int),
{
    let mut r: Vec<u8> = Vec::new();
    let mut m: usize = a;
    while m < b
        invariant
            a <= m <= b <= s@.len(),
            r@ == s@.subrange(a as int, m as int),
        decreases b - m,
    {
        r.push(s[m]);
        m = m + 1;
        proof {
            assert(s@.subrange(a as int, m as int) =~= s@.subrange(a as int, m - 1).push(
                s@[m - 1],
            ));
        }
    }
    r
}

/// Parses a DER `SubjectPublicKeyInfo` into its algorithm OID
/// components, modulus content bytes and exponent content bytes.
pub fn parse_spki(der: &[u8]) -> (r: Result<(Vec<u64>, Vec<u8>, Vec<u8>), Error>)
    ensures
        match r {
            Ok(p) => {
                &&& spki_parse(der@) == Some((p.0@, p.1@, p.2@))
                &&& p.1@.len() < 0x1000000
                &&& p.2@.len() < 0x1000000
            },
            Err(e) => spki_parse(der@) is None && e == Error::DerParse,
        },
{
    let (b0, b1) = match read_tlv(der, 0, 0x30) {
        Ok(v) => v,
        Err(e) => return Err(e),
    };
    if b1 != der.len() {
        return Err(Error::DerParse);
    }
    let (a0, a1) = match read_tlv(der, b0, 0x30) {
        Ok(v) => v,
        Err(e) => return Err(e),
    };
    let (o0, o1) = match read_tlv(der, a0, 0x06) {
        Ok(v) => v,
        Err(e) => return Err(e),
    };
    let (z0, z1) = match read_tlv(der, o1, 0x05) {
        Ok(v) => v,
        Err(e) => return Err(e),
    };
    if !(z0 == z1 && z1 == a1) {
        return Err(Error::DerParse);
    }
    let oid = match parse_oid(der, o0, o1) {
        Ok(v) => v,
        Err(e) => return Err(e),
    };
    let (s0, s1) = match read_tlv(der, a1, 0x03) {
        Ok(v) => v,
        Err(e) => return Err(e),
    };
    if !(s1 == b1 && s0 < s1) {
        return Err(Error::DerParse);
    }
    if der[s0] != 0 {
        return Err(Error::DerParse);
    }
    let (r0, r1) = match read_tlv(der, s0 + 1, 0x30) {
        Ok(v) => v,
        Err(e) => return Err(e),
    };
    if r1 != s1 {
        return Err(Error::DerParse);
    }
    let (n0, n1) = match read_tlv(der, r0, 0x02) {
        Ok(v) => v,
        Err(e) => return Err(e),
    };
    if !int_content_check(der, n0, n1) {
        return Err(Error::DerParse);
    }
    let (e0, e1) = match read_tlv(der, n1, 0x02) {
        Ok(v) => v,
        Err(e) => return Err(e),
    };
    if e1 != r1 {
        return Err(Error::DerParse);
    }
    if !int_content_check(der, e0, e1) {
        return Err(Error::DerParse);
    }
    let nb = copy_range(der, n0, n1);
    let eb = copy_range(der, e0, e1);
    Ok((oid, nb, eb))
}

} // verus!
