//! Edge cases of the DER grammar: long-form lengths, non-minimal
//! encodings, malformed OIDs, and bit-string oddities.

use opemssh::der_to_openssh;
use opemssh::Error;

const RSA_OID: &[u8] = &[0x2A, 0x86, 0x48, 0x86, 0xF7, 0x0D, 0x01, 0x01, 0x01];

fn len_enc(l: usize) -> Vec<u8> {
    if l < 0x80 {
        vec![l as u8]
    } else if l < 0x100 {
        vec![0x81, l as u8]
    } else {
        vec![0x82, (l >> 8) as u8, (l & 0xff) as u8]
    }
}

fn tlv(tag: u8, content: &[u8]) -> Vec<u8> {
    let mut v = vec![tag];
    v.extend_from_slice(&len_enc(content.len()));
    v.extend_from_slice(content);
    v
}

/// Builds the SubjectPublicKeyInfo around a raw RSAPublicKey SEQUENCE
/// content and a raw unused-bits byte.
fn spki_raw(oid: &[u8], unused_bits: u8, rsa_content: &[u8]) -> Vec<u8> {
    let mut alg_content = tlv(0x06, oid);
    alg_content.extend_from_slice(&tlv(0x05, &[]));
    let alg = tlv(0x30, &alg_content);
    let rsa = tlv(0x30, rsa_content);
    let mut bits_content = vec![unused_bits];
    bits_content.extend_from_slice(&rsa);
    let bits = tlv(0x03, &bits_content);
    let mut body = alg;
    body.extend_from_slice(&bits);
    tlv(0x30, &body)
}

fn rsa_content(n: &[u8], e: &[u8]) -> Vec<u8> {
    let mut c = tlv(0x02, n);
    c.extend_from_slice(&tlv(0x02, e));
    c
}

fn fields(blob: &[u8]) -> Vec<Vec<u8>> {
    let mut out = Vec::new();
    let mut i = 0;
    while i < blob.len() {
        let l = u32::from_be_bytes([blob[i], blob[i + 1], blob[i + 2], blob[i + 3]]) as usize;
        out.push(blob[i + 4..i + 4 + l].to_vec());
        i += 4 + l;
    }
    out
}

#[test]
fn long_form_lengths_accepted() {
    // a 200-byte modulus forces one-byte long-form lengths inside and
    // a two-byte long-form length on the outer SEQUENCE
    let mut n = vec![0x00u8];
    n.extend_from_slice(&[0x95u8; 199]);
    let e: &[u8] = &[0x01, 0x00, 0x01];
    let der = spki_raw(RSA_OID, 0, &rsa_content(&n, e));
    assert!(der[1] == 0x81 || der[1] == 0x82);
    let line = der_to_openssh(&der).unwrap();
    let b64 = line.split(' ').nth(1).unwrap();
    let fs = fields(&base64::decode(b64).unwrap());
    assert_eq!(fs[2], n);
    assert_eq!(fs[1], e.to_vec());
}

#[test]
fn two_byte_length_accepted() {
    let mut n = vec![0x00u8];
    n.extend_from_slice(&[0xA7u8; 400]);
    let der = spki_raw(RSA_OID, 0, &rsa_content(&n, &[0x03]));
    assert_eq!(der[1], 0x82);
    let line = der_to_openssh(&der).unwrap();
    let b64 = line.split(' ').nth(1).unwrap();
    let fs = fields(&base64::decode(b64).unwrap());
    assert_eq!(fs[2], n);
}

#[test]
fn non_minimal_length_rejected() {
    // the exponent INTEGER written with a needless long-form length
    let mut c = tlv(0x02, &[0x00, 0xC5]);
    c.extend_from_slice(&[0x02, 0x81, 0x01, 0x03]);
    let der = spki_raw(RSA_OID, 0, &c);
    assert_eq!(der_to_openssh(&der), Err(Error::DerParse));
}

#[test]
fn indefinite_length_rejected() {
    // 0x80 as a length byte means an indefinite length, which DER
    // forbids
    let mut c = tlv(0x02, &[0x00, 0xC5]);
    c.extend_from_slice(&[0x02, 0x80, 0x03, 0x00, 0x00]);
    let der = spki_raw(RSA_OID, 0, &c);
    assert_eq!(der_to_openssh(&der), Err(Error::DerParse));
}

#[test]
fn nonzero_unused_bits_rejected() {
    let der = spki_raw(RSA_OID, 3, &rsa_content(&[0x00, 0xC5], &[0x03]));
    assert_eq!(der_to_openssh(&der), Err(Error::DerParse));
}

#[test]
fn empty_integer_rejected() {
    let mut c = tlv(0x02, &[0x00, 0xC5]);
    c.extend_from_slice(&tlv(0x02, &[]));
    let der = spki_raw(RSA_OID, 0, &c);
    assert_eq!(der_to_openssh(&der), Err(Error::DerParse));
}

#[test]
fn oid_ending_mid_subidentifier_rejected() {
    // 0x86 opens a base-128 run that never closes
    let der = spki_raw(&[0x2A, 0x86], 0, &rsa_content(&[0x00, 0xC5], &[0x03]));
    assert_eq!(der_to_openssh(&der), Err(Error::DerParse));
}

#[test]
fn oid_with_padding_byte_rejected() {
    // a subidentifier must not begin with the padding byte 0x80
    let der = spki_raw(
        &[0x2A, 0x80, 0x86, 0x48],
        0,
        &rsa_content(&[0x00, 0xC5], &[0x03]),
    );
    assert_eq!(der_to_openssh(&der), Err(Error::DerParse));
}

#[test]
fn empty_oid_rejected() {
    let der = spki_raw(&[], 0, &rsa_content(&[0x00, 0xC5], &[0x03]));
    assert_eq!(der_to_openssh(&der), Err(Error::DerParse));
}

#[test]
fn missing_null_parameters_rejected() {
    // an algorithm SEQUENCE holding only the OID
    let alg = tlv(0x30, &tlv(0x06, RSA_OID));
    let rsa = tlv(0x30, &rsa_content(&[0x00, 0xC5], &[0x03]));
    let mut bits_content = vec![0u8];
    bits_content.extend_from_slice(&rsa);
    let bits = tlv(0x03, &bits_content);
    let mut body = alg;
    body.extend_from_slice(&bits);
    let der = tlv(0x30, &body);
    assert_eq!(der_to_openssh(&der), Err(Error::DerParse));
}

#[test]
fn empty_input_rejected() {
    assert_eq!(der_to_openssh(&[]), Err(Error::DerParse));
}
