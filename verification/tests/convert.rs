//! End-to-end checks of the DER-to-OpenSSH encoder on hand-built
//! `SubjectPublicKeyInfo` structures.

use opemssh::der_to_openssh;
use opemssh::Error;

const RSA_OID: &[u8] = &[0x2A, 0x86, 0x48, 0x86, 0xF7, 0x0D, 0x01, 0x01, 0x01];

fn len_enc(l: usize) -> Vec<u8> {
    if l < 0x80 {
        vec![l as u8]
    } else if l < 0x100 {
        vec![0x81, l as u8]
    } else {
        vec![0x82, (l >> 8) as u8, (l & 0xff) as u8]
    }
}

fn tlv(tag: u8, content: &[u8]) -> Vec<u8> {
    let mut v = vec![tag];
    v.extend_from_slice(&len_enc(content.len()));
    v.extend_from_slice(content);
    v
}

fn spki(oid: &[u8], n: &[u8], e: &[u8]) -> Vec<u8> {
    let mut alg_content = tlv(0x06, oid);
    alg_content.extend_from_slice(&tlv(0x05, &[]));
    let alg = tlv(0x30, &alg_content);
    let mut rsa_content = tlv(0x02, n);
    rsa_content.extend_from_slice(&tlv(0x02, e));
    let rsa = tlv(0x30, &rsa_content);
    let mut bits_content = vec![0u8];
    bits_content.extend_from_slice(&rsa);
    let bits = tlv(0x03, &bits_content);
    let mut body = alg;
    body.extend_from_slice(&bits);
    tlv(0x30, &body)
}

/// Splits the blob into its 32-bit-big-endian length-prefixed fields.
fn fields(blob: &[u8]) -> Vec<Vec<u8>> {
    let mut out = Vec::new();
    let mut i = 0;
    while i < blob.len() {
        let l = u32::from_be_bytes([blob[i], blob[i + 1], blob[i + 2], blob[i + 3]]) as usize;
        out.push(blob[i + 4..i + 4 + l].to_vec());
        i += 4 + l;
    }
    out
}

fn blob_of(line: &str) -> Vec<u8> {
    let mut parts = line.split(' ');
    assert_eq!(parts.next(), Some("ssh-rsa"));
    let b64 = parts.next().expect("missing base64 field");
    assert_eq!(parts.next(), None);
    base64::decode(b64).expect("output base64 must decode")
}

#[test]
fn s1_tiny_key() {
    let der = spki(RSA_OID, &[0x00, 0xC5], &[0x03]);
    let line = der_to_openssh(&der).unwrap();
    let expected_blob: &[u8] = &[
        0x00, 0x00, 0x00, 0x07, b's', b's', b'h', b'-', b'r', b's', b'a', 0x00, 0x00, 0x00, 0x01,
        0x03, 0x00, 0x00, 0x00, 0x02, 0x00, 0xC5,
    ];
    assert_eq!(line, format!("ssh-rsa {}", base64::encode(expected_blob)));
    assert_eq!(blob_of(&line), expected_blob);
}

#[test]
fn s2_top_bit_set() {
    let der = spki(RSA_OID, &[0x00, 0x80], &[0x03]);
    let line = der_to_openssh(&der).unwrap();
    let blob = blob_of(&line);
    let fs = fields(&blob);
    assert_eq!(fs.len(), 3);
    assert_eq!(fs[2], vec![0x00, 0x80]);
    // the framed modulus field is 00 00 00 02 00 80
    let tail = &blob[blob.len() - 6..];
    assert_eq!(tail, &[0x00, 0x00, 0x00, 0x02, 0x00, 0x80]);
}

#[test]
fn s3_zero_exponent() {
    let der = spki(RSA_OID, &[0x00, 0xC5], &[0x00]);
    let line = der_to_openssh(&der).unwrap();
    let fs = fields(&blob_of(&line));
    assert_eq!(fs.len(), 3);
    assert_eq!(fs[1], Vec::<u8>::new());
}

#[test]
fn s4_wrong_algorithm() {
    let ecdsa_oid: &[u8] = &[0x2A, 0x86, 0x48, 0xCE, 0x3D, 0x02, 0x01];
    let der = spki(ecdsa_oid, &[0x00, 0xC5], &[0x03]);
    assert_eq!(der_to_openssh(&der), Err(Error::UnsupportedAlgorithm));
}

#[test]
fn s6_truncated_der() {
    let der = spki(RSA_OID, &[0x00, 0xAB, 0xCD], &[0x03]);
    // stop in the middle of the modulus INTEGER
    let truncated = &der[..der.len() - 4];
    assert_eq!(der_to_openssh(truncated), Err(Error::DerParse));
}

#[test]
fn algorithm_gate_other_rsa_oid() {
    // sha1WithRSAEncryption 1.2.840.113549.1.1.5: parses, but is not
    // the RSA-encryption OID
    let oid: &[u8] = &[0x2A, 0x86, 0x48, 0x86, 0xF7, 0x0D, 0x01, 0x01, 0x05];
    let der = spki(oid, &[0x00, 0xC5], &[0x03]);
    assert_eq!(der_to_openssh(&der), Err(Error::UnsupportedAlgorithm));
}

#[test]
fn framing_of_accepted_key() {
    let n: &[u8] = &[0x00, 0xAB, 0xCD, 0x12];
    let e: &[u8] = &[0x01, 0x00, 0x01];
    let der = spki(RSA_OID, n, e);
    let line = der_to_openssh(&der).unwrap();
    let blob = blob_of(&line);
    let fs = fields(&blob);
    assert_eq!(fs.len(), 3);
    assert_eq!(fs[0], b"ssh-rsa".to_vec());
    assert_eq!(fs[1], vec![0x01, 0x00, 0x01]);
    // the leading zero of the DER content is dropped and then restored
    // because 0xAB has its top bit set
    assert_eq!(fs[2], vec![0x00, 0xAB, 0xCD, 0x12]);
    // fields() consumed the blob exactly, with no trailing bytes
    let total: usize = fs.iter().map(|f| f.len() + 4).sum();
    assert_eq!(total, blob.len());
}

#[test]
fn mpint_is_minimal() {
    // a modulus with a clear top bit keeps its bytes unchanged
    let der = spki(RSA_OID, &[0x7F, 0x00], &[0x03]);
    let line = der_to_openssh(&der).unwrap();
    let fs = fields(&blob_of(&line));
    assert_eq!(fs[2], vec![0x7F, 0x00]);
}

#[test]
fn trailing_bytes_rejected() {
    let mut der = spki(RSA_OID, &[0x00, 0xC5], &[0x03]);
    der.push(0x00);
    assert_eq!(der_to_openssh(&der), Err(Error::DerParse));
}

#[test]
fn non_canonical_integer_rejected() {
    // 00 7F is not a minimal DER INTEGER content
    let der = spki(RSA_OID, &[0x00, 0x7F], &[0x03]);
    assert_eq!(der_to_openssh(&der), Err(Error::DerParse));
}

#[test]
fn negative_integer_rejected() {
    // 0xC5 alone as INTEGER content reads as a negative value; the
    // modulus of an RSA key must be non-negative
    let der = spki(RSA_OID, &[0xC5], &[0x03]);
    assert_eq!(der_to_openssh(&der), Err(Error::DerParse));
}
