//! Checks of the PEM decoder: armor stripping, base64 failures, and
//! the full PEM-to-`authorized_keys` pipeline.

use opemssh::der_to_openssh;
use opemssh::pem_to_der;
use opemssh::Error;

const RSA_OID: &[u8] = &[0x2A, 0x86, 0x48, 0x86, 0xF7, 0x0D, 0x01, 0x01, 0x01];

fn tlv(tag: u8, content: &[u8]) -> Vec<u8> {
    assert!(content.len() < 0x80);
    let mut v = vec![tag, content.len() as u8];
    v.extend_from_slice(content);
    v
}

fn spki(n: &[u8], e: &[u8]) -> Vec<u8> {
    let mut alg_content = tlv(0x06, RSA_OID);
    alg_content.extend_from_slice(&tlv(0x05, &[]));
    let alg = tlv(0x30, &alg_content);
    let mut rsa_content = tlv(0x02, n);
    rsa_content.extend_from_slice(&tlv(0x02, e));
    let rsa = tlv(0x30, &rsa_content);
    let mut bits_content = vec![0u8];
    bits_content.extend_from_slice(&rsa);
    let bits = tlv(0x03, &bits_content);
    let mut body = alg;
    body.extend_from_slice(&bits);
    tlv(0x30, &body)
}

fn pem_of(der: &[u8]) -> String {
    format!(
        "-----BEGIN PUBLIC KEY-----\n{}\n-----END PUBLIC KEY-----\n",
        base64::encode(der)
    )
}

#[test]
fn strips_armor_and_decodes() {
    let der = spki(&[0x00, 0xC5], &[0x03]);
    let decoded = pem_to_der(pem_of(&der).as_bytes()).unwrap();
    assert_eq!(decoded, der);
}

#[test]
fn s5_corrupt_pem() {
    let pem = "-----BEGIN PUBLIC KEY-----\nMIG#AB\n-----END PUBLIC KEY-----\n";
    assert_eq!(pem_to_der(pem.as_bytes()), Err(Error::Base64Decode));
}

#[test]
fn round_trip_pem_to_openssh() {
    let n: &[u8] = &[0x00, 0xAB, 0xCD, 0x12];
    let e: &[u8] = &[0x01, 0x00, 0x01];
    let der = spki(n, e);
    let decoded = pem_to_der(pem_of(&der).as_bytes()).unwrap();
    let line = der_to_openssh(&decoded).unwrap();
    let b64 = line.split(' ').nth(1).unwrap();
    let blob = base64::decode(b64).unwrap();
    let mut expected = Vec::new();
    expected.extend_from_slice(&[0, 0, 0, 7]);
    expected.extend_from_slice(b"ssh-rsa");
    expected.extend_from_slice(&[0, 0, 0, 3, 0x01, 0x00, 0x01]);
    expected.extend_from_slice(&[0, 0, 0, 4, 0x00, 0xAB, 0xCD, 0x12]);
    assert_eq!(blob, expected);
}

#[test]
fn armor_lines_are_ignored_wherever_they_stand() {
    let der = spki(&[0x00, 0xC5], &[0x03]);
    let b64 = base64::encode(&der);
    let (front, back) = b64.split_at(b64.len() / 2);
    let plain = format!("{}\n{}\n", front, back);
    let armored = format!(
        "-----BEGIN PUBLIC KEY-----\n-----BEGIN PUBLIC KEY-----\n{}\n--- odd marker\n{}\n-----END PUBLIC KEY-----\n",
        front, back
    );
    assert_eq!(
        pem_to_der(plain.as_bytes()).unwrap(),
        pem_to_der(armored.as_bytes()).unwrap()
    );
    assert_eq!(pem_to_der(plain.as_bytes()).unwrap(), der);
}

#[test]
fn crlf_line_endings_accepted() {
    let der = spki(&[0x00, 0xC5], &[0x03]);
    let pem = format!(
        "-----BEGIN PUBLIC KEY-----\r\n{}\r\n-----END PUBLIC KEY-----\r\n",
        base64::encode(&der)
    );
    assert_eq!(pem_to_der(pem.as_bytes()).unwrap(), der);
}

#[test]
fn bare_base64_without_armor_accepted() {
    let der = spki(&[0x00, 0xC5], &[0x03]);
    let pem = format!("{}\n", base64::encode(&der));
    assert_eq!(pem_to_der(pem.as_bytes()).unwrap(), der);
}
