use openwarrant::digest::{hex, sha256_hex};
use openwarrant::export::{absent_reason, classify_contents, document_digest};

#[test]
fn every_required_content_is_classified() {
    let contents: Vec<String> = vec![
        "the contract".to_owned(),
        "artifacts".to_owned(),
        "optional signatures".to_owned(),
        "runtime receipt refs".to_owned(),
    ];
    let (present, missing) = classify_contents(&contents);
    assert_eq!(present, vec!["the contract".to_owned()]);
    assert_eq!(missing.len(), 2);
    assert!(missing[0].starts_with("artifacts — no §37 deliverable"));
    assert!(absent_reason("resolution and standing").is_some());
    assert!(absent_reason("the contract").is_none());
}

#[test]
fn a_digest_is_sha256_in_lowercase_hex() {
    assert_eq!(
        sha256_hex(b""),
        "e3b0c44298fc1c149afbf4c8996fb92427ae41e4649b934ca495991b7852b855"
    );
    assert_eq!(
        sha256_hex(b"abc"),
        "ba7816bf8f01cfea414140de5dae2223b00361a396177a9cb410ff61f20015ad"
    );
    assert_eq!(hex(&[0x00, 0x0f, 0xa0, 0xff]), "000fa0ff");
    assert_eq!(
        document_digest(&vec![b"a".to_vec(), b"bc".to_vec()]),
        "sha256:ba7816bf8f01cfea414140de5dae2223b00361a396177a9cb410ff61f20015ad"
    );
}
