use hmac::Mac as _;
use senders::client::crypto::{pbkdf2, sha256, FileKeys};
use senders::server::auth::SessionSigner;
use senders::wire::SECRET_LEN;

fn hex(bytes: &[u8]) -> String {
    bytes.iter().map(|b| format!("{b:02x}")).collect()
}

#[test]
fn sha256_matches_the_standard_test_vector() {
    assert_eq!(hex(&sha256(b"abc")), "ba7816bf8f01cfea414140de5dae2223b00361a396177a9cb410ff61f20015ad");
    assert_eq!(hex(&senders::server::util::sha256(b"")), "e3b0c44298fc1c149afbf4c8996fb92427ae41e4649b934ca495991b7852b855");
}

#[test]
fn session_tags_are_hmac_sha256_under_the_hashed_secret() {
    let signer = SessionSigner::new(Some("test-secret"), true);
    let key = sha256(b"test-secret");
    let mut mac = <hmac::Hmac<sha2::Sha256> as hmac::Mac>::new_from_slice(&key).unwrap();
    mac.update(b"payload");
    let expected: [u8; 32] = mac.finalize().into_bytes().into();
    assert_eq!(signer.tag(b"payload"), expected);
}

#[test]
fn keys_are_hkdf_sha256_under_their_labels() {
    let secret = [11u8; SECRET_LEN];
    let keys = FileKeys::derive(&secret).unwrap();
    let mut expected = [0u8; 32];
    hkdf::Hkdf::<sha2::Sha256>::new(Some(&[]), &secret).expand(b"senders/v1/auth", &mut expected).unwrap();
    assert_eq!(keys.auth, expected.to_vec());
}

#[test]
fn passwords_stretch_with_pbkdf2_hmac_sha256() {
    let mut expected = [0u8; 32];
    pbkdf2::pbkdf2_hmac::<sha2::Sha256>(b"password", b"salt", 1, &mut expected);
    assert_eq!(pbkdf2("password", b"salt", 1), expected);
    assert_eq!(hex(&expected), "120fb6cffcf8b32c43e7225256c4f837a86548c92ccc35480805987cb70be17b");
}

#[test]
fn sealed_records_are_not_their_plaintext() {
    let keys = FileKeys::derive(&[1u8; SECRET_LEN]).unwrap();
    let sealed = keys.seal_record(&[0u8; 7], 0, true, b"plain text here").unwrap();
    assert_eq!(sealed.len(), b"plain text here".len() + 16);
    assert_ne!(&sealed[..15], b"plain text here");
}
