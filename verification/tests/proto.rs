use senders::b64;
use senders::link::{decode_secret, share_url};
use senders::passphrase::{BYTES, PER_GROUP, ALPHABET};
use senders::stream::{cipher_record_count, plain_record_count, record_nonce};
use senders::wire::{ciphertext_len, plaintext_len, CHUNK_CIPHERTEXT_SIZE, CHUNK_SIZE, NONCE_LEN, NONCE_PREFIX_LEN,
    SECRET_LEN, TAG_LEN};

#[test]
fn length_roundtrip() {
    for len in [0u64, 1, 100, CHUNK_SIZE as u64 - 1, CHUNK_SIZE as u64, CHUNK_SIZE as u64 + 1, 5_000_000] {
        let c = ciphertext_len(len);
        assert_eq!(plaintext_len(c), Some(len), "len={len} cipher={c}");
    }
}

#[test]
fn rejects_impossible_ciphertext_lengths() {
    assert_eq!(plaintext_len(0), None);
    assert_eq!(plaintext_len(TAG_LEN as u64 - 1), None);
}

#[test]
fn link_share_urls_put_the_secret_in_the_fragment() {
    let url = share_url("https://send.example/", "abc", &[0u8; SECRET_LEN]);
    let (base, fragment) = url.split_once('#').expect("share URLs carry a fragment");
    assert_eq!(base, "https://send.example/d/abc");
    assert_eq!(decode_secret(fragment), Some(vec![0u8; SECRET_LEN]));
}

#[test]
fn rejects_a_malformed_or_short_secret() {
    assert_eq!(decode_secret("not-base64!!"), None);
    assert_eq!(decode_secret(&b64::encode(&[0u8; SECRET_LEN - 1])), None);
}

#[test]
fn formats_five_groups_of_four() {
    let passphrase = senders::passphrase::format(&[0u8; BYTES]);
    let groups: Vec<&str> = passphrase.split('-').collect();
    assert_eq!(groups.len(), 5);
    assert!(groups.iter().all(|group| group.len() == PER_GROUP));
    assert!(passphrase.chars().all(|c| c == '-' || ALPHABET.contains(&c)));
}

#[test]
fn stream_nonces_are_unique_per_record_and_mark_the_end() {
    let prefix = [1u8; NONCE_PREFIX_LEN];
    let first = record_nonce(&prefix, 0, false);
    let second = record_nonce(&prefix, 1, false);
    let last = record_nonce(&prefix, 1, true);

    assert_ne!(first, second, "counter must vary the nonce");
    assert_ne!(second, last, "the final flag must vary the nonce");
    assert_eq!(&first[..NONCE_PREFIX_LEN], &prefix);
    assert_eq!(&second[NONCE_PREFIX_LEN..NONCE_LEN - 1], &1u32.to_be_bytes());
    assert_eq!(last[NONCE_LEN - 1], 1);
}

#[test]
fn stream_record_counts_cover_the_boundaries() {
    assert_eq!(plain_record_count(0), 1);
    assert_eq!(plain_record_count(1), 1);
    assert_eq!(plain_record_count(CHUNK_SIZE as u64), 1);
    assert_eq!(plain_record_count(CHUNK_SIZE as u64 + 1), 2);

    assert_eq!(cipher_record_count(0), 1);
    assert_eq!(cipher_record_count(1), 1);
    assert_eq!(cipher_record_count(CHUNK_CIPHERTEXT_SIZE as u64), 1);
    assert_eq!(cipher_record_count(CHUNK_CIPHERTEXT_SIZE as u64 + 1), 2);
    assert_eq!(cipher_record_count(2 * CHUNK_CIPHERTEXT_SIZE as u64), 2);
}

#[test]
fn crypto_nonces_are_unique_per_record_and_mark_the_end() {
    let prefix = [1u8; NONCE_PREFIX_LEN];
    let first = record_nonce(&prefix, 0, false);
    let second = record_nonce(&prefix, 1, false);
    let last = record_nonce(&prefix, 1, true);

    assert_ne!(first, second, "counter must vary the nonce");
    assert_ne!(second, last, "the final flag must vary the nonce");
    assert_eq!(&first[..NONCE_PREFIX_LEN], &prefix);
    assert_eq!(&second[NONCE_PREFIX_LEN..NONCE_LEN - 1], &1u32.to_be_bytes());
    assert_eq!(last[NONCE_LEN - 1], 1);
}

#[test]
fn transfer_record_counts_cover_the_boundaries() {
    assert_eq!(cipher_record_count(0), 1);
    assert_eq!(cipher_record_count(1), 1);
    assert_eq!(cipher_record_count(CHUNK_CIPHERTEXT_SIZE as u64), 1);
    assert_eq!(cipher_record_count(CHUNK_CIPHERTEXT_SIZE as u64 + 1), 2);
    assert_eq!(cipher_record_count(2 * CHUNK_CIPHERTEXT_SIZE as u64), 2);
}

#[test]
fn transfer_share_urls_put_the_secret_in_the_fragment() {
    let url = share_url("https://send.example/", "abc", &[0u8; SECRET_LEN]);
    let (base, fragment) = url.split_once('#').expect("share URLs carry a fragment");
    assert_eq!(base, "https://send.example/d/abc");
    assert_eq!(b64::decode(fragment).unwrap().len(), SECRET_LEN);
}

#[test]
fn base64url_encodes_groups_and_partial_groups() {
    assert_eq!(b64::encode(b""), "");
    assert_eq!(b64::encode(b"f"), "Zg");
    assert_eq!(b64::encode(b"fo"), "Zm8");
    assert_eq!(b64::encode(b"foo"), "Zm9v");
    assert_eq!(b64::encode(&[0xfb, 0xff]), "-_8");
    assert_eq!(b64::decode("Zm9v"), Some(b"foo".to_vec()));
    // Padding, a stray length and non-zero trailing bits are all refused.
    assert_eq!(b64::decode("Zg=="), None);
    assert_eq!(b64::decode("Z"), None);
    assert_eq!(b64::decode("Zh"), None);
    assert_eq!(b64::decode_array::<3>("Zm9v"), Some(*b"foo"));
    assert_eq!(b64::decode_array::<2>("Zm9v"), None);
}

#[test]
fn ciphertext_length_counts_one_tag_per_record() {
    assert_eq!(ciphertext_len(0), TAG_LEN as u64);
    assert_eq!(ciphertext_len(CHUNK_SIZE as u64), CHUNK_CIPHERTEXT_SIZE as u64);
    assert_eq!(ciphertext_len(CHUNK_SIZE as u64 + 1), CHUNK_CIPHERTEXT_SIZE as u64 + 1 + TAG_LEN as u64);
    // A final record shorter than a tag cannot have been sealed.
    assert_eq!(plaintext_len(CHUNK_CIPHERTEXT_SIZE as u64 + 1), None);
    // Only an empty body seals to a lone, empty final record.
    assert_eq!(plaintext_len(TAG_LEN as u64), Some(0));
    assert_eq!(plaintext_len(CHUNK_CIPHERTEXT_SIZE as u64 + TAG_LEN as u64), None);
    assert_eq!(plaintext_len(2 * CHUNK_CIPHERTEXT_SIZE as u64 + TAG_LEN as u64), None);
    assert_eq!(plaintext_len(CHUNK_CIPHERTEXT_SIZE as u64 + TAG_LEN as u64 + 1), Some(CHUNK_SIZE as u64 + 1));
}
