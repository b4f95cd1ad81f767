//! Framing for the STREAM construction: nonce layout and record counting.
//! Pure byte and number arithmetic; no key material passes through here.
use vstd::prelude::*;
use crate::wire::{CHUNK_CIPHERTEXT_SIZE, CHUNK_SIZE, NONCE_LEN, NONCE_PREFIX_LEN, records_of,
    plain_records, cipher_records};

verus! {

broadcast use vstd::array::group_array_axioms;

/// The four bytes of `counter`, most significant first.
pub open spec fn be32(counter: u32) -> Seq<u8> {
    seq![
        (counter / 16777216) as u8,
        ((counter / 65536) % 256) as u8,
        ((counter / 256) % 256) as u8,
        (counter % 256) as u8,
    ]
}

/// The STREAM nonce layout: `prefix || counter_be32 || final_flag`.
pub open spec fn nonce_layout(prefix: Seq<u8>, counter: u32, final_record: bool) -> Seq<u8> {
    prefix + be32(counter) + seq![if final_record { 1u8 } else { 0u8 }]
}

/// The STREAM nonce for record `counter`:
/// `random_prefix(7) || counter_be32(4) || final_flag(1)`.
pub fn record_nonce(prefix: &[u8], counter: u32, final_record: bool) -> (nonce: [u8; NONCE_LEN])
    requires
        prefix@.len() == NONCE_PREFIX_LEN,
    ensures
        nonce@ == nonce_layout(prefix@, counter, final_record),
{
    let mut nonce: [u8; NONCE_LEN] = [0u8; NONCE_LEN];
    let mut i: usize = 0;
    while i < NONCE_PREFIX_LEN
        invariant
            i <= NONCE_PREFIX_LEN,
            prefix@.len() == NONCE_PREFIX_LEN,
            nonce@.len() == NONCE_LEN,
            forall|j: int| 0 <= j < i ==> nonce@[j] == prefix@[j],
        decreases NONCE_PREFIX_LEN - i,
    {
        nonce.set(i, prefix[i]);
        i += 1;
    }
    nonce.set(7, (counter / 16777216) as u8);
    nonce.set(8, ((counter / 65536) % 256) as u8);
    nonce.set(9, ((counter / 256) % 256) as u8);
    nonce.set(10, (counter % 256) as u8);
    nonce.set(11, if final_record { 1u8 } else { 0u8 });
    assert(nonce@ =~= nonce_layout(prefix@, counter, final_record));
    nonce
}

/// Distinct counters, or distinct final flags, give distinct nonces under one
/// prefix.
pub proof fn lemma_nonces_are_unique(prefix: Seq<u8>, c1: u32, f1: bool, c2: u32, f2: bool)
    requires
        c1 != c2 || f1 != f2,
    ensures
        nonce_layout(prefix, c1, f1) != nonce_layout(prefix, c2, f2),
{
    let n1 = nonce_layout(prefix, c1, f1);
    let n2 = nonce_layout(prefix, c2, f2);
    let k = prefix.len() as int;
    if n1 == n2 {
        assert(n1[k] == n2[k]);
        assert(n1[k + 1] == n2[k + 1]);
        assert(n1[k + 2] == n2[k + 2]);
        assert(n1[k + 3] == n2[k + 3]);
        assert(n1[k + 4] == n2[k + 4]);
        assert(c1 == c2) by (nonlinear_arith)
            requires
                c1 / 16777216 == c2 / 16777216,
                (c1 / 65536) % 256 == (c2 / 65536) % 256,
                (c1 / 256) % 256 == (c2 / 256) % 256,
                c1 % 256 == c2 % 256,
                c1 / 16777216 < 256,
                c2 / 16777216 < 256;
    }
}

/// The nonce of record `counter` is the file's prefix, then the counter as
/// four big-endian bytes (so reading those bytes back as a big-endian number
/// gives the counter), then `1` for the final record and `0` otherwise.
pub proof fn lemma_nonce_is_prefix_counter_be_flag(prefix: Seq<u8>, counter: u32, final_record: bool)
    ensures
        nonce_layout(prefix, counter, final_record).len() == prefix.len() + 5,
        nonce_layout(prefix, counter, final_record).subrange(0, prefix.len() as int) == prefix,
        ({
            let n = nonce_layout(prefix, counter, final_record);
            let k = prefix.len() as int;
            &&& n[k] as int * 16777216 + n[k + 1] as int * 65536 + n[k + 2] as int * 256 + n[k + 3] as int
                == counter as int
            &&& n[k + 4] == (if final_record { 1u8 } else { 0u8 })
        }),
{
    let n = nonce_layout(prefix, counter, final_record);
    let k = prefix.len() as int;
    assert(n.subrange(0, k) =~= prefix);
    let b0: u32 = counter / 16777216;
    let b1: u32 = (counter / 65536) % 256;
    let b2: u32 = (counter / 256) % 256;
    let b3: u32 = counter % 256;
    assert(b0 * 16777216 + b1 * 65536 + b2 * 256 + b3 == counter) by (bit_vector)
        requires
            b0 == counter / 16777216,
            b1 == (counter / 65536) % 256,
            b2 == (counter / 256) % 256,
            b3 == counter % 256;
    assert(b0 < 256);
    assert(n[k] as int == b0 as int);
    assert(n[k + 1] as int == b1 as int);
    assert(n[k + 2] as int == b2 as int);
    assert(n[k + 3] as int == b3 as int);
}

/// The STREAM counter for record `index`.
///
/// The counter is 32 bits, which at 64 KiB records caps a file at 256 TiB,
/// far beyond any size a server accepts.
pub fn record_index(index: u64) -> (counter: u32)
    requires
        index <= u32::MAX,
    ensures
        counter == index,
{
    index as u32
}

/// `len` divided into `chunk`-sized records, rounding up. An empty body still
/// gets one (empty) record, so "zero bytes" is a fact a peer can verify
/// rather than assume.
pub fn record_count(len: u64, chunk: u64) -> (n: u64)
    requires
        chunk > 0,
    ensures
        n == records_of(len as int, chunk as int),
{
    if len == 0 {
        1
    } else {
        proof {
            crate::wire::lemma_ceil_div(len as int, chunk as int);
            if len % chunk != 0 {
                assert(chunk >= 2);
                assert(len / chunk < u64::MAX) by (nonlinear_arith)
                    requires chunk >= 2, len <= u64::MAX;
            }
        }
        len / chunk + if len % chunk == 0 { 0 } else { 1 }
    }
}

/// How many plaintext records a body of `size` bytes seals into.
pub fn plain_record_count(size: u64) -> (n: u32)
    requires
        plain_records(size as int) <= u32::MAX,
    ensures
        n == plain_records(size as int),
{
    record_count(size, CHUNK_SIZE as u64) as u32
}

/// How many ciphertext records make up a body of `cipher_len` bytes.
pub fn cipher_record_count(cipher_len: u64) -> (n: u64)
    ensures
        n == cipher_records(cipher_len as int),
{
    record_count(cipher_len, CHUNK_CIPHERTEXT_SIZE as u64)
}

} // verus!
