//! base64url (unpadded) helpers: the encoding used for every binary value
//! that travels in a URL, header, or JSON field.
use vstd::prelude::*;
use crate::primitives::{b64url_symbol, sextet_a, sextet_b, sextet_c, sextet_d, b64url_text, b64_unpadded_len, is_b64url_char, b64url_encode, b64url_decode};

verus! {

/// The six-bit value a URL-safe base64 symbol stands for.
pub open spec fn b64url_value(c: char) -> int {
    if 'A' <= c && c <= 'Z' {
        c as int - 'A' as int
    } else if 'a' <= c && c <= 'z' {
        c as int - 'a' as int + 26
    } else if '0' <= c && c <= '9' {
        c as int - '0' as int + 52
    } else if c == '-' {
        62
    } else {
        63
    }
}

/// Every six-bit value has a symbol of the alphabet, and the symbol reads
/// back as that value.
pub proof fn lemma_symbol_round_trip(v: int)
    requires
        0 <= v < 64,
    ensures
        is_b64url_char(b64url_symbol(v)),
        b64url_value(b64url_symbol(v)) == v,
{
}

/// The symbols of one byte group, in order, each of the alphabet and each
/// reading back as its six-bit value.
proof fn lemma_group_symbols(x0: u8, x1: u8, x2: u8)
    ensures
        0 <= sextet_a(x0) < 64,
        0 <= sextet_b(x0, x1) < 64,
        0 <= sextet_c(x1, x2) < 64,
        0 <= sextet_d(x2) < 64,
        is_b64url_char(b64url_symbol(sextet_a(x0))),
        is_b64url_char(b64url_symbol(sextet_b(x0, x1))),
        is_b64url_char(b64url_symbol(sextet_c(x1, x2))),
        is_b64url_char(b64url_symbol(sextet_d(x2))),
        b64url_value(b64url_symbol(sextet_a(x0))) == sextet_a(x0),
        b64url_value(b64url_symbol(sextet_b(x0, x1))) == sextet_b(x0, x1),
        b64url_value(b64url_symbol(sextet_c(x1, x2))) == sextet_c(x1, x2),
        b64url_value(b64url_symbol(sextet_d(x2))) == sextet_d(x2),
{
    lemma_symbol_round_trip(sextet_a(x0));
    lemma_symbol_round_trip(sextet_b(x0, x1));
    lemma_symbol_round_trip(sextet_c(x1, x2));
    lemma_symbol_round_trip(sextet_d(x2));
}

/// The encoding of `n` bytes is `4 * (n / 3)` symbols plus two or three for
/// a final partial group, and every symbol is of the URL-safe alphabet.
pub proof fn lemma_text_shape(bytes: Seq<u8>)
    ensures
        b64url_text(bytes).len() == b64_unpadded_len(bytes.len() as int),
        forall|i: int| 0 <= i < b64url_text(bytes).len() ==> is_b64url_char(#[trigger] b64url_text(bytes)[i]),
    decreases bytes.len(),
{
    let t = b64url_text(bytes);
    if bytes.len() == 1 {
        lemma_group_symbols(bytes[0], 0, 0);
    } else if bytes.len() == 2 {
        lemma_group_symbols(bytes[0], bytes[1], 0);
    } else if bytes.len() >= 3 {
        let rest = bytes.subrange(3, bytes.len() as int);
        lemma_text_shape(rest);
        lemma_group_symbols(bytes[0], bytes[1], bytes[2]);
        assert forall|i: int| 0 <= i < t.len() implies is_b64url_char(#[trigger] t[i]) by {
            if i >= 4 {
                assert(t[i] == b64url_text(rest)[i - 4]);
            }
        }
    }
}

/// Three bytes are recovered from the four six-bit values they encode to.
proof fn lemma_group_recovers(x0: u8, x1: u8, x2: u8)
    ensures
        x0 == sextet_a(x0) * 4 + sextet_b(x0, x1) / 16,
        x1 == (sextet_b(x0, x1) % 16) * 16 + sextet_c(x1, x2) / 4,
        x2 == (sextet_c(x1, x2) % 4) * 64 + sextet_d(x2),
{
    assert(x0 == (x0 / 4) * 4 + ((x0 % 4) * 16 + x1 / 16) / 16) by (bit_vector);
    assert(x1 == (((x0 % 4) * 16 + x1 / 16) % 16) * 16 + ((x1 % 16) * 4 + x2 / 64) / 4) by (bit_vector);
    assert(x2 == (((x1 % 16) * 4 + x2 / 64) % 4) * 64 + x2 % 64) by (bit_vector);
}

/// Distinct byte strings have distinct encodings.
pub proof fn lemma_text_injective(a: Seq<u8>, b: Seq<u8>)
    requires
        b64url_text(a) == b64url_text(b),
    ensures
        a == b,
    decreases a.len(),
{
    lemma_text_shape(a);
    lemma_text_shape(b);
    let ta = b64url_text(a);
    assert(a.len() == b.len());
    if a.len() == 0 {
        assert(a =~= b);
    } else if a.len() == 1 {
        lemma_group_symbols(a[0], 0, 0);
        lemma_group_symbols(b[0], 0, 0);
        lemma_group_recovers(a[0], 0, 0);
        lemma_group_recovers(b[0], 0, 0);
        assert(ta[0] == b64url_symbol(sextet_a(a[0])));
        assert(ta[1] == b64url_symbol(sextet_b(a[0], 0)));
        assert(a[0] == b[0]);
        assert(a =~= b);
    } else if a.len() == 2 {
        lemma_group_symbols(a[0], a[1], 0);
        lemma_group_symbols(b[0], b[1], 0);
        lemma_group_recovers(a[0], a[1], 0);
        lemma_group_recovers(b[0], b[1], 0);
        assert(ta[0] == b64url_symbol(sextet_a(a[0])));
        assert(ta[1] == b64url_symbol(sextet_b(a[0], a[1])));
        assert(ta[2] == b64url_symbol(sextet_c(a[1], 0)));
        assert(a[0] == b[0]);
        assert(a[1] == b[1]);
        assert(a =~= b);
    } else {
        let ra = a.subrange(3, a.len() as int);
        let rb = b.subrange(3, b.len() as int);
        lemma_group_symbols(a[0], a[1], a[2]);
        lemma_group_symbols(b[0], b[1], b[2]);
        lemma_group_recovers(a[0], a[1], a[2]);
        lemma_group_recovers(b[0], b[1], b[2]);
        assert(ta[0] == b64url_symbol(sextet_a(a[0])));
        assert(ta[1] == b64url_symbol(sextet_b(a[0], a[1])));
        assert(ta[2] == b64url_symbol(sextet_c(a[1], a[2])));
        assert(ta[3] == b64url_symbol(sextet_d(a[2])));
        assert(a[0] == b[0]);
        assert(a[1] == b[1]);
        assert(a[2] == b[2]);
        assert(b64url_text(ra) =~= ta.subrange(4, ta.len() as int));
        assert(b64url_text(rb) =~= ta.subrange(4, ta.len() as int));
        lemma_text_injective(ra, rb);
        assert forall|i: int| 0 <= i < a.len() implies a[i] == b[i] by {
            if i >= 3 {
                assert(a[i] == ra[i - 3]);
                assert(b[i] == rb[i - 3]);
            }
        }
        assert(a =~= b);
    }
}

/// The bytes `text` is the unpadded base64url encoding of, if any; by
/// [`lemma_text_injective`] there is at most one such byte string.
pub open spec fn b64url_decoded(text: Seq<char>) -> Option<Seq<u8>> {
    if exists|b: Seq<u8>| #[trigger] b64url_text(b) == text {
        Some(choose|b: Seq<u8>| #[trigger] b64url_text(b) == text)
    } else {
        None
    }
}

/// The plain value of an optional byte vector.
pub open spec fn opt_bytes(v: Option<Vec<u8>>) -> Option<Seq<u8>> {
    match v {
        Some(b) => Some(b@),
        None => None,
    }
}

/// Decoding an encoding gives back the bytes that were encoded.
pub proof fn lemma_decode_encoding(bytes: Seq<u8>)
    ensures
        b64url_decoded(b64url_text(bytes)) == Some(bytes),
{
    let t = b64url_text(bytes);
    assert(b64url_text(bytes) == t);
    let c = choose|b: Seq<u8>| #[trigger] b64url_text(b) == t;
    lemma_text_injective(c, bytes);
}

/// Inputs whose encoding's length fits in a `usize`.
pub open spec fn encodable(bytes: Seq<u8>) -> bool {
    b64_unpadded_len(bytes.len() as int) <= usize::MAX
}

/// The unpadded base64url text of `bytes`.
pub fn encode(bytes: &[u8]) -> (text: String)
    requires
        encodable(bytes@),
    ensures
        text@ == b64url_text(bytes@),
        text@.len() == b64_unpadded_len(bytes@.len() as int),
        forall|i: int| 0 <= i < text@.len() ==> is_b64url_char(#[trigger] text@[i]),
{
    let text = b64url_encode(bytes);
    proof {
        lemma_text_shape(bytes@);
    }
    text
}

/// The bytes `text` encodes, or `None` when it is not unpadded base64url.
pub fn decode(text: &str) -> (bytes: Option<Vec<u8>>)
    ensures
        bytes matches Some(b) ==> text@ == b64url_text(b@),
        bytes is None ==> forall|b: Seq<u8>| text@ != #[trigger] b64url_text(b),
        forall|b: Seq<u8>| text@ == #[trigger] b64url_text(b) ==> bytes is Some && bytes->0@ == b,
        opt_bytes(bytes) == b64url_decoded(text@),
{
    let bytes = b64url_decode(text);
    proof {
        assert forall|b: Seq<u8>| text@ == #[trigger] b64url_text(b) implies bytes is Some && bytes->0@ == b by {
            lemma_text_injective(bytes->0@, b);
        }
        if bytes is Some {
            assert(b64url_text(bytes->0@) == text@);
            let c = choose|b: Seq<u8>| #[trigger] b64url_text(b) == text@;
            lemma_text_injective(c, bytes->0@);
        }
    }
    bytes
}

/// Decode exactly `N` bytes, rejecting anything longer or shorter.
pub fn decode_array<const N: usize>(text: &str) -> (bytes: Option<[u8; N]>)
    ensures
        bytes matches Some(a) ==> text@ == b64url_text(a@),
        bytes is None ==> forall|b: Seq<u8>| b.len() == N ==> text@ != #[trigger] b64url_text(b),
        forall|b: Seq<u8>| b.len() == N && text@ == #[trigger] b64url_text(b) ==> bytes is Some && bytes->0@ == b,
{
    let v = decode(text)?;
    if v.len() != N {
        return None;
    }
    let mut a: [u8; N] = vstd::array::array_fill_for_copy_types(0u8);
    let mut i: usize = 0;
    while i < N
        invariant
            i <= N,
            v@.len() == N,
            a@.len() == N,
            forall|j: int| 0 <= j < i ==> a@[j] == v@[j],
        decreases N - i,
    {
        a.set(i, v[i]);
        i += 1;
    }
    assert(a@ =~= v@);
    Some(a)
}

} // verus!
