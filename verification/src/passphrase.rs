//! Formatting for generated passphrases. Callers supply the randomness; this
//! only lays the bytes out for a human to read or dictate.
use vstd::prelude::*;

verus! {

/// Crockford base32: no `I`, `L`, `O` or `U`, so a passphrase read aloud or
/// copied by hand does not turn into a different passphrase.
pub const ALPHABET: [char; 32] = [
    '0', '1', '2', '3', '4', '5', '6', '7', '8', '9', 'A', 'B', 'C', 'D', 'E', 'F',
    'G', 'H', 'J', 'K', 'M', 'N', 'P', 'Q', 'R', 'S', 'T', 'V', 'W', 'X', 'Y', 'Z',
];

/// Symbols per group, e.g. `NT80` in `NT80-CFH7-ECZF-XCVJ-4E1X`.
pub const PER_GROUP: usize = 4;

/// Random bytes a passphrase is generated from: 5 groups of 4 symbols is 100
/// bits of entropy.
pub const BYTES: usize = 20;

/// The passphrase for `bytes`: the low five bits of each byte pick a symbol,
/// and every fifth position is a `-` between groups of four.
pub open spec fn passphrase_of(bytes: Seq<u8>) -> Seq<char> {
    Seq::new(
        (bytes.len() + bytes.len() / 4 - 1) as nat,
        |i: int| if i % 5 == 4 { '-' } else { ALPHABET@[(bytes[i - i / 5] % 32) as int] },
    )
}

/// Format `bytes` as a passphrase, grouped for reading aloud. A passphrase
/// is made of exactly [`BYTES`] bytes; `requires` states that.
pub fn format(bytes: &[u8]) -> (passphrase: String)
    requires
        bytes@.len() == BYTES,
    ensures
        passphrase@ == passphrase_of(bytes@),
{
    let mut out = String::new();
    let mut index: usize = 0;
    while index < bytes.len()
        invariant
            bytes@.len() == BYTES,
            index <= BYTES,
            out@.len() == if index == 0 { 0 } else { index + (index - 1) / 4 },
            forall|i: int| 0 <= i < out@.len() ==> #[trigger] out@[i] == passphrase_of(bytes@)[i],
        decreases BYTES - index,
    {
        let ghost before = out@;
        if index > 0 && index % PER_GROUP == 0 {
            crate::text::push_char(&mut out, '-');
        }
        let byte = bytes[index];
        let symbol = (byte & 0x1F) as usize;
        assert(byte & 0x1F == byte % 32) by (bit_vector);
        crate::text::push_char(&mut out, ALPHABET[symbol]);
        index += 1;
    }
    assert(out@ =~= passphrase_of(bytes@));
    out
}

/// Every passphrase is five groups of four symbols of the alphabet, joined
/// by dashes, and never holds an `I`, `L`, `O` or `U`.
pub proof fn lemma_passphrase_shape(bytes: Seq<u8>)
    requires
        bytes.len() == BYTES,
    ensures
        passphrase_of(bytes).len() == 24,
        forall|i: int| 0 <= i < 24 ==> (#[trigger] passphrase_of(bytes)[i] == '-' <==> i % 5 == 4),
        forall|i: int| 0 <= i < 24 && i % 5 != 4 ==> ALPHABET@.contains(#[trigger] passphrase_of(bytes)[i]),
        forall|i: int| 0 <= i < 24 ==> {
            let c = #[trigger] passphrase_of(bytes)[i];
            c != 'I' && c != 'L' && c != 'O' && c != 'U'
        },
{
    assert forall|i: int| 0 <= i < 24 && i % 5 != 4 implies ALPHABET@.contains(#[trigger] passphrase_of(bytes)[i]) by {
        let k = (bytes[i - i / 5] % 32) as int;
        assert(ALPHABET@[k] == passphrase_of(bytes)[i]);
    }
}

} // verus!
