//! Payment preimages in their hexadecimal text form.

use vstd::prelude::*;

verus! {

/// Value of a hexadecimal digit, in either case; `None` for any other
/// character.
pub open spec fn hex_digit_value(c: char) -> Option<int> {
    let n = c as int;
    if 48 <= n <= 57 {
        Some(n - 48)
    } else if 97 <= n <= 102 {
        Some(n - 87)
    } else if 65 <= n <= 70 {
        Some(n - 55)
    } else {
        None
    }
}

/// Whether `text` is the hexadecimal form of 32 bytes: 64 digits and nothing
/// else.
pub open spec fn is_hex_preimage(text: Seq<char>) -> bool {
    text.len() == 64 && forall|i: int| 0 <= i < 64 ==> (#[trigger] hex_digit_value(text[i])) is Some
}

/// The byte that the digits at `2 * i` and `2 * i + 1` of `text` spell, the
/// first of them being the upper half.
pub open spec fn hex_byte(text: Seq<char>, i: int) -> int {
    16 * hex_digit_value(text[2 * i]).unwrap() + hex_digit_value(text[2 * i + 1]).unwrap()
}

/// The 32 bytes that a hexadecimal preimage spells.
pub open spec fn preimage_bytes(text: Seq<char>) -> Seq<u8> {
    Seq::new(32, |i: int| hex_byte(text, i) as u8)
}

/// The preimage that a hexadecimal text spells, as the array that holds
/// [`preimage_bytes`].
pub open spec fn preimage_of(text: Seq<char>) -> [u8; 32] {
    choose|b: [u8; 32]| b@ == preimage_bytes(text)
}

/// An array that holds the bytes spelled by `text` is the preimage of `text`.
pub proof fn lemma_preimage_of(text: Seq<char>, bytes: [u8; 32])
    requires
        bytes@ == preimage_bytes(text),
    ensures
        bytes == preimage_of(text),
{
    let chosen = preimage_of(text);
    assert(chosen@ == preimage_bytes(text));
    assert(chosen =~= bytes) by {
        assert forall|i: int| 0 <= i < 32 implies chosen[i] == bytes[i] by {
            assert(chosen@[i] == bytes@[i]);
        }
    }
}

/// Decodes a preimage with `bitcoin::hashes::hex::FromHex::from_hex` for
/// `[u8; 32]`. That function accepts exactly the texts of 64 hexadecimal
/// digits, upper or lower case, and yields the bytes spelled by each pair of
/// digits, upper half first; any other text is an error, which is dropped
/// here.
#[verifier::external_body]
pub(crate) fn decode_preimage(text: &str) -> (bytes: Option<[u8; 32]>)
    ensures
        bytes is Some <==> is_hex_preimage(text@),
        bytes matches Some(b) ==> b@ == preimage_bytes(text@),
{
    let decoded: Result<[u8; 32], bitcoin::hashes::hex::Error> =
        bitcoin::hashes::hex::FromHex::from_hex(text);
    decoded.ok()
}

} // verus!
