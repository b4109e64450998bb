//! Byte strings written as hex.

use vstd::prelude::*;

use crate::protocol::Bytes32;
use crate::text::{ascii_lower, characters};
use crate::types::{ChiaQueryError, ErrorView};

verus! {

/// The lower-case digit for `n`.
pub open spec fn hex_digit(n: int) -> char {
    if n < 10 {
        (48 + n) as char
    } else {
        (87 + n) as char
    }
}

/// What the digit `c` is worth, in either case.
pub open spec fn hex_value(c: char) -> Option<int> {
    if '0' <= c <= '9' {
        Some(c as int - 48)
    } else if 'a' <= c <= 'f' {
        Some(c as int - 87)
    } else if 'A' <= c <= 'F' {
        Some(c as int - 55)
    } else {
        None
    }
}

/// `bytes` written as two lower-case digits each.
pub open spec fn hex_of(bytes: Seq<u8>) -> Seq<char> {
    Seq::new(
        2 * bytes.len(),
        |i: int|
            if i % 2 == 0 {
                hex_digit(bytes[i / 2] as int / 16)
            } else {
                hex_digit(bytes[i / 2] as int % 16)
            },
    )
}

/// `bytes` written as `0x`-prefixed hex.
pub open spec fn prefixed(bytes: Seq<u8>) -> Seq<char> {
    "0x"@ + hex_of(bytes)
}

/// The bytes `text` writes, if it is made of pairs of digits.
pub open spec fn unhexed(text: Seq<char>) -> Option<Seq<u8>> {
    if text.len() % 2 == 0 && forall|i: int|
        0 <= i < text.len() ==> hex_value(#[trigger] text[i]) is Some {
        Some(
            Seq::new(
                text.len() / 2,
                |i: int| (16 * hex_value(text[2 * i])->0 + hex_value(text[2 * i + 1])->0) as u8,
            ),
        )
    } else {
        None
    }
}

/// `text` without a leading `0x`.
pub open spec fn unprefixed(text: Seq<char>) -> Seq<char> {
    if text.len() >= 2 && text[0] == '0' && text[1] == 'x' {
        text.skip(2)
    } else {
        text
    }
}

/// Calls `hex::encode`, which writes each byte as two lower-case digits, high half first.
#[verifier::external_body]
fn encoded(bytes: &[u8]) -> (text: String)
    ensures
        text@ == hex_of(bytes@),
{
    hex::encode(bytes)
}

/// Calls `hex::decode`, which reads pairs of digits of either case and fails on an odd number of
/// them and on any other character.
#[verifier::external_body]
fn decoded(text: &str) -> (bytes: Option<Vec<u8>>)
    ensures
        match bytes {
            Some(b) => unhexed(text@) == Some(b@),
            None => unhexed(text@) is None,
        },
{
    hex::decode(text).ok()
}

/// Writes `bytes` as `0x`-prefixed hex.
pub fn hex_text(bytes: &[u8]) -> (text: String)
    ensures
        text@ == prefixed(bytes@),
{
    let digits = encoded(bytes);
    String::from_str("0x").concat(digits.as_str())
}

/// Writes thirty-two bytes as `0x`-prefixed hex.
pub fn hex32(bytes: &Bytes32) -> (text: String)
    ensures
        text@ == prefixed(bytes@),
{
    hex_text(bytes.bytes.as_slice())
}

/// What reading `text` as hex gives.
pub open spec fn read_hex(text: Seq<char>) -> Result<Seq<u8>, ErrorView> {
    match unhexed(unprefixed(text)) {
        Some(bytes) => Ok(bytes),
        None => Err(ErrorView::InvalidRequest("not hex: "@ + text)),
    }
}

/// What reading `text` as thirty-two bytes of hex gives.
pub open spec fn read_bytes32(text: Seq<char>) -> Result<Seq<u8>, ErrorView> {
    match read_hex(text) {
        Ok(bytes) => if bytes.len() == 32 {
            Ok(bytes)
        } else {
            Err(ErrorView::InvalidRequest("not 32 bytes: "@ + text))
        },
        Err(e) => Err(e),
    }
}

/// Reads hex, with or without a leading `0x`.
pub fn parse_hex(text: &str) -> (bytes: Result<Vec<u8>, ChiaQueryError>)
    ensures
        match bytes {
            Ok(b) => read_hex(text@) == Ok::<Seq<u8>, ErrorView>(b@),
            Err(e) => read_hex(text@) == Err::<Seq<u8>, ErrorView>(e@),
        },
{
    let chars = characters(text);
    let digits: &str = if chars.len() >= 2 && chars[0] == '0' && chars[1] == 'x' {
        assert(text@.subrange(2, text@.len() as int) =~= text@.skip(2));
        text.substring_char(2, chars.len())
    } else {
        text
    };
    match decoded(digits) {
        Some(bytes) => Ok(bytes),
        None => {
            let message = String::from_str("not hex: ").concat(text);
            Err(ChiaQueryError::InvalidRequest(message))
        },
    }
}

/// Reads thirty-two bytes of hex, with or without a leading `0x`.
pub fn parse_bytes32(text: &str) -> (bytes: Result<Bytes32, ChiaQueryError>)
    ensures
        match bytes {
            Ok(b) => read_bytes32(text@) == Ok::<Seq<u8>, ErrorView>(b@),
            Err(e) => read_bytes32(text@) == Err::<Seq<u8>, ErrorView>(e@),
        },
{
    let read = match parse_hex(text) {
        Ok(read) => read,
        Err(e) => return Err(e),
    };
    if read.len() != 32 {
        let message = String::from_str("not 32 bytes: ").concat(text);
        return Err(ChiaQueryError::InvalidRequest(message));
    }
    let mut bytes: [u8; 32] = [0u8;32];
    let mut i: usize = 0;
    while i < 32
        invariant
            i <= 32,
            read.len() == 32,
            forall|j: int| 0 <= j < i ==> bytes@[j] == read@[j],
        decreases 32 - i,
    {
        bytes[i] = read[i];
        i = i + 1;
    }
    assert(bytes@ =~= read@);
    Ok(Bytes32 { bytes })
}

/// What is written as hex reads back as the same bytes.
pub proof fn law_hex_reads_back(bytes: Seq<u8>)
    ensures
        unhexed(hex_of(bytes)) == Some(bytes),
        unhexed(unprefixed(prefixed(bytes))) == Some(bytes),
{
    let text = hex_of(bytes);
    assert forall|i: int| 0 <= i < text.len() implies hex_value(#[trigger] text[i]) is Some by {
        let b = bytes[i / 2] as int;
        assert(0 <= b / 16 < 16 && 0 <= b % 16 < 16);
    }
    assert forall|i: int| 0 <= i < bytes.len() implies #[trigger] unhexed(text)->0[i]
        == bytes[i] by {
        let b = bytes[i] as int;
        assert((2 * i) % 2 == 0 && (2 * i) / 2 == i);
        assert((2 * i + 1) % 2 == 1 && (2 * i + 1) / 2 == i);
        assert(0 <= b / 16 < 16 && 0 <= b % 16 < 16);
        assert(hex_value(text[2 * i]) == Some(b / 16));
        assert(hex_value(text[2 * i + 1]) == Some(b % 16));
        assert(16 * (b / 16) + b % 16 == b);
    }
    assert(unhexed(text)->0 =~= bytes);
    reveal_strlit("0x");
    assert(prefixed(bytes).skip(2) =~= text);
}

/// Hex is read in pairs of digits of either case, after a leading `0x` if there is one: what was
/// read, written again, is the text in lower case. Any other text is refused, and named.
pub proof fn law_hex_is_read_in_pairs(text: Seq<char>)
    ensures
        ({
            let from: int = if text.len() >= 2 && text[0] == '0' && text[1] == 'x' {
                2
            } else {
                0
            };
            let is_digit = |c: char| '0' <= c <= '9' || 'a' <= c <= 'f' || 'A' <= c <= 'F';
            let well_written = (text.len() - from) % 2 == 0 && forall|i: int|
                from <= i < text.len() ==> is_digit(#[trigger] text[i]);
            &&& well_written ==> read_hex(text) is Ok && 2 * read_hex(text)->Ok_0.len()
                == text.len() - from && forall|i: int|
                from <= i < text.len() ==> hex_of(read_hex(text)->Ok_0)[i - from] == ascii_lower(
                    #[trigger] text[i],
                )
            &&& !well_written ==> read_hex(text) == Err::<Seq<u8>, ErrorView>(
                ErrorView::InvalidRequest("not hex: "@ + text),
            )
        }),
{
    let from: int = if text.len() >= 2 && text[0] == '0' && text[1] == 'x' {
        2
    } else {
        0
    };
    let is_digit = |c: char| '0' <= c <= '9' || 'a' <= c <= 'f' || 'A' <= c <= 'F';
    let digits = unprefixed(text);
    assert(digits =~= text.skip(from));
    assert forall|i: int| 0 <= i < digits.len() implies (hex_value(#[trigger] digits[i]) is Some
        <==> is_digit(text[i + from])) by {}
    if (text.len() - from) % 2 == 0 && forall|i: int|
        from <= i < text.len() ==> is_digit(#[trigger] text[i]) {
        assert forall|i: int| 0 <= i < digits.len() implies hex_value(
            #[trigger] digits[i],
        ) is Some by {
            assert(is_digit(text[i + from]));
        }
        let bytes = read_hex(text)->Ok_0;
        assert forall|i: int| from <= i < text.len() implies hex_of(bytes)[i - from] == ascii_lower(
            #[trigger] text[i],
        ) by {
            let k = i - from;
            let h = k / 2;
            let high = hex_value(digits[2 * h])->0;
            let low = hex_value(digits[2 * h + 1])->0;
            assert(is_digit(text[2 * h + from]) && is_digit(text[2 * h + 1 + from]));
            assert(hex_value(digits[2 * h]) is Some && hex_value(digits[2 * h + 1]) is Some);
            assert(bytes[h] == 16 * high + low);
            assert(bytes[h] as int / 16 == high && bytes[h] as int % 16 == low);
            assert(digits[k] == text[i]);
            if k % 2 == 0 {
                assert(k == 2 * h);
                assert(hex_digit(high) == ascii_lower(digits[2 * h]));
            } else {
                assert(k == 2 * h + 1);
                assert(hex_digit(low) == ascii_lower(digits[2 * h + 1]));
            }
        }
    } else if unhexed(digits) is Some {
        assert forall|i: int| from <= i < text.len() implies is_digit(#[trigger] text[i]) by {
            assert(hex_value(digits[i - from]) is Some);
        }
    }
}

/// An id is thirty-two bytes of hex: sixty-four digits after a leading `0x` if there is one. Hex of
/// any other length is refused, and named.
pub proof fn law_an_id_has_sixty_four_digits(text: Seq<char>)
    ensures
        ({
            let digits = if text.len() >= 2 && text[0] == '0' && text[1] == 'x' {
                text.len() - 2
            } else {
                text.len() as int
            };
            &&& read_bytes32(text) is Ok <==> read_hex(text) is Ok && digits == 64
            &&& read_bytes32(text) is Ok ==> read_bytes32(text)->Ok_0 == read_hex(text)->Ok_0
            &&& read_hex(text) is Err ==> read_bytes32(text) == read_hex(text)
            &&& read_hex(text) is Ok && digits != 64 ==> read_bytes32(text) == Err::<
                Seq<u8>,
                ErrorView,
            >(ErrorView::InvalidRequest("not 32 bytes: "@ + text))
        }),
{
    law_hex_is_read_in_pairs(text);
}

/// An id is read back from how it is written, with its prefix or without.
pub proof fn law_an_id_reads_back(bytes: Seq<u8>)
    requires
        bytes.len() == 32,
    ensures
        read_bytes32("0x"@ + hex_of(bytes)) == Ok::<Seq<u8>, ErrorView>(bytes),
        read_hex("0x"@ + hex_of(bytes)) == Ok::<Seq<u8>, ErrorView>(bytes),
{
    law_hex_reads_back(bytes);
}

} // verus!
