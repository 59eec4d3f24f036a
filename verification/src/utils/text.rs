use vstd::prelude::*;
use vstd::utf8::{
    decode_utf8, encode_utf8, encode_utf8_decode_utf8, encode_utf8_valid_utf8, is_ascii_chars,
    is_ascii_chars_encode_utf8, valid_utf8,
};

use crate::error::{fails_as, parse_error, validation_error, EdidError, ErrorView};

verus! {

/// The characters that `String::from_utf8_lossy` makes of `bytes`: invalid sequences become
/// U+FFFD replacement characters.
pub uninterp spec fn lossy_utf8(bytes: Seq<u8>) -> Seq<char>;

/// The text `String::from_utf8_lossy` reads from `bytes`: valid UTF-8 is decoded as it is;
/// for other bytes the result is the one named by [`lossy_utf8`].
pub open spec fn utf8_lossy_text(bytes: Seq<u8>) -> Seq<char> {
    if valid_utf8(bytes) {
        decode_utf8(bytes)
    } else {
        lossy_utf8(bytes)
    }
}

/// `String::push`: appends one character to the string.
#[verifier::external_body]
pub(crate) fn push_char(s: &mut String, c: char)
    ensures
        final(s)@ == old(s)@.push(c),
{
    s.push(c);
}

/// `String::from_utf8_lossy` followed by taking ownership of the text. For valid UTF-8 the
/// documentation promises the decoded text itself; for other input the result is named by
/// [`lossy_utf8`], and which replacement characters it holds is left unsaid.
#[verifier::external_body]
pub(crate) fn utf8_lossy(bytes: &[u8]) -> (s: String)
    ensures
        s@ == utf8_lossy_text(bytes@),
        !valid_utf8(bytes@) ==> s@ == lossy_utf8(bytes@),
{
    String::from_utf8_lossy(bytes).into_owned()
}

/// Byte sequences made only of ASCII bytes are valid UTF-8 and decode to the same characters.
pub proof fn lemma_ascii_bytes_decode(bytes: Seq<u8>)
    requires
        forall|i: int| 0 <= i < bytes.len() ==> #[trigger] bytes[i] < 0x80,
    ensures
        valid_utf8(bytes),
        decode_utf8(bytes) == bytes.map_values(|b: u8| b as char),
{
    let chars = bytes.map_values(|b: u8| b as char);
    assert(is_ascii_chars(chars));
    is_ascii_chars_encode_utf8(chars);
    assert(encode_utf8(chars) =~= bytes);
    encode_utf8_valid_utf8(chars);
    encode_utf8_decode_utf8(chars);
}

/// ASCII text is encoded byte for byte.
pub proof fn lemma_ascii_text_bytes(t: Seq<char>)
    requires
        is_ascii_chars(t),
    ensures
        encode_utf8(t) == t.map_values(|c: char| c as u8),
{
    is_ascii_chars_encode_utf8(t);
    assert(encode_utf8(t) =~= t.map_values(|c: char| c as u8));
}

/* Decimal numbers */

/// The decimal digit character for `d` (0..=9).
pub open spec fn digit_char(d: int) -> char {
    (48 + d) as char
}

/// The decimal representation of `n`, without leading zeros.
pub open spec fn decimal(n: nat) -> Seq<char>
    decreases n,
{
    if n < 10 {
        seq![digit_char(n as int)]
    } else {
        decimal(n / 10).push(digit_char((n % 10) as int))
    }
}

/// Appends the decimal representation of `n` to `s`.
pub fn push_decimal(s: &mut String, n: usize)
    ensures
        final(s)@ == old(s)@ + decimal(n as nat),
    decreases n,
{
    let ghost start = s@;
    if n >= 10 {
        push_decimal(s, n / 10);
    }
    push_char(s, ((48 + n % 10) as u8) as char);
    if n >= 10 {
        assert(decimal(n as nat) == decimal((n / 10) as nat).push(digit_char((n % 10) as int)));
    } else {
        assert(decimal(n as nat) =~= seq![digit_char(n as int)]);
    }
    assert(s@ =~= start + decimal(n as nat));
}

/// The lowercase hexadecimal digit character for `d` (0..=15).
pub open spec fn hex_digit_char(d: int) -> char {
    if d < 10 {
        (48 + d) as char
    } else {
        (87 + d) as char
    }
}

/// Appends `b` as two lowercase hexadecimal digits to `s`.
pub fn push_hex_byte(s: &mut String, b: u8)
    ensures
        final(s)@ == old(s)@ + seq![hex_digit_char((b / 16) as int), hex_digit_char((b % 16) as int)],
{
    let high = b / 16;
    let low = b % 16;
    push_char(s, if high < 10 { (48 + high) as char } else { (87 + high) as char });
    push_char(s, if low < 10 { (48 + low) as char } else { (87 + low) as char });
}

} // verus!
