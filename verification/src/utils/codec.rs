use vstd::prelude::*;
use vstd::string::StrSliceExecFns;
use vstd::utf8::{decode_utf8, encode_utf8, is_ascii_chars, is_ascii_chars_encode_utf8, valid_utf8};

use crate::error::{fails_as, parse_error, validation_error, EdidError, ErrorView};
use super::text::{lemma_ascii_bytes_decode, push_char, utf8_lossy, utf8_lossy_text};

verus! {

/* The fixed 8-byte EDID header */

/// The eight bytes every EDID starts with.
pub open spec fn edid_header() -> Seq<u8> {
    seq![0x00u8, 0xff, 0xff, 0xff, 0xff, 0xff, 0xff, 0x00]
}

/// `data` starts with the EDID header.
pub open spec fn header_ok(data: Seq<u8>) -> bool {
    data.len() >= 8 && data.take(8) == edid_header()
}

/// Checks that `data` starts with the EDID header.
pub fn validate_header(data: &[u8]) -> (r: Result<(), EdidError>)
    ensures
        fails_as(r, if header_ok(data@) { None } else { Some(ErrorView::InvalidHeader) }),
{
    if data.len() < 8 {
        return Err(EdidError::InvalidHeader);
    }
    let mut i: usize = 0;
    while i < 8
        invariant
            i <= 8 <= data@.len(),
            forall|j: int| 0 <= j < i ==> data@[j] == #[trigger] edid_header()[j],
        decreases 8 - i,
    {
        let expected: u8 = if i == 0 || i == 7 { 0x00 } else { 0xff };
        if data[i] != expected {
            assert(data@.take(8)[i as int] != edid_header()[i as int]);
            return Err(EdidError::InvalidHeader);
        }
        i = i + 1;
    }
    assert(data@.take(8) =~= edid_header());
    Ok(())
}

/* Manufacturer ID: three letters packed as 5-bit codes into a big-endian word */

/// The big-endian 16-bit word stored in two bytes.
pub open spec fn manufacturer_word(bytes: Seq<u8>) -> int {
    bytes[0] * 256 + bytes[1]
}

/// The three 5-bit letter codes of a manufacturer ID word.
pub open spec fn manufacturer_codes(bytes: Seq<u8>) -> Seq<int> {
    let v = manufacturer_word(bytes);
    seq![(v / 1024) % 32, (v / 32) % 32, v % 32]
}

/// Every code names a letter: 1 is 'A', 26 is 'Z'.
pub open spec fn manufacturer_id_valid(bytes: Seq<u8>) -> bool {
    forall|i: int| 0 <= i < 3 ==> 1 <= #[trigger] manufacturer_codes(bytes)[i] <= 26
}

/// The letters that the codes of `bytes` stand for.
pub open spec fn manufacturer_letters(bytes: Seq<u8>) -> Seq<char> {
    manufacturer_codes(bytes).map_values(|c: int| (64 + c) as char)
}

/// What [`decode_manufacturer_id`] reports for `bytes`, if anything.
pub open spec fn manufacturer_decode_error(bytes: Seq<u8>) -> Option<ErrorView> {
    if manufacturer_id_valid(bytes) {
        None
    } else {
        Some(ErrorView::Parse("invalid manufacturer id encoding"@))
    }
}

/// Decodes the three-letter manufacturer ID stored in two bytes.
pub fn decode_manufacturer_id(bytes: [u8; 2]) -> (r: Result<String, EdidError>)
    ensures
        fails_as(r, manufacturer_decode_error(bytes@)),
        r matches Ok(s) ==> s@ == manufacturer_letters(bytes@),
{
    let value: u16 = bytes[0] as u16 * 256 + bytes[1] as u16;
    let codes: [u8; 3] = [((value / 1024) % 32) as u8, ((value / 32) % 32) as u8, (value % 32) as u8];
    assert(codes@ =~= manufacturer_codes(bytes@).map_values(|c: int| c as u8));
    let mut out = String::new();
    let mut i: usize = 0;
    while i < 3
        invariant
            i <= 3,
            codes@ =~= manufacturer_codes(bytes@).map_values(|c: int| c as u8),
            forall|j: int| 0 <= j < i ==> 1 <= #[trigger] manufacturer_codes(bytes@)[j] <= 26,
            out@ =~= manufacturer_letters(bytes@).take(i as int),
        decreases 3 - i,
    {
        let code = codes[i];
        assert(code == manufacturer_codes(bytes@)[i as int]);
        if code < 1 || code > 26 {
            return Err(parse_error("invalid manufacturer id encoding"));
        }
        push_char(&mut out, (64 + code) as char);
        i = i + 1;
    }
    Ok(out)
}

/// An uppercase ASCII letter.
pub open spec fn is_upper_ascii(b: u8) -> bool {
    65 <= b <= 90
}

/// `bytes` are exactly three uppercase ASCII letters.
pub open spec fn manufacturer_encodable(bytes: Seq<u8>) -> bool {
    bytes.len() == 3 && forall|i: int| 0 <= i < 3 ==> is_upper_ascii(#[trigger] bytes[i])
}

/// The packed word for three uppercase letters.
pub open spec fn manufacturer_packed(bytes: Seq<u8>) -> int {
    (bytes[0] - 64) * 1024 + (bytes[1] - 64) * 32 + (bytes[2] - 64)
}

/// The two big-endian bytes for three uppercase letters.
pub open spec fn manufacturer_encoding(bytes: Seq<u8>) -> Seq<u8> {
    seq![(manufacturer_packed(bytes) / 256) as u8, (manufacturer_packed(bytes) % 256) as u8]
}

/// What [`encode_manufacturer_id`] reports for text whose UTF-8 bytes are `bytes`, if anything.
pub open spec fn manufacturer_encode_error(bytes: Seq<u8>) -> Option<ErrorView> {
    if manufacturer_encodable(bytes) {
        None
    } else {
        Some(ErrorView::Validation("manufacturer id must be three uppercase ASCII letters"@))
    }
}

/// Packs a three-letter manufacturer ID into two bytes.
pub fn encode_manufacturer_id(id: &str) -> (r: Result<[u8; 2], EdidError>)
    ensures
        fails_as(r, manufacturer_encode_error(encode_utf8(id@))),
        r matches Ok(a) ==> a@ == manufacturer_encoding(encode_utf8(id@)),
{
    let bytes = id.as_bytes();
    if bytes.len() != 3 {
        return Err(validation_error("manufacturer id must be three uppercase ASCII letters"));
    }
    let mut i: usize = 0;
    while i < 3
        invariant
            i <= 3,
            bytes@.len() == 3,
            bytes@ == encode_utf8(id@),
            forall|j: int| 0 <= j < i ==> is_upper_ascii(#[trigger] bytes@[j]),
        decreases 3 - i,
    {
        if bytes[i] < 65 || bytes[i] > 90 {
            assert(!is_upper_ascii(bytes@[i as int]));
            assert(!manufacturer_encodable(bytes@));
            return Err(validation_error("manufacturer id must be three uppercase ASCII letters"));
        }
        i = i + 1;
    }
    let value: u16 = (bytes[0] - 64) as u16 * 1024 + (bytes[1] - 64) as u16 * 32 + (bytes[2]
        - 64) as u16;
    let out: [u8; 2] = [(value / 256) as u8, (value % 256) as u8];
    assert(out@ =~= manufacturer_encoding(bytes@));
    Ok(out)
}

/* Descriptor text: up to 13 ASCII characters, ended by a line feed and padded with spaces */

/// Line feed and NUL end the text of a descriptor.
pub open spec fn is_text_terminator(b: u8) -> bool {
    b == 0x0a || b == 0x00
}

/// The index of the first terminator in `s` at or after `i`, or the length of `s`.
pub open spec fn terminator_from(s: Seq<u8>, i: int) -> int
    decreases s.len() - i,
{
    if i < 0 || i >= s.len() {
        s.len() as int
    } else if is_text_terminator(s[i]) {
        i
    } else {
        terminator_from(s, i + 1)
    }
}

/// Where the text of a descriptor ends.
pub open spec fn text_end(s: Seq<u8>) -> int {
    terminator_from(s, 0)
}

/// Unicode `White_Space` characters, which `str::trim_end` removes.
pub open spec fn is_unicode_whitespace(c: char) -> bool {
    let u = c as u32;
    ||| 0x09 <= u <= 0x0d
    ||| u == 0x20
    ||| u == 0x85
    ||| u == 0xa0
    ||| u == 0x1680
    ||| 0x2000 <= u <= 0x200a
    ||| u == 0x2028
    ||| u == 0x2029
    ||| u == 0x202f
    ||| u == 0x205f
    ||| u == 0x3000
}

/// `s` without its trailing whitespace.
pub open spec fn trim_end_chars(s: Seq<char>) -> Seq<char>
    decreases s.len(),
{
    if s.len() > 0 && is_unicode_whitespace(s.last()) {
        trim_end_chars(s.drop_last())
    } else {
        s
    }
}

/// The text a descriptor's 13 text bytes hold: the bytes before the first terminator, read
/// as UTF-8 with invalid sequences replaced, without trailing whitespace.
pub open spec fn descriptor_text(bytes: Seq<u8>) -> Seq<char> {
    trim_end_chars(utf8_lossy_text(bytes.take(text_end(bytes))))
}

/// Tells whether `c` is a Unicode whitespace character.
pub fn is_whitespace(c: char) -> (b: bool)
    ensures
        b == is_unicode_whitespace(c),
{
    let u = c as u32;
    (0x09 <= u && u <= 0x0d) || u == 0x20 || u == 0x85 || u == 0xa0 || u == 0x1680 || (0x2000
        <= u && u <= 0x200a) || u == 0x2028 || u == 0x2029 || u == 0x202f || u == 0x205f || u
        == 0x3000
}

/// Returns `text` without its trailing whitespace.
pub fn trim_end(text: &str) -> (r: String)
    ensures
        r@ == trim_end_chars(text@),
{
    let n = text.unicode_len();
    let mut k: usize = n;
    assert(text@.take(n as int) =~= text@);
    while k > 0 && is_whitespace(text.get_char(k - 1))
        invariant
            k <= n == text@.len(),
            trim_end_chars(text@.take(k as int)) == trim_end_chars(text@),
        decreases k,
    {
        assert(text@.take(k as int).drop_last() =~= text@.take(k - 1));
        k = k - 1;
    }
    assert(text@.take(k as int) =~= text@.subrange(0, k as int));
    text.substring_char(0, k).to_owned()
}

/// Reads the text stored in a descriptor's text bytes.
pub fn parse_descriptor_text(bytes: &[u8]) -> (r: String)
    ensures
        r@ == descriptor_text(bytes@),
{
    let mut end: usize = 0;
    while end < bytes.len() && !(bytes[end] == 0x0a || bytes[end] == 0x00)
        invariant
            end <= bytes@.len(),
            terminator_from(bytes@, end as int) == text_end(bytes@),
        decreases bytes@.len() - end,
    {
        end = end + 1;
    }
    let text = utf8_lossy(vstd::slice::slice_subrange(bytes, 0, end));
    assert(bytes@.subrange(0, end as int) =~= bytes@.take(text_end(bytes@)));
    trim_end(text.as_str())
}

/// What [`validate_descriptor_text`] reports for `text`, if anything.
pub open spec fn text_error(text: Seq<char>) -> Option<ErrorView> {
    if !is_ascii_chars(text) {
        Some(ErrorView::Validation("descriptor text must be ASCII"@))
    } else if text.len() > 13 {
        Some(ErrorView::Validation("descriptor text cannot exceed 13 characters"@))
    } else {
        None
    }
}

/// Checks that `text` fits a descriptor: ASCII, at most 13 characters.
pub fn validate_descriptor_text(text: &str) -> (r: Result<(), EdidError>)
    ensures
        fails_as(r, text_error(text@)),
{
    if !text.is_ascii() {
        return Err(validation_error("descriptor text must be ASCII"));
    }
    proof {
        is_ascii_chars_encode_utf8(text@);
    }
    let len = text.as_bytes().len();
    if len > 13 {
        return Err(validation_error("descriptor text cannot exceed 13 characters"));
    }
    Ok(())
}

/// The 13 text bytes that hold `text`: its characters, a line feed if there is room, then
/// spaces.
pub open spec fn encoded_text(text: Seq<char>) -> Seq<u8> {
    Seq::new(
        13,
        |i: int|
            if i < text.len() {
                text[i] as u8
            } else if i == text.len() {
                0x0au8
            } else {
                0x20u8
            },
    )
}

/// Encodes `text` into the 13 text bytes of a descriptor.
pub fn encode_descriptor_text(text: &str) -> (r: Result<[u8; 13], EdidError>)
    ensures
        fails_as(r, text_error(text@)),
        r matches Ok(a) ==> a@ == encoded_text(text@),
{
    validate_descriptor_text(text)?;
    proof {
        is_ascii_chars_encode_utf8(text@);
    }
    let mut out = [0x20u8; 13];
    let bytes = text.as_bytes();
    let len = bytes.len();
    let mut i: usize = 0;
    while i < len
        invariant
            i <= len == bytes@.len() == text@.len() <= 13,
            bytes@ == encode_utf8(text@),
            forall|j: int| 0 <= j < text@.len() ==> text@[j] as u8 == #[trigger] encode_utf8(text@)[j],
            forall|j: int| 0 <= j < i ==> out@[j] == #[trigger] encoded_text(text@)[j],
            forall|j: int| i <= j < 13 ==> out@[j] == 0x20,
        decreases len - i,
    {
        out[i] = bytes[i];
        i = i + 1;
    }
    if len < 13 {
        out[len] = 0x0a;
    }
    assert(out@ =~= encoded_text(text@));
    Ok(out)
}

} // verus!

verus! {

/// Packing three letter codes (1..=26) and unpacking them again gives the same codes.
proof fn lemma_pack_unpack(c0: int, c1: int, c2: int)
    requires
        1 <= c0 <= 26,
        1 <= c1 <= 26,
        1 <= c2 <= 26,
    ensures
        ({
            let v = c0 * 1024 + c1 * 32 + c2;
            &&& 0 <= v < 32768
            &&& (v / 256) * 256 + v % 256 == v
            &&& (v / 1024) % 32 == c0
            &&& (v / 32) % 32 == c1
            &&& v % 32 == c2
        }),
{
    let v = c0 * 1024 + c1 * 32 + c2;
    assert((v / 256) * 256 + v % 256 == v) by (nonlinear_arith)
        requires
            v >= 0,
    ;
    assert((v / 1024) == c0 && (v / 1024) % 32 == c0) by (nonlinear_arith)
        requires
            v == c0 * 1024 + c1 * 32 + c2,
            1 <= c0 <= 26,
            1 <= c1 <= 26,
            1 <= c2 <= 26,
    ;
    assert((v / 32) == c0 * 32 + c1 && (v / 32) % 32 == c1) by (nonlinear_arith)
        requires
            v == c0 * 1024 + c1 * 32 + c2,
            1 <= c0 <= 26,
            1 <= c1 <= 26,
            1 <= c2 <= 26,
    ;
    assert(v % 32 == c2) by (nonlinear_arith)
        requires
            v == c0 * 1024 + c1 * 32 + c2,
            1 <= c0 <= 26,
            1 <= c1 <= 26,
            1 <= c2 <= 26,
    ;
}

/// Encoding a manufacturer ID and decoding the two bytes gives back the same three letters.
pub proof fn lemma_manufacturer_id_round_trip(id: Seq<char>)
    requires
        manufacturer_encode_error(encode_utf8(id)) is None,
    ensures
        manufacturer_decode_error(manufacturer_encoding(encode_utf8(id))) is None,
        manufacturer_letters(manufacturer_encoding(encode_utf8(id))) == id,
{
    let bytes = encode_utf8(id);
    lemma_ascii_bytes_decode(bytes);
    vstd::utf8::encode_utf8_decode_utf8(id);
    assert(id =~= bytes.map_values(|b: u8| b as char));
    let c0 = bytes[0] - 64;
    let c1 = bytes[1] - 64;
    let c2 = bytes[2] - 64;
    assert(is_upper_ascii(bytes[0]) && is_upper_ascii(bytes[1]) && is_upper_ascii(bytes[2]));
    lemma_pack_unpack(c0, c1, c2);
    let enc = manufacturer_encoding(bytes);
    assert(manufacturer_word(enc) == manufacturer_packed(bytes));
    assert(manufacturer_codes(enc) =~= seq![c0, c1, c2]);
    assert(manufacturer_letters(enc) =~= id);
}

/// Decoding two bytes and encoding the letters gives back the same bytes, provided the
/// unused top bit of the word is clear.
pub proof fn lemma_manufacturer_bytes_round_trip(bytes: Seq<u8>)
    requires
        bytes.len() == 2,
        bytes[0] < 0x80,
        manufacturer_decode_error(bytes) is None,
    ensures
        manufacturer_encode_error(encode_utf8(manufacturer_letters(bytes))) is None,
        manufacturer_encoding(encode_utf8(manufacturer_letters(bytes))) == bytes,
{
    let letters = manufacturer_letters(bytes);
    let codes = manufacturer_codes(bytes);
    assert(1 <= codes[0] <= 26 && 1 <= codes[1] <= 26 && 1 <= codes[2] <= 26);
    assert(is_ascii_chars(letters));
    super::text::lemma_ascii_text_bytes(letters);
    let enc = encode_utf8(letters);
    assert(enc =~= seq![(64 + codes[0]) as u8, (64 + codes[1]) as u8, (64 + codes[2]) as u8]);
    let v = manufacturer_word(bytes);
    assert(v == codes[0] * 1024 + codes[1] * 32 + codes[2]) by (nonlinear_arith)
        requires
            0 <= v < 32768,
            codes[0] == (v / 1024) % 32,
            codes[1] == (v / 32) % 32,
            codes[2] == v % 32,
    ;
    lemma_pack_unpack(codes[0], codes[1], codes[2]);
    assert(manufacturer_packed(enc) == v);
    assert(manufacturer_encoding(enc) =~= bytes);
}

/// Text without line feeds or NULs keeps its terminator position at its end once encoded.
proof fn lemma_encoded_text_end(text: Seq<char>, i: int)
    requires
        text.len() <= 13,
        0 <= i <= text.len(),
        forall|j: int| 0 <= j < text.len() ==> !is_text_terminator(#[trigger] text[j] as u8),
    ensures
        terminator_from(encoded_text(text), i) == text.len(),
    decreases text.len() - i,
{
    if i < text.len() {
        lemma_encoded_text_end(text, i + 1);
    }
}

/// Text that a descriptor can hold, ends in no whitespace and holds no line feed or NUL reads
/// back unchanged from its encoded bytes.
pub proof fn lemma_descriptor_text_round_trip(text: Seq<char>)
    requires
        text_error(text) is None,
        forall|j: int| 0 <= j < text.len() ==> !is_text_terminator(#[trigger] text[j] as u8),
        text.len() == 0 || !is_unicode_whitespace(text.last()),
    ensures
        descriptor_text(encoded_text(text)) == text,
{
    let e = encoded_text(text);
    lemma_encoded_text_end(text, 0);
    let prefix = e.take(text.len() as int);
    assert forall|i: int| 0 <= i < prefix.len() implies #[trigger] prefix[i] < 0x80 by {
        assert(is_ascii_chars(text));
        assert('\0' <= text[i] <= '\u{7f}');
    }
    lemma_ascii_bytes_decode(prefix);
    assert forall|i: int| 0 <= i < text.len() implies (#[trigger] text[i] as u8) as char == text[i] by {
        assert('\0' <= text[i] <= '\u{7f}');
    }
    assert(prefix.map_values(|b: u8| b as char) =~= text);
}

} // verus!
