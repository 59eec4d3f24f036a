mod bitfield;
mod checksum;
mod codec;
mod text;

pub use bitfield::BitReader;
pub(crate) use text::push_char;
pub use checksum::{
    byte_sum, checksum_byte, checksum_error, checksum_ok, fix_checksum,
    lemma_checksum_byte_fixes, lemma_checksum_byte_ignores_last,
    lemma_checksum_byte_of_valid_block, lemma_sealed, sealed, sealed_copy, sum_prefix,
    validate_checksum,
};
pub use codec::{
    decode_manufacturer_id, descriptor_text, edid_header, encode_descriptor_text,
    encode_manufacturer_id, encoded_text, header_ok, is_text_terminator, is_unicode_whitespace,
    is_upper_ascii, is_whitespace, lemma_descriptor_text_round_trip, lemma_manufacturer_bytes_round_trip,
    lemma_manufacturer_id_round_trip, manufacturer_codes, manufacturer_decode_error,
    manufacturer_encodable, manufacturer_encode_error, manufacturer_encoding,
    manufacturer_id_valid, manufacturer_letters, manufacturer_packed, manufacturer_word,
    parse_descriptor_text, terminator_from, text_end, text_error, trim_end, trim_end_chars,
    validate_descriptor_text, validate_header,
};
pub use text::{
    decimal, digit_char, lemma_ascii_bytes_decode, lemma_ascii_text_bytes, lossy_utf8,
    push_decimal, push_hex_byte, hex_digit_char, utf8_lossy_text,
};
