use vstd::prelude::*;

use crate::error::ErrorView;
use crate::utils::{
    checksum_byte, checksum_ok, descriptor_text, encoded_text, lemma_checksum_byte_ignores_last,
    lemma_checksum_byte_of_valid_block, text_error,
};
use super::descriptor::{
    all_zero, descriptor_bytes, descriptor_parsed_from, text_descriptor_bytes, DetailedTiming,
    Descriptor, RangeLimits,
};
use super::parse::{
    base_parse_error, base_parsed_from, bit_set, descriptor_slot, version_at_least_1_4,
    video_input_of,
};
use super::types::{AnalogVideoInput, BaseBlock, DigitalVideoInput, EdidVersion, VideoInputDefinition};
use vstd::utf8::encode_utf8;
use super::write::{
    base_block_bytes, base_body, base_body_byte, manufacturer_bytes, slot_bytes, slot_holds,
    video_byte, video_input_byte,
};

verus! {

/// A descriptor read from a slot is written over that slot as the slot itself.
pub proof fn lemma_descriptor_round_trip(d: Descriptor, slot: Seq<u8>)
    requires
        slot.len() == 18,
        descriptor_parsed_from(d, slot),
    ensures
        slot_bytes(d, slot) == slot,
{
    if all_zero(slot) {
        assert(Seq::new(18, |i: int| 0u8) =~= slot);
    }
}

/// The fixed-position fields of a base block are written back as the bytes they were read
/// from.
proof fn lemma_base_field_byte(b: BaseBlock, block: Seq<u8>, i: int)
    requires
        block.len() == 128,
        base_parse_error(block) is None,
        base_parsed_from(b, block),
        0 <= i < 127,
        !(54 <= i < 126),
    ensures
        base_body_byte(b, i) == block[i],
{
    if 8 <= i < 10 {
        assert(b.raw_block@.subrange(8, 10) == block.subrange(8, 10));
        assert(manufacturer_bytes(b) == block.subrange(8, 10));
    } else if i == 20 {
        assert(video_byte(b) == block[20]);
    } else if 12 <= i < 16 {
        let s = b.serial_number as int;
        assert(s == block[12] + block[13] * 0x100 + block[14] * 0x10000 + block[15] * 0x1000000);
        assert(s % 0x100 == block[12] && (s / 0x100) % 0x100 == block[13] && (s / 0x10000) % 0x100
            == block[14] && s / 0x1000000 == block[15]) by (nonlinear_arith)
            requires
                s == block[12] + block[13] * 0x100 + block[14] * 0x10000 + block[15] * 0x1000000,
                0 <= block[12] < 256,
                0 <= block[13] < 256,
                0 <= block[14] < 256,
                0 <= block[15] < 256,
        ;
    }
}

/// The descriptor slots of a base block are written back as the bytes they were read from.
proof fn lemma_base_descriptor_byte(b: BaseBlock, block: Seq<u8>, i: int)
    requires
        block.len() == 128,
        base_parsed_from(b, block),
        54 <= i < 126,
    ensures
        base_body_byte(b, i) == block[i],
{
    let k = (i - 54) / 18;
    assert(0 <= k < 4);
    let slot = descriptor_slot(block, k);
    assert(descriptor_parsed_from(b.descriptors@[k], slot));
    lemma_descriptor_round_trip(b.descriptors@[k], slot);
    assert(descriptor_slot(b.raw_block@, k) == slot);
    assert(slot[(i - 54) % 18] == block[i]);
}

/// A base block is written back byte for byte from what is read from it.
pub proof fn lemma_base_block_round_trip(b: BaseBlock, block: Seq<u8>)
    requires
        block.len() == 128,
        base_parse_error(block) is None,
        base_parsed_from(b, block),
    ensures
        base_block_bytes(b) == block,
{
    let body = base_body(b);
    assert forall|i: int| 0 <= i < 127 implies #[trigger] body[i] == block[i] by {
        if 54 <= i < 126 {
            lemma_base_descriptor_byte(b, block, i);
        } else {
            lemma_base_field_byte(b, block, i);
        }
    }
    assert(body.take(127) =~= block.take(127));
    lemma_checksum_byte_ignores_last(body, block);
    lemma_checksum_byte_of_valid_block(block);
    assert(body.update(127, checksum_byte(body)) =~= block);
}

} // verus!

verus! {

/// The text holds no line feed or NUL and does not end in whitespace, so that reading its
/// encoding gives it back.
pub open spec fn text_reads_back(text: Seq<char>) -> bool {
    &&& text_error(text) is None
    &&& forall|j: int| 0 <= j < text.len() ==> !crate::utils::is_text_terminator(#[trigger] text[j] as u8)
    &&& (text.len() == 0 || !crate::utils::is_unicode_whitespace(text.last()))
}

/// A descriptor reads back as itself from the bytes written for it: text descriptors hold
/// text that reads back, and descriptors written from their raw bytes agree with those bytes.
pub open spec fn descriptor_canonical(d: Descriptor) -> bool {
    match d {
        Descriptor::Unused => true,
        Descriptor::MonitorName(name) => text_reads_back(name@),
        Descriptor::MonitorSerial(serial) => text_reads_back(serial@),
        Descriptor::DetailedTiming(t) => descriptor_parsed_from(d, t.raw@),
        Descriptor::RangeLimits(r) => descriptor_parsed_from(d, r.raw@),
        Descriptor::Unknown(raw) => descriptor_parsed_from(d, raw@),
    }
}

/// `a` and `b` hold the same descriptor: equal fields, texts equal as character sequences.
pub open spec fn same_descriptor(a: Descriptor, b: Descriptor) -> bool {
    match (a, b) {
        (Descriptor::Unused, Descriptor::Unused) => true,
        (Descriptor::MonitorName(x), Descriptor::MonitorName(y)) => x@ == y@,
        (Descriptor::MonitorSerial(x), Descriptor::MonitorSerial(y)) => x@ == y@,
        (Descriptor::DetailedTiming(x), Descriptor::DetailedTiming(y)) => x == y,
        (Descriptor::RangeLimits(x), Descriptor::RangeLimits(y)) => x == y,
        (Descriptor::Unknown(x), Descriptor::Unknown(y)) => x == y,
        _ => false,
    }
}

/// A canonical descriptor reads back from its own bytes as the same descriptor.
pub proof fn lemma_descriptor_reads_back(d: Descriptor, d2: Descriptor)
    requires
        descriptor_canonical(d),
        descriptor_parsed_from(d2, descriptor_bytes(d)->Ok_0),
    ensures
        same_descriptor(d, d2),
{
    let bytes = descriptor_bytes(d)->Ok_0;
    match d {
        Descriptor::MonitorName(name) => {
            assert(!all_zero(bytes)) by {
                assert(bytes[3] != 0);
            }
            assert(bytes.subrange(5, 18) =~= encoded_text(name@));
            crate::utils::lemma_descriptor_text_round_trip(name@);
        },
        Descriptor::MonitorSerial(serial) => {
            assert(!all_zero(bytes)) by {
                assert(bytes[3] != 0);
            }
            assert(bytes.subrange(5, 18) =~= encoded_text(serial@));
            crate::utils::lemma_descriptor_text_round_trip(serial@);
        },
        Descriptor::DetailedTiming(t) => {
            if let Descriptor::DetailedTiming(t2) = d2 {
                assert(t.raw =~= t2.raw);
            }
        },
        Descriptor::RangeLimits(r) => {
            if let Descriptor::RangeLimits(r2) = d2 {
                assert(r.raw =~= r2.raw);
            }
        },
        Descriptor::Unknown(raw) => {
            if let Descriptor::Unknown(raw2) = d2 {
                assert(raw =~= raw2);
            }
        },
        Descriptor::Unused => {},
    }
}

/// A canonical descriptor reads back as itself from the bytes written for it over any old
/// slot bytes.
pub proof fn lemma_slot_reads_back(d: Descriptor, slot: Seq<u8>, d2: Descriptor)
    requires
        slot.len() == 18,
        descriptor_canonical(d),
        descriptor_parsed_from(d2, slot_bytes(d, slot)),
    ensures
        same_descriptor(d, d2),
{
    if slot_holds(d, slot) {
        assert(!all_zero(slot)) by {
            assert(slot[3] != 0);
        }
    } else {
        lemma_descriptor_reads_back(d, d2);
    }
}

} // verus!

verus! {

/// The video input definition is one that the byte written for it reads back as: digital
/// inputs carry only the fields their EDID version defines, with a color depth that has a
/// code and an interface that fits four bits.
pub open spec fn video_input_canonical(version: EdidVersion, input: VideoInputDefinition) -> bool {
    match input {
        VideoInputDefinition::Analog(_) => true,
        VideoInputDefinition::Digital(d) => if version_at_least_1_4(version) {
            &&& !d.dfp_1x_compatible
            &&& (d.color_bit_depth matches Some(c) ==> c == 6 || c == 8 || c == 10 || c == 12 || c == 14 || c == 16)
            &&& (d.interface matches Some(n) ==> 1 <= n <= 15)
        } else {
            d.color_bit_depth is None && d.interface is None
        },
    }
}

/// A base block whose typed fields all read back from the block written for it: an encodable
/// manufacturer ID, a year from 1990 to 2245, a canonical video input definition, and four
/// canonical descriptors.
pub open spec fn base_canonical(b: BaseBlock) -> bool {
    &&& crate::utils::manufacturer_encodable(encode_utf8(b.manufacturer_id.0@))
    &&& 1990 <= b.manufacture_date.year <= 2245
    &&& video_input_canonical(b.version, b.video_input_definition)
    &&& b.descriptors@.len() == 4
    &&& forall|i: int| 0 <= i < 4 ==> descriptor_canonical(#[trigger] b.descriptors@[i])
}

/// `a` and `b` hold the same typed base block content.
pub open spec fn same_base_content(a: BaseBlock, b: BaseBlock) -> bool {
    &&& a.manufacturer_id.0@ == b.manufacturer_id.0@
    &&& a.product_code == b.product_code
    &&& a.serial_number == b.serial_number
    &&& a.manufacture_date == b.manufacture_date
    &&& a.version == b.version
    &&& a.video_input_definition == b.video_input_definition
    &&& a.extension_count == b.extension_count
    &&& a.descriptors@.len() == b.descriptors@.len()
    &&& forall|i: int| 0 <= i < a.descriptors@.len() ==> same_descriptor(#[trigger] a.descriptors@[i], b.descriptors@[i])
}

/// A canonical video input definition reads back from the byte written for it.
pub proof fn lemma_video_input_reads_back(version: EdidVersion, input: VideoInputDefinition)
    requires
        video_input_canonical(version, input),
    ensures
        video_input_of(version, video_input_byte(version, input)) == input,
{
}

/// The manufacturer ID bytes written for a base block with an encodable ID read as that ID.
proof fn lemma_manufacturer_reads_back(b: BaseBlock)
    requires
        crate::utils::manufacturer_encodable(encode_utf8(b.manufacturer_id.0@)),
    ensures
        crate::utils::manufacturer_decode_error(manufacturer_bytes(b)) is None,
        crate::utils::manufacturer_letters(manufacturer_bytes(b)) == b.manufacturer_id.0@,
{
    crate::utils::lemma_manufacturer_id_round_trip(b.manufacturer_id.0@);
}

/// The video input byte written for a base block with a canonical definition reads as that
/// definition.
proof fn lemma_video_reads_back(b: BaseBlock)
    requires
        video_input_canonical(b.version, b.video_input_definition),
    ensures
        video_input_of(b.version, video_byte(b)) == b.video_input_definition,
{
    lemma_video_input_reads_back(b.version, b.video_input_definition);
}

/// The fixed-position fields of a canonical base block read back from the block written for
/// it.
proof fn lemma_base_fields_read_back(b: BaseBlock, b2: BaseBlock)
    requires
        base_canonical(b),
        base_parsed_from(b2, base_block_bytes(b)),
    ensures
        b.manufacturer_id.0@ == b2.manufacturer_id.0@,
        b.product_code == b2.product_code,
        b.serial_number == b2.serial_number,
        b.manufacture_date == b2.manufacture_date,
        b.version == b2.version,
        b.video_input_definition == b2.video_input_definition,
        b.extension_count == b2.extension_count,
{
    let block = base_block_bytes(b);
    lemma_base_written_parses(b);
    assert(block[8] == base_body_byte(b, 8));
    assert(block[9] == base_body_byte(b, 9));
    assert(block[10] == base_body_byte(b, 10));
    assert(block[11] == base_body_byte(b, 11));
    assert(block[12] == base_body_byte(b, 12));
    assert(block[13] == base_body_byte(b, 13));
    assert(block[14] == base_body_byte(b, 14));
    assert(block[15] == base_body_byte(b, 15));
    assert(block[16] == base_body_byte(b, 16));
    assert(block[17] == base_body_byte(b, 17));
    assert(block[18] == base_body_byte(b, 18));
    assert(block[19] == base_body_byte(b, 19));
    assert(block[20] == base_body_byte(b, 20));
    assert(block[126] == base_body_byte(b, 126));
    lemma_video_reads_back(b);
    lemma_manufacturer_reads_back(b);
    assert(block.subrange(8, 10) =~= manufacturer_bytes(b));
    let p = b.product_code as int;
    assert(p % 256 + (p / 256) * 256 == p);
    let s = b.serial_number as int;
    assert(s % 0x100 + ((s / 0x100) % 0x100) * 0x100 + ((s / 0x10000) % 0x100) * 0x10000 + (s
        / 0x1000000) * 0x1000000 == s) by (nonlinear_arith)
        requires
            0 <= s < 0x100000000,
    ;
}

/// The bytes written for a canonical base block read without error and give back its typed
/// content.
pub proof fn lemma_base_reads_back(b: BaseBlock, b2: BaseBlock)
    requires
        base_canonical(b),
        base_parsed_from(b2, base_block_bytes(b)),
    ensures
        base_parse_error(base_block_bytes(b)) is None,
        same_base_content(b, b2),
{
    lemma_base_written_parses(b);
    let ds = b.descriptors@;
    assert forall|k: int| 0 <= k < 4 implies same_descriptor(#[trigger] ds[k], b2.descriptors@[k]) by {
        lemma_descriptor_slot_written(b, k);
        lemma_slot_reads_back(ds[k], descriptor_slot(b.raw_block@, k), b2.descriptors@[k]);
    }
    lemma_base_fields_read_back(b, b2);
}

/// The bytes written for a base block have a sound checksum and, with an encodable
/// manufacturer ID, read without error.
pub proof fn lemma_base_written_parses(b: BaseBlock)
    requires
        crate::utils::manufacturer_encodable(encode_utf8(b.manufacturer_id.0@)),
    ensures
        base_block_bytes(b).len() == 128,
        checksum_ok(base_block_bytes(b)),
        base_parse_error(base_block_bytes(b)) is None,
        forall|i: int| 0 <= i < 127 ==> #[trigger] base_block_bytes(b)[i] == base_body_byte(b, i),
{
    let block = base_block_bytes(b);
    let body = base_body(b);
    crate::utils::lemma_checksum_byte_fixes(body);
    lemma_manufacturer_reads_back(b);
    assert(block.subrange(8, 10) =~= manufacturer_bytes(b));
}

/// Slot `k` of the block written for `b` holds the bytes written for descriptor `k` over the
/// slot's old bytes.
proof fn lemma_descriptor_slot_written(b: BaseBlock, k: int)
    requires
        0 <= k < 4,
        k < b.descriptors@.len(),
    ensures
        descriptor_slot(base_block_bytes(b), k) == slot_bytes(
            b.descriptors@[k],
            descriptor_slot(b.raw_block@, k),
        ),
{
    let block = base_block_bytes(b);
    let bytes = slot_bytes(b.descriptors@[k], descriptor_slot(b.raw_block@, k));
    assert(bytes.len() == 18);
    assert forall|j: int| 0 <= j < 18 implies #[trigger] descriptor_slot(block, k)[j] == bytes[j] by {
        let i = 54 + 18 * k + j;
        assert((i - 54) / 18 == k && (i - 54) % 18 == j);
    }
    assert(descriptor_slot(block, k) =~= bytes);
}

/// Writing a base block keeps what its typed fields do not describe: the header bytes
/// (0..8), the chromaticity and established/standard timing bytes (21..54), and the
/// descriptor slots past the descriptors it holds are those of the block it was read from.
pub proof fn law_base_write_keeps_unmodelled_bytes(b: BaseBlock)
    ensures
        forall|i: int|
            (0 <= i < 8 || 21 <= i < 54 || 54 + 18 * b.descriptors@.len() <= i < 126)
                ==> #[trigger] base_block_bytes(b)[i] == b.raw_block@[i],
{
    assert forall|i: int|
        (0 <= i < 8 || 21 <= i < 54 || 54 + 18 * b.descriptors@.len() <= i < 126)
            implies #[trigger] base_block_bytes(b)[i] == b.raw_block@[i] by {
        if 54 <= i {
            assert((i - 54) / 18 >= b.descriptors@.len());
        }
        assert(base_block_bytes(b)[i] == base_body(b)[i]);
    }
}

} // verus!

verus! {

/// How the video input byte `v` reads. Bit 7 tells digital from analog. An analog input's
/// sync capabilities are bits 3 to 0: separate sync, composite sync on HSync, sync on green,
/// serration. From EDID 1.4 on, a digital input carries its colour depth in bits 6 to 4, code
/// `c` from 1 to 6 standing for `2c + 4` bits per primary (6, 8, 10, 12, 14, 16) and codes 0
/// and 7 for none, and its interface in bits 3 to 0 (none when 0). Before EDID 1.4 a digital
/// input has only the DFP 1.x flag in bit 0.
pub proof fn law_video_input_fields(version: EdidVersion, v: u8)
    ensures
        v < 0x80 ==> (video_input_of(version, v) matches VideoInputDefinition::Analog(a)
            && a.separate_sync_supported == ((v / 8) % 2 == 1)
            && a.composite_sync_on_hsync_supported == ((v / 4) % 2 == 1)
            && a.composite_sync_on_green_supported == ((v / 2) % 2 == 1)
            && a.serration_supported == (v % 2 == 1)),
        v >= 0x80 && (version.major > 1 || (version.major == 1 && version.minor >= 4))
            ==> (video_input_of(version, v) matches VideoInputDefinition::Digital(d)
            && !d.dfp_1x_compatible
            && (1 <= (v / 16) % 8 <= 6 ==> d.color_bit_depth == Some((2 * ((v / 16) % 8) + 4) as u8))
            && ((v / 16) % 8 == 0 || (v / 16) % 8 == 7 ==> d.color_bit_depth is None)
            && (v % 16 == 0 ==> d.interface is None)
            && (v % 16 != 0 ==> d.interface == Some(v % 16))),
        v >= 0x80 && !(version.major > 1 || (version.major == 1 && version.minor >= 4))
            ==> (video_input_of(version, v) matches VideoInputDefinition::Digital(d)
            && d.dfp_1x_compatible == (v % 2 == 1)
            && d.color_bit_depth is None
            && d.interface is None),
{
}

/// How an analog video input is written: the sum of its sync flags, separate sync 8,
/// composite sync on HSync 4, sync on green 2, serration 1, with bit 7 clear.
pub proof fn law_analog_input_written(version: EdidVersion, a: AnalogVideoInput)
    ensures
        video_input_byte(version, VideoInputDefinition::Analog(a)) == (if a.separate_sync_supported { 8int } else { 0 })
            + (if a.composite_sync_on_hsync_supported { 4int } else { 0 })
            + (if a.composite_sync_on_green_supported { 2int } else { 0 })
            + (if a.serration_supported { 1int } else { 0 }),
{
}

/// How a digital video input is written: bit 7 is set. From EDID 1.4 on, a colour depth of
/// `n` bits (6, 8, ..., 16) is written as code `(n - 4) / 2` in bits 6 to 4 (no depth as 0)
/// and the interface in bits 3 to 0; before EDID 1.4 only the DFP 1.x flag is written, in
/// bit 0.
pub proof fn law_digital_input_written(version: EdidVersion, d: DigitalVideoInput)
    ensures
        video_input_byte(version, VideoInputDefinition::Digital(d)) >= 0x80,
        version.major > 1 || (version.major == 1 && version.minor >= 4) ==> {
            let v = video_input_byte(version, VideoInputDefinition::Digital(d));
            &&& forall|n: u8|
                d.color_bit_depth == Some(n) && 6 <= n <= 16 && n % 2 == 0 ==> (v / 16) % 8 == (n - 4) / 2
            &&& (d.color_bit_depth is None ==> (v / 16) % 8 == 0)
            &&& v % 16 == (match d.interface {
                Some(n) => n % 16,
                None => 0,
            })
        },
        !(version.major > 1 || (version.major == 1 && version.minor >= 4)) ==> video_input_byte(
            version,
            VideoInputDefinition::Digital(d),
        ) == (if d.dfp_1x_compatible { 0x81int } else { 0x80 }),
{
}

/// How a detailed timing descriptor reads: the pixel clock is the little-endian word of bytes
/// 0 and 1 in units of 10 kHz; each 12-bit size takes its low eight bits from one byte and
/// its top four from a nibble: horizontal active from byte 2 and the high nibble of byte 4,
/// horizontal blanking from byte 3 and the low nibble of byte 4, vertical active from byte 5
/// and the high nibble of byte 7, vertical blanking from byte 6 and the low nibble of byte 7.
/// The 18 bytes are kept.
pub proof fn law_detailed_timing_fields(bytes: Seq<u8>, t: DetailedTiming)
    requires
        bytes.len() == 18,
        descriptor_parsed_from(Descriptor::DetailedTiming(t), bytes),
    ensures
        bytes[0] != 0 || bytes[1] != 0,
        t.pixel_clock_khz % 10 == 0,
        (t.pixel_clock_khz / 10) % 256 == bytes[0],
        t.pixel_clock_khz / 2560 == bytes[1],
        t.horizontal_active % 256 == bytes[2],
        t.horizontal_active / 256 == bytes[4] / 16,
        t.horizontal_blanking % 256 == bytes[3],
        t.horizontal_blanking / 256 == bytes[4] % 16,
        t.vertical_active % 256 == bytes[5],
        t.vertical_active / 256 == bytes[7] / 16,
        t.vertical_blanking % 256 == bytes[6],
        t.vertical_blanking / 256 == bytes[7] % 16,
        t.raw@ == bytes,
{
}

/// How a display range limits descriptor (tag 0xfd) reads: the vertical and horizontal rate
/// limits are bytes 5 to 8 and the maximum pixel clock is byte 9 in units of 10 MHz. The 18
/// bytes are kept.
pub proof fn law_range_limits_fields(bytes: Seq<u8>, r: RangeLimits)
    requires
        bytes.len() == 18,
        descriptor_parsed_from(Descriptor::RangeLimits(r), bytes),
    ensures
        bytes[0] == 0 && bytes[1] == 0 && bytes[3] == 0xfd,
        r.min_vertical_hz == bytes[5],
        r.max_vertical_hz == bytes[6],
        r.min_horizontal_khz == bytes[7],
        r.max_horizontal_khz == bytes[8],
        r.max_pixel_clock_mhz % 10 == 0 && r.max_pixel_clock_mhz / 10 == bytes[9],
        r.raw@ == bytes,
{
}

} // verus!

verus! {

/// How the fixed fields of a base block read. The manufacturer ID is the three letters whose
/// 5-bit codes (1 for 'A') make up bits 14 to 0 of the big-endian word in bytes 8 and 9; the
/// product code is the little-endian word of bytes 10 and 11; the serial number is the
/// little-endian double word of bytes 12 to 15; the week is byte 16 and the year 1990 plus
/// byte 17; the version is bytes 18 and 19; the extension count is byte 126. The four
/// descriptor slots are all read, and the 128 bytes are kept.
pub proof fn law_base_fields(block: Seq<u8>, b: BaseBlock)
    requires
        block.len() == 128,
        base_parsed_from(b, block),
    ensures
        b.manufacturer_id.0@ == seq![
            (64 + (block[8] / 4) % 32) as char,
            (64 + (block[8] % 4) * 8 + block[9] / 32) as char,
            (64 + block[9] % 32) as char,
        ],
        b.product_code == block[10] + 256 * block[11],
        b.serial_number == block[12] + 0x100 * block[13] + 0x10000 * block[14] + 0x1000000 * block[15],
        b.manufacture_date.week == block[16],
        b.manufacture_date.year == 1990 + block[17],
        b.version.major == block[18],
        b.version.minor == block[19],
        b.extension_count == block[126],
        b.descriptors@.len() == 4,
        b.raw_block@ == block,
{
    let v = block[8] * 256 + block[9];
    assert((v / 1024) % 32 == (block[8] / 4) % 32 && (v / 32) % 32 == (block[8] % 4) * 8 + block[9] / 32
        && v % 32 == block[9] % 32) by (nonlinear_arith)
        requires
            v == block[8] * 256 + block[9],
            0 <= block[8] < 256,
            0 <= block[9] < 256,
    ;
    assert(b.manufacturer_id.0@ =~= seq![
        (64 + (block[8] / 4) % 32) as char,
        (64 + (block[8] % 4) * 8 + block[9] / 32) as char,
        (64 + block[9] % 32) as char,
    ]);
}

/// How the fixed fields of a base block are written: the product code as a little-endian
/// word in bytes 10 and 11, the serial number as a little-endian double word in bytes 12 to
/// 15, the week in byte 16, the year as its distance from 1990 in byte 17 (0 for earlier
/// years), the version in bytes 18 and 19, and the extension count in byte 126. The block is
/// 128 bytes long and its checksum is sound.
pub proof fn law_base_fields_written(b: BaseBlock)
    ensures
        base_block_bytes(b).len() == 128,
        checksum_ok(base_block_bytes(b)),
        base_block_bytes(b)[10] + 256 * base_block_bytes(b)[11] == b.product_code,
        base_block_bytes(b)[12] + 0x100 * base_block_bytes(b)[13] + 0x10000 * base_block_bytes(b)[14]
            + 0x1000000 * base_block_bytes(b)[15] == b.serial_number,
        base_block_bytes(b)[16] == b.manufacture_date.week,
        1990 <= b.manufacture_date.year <= 2245 ==> base_block_bytes(b)[17] + 1990 == b.manufacture_date.year,
        b.manufacture_date.year < 1990 ==> base_block_bytes(b)[17] == 0,
        base_block_bytes(b)[18] == b.version.major,
        base_block_bytes(b)[19] == b.version.minor,
        base_block_bytes(b)[126] == b.extension_count,
{
    let out = base_block_bytes(b);
    crate::utils::lemma_checksum_byte_fixes(base_body(b));
    assert(out[10] == base_body_byte(b, 10));
    assert(out[11] == base_body_byte(b, 11));
    assert(out[12] == base_body_byte(b, 12));
    assert(out[13] == base_body_byte(b, 13));
    assert(out[14] == base_body_byte(b, 14));
    assert(out[15] == base_body_byte(b, 15));
    assert(out[16] == base_body_byte(b, 16));
    assert(out[17] == base_body_byte(b, 17));
    assert(out[18] == base_body_byte(b, 18));
    assert(out[19] == base_body_byte(b, 19));
    assert(out[126] == base_body_byte(b, 126));
    let s = b.serial_number as int;
    assert(s % 0x100 + ((s / 0x100) % 0x100) * 0x100 + ((s / 0x10000) % 0x100) * 0x10000 + (s
        / 0x1000000) * 0x1000000 == s) by (nonlinear_arith)
        requires
            0 <= s < 0x100000000,
    ;
}

} // verus!

verus! {

/// Which kind of descriptor 18 bytes read as: all zero is an unused slot; a nonzero pixel
/// clock (bytes 0 and 1) a detailed timing; otherwise byte 3 is the tag: 0xfc a monitor name,
/// 0xff a monitor serial, 0xfd range limits, any other an unknown descriptor kept as its
/// bytes. A name or serial is the text of bytes 5 to 17.
pub proof fn law_descriptor_kind(bytes: Seq<u8>, d: Descriptor)
    requires
        bytes.len() == 18,
        descriptor_parsed_from(d, bytes),
    ensures
        (forall|i: int| 0 <= i < 18 ==> bytes[i] == 0) <==> d is Unused,
        !(d is Unused) ==> ((bytes[0] != 0 || bytes[1] != 0) <==> d is DetailedTiming),
        !(d is Unused) && bytes[0] == 0 && bytes[1] == 0 ==> {
            &&& (bytes[3] == 0xfc <==> d is MonitorName)
            &&& (bytes[3] == 0xff <==> d is MonitorSerial)
            &&& (bytes[3] == 0xfd <==> d is RangeLimits)
            &&& (bytes[3] != 0xfc && bytes[3] != 0xff && bytes[3] != 0xfd <==> d is Unknown)
        },
        d matches Descriptor::MonitorName(s) ==> s@ == descriptor_text(bytes.subrange(5, 18)),
        d matches Descriptor::MonitorSerial(s) ==> s@ == descriptor_text(bytes.subrange(5, 18)),
        d matches Descriptor::Unknown(raw) ==> raw@ == bytes,
{
}

/// How a text descriptor is written for text that fits: bytes 0 to 4 are 0, 0, 0, the tag,
/// 0; then the text one byte per character, a line feed after it when it is shorter than 13
/// characters, and spaces up to byte 17.
pub proof fn law_text_descriptor_written(tag: u8, text: Seq<char>)
    requires
        text_error(text) is None,
    ensures
        text_descriptor_bytes(tag, text) is Ok,
        ({
            let b = text_descriptor_bytes(tag, text)->Ok_0;
            &&& b.len() == 18
            &&& b[0] == 0 && b[1] == 0 && b[2] == 0 && b[3] == tag && b[4] == 0
            &&& forall|i: int| 0 <= i < text.len() ==> b[5 + i] == (#[trigger] text[i]) as u8
            &&& text.len() < 13 ==> b[5 + text.len() as int] == 0x0a
            &&& forall|i: int| text.len() < i < 13 ==> #[trigger] b[5 + i] == 0x20
        }),
{
    let b = text_descriptor_bytes(tag, text)->Ok_0;
    assert forall|i: int| 0 <= i < text.len() implies b[5 + i] == (#[trigger] text[i]) as u8 by {
        assert(b[5 + i] == encoded_text(text)[i]);
    }
    assert forall|i: int| text.len() < i < 13 implies #[trigger] b[5 + i] == 0x20 by {
        assert(b[5 + i] == encoded_text(text)[i]);
    }
    if text.len() < 13 {
        assert(b[5 + text.len() as int] == encoded_text(text)[text.len() as int]);
    }
}

} // verus!
