use vstd::prelude::*;
use vstd::utf8::encode_utf8;

use crate::utils::{
    checksum_byte, checksum_ok, decode_manufacturer_id, descriptor_text, encode_manufacturer_id,
    fix_checksum, manufacturer_encodable, manufacturer_encoding, manufacturer_id_valid,
    manufacturer_letters, parse_descriptor_text,
};
use super::descriptor::{descriptor_bytes, write_descriptor, Descriptor};
use super::parse::{
    descriptor_slot, parse_video_input_definition, version_at_least_1_4, video_input_of,
};
use super::types::{BaseBlock, EdidVersion, VideoInputDefinition};

verus! {

/// 1 for a set flag, 0 for a clear one.
pub open spec fn flag_value(b: bool) -> int {
    if b {
        1
    } else {
        0
    }
}

/// The 3-bit code of a color bit depth; depths without a code are written as 0.
pub open spec fn color_depth_code(depth: Option<u8>) -> int {
    match depth {
        Some(d) => if d == 6 {
            1
        } else if d == 8 {
            2
        } else if d == 10 {
            3
        } else if d == 12 {
            4
        } else if d == 14 {
            5
        } else if d == 16 {
            6
        } else {
            0
        },
        None => 0,
    }
}

/// The video input definition byte written for `input` under `version`.
pub open spec fn video_input_byte(version: EdidVersion, input: VideoInputDefinition) -> u8 {
    match input {
        VideoInputDefinition::Analog(a) => (8 * flag_value(a.separate_sync_supported) + 4
            * flag_value(a.composite_sync_on_hsync_supported) + 2 * flag_value(
            a.composite_sync_on_green_supported,
        ) + flag_value(a.serration_supported)) as u8,
        VideoInputDefinition::Digital(d) => if version_at_least_1_4(version) {
            (128 + 16 * color_depth_code(d.color_bit_depth) + match d.interface {
                Some(n) => n % 16,
                None => 0,
            }) as u8
        } else {
            (128 + flag_value(d.dfp_1x_compatible)) as u8
        },
    }
}

/// Writes the video input definition byte of `base`.
pub fn write_video_input_definition(base: &BaseBlock) -> (r: u8)
    ensures
        r == video_input_byte(base.version, base.video_input_definition),
{
    match &base.video_input_definition {
        VideoInputDefinition::Analog(input) => {
            let mut value: u8 = 0;
            if input.separate_sync_supported {
                value = value + 8;
            }
            if input.composite_sync_on_hsync_supported {
                value = value + 4;
            }
            if input.composite_sync_on_green_supported {
                value = value + 2;
            }
            if input.serration_supported {
                value = value + 1;
            }
            value
        },
        VideoInputDefinition::Digital(input) => {
            let mut value: u8 = 0x80;
            if base.version.major > 1 || (base.version.major == 1 && base.version.minor >= 4) {
                let code: u8 = match input.color_bit_depth {
                    Some(6) => 1,
                    Some(8) => 2,
                    Some(10) => 3,
                    Some(12) => 4,
                    Some(14) => 5,
                    Some(16) => 6,
                    _ => 0,
                };
                value = value + code * 16;
                value = value + match input.interface {
                    Some(n) => n % 16,
                    None => 0,
                };
            } else if input.dfp_1x_compatible {
                value = value + 1;
            }
            value
        },
    }
}

/// The year byte: years since 1990, floored at 0 and kept to 8 bits.
pub open spec fn year_byte(year: u16) -> u8 {
    if year < 1990 {
        0
    } else {
        ((year - 1990) % 256) as u8
    }
}

/// Byte `i` of a little-endian 16-bit value.
pub open spec fn le16_byte(v: u16, i: int) -> u8 {
    if i == 0 {
        (v % 256) as u8
    } else {
        (v / 256) as u8
    }
}

/// Byte `i` of a little-endian 32-bit value.
pub open spec fn le32_byte(v: u32, i: int) -> u8 {
    if i == 0 {
        (v % 0x100) as u8
    } else if i == 1 {
        ((v / 0x100) % 0x100) as u8
    } else if i == 2 {
        ((v / 0x10000) % 0x100) as u8
    } else {
        (v / 0x1000000) as u8
    }
}

/// The two manufacturer ID bytes written for `b`: the bytes it was read from while they still
/// read as its ID (so that the unused top bit is kept), else the encoding of its ID, else,
/// for an ID that has no encoding, the bytes it was read from.
pub open spec fn manufacturer_bytes(b: BaseBlock) -> Seq<u8> {
    let raw = b.raw_block@.subrange(8, 10);
    let id = encode_utf8(b.manufacturer_id.0@);
    if manufacturer_id_valid(raw) && manufacturer_letters(raw) == b.manufacturer_id.0@ {
        raw
    } else if manufacturer_encodable(id) {
        manufacturer_encoding(id)
    } else {
        raw
    }
}

/// The video input byte written for `b`: the byte it was read from while that byte still
/// reads as its video input definition (so that bits the definition does not describe are
/// kept), else the byte written afresh for the definition.
pub open spec fn video_byte(b: BaseBlock) -> u8 {
    if video_input_of(b.version, b.raw_block@[20]) == b.video_input_definition {
        b.raw_block@[20]
    } else {
        video_input_byte(b.version, b.video_input_definition)
    }
}

/// The 18 bytes `slot` already read as the text descriptor `d`: a monitor name or serial
/// with the same text.
pub open spec fn slot_holds(d: Descriptor, slot: Seq<u8>) -> bool {
    match d {
        Descriptor::MonitorName(t) => slot[0] == 0 && slot[1] == 0 && slot[3] == 0xfc
            && descriptor_text(slot.subrange(5, 18)) == t@,
        Descriptor::MonitorSerial(t) => slot[0] == 0 && slot[1] == 0 && slot[3] == 0xff
            && descriptor_text(slot.subrange(5, 18)) == t@,
        _ => false,
    }
}

/// The 18 bytes written for `d` over the old bytes `slot` of its slot: the old bytes while
/// they still read as `d` (so that the padding and reserved bytes of a text descriptor are
/// kept), the bytes written for `d` otherwise, and the old bytes again for text that cannot
/// be encoded.
pub open spec fn slot_bytes(d: Descriptor, slot: Seq<u8>) -> Seq<u8> {
    if slot_holds(d, slot) {
        slot
    } else {
        match descriptor_bytes(d) {
            Ok(bytes) => bytes,
            Err(_) => slot,
        }
    }
}

/// Byte `i` of the base block that [`write_base_block`] writes, before its checksum is fixed.
pub open spec fn base_body_byte(b: BaseBlock, i: int) -> u8 {
    let raw = b.raw_block@;
    if 8 <= i < 10 {
        manufacturer_bytes(b)[i - 8]
    } else if 10 <= i < 12 {
        le16_byte(b.product_code, i - 10)
    } else if 12 <= i < 16 {
        le32_byte(b.serial_number, i - 12)
    } else if i == 16 {
        b.manufacture_date.week
    } else if i == 17 {
        year_byte(b.manufacture_date.year)
    } else if i == 18 {
        b.version.major
    } else if i == 19 {
        b.version.minor
    } else if i == 20 {
        video_byte(b)
    } else if i == 126 {
        b.extension_count
    } else if 54 <= i < 126 && (i - 54) / 18 < b.descriptors@.len() {
        slot_bytes(b.descriptors@[(i - 54) / 18], descriptor_slot(raw, (i - 54) / 18))[(i - 54) % 18]
    } else {
        raw[i]
    }
}

/// The base block before its checksum is fixed.
pub open spec fn base_body(b: BaseBlock) -> Seq<u8> {
    Seq::new(128, |i: int| base_body_byte(b, i))
}

/// The 128 bytes [`write_base_block`] writes for `b`.
pub open spec fn base_block_bytes(b: BaseBlock) -> Seq<u8> {
    base_body(b).update(127, checksum_byte(base_body(b)))
}

/// Tells whether two video input definitions are equal.
fn same_video_input(a: &VideoInputDefinition, b: &VideoInputDefinition) -> (r: bool)
    ensures
        r == (*a == *b),
{
    match (a, b) {
        (VideoInputDefinition::Analog(x), VideoInputDefinition::Analog(y)) => {
            x.separate_sync_supported == y.separate_sync_supported
                && x.composite_sync_on_hsync_supported == y.composite_sync_on_hsync_supported
                && x.composite_sync_on_green_supported == y.composite_sync_on_green_supported
                && x.serration_supported == y.serration_supported
        },
        (VideoInputDefinition::Digital(x), VideoInputDefinition::Digital(y)) => {
            let same_depth = match (x.color_bit_depth, y.color_bit_depth) {
                (Some(p), Some(q)) => p == q,
                (None, None) => true,
                _ => false,
            };
            let same_interface = match (x.interface, y.interface) {
                (Some(p), Some(q)) => p == q,
                (None, None) => true,
                _ => false,
            };
            x.dfp_1x_compatible == y.dfp_1x_compatible && same_depth && same_interface
        },
        _ => false,
    }
}

/// Writes the two manufacturer ID bytes of `base`.
fn write_manufacturer_bytes(base: &BaseBlock) -> (r: [u8; 2])
    ensures
        r@ == manufacturer_bytes(*base),
{
    let raw: [u8; 2] = [base.raw_block[8], base.raw_block[9]];
    assert(raw@ =~= base.raw_block@.subrange(8, 10));
    if let Ok(letters) = decode_manufacturer_id(raw) {
        if letters == base.manufacturer_id.0 {
            return raw;
        }
    }
    match encode_manufacturer_id(base.manufacturer_id.0.as_str()) {
        Ok(encoded) => encoded,
        Err(_) => raw,
    }
}

/// Writes the video input byte of `base`.
fn write_video_byte(base: &BaseBlock) -> (r: u8)
    ensures
        r == video_byte(*base),
{
    let raw = base.raw_block[20];
    let read = parse_video_input_definition(&base.version, raw);
    if same_video_input(&read, &base.video_input_definition) {
        raw
    } else {
        write_video_input_definition(base)
    }
}

/// Copies an 18-byte slice into an array.
fn slot_array(slot: &[u8]) -> (r: [u8; 18])
    requires
        slot@.len() == 18,
    ensures
        r@ == slot@,
{
    let mut out = [0u8; 18];
    let mut k: usize = 0;
    while k < 18
        invariant
            k <= 18 == slot@.len(),
            forall|j: int| 0 <= j < k ==> out@[j] == #[trigger] slot@[j],
        decreases 18 - k,
    {
        out[k] = slot[k];
        k = k + 1;
    }
    assert(out@ =~= slot@);
    out
}

/// Writes descriptor `d` over the old bytes `slot` of its slot.
fn write_descriptor_over(d: &Descriptor, slot: &[u8]) -> (r: [u8; 18])
    requires
        slot@.len() == 18,
    ensures
        r@ == slot_bytes(*d, slot@),
{
    let holds = match d {
        Descriptor::MonitorName(t) => slot[0] == 0 && slot[1] == 0 && slot[3] == 0xfc
            && parse_descriptor_text(vstd::slice::slice_subrange(slot, 5, 18)) == *t,
        Descriptor::MonitorSerial(t) => slot[0] == 0 && slot[1] == 0 && slot[3] == 0xff
            && parse_descriptor_text(vstd::slice::slice_subrange(slot, 5, 18)) == *t,
        _ => false,
    };
    if holds {
        return slot_array(slot);
    }
    match write_descriptor(d) {
        Ok(bytes) => bytes,
        Err(_) => slot_array(slot),
    }
}

/// Writes the base block from its typed fields over the bytes it was read from, and fixes
/// its checksum. Bytes that still read as the typed fields are kept as they were, and so are
/// the bytes the typed fields do not describe.
pub fn write_base_block(base: &BaseBlock) -> (r: [u8; 128])
    ensures
        r@ == base_block_bytes(*base),
        checksum_ok(r@),
{
    let ghost body = base_body(*base);
    let mut block = base.raw_block;
    let manufacturer = write_manufacturer_bytes(base);
    block[8] = manufacturer[0];
    block[9] = manufacturer[1];
    block[10] = (base.product_code % 256) as u8;
    block[11] = (base.product_code / 256) as u8;
    block[12] = (base.serial_number % 0x100) as u8;
    block[13] = ((base.serial_number / 0x100) % 0x100) as u8;
    block[14] = ((base.serial_number / 0x10000) % 0x100) as u8;
    block[15] = (base.serial_number / 0x1000000) as u8;
    block[16] = base.manufacture_date.week;
    block[17] = (base.manufacture_date.year.saturating_sub(1990) % 256) as u8;
    block[18] = base.version.major;
    block[19] = base.version.minor;
    block[20] = write_video_byte(base);
    block[126] = base.extension_count;
    assert forall|j: int| 0 <= j < 128 && !(54 <= j < 126) implies block@[j] == #[trigger] body[j] by {}

    let count = base.descriptors.len();
    let mut index: usize = 0;
    while index < 4 && index < count
        invariant
            index <= 4,
            count == base.descriptors@.len(),
            body == base_body(*base),
            forall|j: int|
                0 <= j < 128 && !(54 + 18 * index <= j < 126) ==> block@[j] == #[trigger] body[j],
            forall|j: int| 54 + 18 * index <= j < 126 ==> block@[j] == #[trigger] base.raw_block@[j],
        decreases 4 - index,
    {
        let start = 54 + index * 18;
        let slot = vstd::slice::slice_subrange(base.raw_block.as_slice(), start, start + 18);
        assert(slot@ =~= descriptor_slot(base.raw_block@, index as int));
        let bytes = write_descriptor_over(&base.descriptors[index], slot);
        let mut k: usize = 0;
        while k < 18
            invariant
                k <= 18,
                start == 54 + index * 18,
                index < 4,
                index < count == base.descriptors@.len(),
                body == base_body(*base),
                bytes@ == slot_bytes(
                    base.descriptors@[index as int],
                    descriptor_slot(base.raw_block@, index as int),
                ),
                forall|j: int|
                    0 <= j < 128 && !(start + k <= j < 126) ==> block@[j] == #[trigger] body[j],
                forall|j: int| start + k <= j < 126 ==> block@[j] == #[trigger] base.raw_block@[j],
            decreases 18 - k,
        {
            block[start + k] = bytes[k];
            assert((start + k - 54) / 18 == index as int && (start + k - 54) % 18 == k as int);
            k = k + 1;
        }
        index = index + 1;
    }
    assert forall|j: int| 0 <= j < 128 implies block@[j] == #[trigger] body[j] by {
        if 54 + 18 * index <= j < 126 {
            assert((j - 54) / 18 >= count);
        }
    }
    assert(block@ =~= body);
    fix_checksum(&mut block);
    assert(block@.take(128) =~= block@);
    block
}

} // verus!
