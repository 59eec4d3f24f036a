use vstd::prelude::*;

use crate::error::{fails_as, EdidError, ErrorView};
use crate::utils::{
    checksum_ok, decode_manufacturer_id, manufacturer_decode_error, manufacturer_letters,
    validate_checksum,
};
use super::descriptor::{descriptor_parsed_from, parse_descriptor, Descriptor};
use super::types::{
    AnalogVideoInput, BaseBlock, DigitalVideoInput, EdidVersion, ManufactureDate, ManufacturerId,
    VideoInputDefinition,
};

verus! {

/// The bit of `v` with value `weight` (a power of two) is set.
pub open spec fn bit_set(v: u8, weight: int) -> bool {
    (v as int / weight) % 2 == 1
}

/// EDID 1.4 and later give the digital input byte its richer meaning.
pub open spec fn version_at_least_1_4(version: EdidVersion) -> bool {
    version.major > 1 || (version.major == 1 && version.minor >= 4)
}

/// The color bit depth that a 3-bit code stands for.
pub open spec fn color_depth_of(code: int) -> Option<u8> {
    if code == 1 {
        Some(6u8)
    } else if code == 2 {
        Some(8u8)
    } else if code == 3 {
        Some(10u8)
    } else if code == 4 {
        Some(12u8)
    } else if code == 5 {
        Some(14u8)
    } else if code == 6 {
        Some(16u8)
    } else {
        None
    }
}

/// What the video input definition byte `value` means under `version`.
pub open spec fn video_input_of(version: EdidVersion, value: u8) -> VideoInputDefinition {
    if !bit_set(value, 128) {
        VideoInputDefinition::Analog(
            AnalogVideoInput {
                separate_sync_supported: bit_set(value, 8),
                composite_sync_on_hsync_supported: bit_set(value, 4),
                composite_sync_on_green_supported: bit_set(value, 2),
                serration_supported: bit_set(value, 1),
            },
        )
    } else if version_at_least_1_4(version) {
        VideoInputDefinition::Digital(
            DigitalVideoInput {
                dfp_1x_compatible: false,
                color_bit_depth: color_depth_of((value / 16) as int % 8),
                interface: if value % 16 == 0 {
                    None
                } else {
                    Some(value % 16)
                },
            },
        )
    } else {
        VideoInputDefinition::Digital(
            DigitalVideoInput {
                dfp_1x_compatible: bit_set(value, 1),
                color_bit_depth: None,
                interface: None,
            },
        )
    }
}

/// Reads the video input definition byte.
pub fn parse_video_input_definition(version: &EdidVersion, value: u8) -> (r: VideoInputDefinition)
    ensures
        r == video_input_of(*version, value),
{
    if (value / 128) % 2 == 0 {
        return VideoInputDefinition::Analog(
            AnalogVideoInput {
                separate_sync_supported: (value / 8) % 2 == 1,
                composite_sync_on_hsync_supported: (value / 4) % 2 == 1,
                composite_sync_on_green_supported: (value / 2) % 2 == 1,
                serration_supported: value % 2 == 1,
            },
        );
    }
    if version.major > 1 || (version.major == 1 && version.minor >= 4) {
        let code = (value / 16) % 8;
        let color_bit_depth = if code == 1 {
            Some(6u8)
        } else if code == 2 {
            Some(8u8)
        } else if code == 3 {
            Some(10u8)
        } else if code == 4 {
            Some(12u8)
        } else if code == 5 {
            Some(14u8)
        } else if code == 6 {
            Some(16u8)
        } else {
            None
        };
        let interface = if value % 16 == 0 {
            None
        } else {
            Some(value % 16)
        };
        VideoInputDefinition::Digital(
            DigitalVideoInput { dfp_1x_compatible: false, color_bit_depth, interface },
        )
    } else {
        VideoInputDefinition::Digital(
            DigitalVideoInput {
                dfp_1x_compatible: value % 2 == 1,
                color_bit_depth: None,
                interface: None,
            },
        )
    }
}

/// The 18 bytes of descriptor slot `i` (0..4) of a base block.
pub open spec fn descriptor_slot(block: Seq<u8>, i: int) -> Seq<u8> {
    block.subrange(54 + 18 * i, 72 + 18 * i)
}

/// `b` is what [`parse_base_block`] makes of the 128 bytes `block`.
pub open spec fn base_parsed_from(b: BaseBlock, block: Seq<u8>) -> bool {
    &&& b.manufacturer_id.0@ == manufacturer_letters(block.subrange(8, 10))
    &&& b.product_code == block[10] + block[11] * 256
    &&& b.serial_number == block[12] + block[13] * 0x100 + block[14] * 0x10000 + block[15]
        * 0x1000000
    &&& b.manufacture_date == ManufactureDate { week: block[16], year: (1990 + block[17]) as u16 }
    &&& b.version == EdidVersion { major: block[18], minor: block[19] }
    &&& b.video_input_definition == video_input_of(b.version, block[20])
    &&& b.extension_count == block[126]
    &&& b.descriptors@.len() == 4
    &&& forall|i: int|
        0 <= i < 4 ==> descriptor_parsed_from(#[trigger] b.descriptors@[i], descriptor_slot(block, i))
    &&& b.raw_block@ == block
}

/// What [`parse_base_block`] reports for `block`, if anything.
pub open spec fn base_parse_error(block: Seq<u8>) -> Option<ErrorView> {
    if block.len() != 128 {
        Some(ErrorView::InvalidLength)
    } else if !checksum_ok(block) {
        Some(ErrorView::InvalidChecksum { block_index: 0 })
    } else {
        manufacturer_decode_error(block.subrange(8, 10))
    }
}

/// Reads the 128-byte base block.
pub fn parse_base_block(block: &[u8]) -> (r: Result<BaseBlock, EdidError>)
    ensures
        fails_as(r, base_parse_error(block@)),
        r matches Ok(b) ==> base_parsed_from(b, block@),
{
    if block.len() != 128 {
        return Err(EdidError::InvalidLength);
    }
    validate_checksum(block, 0)?;
    let mut raw_block = [0u8; 128];
    let mut i: usize = 0;
    while i < 128
        invariant
            i <= 128 == block@.len(),
            forall|j: int| 0 <= j < i ==> raw_block@[j] == #[trigger] block@[j],
        decreases 128 - i,
    {
        raw_block[i] = block[i];
        i = i + 1;
    }
    assert(raw_block@ =~= block@);
    let id_bytes: [u8; 2] = [block[8], block[9]];
    assert(id_bytes@ =~= block@.subrange(8, 10));
    let manufacturer_id = ManufacturerId(decode_manufacturer_id(id_bytes)?);
    let product_code = block[10] as u16 + block[11] as u16 * 256;
    let serial_number = block[12] as u32 + block[13] as u32 * 0x100 + block[14] as u32 * 0x10000
        + block[15] as u32 * 0x1000000;
    let manufacture_date = ManufactureDate { week: block[16], year: 1990 + block[17] as u16 };
    let version = EdidVersion { major: block[18], minor: block[19] };
    let video_input_definition = parse_video_input_definition(&version, block[20]);

    let mut descriptors: Vec<Descriptor> = Vec::new();
    let mut k: usize = 0;
    while k < 4
        invariant
            k <= 4,
            block@.len() == 128,
            descriptors@.len() == k,
            forall|j: int|
                0 <= j < k ==> descriptor_parsed_from(
                    #[trigger] descriptors@[j],
                    descriptor_slot(block@, j),
                ),
        decreases 4 - k,
    {
        let slot = vstd::slice::slice_subrange(block, 54 + 18 * k, 72 + 18 * k);
        let descriptor = parse_descriptor(slot)?;
        descriptors.push(descriptor);
        k = k + 1;
    }

    Ok(
        BaseBlock {
            manufacturer_id,
            product_code,
            serial_number,
            manufacture_date,
            version,
            video_input_definition,
            extension_count: block[126],
            descriptors,
            raw_block,
        },
    )
}

} // verus!
