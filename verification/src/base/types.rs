use vstd::prelude::*;

use super::descriptor::Descriptor;

verus! {

/// The three-letter manufacturer ID, such as "DEL".
#[derive(Debug, Clone, PartialEq, Eq)]
pub struct ManufacturerId(pub String);

/// Week and year of manufacture.
#[derive(Debug, Clone, Copy, PartialEq, Eq)]
pub struct ManufactureDate {
    pub week: u8,
    pub year: u16,
}

/// EDID structure version and revision.
#[derive(Debug, Clone, Copy, PartialEq, Eq)]
pub struct EdidVersion {
    pub major: u8,
    pub minor: u8,
}

/// Sync capabilities of an analog input.
#[derive(Debug, Clone, Copy, PartialEq, Eq)]
pub struct AnalogVideoInput {
    pub separate_sync_supported: bool,
    pub composite_sync_on_hsync_supported: bool,
    pub composite_sync_on_green_supported: bool,
    pub serration_supported: bool,
}

/// Capabilities of a digital input.
#[derive(Debug, Clone, Copy, PartialEq, Eq)]
pub struct DigitalVideoInput {
    pub dfp_1x_compatible: bool,
    pub color_bit_depth: Option<u8>,
    pub interface: Option<u8>,
}

/// The video input definition byte, read according to the EDID version.
#[derive(Debug, Clone, Copy, PartialEq, Eq)]
pub enum VideoInputDefinition {
    Analog(AnalogVideoInput),
    Digital(DigitalVideoInput),
}

/// The typed content of the 128-byte base block, with the bytes it was read from.
#[derive(Debug, Clone, PartialEq)]
pub struct BaseBlock {
    pub manufacturer_id: ManufacturerId,
    pub product_code: u16,
    pub serial_number: u32,
    pub manufacture_date: ManufactureDate,
    pub version: EdidVersion,
    pub video_input_definition: VideoInputDefinition,
    pub extension_count: u8,
    pub descriptors: Vec<Descriptor>,
    pub raw_block: [u8; 128],
}

} // verus!
