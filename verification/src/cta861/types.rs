use vstd::prelude::*;

verus! {

/// Short video descriptors: one VIC code per byte.
#[derive(Debug, Clone, PartialEq, Eq)]
pub struct VideoBlock {
    pub vic_codes: Vec<u8>,
}

/// Short audio descriptors, three bytes each.
#[derive(Debug, Clone, PartialEq, Eq)]
pub struct AudioBlock {
    pub short_audio_descriptors: Vec<[u8; 3]>,
}

/// A vendor-specific data block: its IEEE OUI, the bytes after it, and the HDMI fields
/// decoded from them when the OUI is HDMI's.
#[derive(Debug, Clone, PartialEq, Eq)]
pub struct VendorBlock {
    pub oui: [u8; 3],
    pub payload: Vec<u8>,
    pub hdmi: Option<HdmiVendorBlock>,
}

/// Fields decoded from an HDMI vendor-specific data block.
#[derive(Debug, Clone, Copy, PartialEq, Eq)]
pub struct HdmiVendorBlock {
    pub physical_address: [u8; 4],
    pub supports_ai: bool,
    pub deep_color_48bit: bool,
    pub deep_color_36bit: bool,
    pub deep_color_30bit: bool,
    pub deep_color_y444: bool,
    pub dvi_dual_link: bool,
    pub max_tmds_clock_mhz: Option<u16>,
    pub latency_fields_present: bool,
    pub interlaced_latency_fields_present: bool,
    pub hdmi_video_present: bool,
    pub cnc_graphics: bool,
    pub cnc_photo: bool,
    pub cnc_cinema: bool,
    pub cnc_game: bool,
    pub video_latency: Option<u8>,
    pub audio_latency: Option<u8>,
    pub interlaced_video_latency: Option<u8>,
    pub interlaced_audio_latency: Option<u8>,
}

/// The speaker allocation bytes.
#[derive(Debug, Clone, PartialEq, Eq)]
pub struct SpeakerAllocationBlock {
    pub bytes: Vec<u8>,
}

/// A data block with an extended tag that has no typed form here.
#[derive(Debug, Clone, PartialEq, Eq)]
pub struct ExtendedTagBlock {
    pub extended_tag: u8,
    pub payload: Vec<u8>,
}

/// The HDR static metadata data block (extended tag 6).
#[derive(Debug, Clone, Copy, PartialEq, Eq)]
pub struct HdrStaticMetadataBlock {
    pub electro_optical_transfer_functions: u8,
    pub static_metadata_descriptors: u8,
    pub desired_content_max_luminance: Option<u8>,
    pub desired_content_max_frame_average_luminance: Option<u8>,
    pub desired_content_min_luminance: Option<u8>,
}

/// One CTA-861 data block.
#[derive(Debug, Clone, PartialEq, Eq)]
pub enum DataBlock {
    Video(VideoBlock),
    Audio(AudioBlock),
    Vendor(VendorBlock),
    SpeakerAllocation(SpeakerAllocationBlock),
    HdrStaticMetadata(HdrStaticMetadataBlock),
    Extended(ExtendedTagBlock),
    Unknown { tag: u8, payload: Vec<u8> },
}

/// A CTA-861 extension block: header fields, typed data blocks, and the bytes it was read from.
#[derive(Debug, Clone, PartialEq, Eq)]
pub struct Cta861Extension {
    pub revision: u8,
    pub detailed_timing_offset: u8,
    pub flags: u8,
    pub data_blocks: Vec<DataBlock>,
    pub raw_block: Vec<u8>,
}

} // verus!
