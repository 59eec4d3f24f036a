pub mod base;
pub mod cta861;
pub mod displayid;
pub mod edid;
pub mod error;
pub mod utils;

pub use base::{
    AnalogVideoInput, BaseBlock, Descriptor, DetailedTiming, DigitalVideoInput, EdidVersion,
    ManufactureDate, ManufacturerId, RangeLimits, VideoInputDefinition,
};
pub use cta861::{
    AudioBlock, Cta861Extension, DataBlock, ExtendedTagBlock, HdmiVendorBlock,
    HdrStaticMetadataBlock, SpeakerAllocationBlock, VendorBlock, VideoBlock,
};
pub use displayid::{
    DisplayIdDataBlock, DisplayIdDataBlockKind, DisplayIdExtension, DisplayIdProductDataBlock,
    DisplayIdVendorSpecificDataBlock,
};
pub use edid::{Edid, ExtensionBlock};
pub use error::{EdidError, ErrorView};
