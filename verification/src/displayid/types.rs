use vstd::prelude::*;

verus! {

/// A DisplayID product identification data block.
#[derive(Debug, Clone, PartialEq, Eq)]
pub struct DisplayIdProductDataBlock {
    pub payload: Vec<u8>,
}

/// A DisplayID vendor-specific data block.
#[derive(Debug, Clone, PartialEq, Eq)]
pub struct DisplayIdVendorSpecificDataBlock {
    pub payload: Vec<u8>,
}

/// What a DisplayID data block is known to be.
#[derive(Debug, Clone, PartialEq, Eq)]
pub enum DisplayIdDataBlockKind {
    Product(DisplayIdProductDataBlock),
    VendorSpecific(DisplayIdVendorSpecificDataBlock),
    Unknown,
}

/// One DisplayID data block: tag, revision, payload, and its kind.
#[derive(Debug, Clone, PartialEq, Eq)]
pub struct DisplayIdDataBlock {
    pub tag: u8,
    pub revision: u8,
    pub payload: Vec<u8>,
    pub kind: DisplayIdDataBlockKind,
}

/// A DisplayID extension block: header fields, data blocks, and the bytes it was read from.
#[derive(Debug, Clone, PartialEq, Eq)]
pub struct DisplayIdExtension {
    pub version: u8,
    pub revision: u8,
    pub payload_bytes: u8,
    pub product_type: u8,
    pub extension_count: u8,
    pub data_blocks: Vec<DisplayIdDataBlock>,
    pub raw_block: Vec<u8>,
}

} // verus!
