mod parse;
mod types;
mod write;

pub use parse::{
    displayid_block_end, displayid_parse_error, displayid_parsed_from, displayid_walk_blocks,
    displayid_walk_error, kind_parsed_from, parse_displayid_data_block_kind,
    parse_displayid_extension,
};
pub use types::{
    DisplayIdDataBlock, DisplayIdDataBlockKind, DisplayIdExtension, DisplayIdProductDataBlock,
    DisplayIdVendorSpecificDataBlock,
};
pub use write::write_displayid_extension;
mod laws;

pub use laws::{displayid_blocks_layout, law_displayid_data_blocks};
