mod document;
mod parse;

pub use document::{
    extension_raw, first_monitor_name, first_monitor_name_from, monitor_name_error,
    monitor_name_replaced, Edid, ExtensionBlock,
};
pub use parse::{
    block_of, edid_parse_error, edid_parsed_from, extension_blocks, extension_parse_error,
    extension_parsed_from, extensions_error_from, parse_edid,
};
mod write;

pub use write::{
    edid_bytes, extension_bytes, extensions_bytes, write_edid,
};
mod laws;

pub use laws::{
    edid_canonical, extension_canonical, law_written_blocks_have_sound_checksums,
    law_unencodable_cta_block_is_written_from_its_bytes, law_monitor_name_accepted, law_parse_then_write_is_identity,
    law_write_then_read_gives_back_content, lemma_parse_ok_shape, lemma_written_edid_parses,
    same_extension, law_monitor_name_reads_back, law_product_code_reads_back,
    law_read_bytes_are_sound,
};
