mod descriptor;
mod parse;
mod types;

pub use descriptor::{
    all_zero, descriptor_bytes, descriptor_parse_error, descriptor_parsed_from, parse_descriptor,
    text_descriptor_bytes, write_descriptor, write_text_descriptor, written_as, Descriptor,
    DetailedTiming, RangeLimits,
};
pub use parse::{
    base_parse_error, base_parsed_from, bit_set, color_depth_of, descriptor_slot,
    parse_base_block, parse_video_input_definition, version_at_least_1_4, video_input_of,
};
pub use types::{
    AnalogVideoInput, BaseBlock, DigitalVideoInput, EdidVersion, ManufactureDate, ManufacturerId,
    VideoInputDefinition,
};
mod write;

pub use write::{
    base_block_bytes, base_body, base_body_byte, color_depth_code, flag_value, le16_byte,
    le32_byte, manufacturer_bytes, slot_bytes, slot_holds, video_byte, video_input_byte,
    write_base_block, write_video_input_definition, year_byte,
};
mod laws;

pub use laws::{
    descriptor_canonical,
    lemma_descriptor_reads_back, same_descriptor, text_reads_back, base_canonical,
    lemma_base_reads_back, lemma_base_written_parses, lemma_video_input_reads_back,
    same_base_content, video_input_canonical,
    lemma_base_block_round_trip, lemma_descriptor_round_trip, lemma_slot_reads_back,
    law_base_write_keeps_unmodelled_bytes, law_video_input_fields, law_analog_input_written,
    law_digital_input_written,
    law_detailed_timing_fields, law_range_limits_fields, law_base_fields, law_base_fields_written,
    law_descriptor_kind, law_text_descriptor_written,
};
