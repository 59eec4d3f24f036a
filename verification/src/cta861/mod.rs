mod parse;
mod types;

pub use parse::{
    audio_parsed_from, bad_offset_message, block_end, byte_at, byte_or_zero, cta_parse_error,
    cta_parsed_from, data_block_parse_error, data_block_parsed_from, hdmi_fields,
    hdmi_latencies, hdmi_oui, hdmi_parsed_from, hdr_of, header_tag, parse_audio_block,
    parse_cta861_extension, parse_data_block, parse_extended_tag_block,
    parse_hdmi_vendor_block, parse_hdr_static_metadata_block, parse_vendor_block, walk_blocks,
    walk_error,
};
pub use types::{
    AudioBlock, Cta861Extension, DataBlock, ExtendedTagBlock, HdmiVendorBlock,
    HdrStaticMetadataBlock, SpeakerAllocationBlock, VendorBlock, VideoBlock,
};
mod write;

pub use write::{
    blocks_encoding, bytes_written_as, clamped_offset, cta_block_bytes, cta_body, cta_body_byte,
    trailing_len, write_cta861_extension, data_block_encoding, encoded_as, flatten_descriptors,
    lemma_blocks_encoding_error_persists, lemma_encoding_tag_fits, optional_byte,
    payload_too_long_message, serialize_data_block, serialize_data_blocks,
    serialize_vendor_block, tag_out_of_range_message,
};
mod edit;

pub use edit::{
    bad_tmds_message, content_types_applied, content_types_byte, tmds_applied, content_types_updated, first_of_kind,
    first_of_kind_from, is_kind, lemma_first_of_kind_from, no_hdmi_block_message,
    lemma_without_vic_len, not_hdmi_message, padded, speaker_allocation_set, vic_added, vic_removed, replaced_at, same_header, without_vic, tmds_clock_valid, tmds_error, tmds_updated, BlockKind,
};
mod laws;

pub use laws::{
    data_block_canonical, lemma_data_block_reads_back,
    lemma_hdmi_parsed_unique, same_data_block, encodings, lemma_blocks_encoding_split,
    lemma_cta_reads_back, lemma_cta_written_parses, lemma_data_block_encoding_parses,
    lemma_walk_of_encoding, law_added_vic_is_present, law_adding_present_vic_is_noop,
    law_removed_vic_is_absent, law_video_and_speaker_edits_keep_blocks_canonical,
    law_content_types_read_back, law_tmds_clock_reads_back, lemma_blocks_encoding_concat,
    lemma_cta_round_trip, lemma_data_block_round_trip, lemma_walk_round_trip, law_hdmi_vendor_fields,
    law_data_block_fields, law_cta_fields, cta_blocks_layout, law_speaker_allocation_held,
    law_cta_write_keeps_trailing_bytes,
};
