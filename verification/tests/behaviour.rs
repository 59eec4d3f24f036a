use edidkit::base::{write_base_block, write_descriptor};
use edidkit::cta861::{serialize_data_block, serialize_data_blocks, write_cta861_extension};
use edidkit::utils::{
    decode_manufacturer_id, encode_descriptor_text, encode_manufacturer_id, fix_checksum,
    parse_descriptor_text, validate_checksum, validate_header, BitReader,
};
use edidkit::{
    DataBlock, Descriptor, Edid, EdidError, ExtensionBlock, HdrStaticMetadataBlock, VendorBlock,
    VideoBlock, VideoInputDefinition,
};

const BASE_ONLY: [u8; 128] = [
    0x00, 0xff, 0xff, 0xff, 0xff, 0xff, 0xff, 0x00, 0x05, 0xe3, 0x18, 0x24, 0x01, 0x00, 0x00, 0x00,
    0x30, 0x1b, 0x01, 0x03, 0x80, 0x78, 0x44, 0x78, 0x0a, 0xcf, 0x74, 0xa3, 0x57, 0x4c, 0xb0, 0x23,
    0x09, 0x48, 0x4c, 0x21, 0x08, 0x00, 0x01, 0x01, 0x01, 0x01, 0x01, 0x01, 0x01, 0x01, 0x01, 0x01,
    0x01, 0x01, 0x01, 0x01, 0x01, 0x01, 0x08, 0xe8, 0x00, 0x30, 0xf2, 0x70, 0x5a, 0x80, 0xb0, 0x58,
    0x8a, 0x00, 0xc4, 0x8e, 0x21, 0x00, 0x00, 0x1e, 0x08, 0xe8, 0x00, 0x30, 0xf2, 0x70, 0x5a, 0x80,
    0xb0, 0x58, 0x8a, 0x00, 0x20, 0xc2, 0x31, 0x00, 0x00, 0x1e, 0x00, 0x00, 0x00, 0x10, 0x00, 0x00,
    0x00, 0x00, 0x00, 0x00, 0x00, 0x00, 0x00, 0x00, 0x00, 0x00, 0x00, 0x00, 0x00, 0x00, 0x00, 0x10,
    0x00, 0x00, 0x00, 0x00, 0x00, 0x00, 0x00, 0x00, 0x00, 0x00, 0x00, 0x00, 0x00, 0x00, 0x00, 0xe4,
];

fn fixed(mut block: [u8; 128]) -> [u8; 128] {
    fix_checksum(&mut block);
    block
}

fn with_name_slot(text: &[u8]) -> [u8; 128] {
    let mut block = BASE_ONLY;
    let start = 54 + 18 * 2;
    for i in 0..18 {
        block[start + i] = 0;
    }
    block[start + 3] = 0xfc;
    for (i, b) in text.iter().enumerate() {
        block[start + 5 + i] = *b;
    }
    fixed(block)
}

fn two_blocks(base: [u8; 128], extension: [u8; 128]) -> Vec<u8> {
    let mut base = base;
    base[126] = 1;
    let mut bytes = fixed(base).to_vec();
    bytes.extend_from_slice(&fixed(extension));
    bytes
}

fn cta_block(data: &[u8]) -> [u8; 128] {
    let mut block = [0_u8; 128];
    block[0] = 0x02;
    block[1] = 0x03;
    block[2] = (4 + data.len()) as u8;
    block[3] = 0x40;
    block[4..4 + data.len()].copy_from_slice(data);
    block
}

fn block_sum(block: &[u8]) -> u8 {
    block.iter().fold(0_u8, |acc, b| acc.wrapping_add(*b))
}

#[test]
fn decodes_detailed_timing_fields() {
    let edid = Edid::parse(&BASE_ONLY).unwrap();
    let Descriptor::DetailedTiming(timing) = &edid.base.descriptors[0] else {
        panic!("expected detailed timing");
    };
    assert_eq!(timing.pixel_clock_khz, 594_000);
    assert_eq!(timing.horizontal_active, 3840);
    assert_eq!(timing.horizontal_blanking, 560);
    assert_eq!(timing.vertical_active, 2160);
    assert_eq!(timing.vertical_blanking, 90);
    assert_eq!(timing.raw[..], BASE_ONLY[54..72]);
}

#[test]
fn decodes_base_fields() {
    let edid = Edid::parse(&BASE_ONLY).unwrap();
    assert_eq!(edid.base.serial_number, 1);
    assert_eq!(edid.base.manufacture_date.week, 0x30);
    assert_eq!(edid.base.manufacture_date.year, 1990 + 0x1b);
    assert_eq!(edid.base.version.major, 1);
    assert_eq!(edid.base.version.minor, 3);
    assert!(matches!(edid.base.descriptors[2], Descriptor::Unknown(_)));
    assert_eq!(edid.base.descriptors.len(), 4);
    let VideoInputDefinition::Digital(input) = edid.base.video_input_definition else {
        panic!("expected digital input");
    };
    assert!(!input.dfp_1x_compatible);
    assert_eq!(input.color_bit_depth, None);
}

#[test]
fn decodes_edid_1_4_digital_input() {
    let mut block = BASE_ONLY;
    block[19] = 4;
    block[20] = 0xa5;
    let edid = Edid::parse(&fixed(block)).unwrap();
    let VideoInputDefinition::Digital(input) = edid.base.video_input_definition else {
        panic!("expected digital input");
    };
    assert_eq!(input.color_bit_depth, Some(8));
    assert_eq!(input.interface, Some(5));
    assert!(!input.dfp_1x_compatible);
    assert_eq!(edid.to_bytes(), fixed(block).to_vec());
}

#[test]
fn decodes_range_limits_and_unused_slots() {
    let mut block = BASE_ONLY;
    let range = [0x00, 0x00, 0x00, 0xfd, 0x00, 0x3b, 0x46, 0x1f, 0x8c, 0x3c, 0x00, 0x0a, 0x20, 0x20, 0x20, 0x20, 0x20, 0x20];
    block[90..108].copy_from_slice(&range);
    block[108..126].copy_from_slice(&[0_u8; 18]);
    let edid = Edid::parse(&fixed(block)).unwrap();
    let Descriptor::RangeLimits(limits) = &edid.base.descriptors[2] else {
        panic!("expected range limits");
    };
    assert_eq!(limits.min_vertical_hz, 59);
    assert_eq!(limits.max_vertical_hz, 70);
    assert_eq!(limits.min_horizontal_khz, 31);
    assert_eq!(limits.max_horizontal_khz, 140);
    assert_eq!(limits.max_pixel_clock_mhz, 600);
    assert!(matches!(edid.base.descriptors[3], Descriptor::Unused));
    assert_eq!(edid.to_bytes(), fixed(block).to_vec());
}

#[test]
fn encodes_manufacturer_id_exactly() {
    assert_eq!(encode_manufacturer_id("DEL").unwrap(), [0x10, 0xac]);
    assert_eq!(decode_manufacturer_id([0x05, 0xe3]).unwrap(), "AOC");
    let error = encode_manufacturer_id("DELL").unwrap_err();
    assert_eq!(
        error,
        EdidError::ValidationError("manufacturer id must be three uppercase ASCII letters".to_owned())
    );
    assert_eq!(
        decode_manufacturer_id([0x7f, 0xff]).unwrap_err(),
        EdidError::ParseError("invalid manufacturer id encoding".to_owned())
    );
}

#[test]
fn nibbles_split_a_byte() {
    assert_eq!(BitReader::high_nibble(0xf2), 0x0f);
    assert_eq!(BitReader::low_nibble(0xf2), 0x02);
}

#[test]
fn header_validation() {
    assert!(validate_header(&BASE_ONLY).is_ok());
    assert_eq!(validate_header(&BASE_ONLY[..7]).unwrap_err(), EdidError::InvalidHeader);
    let mut bad = BASE_ONLY;
    bad[7] = 0xff;
    assert_eq!(validate_header(&bad).unwrap_err(), EdidError::InvalidHeader);
}

#[test]
fn checksum_validation_reports_length_and_index() {
    assert_eq!(validate_checksum(&BASE_ONLY[..127], 3).unwrap_err(), EdidError::InvalidLength);
    let mut bad = BASE_ONLY;
    bad[127] = bad[127].wrapping_add(1);
    assert_eq!(
        validate_checksum(&bad, 3).unwrap_err(),
        EdidError::InvalidChecksum { block_index: 3 }
    );
    assert!(validate_checksum(&BASE_ONLY, 3).is_ok());
}

#[test]
fn descriptor_text_encoding_layout() {
    let encoded = encode_descriptor_text("ABC").unwrap();
    assert_eq!(encoded, [b'A', b'B', b'C', 0x0a, b' ', b' ', b' ', b' ', b' ', b' ', b' ', b' ', b' ']);
    let full = encode_descriptor_text("0123456789ABC").unwrap();
    assert_eq!(&full, b"0123456789ABC");
    assert_eq!(
        encode_descriptor_text("0123456789ABCD").unwrap_err(),
        EdidError::ValidationError("descriptor text cannot exceed 13 characters".to_owned())
    );
    assert_eq!(
        encode_descriptor_text("né").unwrap_err(),
        EdidError::ValidationError("descriptor text must be ASCII".to_owned())
    );
}

#[test]
fn descriptor_text_stops_at_terminator_and_trims() {
    assert_eq!(parse_descriptor_text(b"AB\0CD"), "AB");
    assert_eq!(parse_descriptor_text(b"AB  \t"), "AB");
    assert_eq!(parse_descriptor_text(b"AB\xc2\xa0"), "AB");
    assert_eq!(parse_descriptor_text(b"A\xffB"), "A\u{fffd}B");
    assert_eq!(parse_descriptor_text(b""), "");
}

#[test]
fn non_ascii_monitor_name_is_read_lossily() {
    let bytes = with_name_slot(b"X\xffY\n");
    let edid = Edid::parse(&bytes).unwrap();
    assert!(matches!(&edid.base.descriptors[2], Descriptor::MonitorName(name) if name == "X\u{fffd}Y"));
    assert_eq!(edid.to_bytes(), bytes.to_vec());
}

#[test]
fn unencodable_name_keeps_the_slot_bytes() {
    let bytes = with_name_slot(b"OLD\n");
    let mut edid = Edid::parse(&bytes).unwrap();
    edid.base.descriptors[2] = Descriptor::MonitorName("FAR TOO LONG A NAME".to_owned());
    assert_eq!(edid.to_bytes(), bytes.to_vec());
}

#[test]
fn text_slot_padding_and_reserved_bytes_are_kept() {
    let mut block = with_name_slot(b"AB\n");
    block[54 + 36 + 4] = 0x01;
    let block = fixed(block);
    let mut edid = Edid::parse(&block).unwrap();
    assert!(matches!(&edid.base.descriptors[2], Descriptor::MonitorName(name) if name == "AB"));
    assert_eq!(edid.to_bytes(), block.to_vec());
    edid.set_monitor_name("CD").unwrap();
    let written = edid.to_bytes();
    assert_eq!(&written[90..108], &[0, 0, 0, 0xfc, 0, b'C', b'D', 0x0a, 0x20, 0x20, 0x20, 0x20, 0x20, 0x20, 0x20, 0x20, 0x20, 0x20]);
}

#[test]
fn video_input_reserved_bits_are_kept() {
    let mut block = BASE_ONLY;
    block[20] = 0x6f;
    let block = fixed(block);
    let mut edid = Edid::parse(&block).unwrap();
    assert_eq!(edid.to_bytes(), block.to_vec());
    let VideoInputDefinition::Analog(mut input) = edid.base.video_input_definition else {
        panic!("expected analog input");
    };
    input.separate_sync_supported = false;
    edid.base.video_input_definition = VideoInputDefinition::Analog(input);
    assert_eq!(edid.to_bytes()[20], 0x07);
}

#[test]
fn long_hdr_block_is_kept_as_extended() {
    let data = [0xe8, 0x06, 0x01, 0x02, 0x03, 0x04, 0x05, 0x06, 0x07];
    let bytes = two_blocks(BASE_ONLY, cta_block(&data));
    let edid = Edid::parse(&bytes).unwrap();
    let ExtensionBlock::Cta861(cta) = &edid.extensions[0] else {
        panic!("expected CTA-861 extension");
    };
    let DataBlock::Extended(block) = &cta.data_blocks[0] else {
        panic!("expected extended block");
    };
    assert_eq!(block.extended_tag, 6);
    assert_eq!(block.payload, vec![1, 2, 3, 4, 5, 6, 7]);
    assert_eq!(edid.to_bytes(), bytes);
}

#[test]
fn unencodable_cta_block_is_written_from_its_bytes() {
    let bytes = two_blocks(BASE_ONLY, cta_block(&[0x42, 0x10, 0x04]));
    let mut edid = Edid::parse(&bytes).unwrap();
    let ExtensionBlock::Cta861(cta) = &mut edid.extensions[0] else {
        panic!("expected CTA-861 extension");
    };
    for _ in 0..4 {
        cta.data_blocks.push(DataBlock::Unknown { tag: 5, payload: vec![0; 31] });
    }
    assert!(write_cta861_extension(cta).is_err());
    edid.set_product_code(0x0102);
    let written = edid.to_bytes();
    assert_eq!(written.len(), 256);
    assert_eq!(&written[128..], &bytes[128..]);
    assert_eq!(&written[10..12], &[0x02, 0x01]);
    assert_eq!(block_sum(&written[..128]), 0);
}

#[test]
fn held_extension_blocks_get_fresh_checksums() {
    let mut extension = [0_u8; 128];
    extension[0] = 0x10;
    let mut edid = Edid::parse(&two_blocks(BASE_ONLY, extension)).unwrap();
    let ExtensionBlock::Unknown(raw) = &mut edid.extensions[0] else {
        panic!("expected unknown extension");
    };
    raw[5] = 0x33;
    let written = edid.to_bytes();
    assert_eq!(written[128 + 5], 0x33);
    assert_eq!(block_sum(&written[128..]), 0);
    assert!(Edid::parse(&written).is_ok());
}

#[test]
fn high_manufacturer_bit_is_kept() {
    let mut block = BASE_ONLY;
    block[8] |= 0x80;
    let block = fixed(block);
    let mut edid = Edid::parse(&block).unwrap();
    assert_eq!(edid.base.manufacturer_id.0, "AOC");
    assert_eq!(edid.to_bytes(), block.to_vec());
    edid.base.manufacturer_id.0 = "DEL".to_owned();
    let written = edid.to_bytes();
    assert_eq!(&written[8..10], &encode_manufacturer_id("DEL").unwrap());
}

#[test]
fn written_blocks_have_sound_checksums() {
    let mut edid = Edid::parse(&two_blocks(BASE_ONLY, cta_block(&[0x42, 0x10, 0x04]))).unwrap();
    edid.set_product_code(0x1234);
    let ExtensionBlock::Cta861(cta) = &mut edid.extensions[0] else {
        panic!("expected CTA-861 extension");
    };
    assert!(cta.add_video_vic(0x61));
    let bytes = edid.to_bytes();
    assert_eq!(bytes.len(), 256);
    assert_eq!(block_sum(&bytes[..128]), 0);
    assert_eq!(block_sum(&bytes[128..]), 0);
    let reparsed = Edid::parse(&bytes).unwrap();
    assert_eq!(reparsed.base.product_code, 0x1234);
}

#[test]
fn rejects_bad_extension_checksum_with_its_index() {
    let mut bytes = two_blocks(BASE_ONLY, cta_block(&[]));
    bytes[200] ^= 0x01;
    assert_eq!(Edid::parse(&bytes).unwrap_err(), EdidError::InvalidChecksum { block_index: 1 });
}

#[test]
fn rejects_invalid_manufacturer_in_base_block() {
    let mut block = BASE_ONLY;
    block[8] = 0;
    block[9] = 0;
    assert_eq!(
        Edid::parse(&fixed(block)).unwrap_err(),
        EdidError::ParseError("invalid manufacturer id encoding".to_owned())
    );
}

#[test]
fn rejects_bad_cta_offset_with_message() {
    let mut extension = cta_block(&[]);
    extension[2] = 2;
    let error = Edid::parse(&two_blocks(BASE_ONLY, extension)).unwrap_err();
    assert_eq!(error, EdidError::ParseError("invalid CTA detailed timing offset 2".to_owned()));
    assert_eq!(error.message(), "parse error: invalid CTA detailed timing offset 2");
}

#[test]
fn rejects_malformed_cta_data_blocks() {
    let cases: [(&[u8], &str); 4] = [
        (&[0x22, 0x01, 0x02], "audio data block length must be divisible by 3"),
        (&[0x62, 0x03, 0x0c], "vendor block must contain at least 3 bytes for OUI"),
        (&[0xe0], "extended tag block must contain an extended tag"),
        (&[0xe2, 0x06, 0x01], "HDR static metadata block must contain at least two bytes"),
    ];
    for (data, message) in cases {
        let error = Edid::parse(&two_blocks(BASE_ONLY, cta_block(data))).unwrap_err();
        assert_eq!(error, EdidError::ParseError(message.to_owned()));
    }
}

#[test]
fn rejects_truncated_displayid_block_header() {
    let mut extension = [0_u8; 128];
    extension[0] = 0x70;
    extension[3] = 2;
    extension[6] = 0x20;
    let error = Edid::parse(&two_blocks(BASE_ONLY, extension)).unwrap_err();
    assert_eq!(error, EdidError::ParseError("truncated DisplayID data block header".to_owned()));
    extension[3] = 125;
    let error = Edid::parse(&two_blocks(BASE_ONLY, extension)).unwrap_err();
    assert_eq!(error, EdidError::ParseError("DisplayID payload exceeds extension boundary".to_owned()));
}

#[test]
fn unknown_extension_is_kept_as_bytes() {
    let mut extension = [0_u8; 128];
    extension[0] = 0x10;
    extension[5] = 0x77;
    let bytes = two_blocks(BASE_ONLY, extension);
    let edid = Edid::parse(&bytes).unwrap();
    let ExtensionBlock::Unknown(raw) = &edid.extensions[0] else {
        panic!("expected unknown extension");
    };
    assert_eq!(raw[..], bytes[128..]);
    assert_eq!(edid.extensions[0].raw_bytes(), &bytes[128..]);
    assert_eq!(edid.to_bytes(), bytes);
}

#[test]
fn decodes_hdmi_latency_fields() {
    let data = [
        0x6c, 0x03, 0x0c, 0x00, 0x12, 0x34, 0x79, 0x3c, 0xe0, 0x0a, 0x10, 0x20, 0x30,
    ];
    let edid = Edid::parse(&two_blocks(BASE_ONLY, cta_block(&data))).unwrap();
    let ExtensionBlock::Cta861(cta) = &edid.extensions[0] else {
        panic!("expected CTA-861 extension");
    };
    let DataBlock::Vendor(vendor) = &cta.data_blocks[0] else {
        panic!("expected vendor block");
    };
    let hdmi = vendor.hdmi.as_ref().unwrap();
    assert_eq!(hdmi.physical_address, [1, 2, 3, 4]);
    assert!(!hdmi.supports_ai);
    assert!(hdmi.deep_color_48bit);
    assert!(hdmi.deep_color_36bit);
    assert!(hdmi.deep_color_30bit);
    assert!(hdmi.deep_color_y444);
    assert!(hdmi.dvi_dual_link);
    assert_eq!(hdmi.max_tmds_clock_mhz, Some(300));
    assert!(hdmi.latency_fields_present);
    assert!(hdmi.interlaced_latency_fields_present);
    assert!(hdmi.hdmi_video_present);
    assert!(!hdmi.cnc_graphics);
    assert!(cnc_photo_is_set(hdmi.cnc_photo));
    assert_eq!(hdmi.video_latency, Some(0x10));
    assert_eq!(hdmi.audio_latency, Some(0x20));
    assert_eq!(hdmi.interlaced_video_latency, Some(0x30));
    assert_eq!(hdmi.interlaced_audio_latency, None);
}

fn cnc_photo_is_set(flag: bool) -> bool {
    flag
}

#[test]
fn short_hdmi_payload_has_no_decoded_fields() {
    let data = [0x65, 0x03, 0x0c, 0x00, 0x10, 0x00];
    let edid = Edid::parse(&two_blocks(BASE_ONLY, cta_block(&data))).unwrap();
    let ExtensionBlock::Cta861(cta) = &edid.extensions[0] else {
        panic!("expected CTA-861 extension");
    };
    let DataBlock::Vendor(vendor) = &cta.data_blocks[0] else {
        panic!("expected vendor block");
    };
    assert!(vendor.hdmi.is_none());
    assert_eq!(vendor.payload, vec![0x10, 0x00]);
}

#[test]
fn serializes_data_blocks_exactly() {
    let hdr = DataBlock::HdrStaticMetadata(HdrStaticMetadataBlock {
        electro_optical_transfer_functions: 0x05,
        static_metadata_descriptors: 0x01,
        desired_content_max_luminance: Some(0x64),
        desired_content_max_frame_average_luminance: None,
        desired_content_min_luminance: None,
    });
    assert_eq!(serialize_data_block(&hdr).unwrap(), (0x07, vec![0x06, 0x05, 0x01, 0x64]));
    let vendor = DataBlock::Vendor(VendorBlock { oui: [1, 2, 3], payload: vec![9], hdmi: None });
    assert_eq!(serialize_data_block(&vendor).unwrap(), (0x03, vec![1, 2, 3, 9]));
    let blocks = vec![DataBlock::Video(VideoBlock { vic_codes: vec![0x10, 0x04] }), vendor];
    assert_eq!(serialize_data_blocks(&blocks).unwrap(), vec![0x42, 0x10, 0x04, 0x64, 1, 2, 3, 9]);
}

#[test]
fn rejects_unwritable_data_blocks() {
    let unknown = DataBlock::Unknown { tag: 9, payload: vec![] };
    assert_eq!(
        serialize_data_block(&unknown).unwrap_err(),
        EdidError::ValidationError("CTA data block tag 9 is out of range".to_owned())
    );
    let long = vec![DataBlock::Video(VideoBlock { vic_codes: vec![1; 32] })];
    assert_eq!(
        serialize_data_blocks(&long).unwrap_err(),
        EdidError::ValidationError("CTA data block payload exceeds 31-byte limit for tag 2".to_owned())
    );
    let mut edid = Edid::parse(&two_blocks(BASE_ONLY, cta_block(&[]))).unwrap();
    let ExtensionBlock::Cta861(cta) = &mut edid.extensions[0] else {
        panic!("expected CTA-861 extension");
    };
    for _ in 0..4 {
        cta.data_blocks.push(DataBlock::Video(VideoBlock { vic_codes: vec![1; 31] }));
    }
    assert_eq!(
        write_cta861_extension(cta).unwrap_err(),
        EdidError::ValidationError("CTA-861 data blocks exceed 123-byte payload budget".to_owned())
    );
}

#[test]
fn rewritten_cta_block_keeps_trailing_bytes() {
    let mut extension = cta_block(&[0x41, 0x10]);
    extension[6] = 0xaa;
    extension[7] = 0xbb;
    let edid = Edid::parse(&two_blocks(BASE_ONLY, extension)).unwrap();
    let mut edid = edid;
    let ExtensionBlock::Cta861(cta) = &mut edid.extensions[0] else {
        panic!("expected CTA-861 extension");
    };
    assert!(cta.add_video_vic(0x20));
    let bytes = write_cta861_extension(cta).unwrap();
    assert_eq!(bytes[2], 7);
    assert_eq!(&bytes[4..7], &[0x42, 0x10, 0x20]);
    assert_eq!(&bytes[7..9], &[0xaa, 0xbb]);
    assert_eq!(block_sum(&bytes), 0);
}

#[test]
fn writes_text_and_zero_descriptors() {
    assert_eq!(write_descriptor(&Descriptor::Unused).unwrap(), [0_u8; 18]);
    let written = write_descriptor(&Descriptor::MonitorSerial("SN1".to_owned())).unwrap();
    assert_eq!(written[..5], [0, 0, 0, 0xff, 0]);
    assert_eq!(&written[5..9], b"SN1\n");
    assert!(write_descriptor(&Descriptor::MonitorName("ABCDEFGHIJKLMN".to_owned())).is_err());
}

#[test]
fn base_block_write_recomputes_checksum() {
    let mut edid = Edid::parse(&BASE_ONLY).unwrap();
    edid.base.serial_number = 0x0102_0304;
    edid.base.manufacture_date.year = 2000;
    let block = write_base_block(&edid.base);
    assert_eq!(&block[12..16], &[0x04, 0x03, 0x02, 0x01]);
    assert_eq!(block[17], 10);
    assert_eq!(block_sum(&block), 0);
}

#[test]
fn base_block_write_keeps_unmodelled_bytes() {
    let mut edid = Edid::parse(&BASE_ONLY).unwrap();
    edid.base.product_code = 0x4321;
    edid.base.descriptors.truncate(1);
    edid.base.descriptors[0] = Descriptor::Unused;
    let block = write_base_block(&edid.base);
    assert_eq!(&block[0..8], &BASE_ONLY[0..8]);
    assert_eq!(&block[10..12], &[0x21, 0x43]);
    assert_eq!(&block[21..54], &BASE_ONLY[21..54]);
    assert_eq!(&block[54..72], &[0_u8; 18]);
    assert_eq!(&block[72..126], &BASE_ONLY[72..126]);
    assert_eq!(block_sum(&block), 0);
}

#[test]
fn error_messages() {
    assert_eq!(EdidError::InvalidLength.message(), "invalid EDID length");
    assert_eq!(EdidError::InvalidHeader.message(), "invalid EDID header");
    assert_eq!(EdidError::InvalidChecksum { block_index: 12 }.message(), "invalid checksum for block 12");
    assert_eq!(
        EdidError::ExtensionCountMismatch { expected: 1, actual: 0 }.message(),
        "extension count mismatch: expected 1, got 0"
    );
    assert_eq!(EdidError::UnsupportedExtension(0x0a).message(), "unsupported extension tag 0x0a");
    assert_eq!(
        EdidError::ValidationError("x".to_owned()).message(),
        "validation error: x"
    );
}

#[test]
fn displayid_block_gets_a_fresh_checksum() {
    let mut extension = [0_u8; 128];
    extension[0] = 0x70;
    extension[1] = 0x13;
    let mut edid = Edid::parse(&two_blocks(BASE_ONLY, extension)).unwrap();
    let ExtensionBlock::DisplayId(display_id) = &mut edid.extensions[0] else {
        panic!("expected DisplayID extension");
    };
    display_id.raw_block[20] = 0x44;
    let written = edid.to_bytes();
    assert_eq!(written[128 + 20], 0x44);
    assert_eq!(block_sum(&written[128..]), 0);
}
