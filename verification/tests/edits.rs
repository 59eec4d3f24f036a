use edidkit::utils::fix_checksum;
use edidkit::{
    Cta861Extension, DataBlock, Descriptor, Edid, EdidError, ExtensionBlock, HdmiVendorBlock,
    SpeakerAllocationBlock, VendorBlock, VideoBlock,
};

fn cta(blocks: Vec<DataBlock>) -> Cta861Extension {
    Cta861Extension {
        revision: 3,
        detailed_timing_offset: 4,
        flags: 0,
        data_blocks: blocks,
        raw_block: vec![0; 128],
    }
}

fn hdmi_vendor(payload: Vec<u8>) -> VendorBlock {
    VendorBlock { oui: [0x03, 0x0c, 0x00], payload, hdmi: None }
}

#[test]
fn add_vic_without_video_block_inserts_one_first() {
    let mut ext = cta(vec![DataBlock::SpeakerAllocation(SpeakerAllocationBlock { bytes: vec![1] })]);
    assert!(ext.add_video_vic(0x10));
    assert!(matches!(&ext.data_blocks[0], DataBlock::Video(v) if v.vic_codes == vec![0x10]));
    assert_eq!(ext.data_blocks.len(), 2);
    assert!(!ext.add_video_vic(0x10));
    assert_eq!(ext.data_blocks.len(), 2);
}

#[test]
fn remove_vic_removes_every_copy() {
    let mut ext = cta(vec![DataBlock::Video(VideoBlock { vic_codes: vec![1, 2, 1, 3] })]);
    assert!(ext.remove_video_vic(1));
    assert!(matches!(&ext.data_blocks[0], DataBlock::Video(v) if v.vic_codes == vec![2, 3]));
    assert!(!ext.remove_video_vic(1));
    let mut empty = cta(vec![]);
    assert!(!empty.remove_video_vic(1));
    assert!(empty.data_blocks.is_empty());
}

#[test]
fn speaker_allocation_is_appended_when_absent() {
    let mut ext = cta(vec![DataBlock::Video(VideoBlock { vic_codes: vec![1] })]);
    ext.set_speaker_allocation(&[0x05, 0x00, 0x00]);
    assert_eq!(ext.data_blocks.len(), 2);
    assert!(matches!(&ext.data_blocks[1], DataBlock::SpeakerAllocation(s) if s.bytes == vec![5, 0, 0]));
    ext.set_speaker_allocation(&[0x01]);
    assert_eq!(ext.data_blocks.len(), 2);
    assert!(matches!(&ext.data_blocks[1], DataBlock::SpeakerAllocation(s) if s.bytes == vec![1]));
}

#[test]
fn tmds_clock_pads_payload_and_checks_range() {
    let mut vendor = hdmi_vendor(vec![0x10, 0x00]);
    vendor.set_hdmi_max_tmds_clock_mhz(600).unwrap();
    assert_eq!(vendor.payload, vec![0x10, 0x00, 0x00, 120]);
    for bad in [0_u16, 7, 1280] {
        assert_eq!(
            vendor.set_hdmi_max_tmds_clock_mhz(bad).unwrap_err(),
            EdidError::ValidationError("HDMI max TMDS clock must be in 5 MHz units between 5 and 1275".to_owned())
        );
    }
    assert_eq!(vendor.payload, vec![0x10, 0x00, 0x00, 120]);
    let mut other = VendorBlock { oui: [1, 2, 3], payload: vec![], hdmi: None };
    assert_eq!(
        other.set_hdmi_max_tmds_clock_mhz(300).unwrap_err(),
        EdidError::ValidationError("vendor block is not an HDMI VSDB".to_owned())
    );
}

#[test]
fn tmds_clock_updates_decoded_fields() {
    let hdmi = HdmiVendorBlock {
        physical_address: [1, 0, 0, 0],
        supports_ai: false,
        deep_color_48bit: false,
        deep_color_36bit: false,
        deep_color_30bit: false,
        deep_color_y444: false,
        dvi_dual_link: false,
        max_tmds_clock_mhz: None,
        latency_fields_present: false,
        interlaced_latency_fields_present: false,
        hdmi_video_present: false,
        cnc_graphics: false,
        cnc_photo: false,
        cnc_cinema: false,
        cnc_game: false,
        video_latency: None,
        audio_latency: None,
        interlaced_video_latency: None,
        interlaced_audio_latency: None,
    };
    let mut vendor = VendorBlock { oui: [0x03, 0x0c, 0x00], payload: vec![0x10, 0x00, 0x00], hdmi: Some(hdmi) };
    vendor.set_hdmi_max_tmds_clock_mhz(1275).unwrap();
    assert_eq!(vendor.hdmi.unwrap().max_tmds_clock_mhz, Some(1275));
    vendor.set_hdmi_content_types(false, true, false, true).unwrap();
    assert_eq!(vendor.payload, vec![0x10, 0x00, 0x00, 255, 0x20, 0x0a]);
    let decoded = vendor.hdmi.unwrap();
    assert!(decoded.hdmi_video_present);
    assert!(decoded.cnc_photo && decoded.cnc_game && !decoded.cnc_graphics && !decoded.cnc_cinema);
}

#[test]
fn hdmi_edits_need_an_hdmi_block() {
    let mut ext = cta(vec![DataBlock::Vendor(VendorBlock { oui: [1, 2, 3], payload: vec![], hdmi: None })]);
    let missing = EdidError::ValidationError("HDMI vendor-specific block not present".to_owned());
    assert_eq!(ext.set_hdmi_max_tmds_clock_mhz(300).unwrap_err(), missing);
    assert_eq!(ext.set_hdmi_content_types(true, true, true, true).unwrap_err(), missing);
    let mut ext = cta(vec![DataBlock::Vendor(hdmi_vendor(vec![0, 0, 0, 0]))]);
    ext.set_hdmi_content_types(true, false, false, false).unwrap();
    assert!(matches!(&ext.data_blocks[0], DataBlock::Vendor(v) if v.payload == vec![0, 0, 0, 0, 0x20, 0x01]));
}

#[test]
fn monitor_name_needs_a_name_descriptor() {
    let mut block = [0_u8; 128];
    block[..8].copy_from_slice(&[0x00, 0xff, 0xff, 0xff, 0xff, 0xff, 0xff, 0x00]);
    block[8] = 0x10;
    block[9] = 0xac;
    block[18] = 1;
    block[19] = 4;
    fix_checksum(&mut block);
    let mut edid = Edid::parse(&block).unwrap();
    assert!(edid.base.descriptors.iter().all(|d| matches!(d, Descriptor::Unused)));
    assert_eq!(edid.base.manufacturer_id.0, "DEL");
    assert_eq!(
        edid.set_monitor_name("NAME").unwrap_err(),
        EdidError::ValidationError("monitor name descriptor not present".to_owned())
    );
    assert_eq!(
        edid.set_monitor_name("名字").unwrap_err(),
        EdidError::ValidationError("descriptor text must be ASCII".to_owned())
    );
    assert_eq!(edid.to_bytes(), block.to_vec());
}

#[test]
fn monitor_name_round_trips_through_bytes() {
    let mut block = [0_u8; 128];
    block[..8].copy_from_slice(&[0x00, 0xff, 0xff, 0xff, 0xff, 0xff, 0xff, 0x00]);
    block[8] = 0x10;
    block[9] = 0xac;
    block[18] = 1;
    block[19] = 3;
    block[72 + 3] = 0xfc;
    block[72 + 5..72 + 18].copy_from_slice(b"OLD\n         ");
    fix_checksum(&mut block);
    let mut edid = Edid::parse(&block).unwrap();
    edid.set_monitor_name("NEW NAME").unwrap();
    let reparsed = Edid::parse(&edid.to_bytes()).unwrap();
    assert!(matches!(&reparsed.base.descriptors[1], Descriptor::MonitorName(n) if n == "NEW NAME"));
    let ExtensionBlock::Unknown(_) = ExtensionBlock::Unknown(vec![]) else {
        unreachable!()
    };
}
