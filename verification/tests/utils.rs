use edidkit::utils::{
    decode_manufacturer_id, encode_descriptor_text, encode_manufacturer_id, fix_checksum,
    parse_descriptor_text, validate_checksum, validate_descriptor_text,
};

#[test]
fn fixes_checksum_for_block() {
    let mut block = [0_u8; 128];
    block[0] = 0x12;
    block[1] = 0x34;

    fix_checksum(&mut block);

    validate_checksum(&block, 0).unwrap();
}

#[test]
fn manufacturer_id_round_trip() {
    let encoded = encode_manufacturer_id("DEL").unwrap();
    assert_eq!(decode_manufacturer_id(encoded).unwrap(), "DEL");
}

#[test]
fn rejects_invalid_manufacturer_id() {
    assert!(encode_manufacturer_id("de1").is_err());
    assert!(decode_manufacturer_id([0x00, 0x00]).is_err());
}

#[test]
fn descriptor_text_round_trip() {
    let encoded = encode_descriptor_text("RK-UHD").unwrap();
    assert_eq!(parse_descriptor_text(&encoded), "RK-UHD");
}

#[test]
fn descriptor_text_validation_rejects_invalid_input() {
    assert!(validate_descriptor_text("0123456789ABCD").is_err());
    assert!(validate_descriptor_text("显示器").is_err());
}
