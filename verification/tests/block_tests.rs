use rsmdf::mdf4::block::Block;
use rsmdf::mdf4::block_header::BlockHeader;
use rsmdf::mdf4::fh_block::Fhblock;
use rsmdf::mdf4::id_block::Idblock;
use rsmdf::mdf4::md_block::Mdblock;
use rsmdf::mdf4::mdf4_enums::{BusType, SourceType};
use rsmdf::mdf4::si_block::Siblock;

// Test data for an FH block with two links
static FH_RAW: [u8; 56] = [
    // Block Header
    0x23, 0x23, 0x46, 0x48, // "##FH"
    0x00, 0x00, 0x00, 0x00, // Reserved
    0x38, 0x00, 0x00, 0x00, 0x00, 0x00, 0x00, 0x00, // Length = 56
    0x02, 0x00, 0x00, 0x00, 0x00, 0x00, 0x00, 0x00, // Link count = 2
    // Links
    0xE0, 0x00, 0x00, 0x00, 0x00, 0x00, 0x00, 0x00, // Link 1 = 224 (TX block)
    0x00, 0x00, 0x00, 0x00, 0x00, 0x00, 0x00, 0x00, // Link 2 = 0 (Next FH block)
    // Additional data (if any)
    0x00, 0x00, 0x00, 0x00, 0x00, 0x00, 0x00, 0x00, 0x00, 0x00, 0x00, 0x00, 0x00, 0x00, 0x00,
    0x00,
];

// Test data for v4.10
static RAW_410: [u8; 64] = [
    0x4D, 0x44, 0x46, 0x20, 0x20, 0x20, 0x20, 0x20, 0x34, 0x2E, 0x31, 0x30, 0x20, 0x20, 0x20,
    0x20, 0x54, 0x47, 0x54, 0x20, 0x31, 0x35, 0x2E, 0x30, 0x00, 0x00, 0x00, 0x00, 0x9A, 0x01,
    0x00, 0x00, 0x00, 0x00, 0x00, 0x00, 0x00, 0x00, 0x00, 0x00, 0x00, 0x00, 0x00, 0x00, 0x00,
    0x00, 0x00, 0x00, 0x00, 0x00, 0x00, 0x00, 0x00, 0x00, 0x00, 0x00, 0x00, 0x00, 0x00, 0x00,
    0x00, 0x00, 0x00, 0x00,
];

// Test data for v4.11
static RAW_411: [u8; 64] = [
    0x4D, 0x44, 0x46, 0x20, 0x20, 0x20, 0x20, 0x20, 0x34, 0x2E, 0x31, 0x31, 0x20, 0x20, 0x20,
    0x20, 0x48, 0x61, 0x70, 0x70, 0x79, 0x62, 0x6F, 0x78, 0x00, 0x00, 0x00, 0x00, 0x9B, 0x01,
    0x00, 0x00, 0x00, 0x00, 0x00, 0x00, 0x00, 0x00, 0x00, 0x00, 0x00, 0x00, 0x00, 0x00, 0x00,
    0x00, 0x00, 0x00, 0x00, 0x00, 0x00, 0x00, 0x00, 0x00, 0x00, 0x00, 0x00, 0x00, 0x00, 0x00,
    0x00, 0x00, 0x00, 0x00,
];

static SI_RAW: [u8; 56] = [
    0x23, 0x23, 0x53, 0x49, 0x00, 0x00, 0x00, 0x00, 0x38, 0x00, 0x00, 0x00, 0x00, 0x00, 0x00,
    0x00, 0x03, 0x00, 0x00, 0x00, 0x00, 0x00, 0x00, 0x00, 0xF0, 0x44, 0x00, 0x00, 0x00, 0x00,
    0x00, 0x00, 0x10, 0x45, 0x00, 0x00, 0x00, 0x00, 0x00, 0x00, 0x00, 0x00, 0x00, 0x00, 0x00,
    0x00, 0x00, 0x00, 0x01, 0x01, 0x00, 0x00, 0x00, 0x00, 0x00, 0x00,
];

#[test]
fn fh_block_read() {
    let (pos, fh_block) = Fhblock::read(&FH_RAW, 0, true).unwrap();

    assert_eq!(40, pos);
    assert_eq!(&fh_block.header.id, "##FH".as_bytes());
    assert_eq!(56, fh_block.header.length);
    assert_eq!(2, fh_block.header.link_count);
    assert_eq!(2, fh_block.links.len());
    assert_eq!(224, fh_block.links[0]); // TX block address
    assert_eq!(0, fh_block.links[1]); // Next FH block address
}

#[test]
fn fh_block_byte_len() {
    let (_, fh_block) = Fhblock::read(&FH_RAW, 0, true).unwrap();
    assert_eq!(40, fh_block.byte_len());
}

#[test]
fn read_v410() {
    let (pos, id_result) = Idblock::read(&RAW_410, 0, true).unwrap();

    assert_eq!(64, pos);
    assert_eq!("MDF     ".as_bytes(), &id_result.id_file);
    assert_eq!("4.10    ".as_bytes(), &id_result.id_vers);
    assert_eq!("TGT 15.0".as_bytes(), &id_result.id_prog);
    assert_eq!(&[0_u8; 4], &id_result.id_reserved1);
    assert_eq!(410, id_result.id_ver);
    assert_eq!(&[0_u8; 34], &id_result.id_reserved2);
    assert_eq!("4.10", id_result.version_string());
    assert_eq!(4.10_f32, id_result.version_string().parse::<f32>().unwrap_or(4.0));
    assert_eq!("TGT 15.0", id_result.program_id());
}

#[test]
fn read_v411() {
    let (pos, id_result) = Idblock::read(&RAW_411, 0, true).unwrap();

    assert_eq!(64, pos);
    assert_eq!("MDF     ".as_bytes(), &id_result.id_file);
    assert_eq!("4.11    ".as_bytes(), &id_result.id_vers);
    assert_eq!("Happybox".as_bytes(), &id_result.id_prog);
    assert_eq!(&[0_u8; 4], &id_result.id_reserved1);
    assert_eq!(411, id_result.id_ver);
    assert_eq!(&[0_u8; 34], &id_result.id_reserved2);
    assert_eq!("4.11", id_result.version_string());
    assert_eq!(4.11_f32, id_result.version_string().parse::<f32>().unwrap_or(4.0));
    assert_eq!("Happybox", id_result.program_id());
}

#[test]
fn id_block_byte_len() {
    let (_pos, id_result) = Idblock::read(&RAW_410, 0, true).unwrap();
    assert_eq!(64, id_result.byte_len());
}

#[test]
fn si_block_read() {
    let (pos, si) = Siblock::read(&SI_RAW, 0, true).unwrap();

    assert_eq!(pos, 56);
    assert_eq!(17648, si.si_tx_name);
    assert_eq!(17680, si.si_tx_path);
    assert_eq!(0, si.si_md_comment);
    assert_eq!(SourceType::Ecu, si.si_type);
    assert_eq!(BusType::Other, si.si_bus_type);
    assert_eq!(0, si.si_flags);
    assert_eq!(&si.si_reserved, &[0_u8; 5]);
}

#[test]
fn test_bus_type_parsing() {
    // Create a template SI block with default values
    let mut raw = SI_RAW.clone();

    // The bus type byte is at offset 49 in the raw data
    let bus_type_offset = 49;

    // Test all bus types
    let test_cases = vec![
        (0, BusType::NoBus),
        (1, BusType::Other),
        (2, BusType::Can),
        (3, BusType::Lin),
        (4, BusType::Most),
        (5, BusType::FlexRay),
        (6, BusType::KLine),
        (7, BusType::Ethernet),
        (8, BusType::Usb),
    ];

    for (value, expected_type) in test_cases {
        // Modify the bus type byte in the raw data
        raw[bus_type_offset] = value;

        // Parse the modified raw data
        let (_, si) = Siblock::read(&raw, 0, true).unwrap();

        // Verify the parsed bus type matches the expected type
        assert_eq!(
            si.si_bus_type, expected_type,
            "Failed to parse bus type value {} as {:?}",
            value, expected_type
        );
    }
}

#[test]
fn si_block_byte_len() {
    let (pos, si) = Siblock::read(&SI_RAW, 0, true).unwrap();

    assert_eq!(pos, si.byte_len());
}

#[test]
fn test_invalid_block_header() {
    let bytes = [0u8; 24];
    assert!(BlockHeader::read(&bytes, 0, true).is_err());
}

#[test]
fn test_invalid_md_block() {
    let bytes = [0u8; 50];
    assert!(Mdblock::read(&bytes, 0, true).is_err());
}
