use rsmdf::mdf::{check_version, version_of, MDFVersion};

/// The identification block of an MDF 3.30 file.
fn mdf330_id_block() -> Vec<u8> {
    let mut id_block = Vec::new();
    id_block.extend_from_slice(&[b'M', b'D', b'F', b' ', b' ', b' ', b' ', b' ']); // "MDF     "
    id_block.extend_from_slice(&[b'3', b'.', b'3', b'0', b' ', b' ', b' ', b' ']); // "3.30    "
    id_block.extend_from_slice(&[b'r', b's', b'm', b'd', b'f', b' ', b' ', b' ']); // "rsmdf   "
    id_block.extend_from_slice(&[0x00, 0x00]); // default_byte_order (little endian)
    id_block.extend_from_slice(&[0x00, 0x00]); // default_float_format
    id_block.extend_from_slice(&[0x4A, 0x01]); // version_number (330)
    id_block.extend_from_slice(&[0x00, 0x00]); // code_page_number
    id_block.extend_from_slice(&[0x00, 0x00]); // reserved1
    id_block.extend_from_slice(&[0x00; 30]); // reserved2
    id_block
}

#[test]
fn mdf_test_mdf3_version_detection() {
    let test_file = mdf330_id_block();
    let version = check_version(&test_file);
    assert_eq!(version, MDFVersion::MDF3);
}

#[test]
fn tests_test_mdf3_version_detection() {
    let id_block = [
        b'M', b'D', b'F', b' ', b' ', b' ', b' ', b' ', // File ID
        b'3', b'.', b'0', b'0', b' ', b' ', b' ', b' ', // Format ID
        b'R', b'S', b'M', b'D', b'F', b' ', b' ', b' ', // Program ID
        0, 0, // Default byte order (little endian)
        0, 0, // Default float format (IEEE 754)
        0x2C, 0x01, // Version number (300 = 3.00)
        0, 0, // Code page (not used)
        0, 0, // Reserved
        0, 0, 0, 0, 0, 0, 0, 0, 0, 0, 0, 0, 0, 0, 0, 0, // Reserved
        0, 0, 0, 0, 0, 0, 0, 0, 0, 0, 0, 0, 0, 0, // Reserved
    ];
    let version = check_version(&id_block);
    assert_eq!(version, MDFVersion::MDF3);
}

#[test]
fn version_of_mdf4_and_unknown_files() {
    let mut id = mdf330_id_block();
    id[8..16].copy_from_slice(b"4.11    ");
    assert_eq!(check_version(&id), MDFVersion::MDF4);
    assert_eq!(version_of(&id), Some(MDFVersion::MDF4));
    id[8..16].copy_from_slice(b"5.00    ");
    assert_eq!(version_of(&id), None);
    id[8..16].copy_from_slice(b"x.00    ");
    assert_eq!(version_of(&id), None);
    let mut not_mdf = mdf330_id_block();
    not_mdf[0] = b'N';
    assert_eq!(version_of(&not_mdf), None);
    assert_eq!(version_of(&not_mdf[..10]), None);
    assert_eq!(version_of(&mdf330_id_block()), Some(MDFVersion::MDF3));
}

#[test]
fn version_text_parses_as_plain_digits() {
    let mut id = mdf330_id_block();
    id[8..16].copy_from_slice(b"+4.10   ");
    assert_eq!(version_of(&id), Some(MDFVersion::MDF4));
    id[8..16].copy_from_slice(b"03.30   ");
    assert_eq!(version_of(&id), Some(MDFVersion::MDF3));
    id[8..16].copy_from_slice(b" 4.10   ");
    assert_eq!(version_of(&id), None);
    id[8..16].copy_from_slice(b"+.10    ");
    assert_eq!(version_of(&id), None);
    id[8..16].copy_from_slice(b"4       ");
    assert_eq!(version_of(&id), None);
}
