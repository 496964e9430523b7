use rsmdf::mdf::{search_channel_exact, search_channel_first, search_channels, MdfChannel};
use rsmdf::mdf4::block::Block;
use rsmdf::mdf4::channel::Channel;
use rsmdf::mdf4::fh_block::Fhblock;
use rsmdf::mdf4::md_block::Mdblock;
use rsmdf::mdf4::mdf4_file::{
    channel_group_metadata_at, channel_metadata_at, read_metadata, source_information_at, text_at,
};
use rsmdf::mdf4::tx_block::Txblock;
use rsmdf::mdf4::id_block::Idblock;
use rsmdf::mdf4::mdf4_enums::{BusType, SourceType};
use rsmdf::mdf4::si_block::Siblock;
use rsmdf::mdf4::MDF4;

fn md_block(text: &str, padding: usize) -> Vec<u8> {
    let length = 24 + text.len() + padding;
    let mut b = Vec::new();
    b.extend_from_slice(b"##MD");
    b.extend_from_slice(&[0u8; 4]);
    b.extend_from_slice(&(length as u64).to_le_bytes());
    b.extend_from_slice(&0u64.to_le_bytes());
    b.extend_from_slice(text.as_bytes());
    b.extend_from_slice(&vec![0u8; padding]);
    b
}

fn channel(name: &str, dg: usize, cg: usize, cn: usize, parent: Option<&str>) -> MdfChannel {
    MdfChannel {
        name: name.to_string(),
        data_group: dg,
        channel_group: cg,
        channel: cn,
        parent_name: parent.map(|p| p.to_string()),
        is_nested: parent.is_some(),
    }
}

#[test]
fn full_path_names_groups_and_channel() {
    assert_eq!(channel("speed", 1, 23, 4, None).full_path(), "/DG1/CG23/speed");
    assert_eq!(channel("", 0, 0, 0, None).full_path(), "/DG0/CG0/");
    assert_eq!(channel("a/b", 105, 9, 0, None).full_path(), "/DG105/CG9/a/b");
}

#[test]
fn same_name_in_other_group_has_other_path() {
    let a = channel("rpm", 1, 2, 0, None);
    let b = channel("rpm", 12, 0, 0, None);
    assert_ne!(a.full_path(), b.full_path());
}

#[test]
fn full_name_with_and_without_parent() {
    assert_eq!(channel("x", 0, 0, 0, Some("struct")).full_name(), "struct.x");
    assert_eq!(channel("x", 0, 0, 0, None).full_name(), "x");
}

#[test]
fn is_child_of_compares_parent_name() {
    let c = channel("x", 0, 0, 0, Some("parent"));
    assert!(c.is_child_of("parent"));
    assert!(!c.is_child_of("paren"));
    assert!(!channel("x", 0, 0, 0, None).is_child_of("parent"));
}

#[test]
fn read_metadata_sets_fields() {
    let bytes = md_block("name = Speed\r\ndescription= Vehicle speed\nunit=km/h\nother=1\nno equals\nname=Speed2", 3);
    let mut c = Channel::new(String::new(), String::new(), "s".to_string());
    let end = c.read_metadata(&bytes, 0).unwrap();
    assert_eq!(end, bytes.len());
    assert_eq!(c.name(), "Speed2");
    assert_eq!(c.description(), "Vehicle speed");
    assert_eq!(c.unit(), "km/h");
}

#[test]
fn read_metadata_splits_crlf_lines_and_trims_white_space() {
    let bytes = md_block("name = \tSpeed\u{3000}\r\nunit=km/h\r\r\ndescription=x\r", 0);
    let mut c = Channel::new(String::new(), String::new(), String::new());
    c.read_metadata(&bytes, 0).unwrap();
    assert_eq!(c.name(), "Speed");
    assert_eq!(c.unit(), "km/h");
    assert_eq!(c.description(), "x");
}

#[test]
fn read_metadata_error_leaves_channel() {
    let mut bytes = md_block("name=x", 0);
    bytes[3] = b'X';
    let mut c = Channel::new("a".to_string(), "b".to_string(), "c".to_string());
    assert_eq!(
        c.read_metadata(&bytes, 0).err().unwrap(),
        "Invalid MD block identifier: [35, 35, 77, 88]"
    );
    assert_eq!(c.name(), "a");
    assert_eq!(c.description(), "b");
    assert_eq!(c.unit(), "c");
}

#[test]
fn mdf4_reads_one_channel_per_metadata_block() {
    let mut bytes = Vec::new();
    bytes.extend_from_slice(b"##HD");
    bytes.extend_from_slice(&[0u8; 20]);
    bytes.extend_from_slice(&md_block("name=a\nunit=V", 2));
    bytes.extend_from_slice(&md_block("name=b\ndescription=second", 0));
    let mut mdf = MDF4::new();
    assert!(mdf.read_bytes(&bytes).is_ok());
    assert_eq!(mdf.channels().len(), 2);
    assert_eq!(mdf.channels()[0].name(), "a");
    assert_eq!(mdf.channels()[0].unit(), "V");
    assert_eq!(mdf.channel_by_name("b").unwrap().description(), "second");
    assert!(mdf.channel_by_name("c").is_none());
}

#[test]
fn mdf4_keeps_channels_before_a_bad_block() {
    let mut bytes = Vec::new();
    bytes.extend_from_slice(b"##HD");
    bytes.extend_from_slice(&[0u8; 20]);
    bytes.extend_from_slice(&md_block("name=a", 0));
    bytes.extend_from_slice(&[0u8; 30]);
    let mut mdf = MDF4::new();
    assert_eq!(mdf.read_bytes(&bytes).err().unwrap(), "Invalid block header: identifier does not start with ##");
    assert_eq!(mdf.channels().len(), 1);
    let mut bad_header = vec![0u8; 24];
    bad_header.extend_from_slice(&md_block("name=z", 0));
    let mut other = MDF4::new();
    assert_eq!(other.read_bytes(&bad_header).err().unwrap(), "Invalid block header: identifier does not start with ##");
    assert!(other.channels().is_empty());
}

#[test]
fn id_block_rejects_other_file_identifier() {
    let mut bytes = [0u8; 64];
    bytes[..8].copy_from_slice(b"MDF    X");
    assert_eq!(Idblock::read(&bytes, 0, true).err().unwrap(), "Invalid MDF4 file identifier");
}

#[test]
fn id_block_new_is_version_411() {
    let id = Idblock::new();
    assert_eq!(&id.id_file, b"MDF     ");
    assert_eq!(id.version_string(), "4.11");
    assert_eq!(id.program_id(), "");
    assert_eq!(id.id_ver, 411);
    assert_eq!(id.byte_len(), 64);
    assert_eq!(Idblock::default(), id);
}

#[test]
fn id_block_big_endian_version() {
    let mut bytes = [0u8; 64];
    bytes[..8].copy_from_slice(b"MDF     ");
    bytes[28] = 0x01;
    bytes[29] = 0x9B;
    let (_, id) = Idblock::read(&bytes, 0, false).unwrap();
    assert_eq!(id.id_ver, 411);
}

#[test]
fn fh_block_new_and_comment() {
    let fh = Fhblock::new();
    assert_eq!(&fh.header.id, b"##FH");
    assert_eq!(fh.header.length, 56);
    assert_eq!(fh.comment_addr(), Some(0));
    assert_eq!(Fhblock::default(), fh);
    let mut bytes = Vec::new();
    bytes.extend_from_slice(b"##FH");
    bytes.extend_from_slice(&[0u8; 20]);
    let (pos, empty) = Fhblock::read(&bytes, 0, true).unwrap();
    assert_eq!(pos, 24);
    assert_eq!(empty.comment_addr(), None);
}

#[test]
fn si_block_with_more_links_and_bad_codes() {
    let mut bytes = Vec::new();
    bytes.extend_from_slice(b"##SI");
    bytes.extend_from_slice(&[0u8; 4]);
    bytes.extend_from_slice(&64u64.to_le_bytes());
    bytes.extend_from_slice(&4u64.to_le_bytes());
    for link in [1u64, 2, 3, 4] {
        bytes.extend_from_slice(&link.to_le_bytes());
    }
    bytes.extend_from_slice(&[2, 7, 1, 0, 0, 0, 0, 0]);
    let (pos, si) = Siblock::read(&bytes, 0, true).unwrap();
    assert_eq!(pos, 64);
    assert_eq!((si.si_tx_name, si.si_tx_path, si.si_md_comment), (1, 2, 3));
    assert_eq!(si.si_type, SourceType::Bus);
    assert_eq!(si.si_bus_type, BusType::Ethernet);
    assert_eq!(si.si_flags, 1);
    bytes[56] = 6;
    assert_eq!(Siblock::read(&bytes, 0, true).err().unwrap(), "Invalid source type in SI block");
    bytes[56] = 2;
    bytes[57] = 9;
    assert_eq!(Siblock::read(&bytes, 0, true).err().unwrap(), "Invalid bus type in SI block");
}

#[test]
fn si_block_new_and_codes() {
    let si = Siblock::new();
    assert_eq!(&si.header.id, b"##SI");
    assert_eq!(si.si_type, SourceType::Bus);
    assert_eq!(si.si_bus_type, BusType::Can);
    assert_eq!(Siblock::default(), si);
    for code in 0..=5u8 {
        assert_eq!(SourceType::new(code).code(), code);
    }
    for code in 0..=8u8 {
        assert_eq!(BusType::new(code).code(), code);
    }
    assert_eq!(SourceType::new(3), SourceType::Io);
    assert_eq!(BusType::new(6), BusType::KLine);
}

#[test]
fn md_block_reads_text_before_zero() {
    let mut bytes = md_block("This is some measurement", 2);
    bytes.extend_from_slice(&[1, 2, 3]);
    let (pos, md) = Mdblock::read(&bytes, 0, true).unwrap();
    assert_eq!(pos, 50);
    assert_eq!(md.data(), "This is some measurement");
    assert_eq!(md.text(), "This is some measurement");
    assert_eq!(md.byte_len(), 50);
    let mut cut = md_block("ab\0cd", 0);
    cut.push(0);
    let (_, md) = Mdblock::read(&cut, 0, true).unwrap();
    assert_eq!(md.data(), "ab");
    let mut short = md_block("", 0);
    short[8] = 20;
    assert_eq!(Mdblock::read(&short, 0, true).err().unwrap(), "Invalid MD block length");
    assert!(Mdblock::readable_at(&bytes, 0, true));
    assert!(!Mdblock::readable_at(&bytes[..30], 0, true));
}

fn block_header_bytes(id: &[u8; 4], length: u64, link_count: u64) -> Vec<u8> {
    let mut b = Vec::new();
    b.extend_from_slice(id);
    b.extend_from_slice(&[0u8; 4]);
    b.extend_from_slice(&length.to_le_bytes());
    b.extend_from_slice(&link_count.to_le_bytes());
    b
}

#[test]
fn file_comment_from_history_text_block() {
    let mut bytes = block_header_bytes(b"##FH", 56, 2);
    bytes.extend_from_slice(&56u64.to_le_bytes());
    bytes.extend_from_slice(&0u64.to_le_bytes());
    bytes.extend_from_slice(&[0u8; 16]);
    bytes.extend_from_slice(&block_header_bytes(b"##TX", 32, 0));
    bytes.extend_from_slice(b"hello\0\0\0");
    let (pos, comment) = read_metadata(&bytes, 0, true);
    assert_eq!(pos, 40);
    assert_eq!(comment, "hello");
    let (_, tx) = Txblock::try_read(&bytes, 56, true).unwrap();
    assert_eq!(tx.text(), "hello");
    assert_eq!(Txblock::try_read(&bytes, 60, true).err().unwrap(), "Invalid block header: identifier does not start with ##");
    assert_eq!(
        Txblock::try_read(&bytes, 1000, true).err().unwrap(),
        "TX block runs past the end of the bytes"
    );

    // The first link leads to no text block: no comment.
    bytes[24] = 0;
    let (pos, comment) = read_metadata(&bytes, 0, true);
    assert_eq!(pos, 40);
    assert_eq!(comment, "");
}

#[test]
fn file_comment_from_other_blocks() {
    let md = md_block("<HDcomment>x</HDcomment>", 4);
    let (pos, comment) = read_metadata(&md, 0, true);
    assert_eq!(pos, md.len());
    assert_eq!(comment, "<HDcomment>x</HDcomment>");

    let fr = block_header_bytes(b"##FR", 100, 0);
    assert_eq!(read_metadata(&fr, 0, true), (24, String::new()));

    let mut other = block_header_bytes(b"##XY", 40, 0);
    other.extend_from_slice(&[0u8; 16]);
    assert_eq!(read_metadata(&other, 0, true), (40, String::new()));

    assert_eq!(read_metadata(&[b'#', b'#', b'F'], 0, true), (0, String::new()));
    assert_eq!(read_metadata(&other, 38, true), (38, String::new()));
}

/// A file with a source information block at 8 whose name is the text block at 64,
/// a text block "rpm" at 96, and a null path.
fn source_file() -> Vec<u8> {
    let mut bytes = vec![0u8; 8];
    bytes.extend_from_slice(&block_header_bytes(b"##SI", 56, 3));
    bytes.extend_from_slice(&64u64.to_le_bytes());
    bytes.extend_from_slice(&0u64.to_le_bytes());
    bytes.extend_from_slice(&0u64.to_le_bytes());
    bytes.extend_from_slice(&[1, 2, 0, 0, 0, 0, 0, 0]);
    bytes.extend_from_slice(&block_header_bytes(b"##TX", 32, 0));
    bytes.extend_from_slice(b"ECU 1\0\0\0");
    bytes.extend_from_slice(&block_header_bytes(b"##TX", 28, 0));
    bytes.extend_from_slice(b"rpm\0");
    bytes
}

#[test]
fn source_information_from_si_block() {
    let file = source_file();
    let info = source_information_at(&file, 8, true).unwrap();
    assert_eq!(info.source_type, SourceType::Ecu);
    assert_eq!(info.bus_type, BusType::Can);
    assert_eq!(info.source_name, "ECU 1");
    assert_eq!(info.source_path, "");
    assert!(source_information_at(&file, 0, true).is_none());
}

#[test]
fn channel_group_metadata_as_text() {
    let file = source_file();
    let meta = channel_group_metadata_at(&file, 8, true).unwrap();
    assert_eq!(meta.source_type, "Ecu");
    assert_eq!(meta.bus_type, "Can");
    assert_eq!(meta.source_name, "ECU 1");
    assert_eq!(meta.source_path, "");
    assert!(channel_group_metadata_at(&file, 0, true).is_none());
    assert_eq!(BusType::NoBus.name(), "None");
    assert_eq!(SourceType::User.name(), "User");
}

#[test]
fn channel_metadata_from_links() {
    let file = source_file();
    let meta = channel_metadata_at(&file, 64, 96, 8, true);
    assert_eq!(meta.description, "ECU 1");
    assert_eq!(meta.unit, "rpm");
    assert_eq!(meta.source, "ECU 1");
    let none = channel_metadata_at(&file, 0, 0, 0, true);
    assert_eq!(none.description, "");
    assert_eq!(none.unit, "");
    assert_eq!(none.source, "");
    assert_eq!(text_at(&file, 96, true), "rpm");
}

#[test]
fn channel_group_metadata_names_what_source_information_reads() {
    let mut file = source_file();
    file[40..48].copy_from_slice(&96u64.to_le_bytes()); // path link to the "rpm" text block
    let info = source_information_at(&file, 8, true).unwrap();
    let meta = channel_group_metadata_at(&file, 8, true).unwrap();
    assert_eq!(meta.source_name, info.source_name);
    assert_eq!(meta.source_path, info.source_path);
    assert_eq!(meta.source_path, "rpm");
    assert_eq!(meta.source_type, info.source_type.name());
    assert_eq!(meta.bus_type, info.bus_type.name());
}

#[test]
fn channel_metadata_reads_only_the_source_name() {
    let mut file = source_file();
    file[40..48].copy_from_slice(&100_000u64.to_le_bytes()); // path link past the end
    let meta = channel_metadata_at(&file, 0, 96, 8, true);
    assert_eq!(meta.source, "ECU 1");
    assert_eq!(meta.unit, "rpm");
}

#[test]
fn search_channels_by_name_part() {
    let channels = vec![
        channel("engine_speed", 0, 0, 0, None),
        channel("time", 0, 0, 1, None),
        channel("speed", 1, 0, 0, None),
        channel("speed", 2, 1, 3, None),
    ];
    let found = search_channels(&channels, "speed");
    assert_eq!(found.len(), 3);
    assert_eq!(found[0].name, "engine_speed");
    assert_eq!(found[2].channel, 3);
    assert_eq!(search_channels(&channels, "").len(), 4);
    assert!(search_channels(&channels, "rpm").is_empty());

    let exact = search_channel_exact(&channels, "speed", 2, 1).unwrap();
    assert_eq!(exact.full_path(), "/DG2/CG1/speed");
    assert_eq!(exact.channel, 3);
    assert!(search_channel_exact(&channels, "speed", 0, 0).is_none());

    let first = search_channel_first(&channels, "speed").unwrap();
    assert_eq!(first.name, "engine_speed");
    assert_eq!(search_channel_first(&channels, "rpm"), Err("Channel not found"));
}

#[test]
fn duplicate_names_have_unique_paths() {
    let channels = vec![
        channel("speed", 1, 0, 0, None),
        channel("speed", 2, 1, 3, None),
        channel("other", 2, 1, 4, None),
    ];
    let instances = search_channels(&channels, "speed");
    assert_eq!(instances.len(), 2);
    assert_ne!(instances[0].full_path(), instances[1].full_path());
    for c in &instances {
        let found = search_channel_exact(&channels, &c.name, c.data_group, c.channel_group).unwrap();
        assert_eq!(found.full_path(), c.full_path());
        assert_eq!(found.channel, c.channel);
        assert_eq!(found, c.duplicate());
    }
}
