use std::io::Write;

use rsmdf::mdf4::block::{Block, DataBlock, LinkedBlock};
use rsmdf::mdf4::block_header::BlockHeader;
use rsmdf::mdf4::data_block::{DataBlockType, Dlblock, Dtblock, Dzblock, Hlblock};
use rsmdf::mdf4::dv_block::Dvblock;
use rsmdf::mdf4::mdf4_file::link_extract;

fn header(id: &[u8; 4], length: u64, link_count: u64) -> Vec<u8> {
    let mut data = Vec::new();
    data.extend_from_slice(id);
    data.extend_from_slice(&[0u8; 4]);
    data.extend_from_slice(&length.to_le_bytes());
    data.extend_from_slice(&link_count.to_le_bytes());
    data
}

fn zlib(data: &[u8]) -> Vec<u8> {
    let mut encoder = flate2::write::ZlibEncoder::new(Vec::new(), flate2::Compression::default());
    encoder.write_all(data).unwrap();
    encoder.finish().unwrap()
}

fn dt_block(payload: &[u8]) -> Vec<u8> {
    let mut b = header(b"##DT", 24 + payload.len() as u64, 0);
    b.extend_from_slice(payload);
    b
}

fn dz_block(uncompressed: &[u8]) -> Vec<u8> {
    let compressed = zlib(uncompressed);
    let mut b = header(b"##DZ", 44 + compressed.len() as u64, 0);
    b.extend_from_slice(b"DT");
    b.push(0); // zip type: deflate
    b.push(0); // zip parameter
    b.extend_from_slice(&(uncompressed.len() as u64).to_le_bytes());
    b.extend_from_slice(&(compressed.len() as u64).to_le_bytes());
    b.extend_from_slice(&compressed);
    b
}

fn dl_block(next: u64, data_links: &[u64]) -> Vec<u8> {
    let link_count = 1 + data_links.len() as u64;
    let mut b = header(b"##DL", 24 + 8 * link_count + 16, link_count);
    b.extend_from_slice(&next.to_le_bytes());
    for link in data_links {
        b.extend_from_slice(&link.to_le_bytes());
    }
    b.push(1); // flags: equal length
    b.extend_from_slice(&[0u8; 3]);
    b.extend_from_slice(&(data_links.len() as u32).to_le_bytes());
    b.extend_from_slice(&0u64.to_le_bytes()); // equal length
    b
}

#[test]
fn header_reads_little_and_big_endian() {
    let mut bytes = vec![b'#', b'#', b'D', b'T', 1, 2, 3, 4];
    bytes.extend_from_slice(&0x0102u64.to_be_bytes());
    bytes.extend_from_slice(&3u64.to_be_bytes());
    let (pos, h) = BlockHeader::read(&bytes, 0, false).unwrap();
    assert_eq!(pos, 24);
    assert_eq!(&h.id, b"##DT");
    assert_eq!(h.reserved, [1, 2, 3, 4]);
    assert_eq!(h.length, 0x0102);
    assert_eq!(h.link_count, 3);
    let (_, h) = BlockHeader::read_at(&bytes, 0, true).unwrap();
    assert_eq!(h.length, 0x0201_0000_0000_0000);
    assert_eq!(h.link_count, 0x0300_0000_0000_0000);
    assert_eq!(h.byte_len(), 24);
}

#[test]
fn header_new_and_default() {
    let h = BlockHeader::new(b"##TX");
    assert_eq!(&h.id, b"##TX");
    assert_eq!(h.reserved, [0; 4]);
    assert_eq!(h.length, 24);
    assert_eq!(h.link_count, 0);
    let d = BlockHeader::default();
    assert_eq!(d.id, [0; 4]);
    assert_eq!(d.length, 24);
    assert_eq!(d.link_count, 0);
}

#[test]
fn header_at_offset() {
    let mut bytes = vec![0xFFu8; 5];
    bytes.extend_from_slice(&header(b"##HD", 104, 6));
    let (pos, h) = BlockHeader::read(&bytes, 5, true).unwrap();
    assert_eq!(pos, 29);
    assert_eq!(&h.id, b"##HD");
    assert_eq!(h.length, 104);
    assert_eq!(h.link_count, 6);
}

#[test]
fn links_little_and_big_endian() {
    let mut bytes = vec![7u8];
    bytes.extend_from_slice(&300u64.to_le_bytes());
    bytes.extend_from_slice(&0x1122_3344_5566_7788u64.to_le_bytes());
    let (pos, links) = link_extract(&bytes, 1, true, 2);
    assert_eq!(pos, 17);
    assert_eq!(links, vec![300, 0x1122_3344_5566_7788]);
    let (pos, links) = link_extract(&bytes, 1, false, 1);
    assert_eq!(pos, 9);
    assert_eq!(links, vec![300u64.swap_bytes()]);
    let (pos, links) = link_extract(&bytes, 3, true, 0);
    assert_eq!(pos, 3);
    assert!(links.is_empty());
}

#[test]
fn dv_block_reads_fields_and_data() {
    let mut bytes = header(b"##DV", 64, 3);
    bytes.extend_from_slice(&11u64.to_le_bytes());
    bytes.extend_from_slice(&22u64.to_le_bytes());
    bytes.extend_from_slice(&33u64.to_le_bytes());
    bytes.push(5);
    bytes.extend_from_slice(&[9, 8, 7]);
    bytes.extend_from_slice(&4u64.to_le_bytes());
    bytes.extend_from_slice(&[1, 2, 3, 4]);
    bytes.push(0xAA);
    let (pos, dv) = Dvblock::read(&bytes, 0, true).unwrap();
    assert_eq!(pos, 64);
    assert_eq!(dv.dv_next_dv_block, 11);
    assert_eq!(dv.dv_data_block, 22);
    assert_eq!(dv.dv_parent_dg_block, 33);
    assert_eq!(dv.dv_data_type, 5);
    assert_eq!(dv.dv_reserved, [9, 8, 7]);
    assert_eq!(dv.data(), &[1, 2, 3, 4]);
    assert_eq!(dv.byte_len(), 64);
}

#[test]
fn dv_block_rejects_other_identifier() {
    let bytes = dt_block(&[0u8; 40]);
    assert_eq!(
        Dvblock::read(&bytes, 0, true).err().unwrap(),
        "Invalid DV block identifier: [35, 35, 68, 84]"
    );
    assert_eq!(Dvblock::read_at(&[0u8; 24], 0, true).err().unwrap(), "Invalid block header: identifier does not start with ##");
}

#[test]
fn dv_block_new_is_empty() {
    let dv = Dvblock::new();
    assert_eq!(&dv.header.id, b"##DV");
    assert!(dv.data().is_empty());
    assert_eq!(dv.byte_len(), 60);
}

#[test]
fn dz_block_reads_and_decompresses() {
    let uncompressed: Vec<u8> = (0..200u32).map(|i| (i % 7) as u8).collect();
    let bytes = dz_block(&uncompressed);
    let (pos, dz) = Dzblock::read(&bytes, 0, true).unwrap();
    assert_eq!(pos, bytes.len());
    assert_eq!(dz.byte_len(), bytes.len());
    assert_eq!(dz.dz_org_block_type, "DT");
    assert_eq!(dz.dz_zip_type, 0);
    assert_eq!(dz.dz_org_data_length, 200);
    assert_eq!(dz.dz_data_length as usize, dz.data().len());
    assert_eq!(dz.decompressed().unwrap(), uncompressed);
    assert!(dz.data_available());
    assert_eq!(dz.data_array(&bytes, true), uncompressed);
}

#[test]
fn dz_block_that_does_not_decompress() {
    let mut bytes = header(b"##DZ", 48, 0);
    bytes.extend_from_slice(b"DT");
    bytes.push(0);
    bytes.push(0);
    bytes.extend_from_slice(&10u64.to_le_bytes());
    bytes.extend_from_slice(&4u64.to_le_bytes());
    bytes.extend_from_slice(&[1, 2, 3, 4]);
    let (_, dz) = Dzblock::read(&bytes, 0, true).unwrap();
    assert!(dz.decompressed().is_none());
    assert!(!dz.data_available());
    let block = DataBlockType::read(&bytes, 0, true);
    assert!(block.try_data_array(&bytes, true).is_none());
}

#[test]
fn dz_block_new_is_empty() {
    let dz = Dzblock::new();
    assert_eq!(&dz.header.id, b"##DZ");
    assert_eq!(dz.dz_org_block_type, "");
    assert!(dz.data().is_empty());
    assert_eq!(dz.decompressed(), Some(Vec::new()));
}

#[test]
fn dt_block_reads_data() {
    let bytes = dt_block(&[5, 6, 7]);
    let (pos, dt) = Dtblock::read(&bytes, 0, true).unwrap();
    assert_eq!(pos, 27);
    assert_eq!(dt.data(), &[5, 6, 7]);
    assert_eq!(dt.byte_len(), 27);
    assert_eq!(dt.data_array(&bytes, true), vec![5, 6, 7]);
    let mut short = header(b"##DT", 10, 0);
    short.extend_from_slice(&[0u8; 8]);
    assert_eq!(Dtblock::read(&short, 0, true).err().unwrap(), "Invalid DT block length");
}

#[test]
fn hl_block_reads_links_and_fields() {
    let mut bytes = header(b"##HL", 40, 1);
    bytes.extend_from_slice(&64u64.to_le_bytes());
    bytes.extend_from_slice(&1u16.to_le_bytes());
    bytes.push(1);
    bytes.extend_from_slice(&[0u8; 5]);
    let (pos, hl) = Hlblock::read(&bytes, 0, true).unwrap();
    assert_eq!(pos, 40);
    assert_eq!(hl.dl_first(), Some(64));
    assert_eq!(hl.hl_flags, 1);
    assert_eq!(hl.hl_zip_type, 1);
    assert_eq!(hl.byte_len(), 40);
    let block = DataBlockType::read(&bytes, 0, true);
    assert!(matches!(block, DataBlockType::HList(_)));
}

#[test]
fn hl_block_data_follows_its_lists() {
    // Layout: HL | DL(first) | DL(second) | DT | DT
    let hl_len = 40u64;
    let first_at = hl_len;
    let second_at = first_at + dl_block(0, &[0]).len() as u64;
    let dt1_at = second_at + dl_block(0, &[0]).len() as u64;
    let dt1 = dt_block(&[1, 2, 3, 4]);
    let dt2_at = dt1_at + dt1.len() as u64;
    let dt2 = dt_block(&[5, 6, 7, 8]);
    let mut bytes = header(b"##HL", hl_len, 1);
    bytes.extend_from_slice(&first_at.to_le_bytes());
    bytes.extend_from_slice(&0u16.to_le_bytes());
    bytes.push(0);
    bytes.extend_from_slice(&[0u8; 5]);
    bytes.extend_from_slice(&dl_block(second_at, &[dt1_at]));
    bytes.extend_from_slice(&dl_block(0, &[dt2_at]));
    bytes.extend_from_slice(&dt1);
    bytes.extend_from_slice(&dt2);

    let (pos, hl) = Hlblock::read(&bytes, 0, true).unwrap();
    assert_eq!(pos as u64, hl_len);
    assert_eq!(hl.dl_first(), Some(first_at));
    assert!(hl.data_available(&bytes, true));
    assert_eq!(hl.read_data(&bytes, true), vec![1, 2, 3, 4, 5, 6, 7, 8]);

    let block = DataBlockType::read(&bytes, 0, true);
    assert!(matches!(block, DataBlockType::HList(_)));
    assert!(block.data_available(&bytes, true));
    assert_eq!(block.data_array(&bytes, true), vec![1, 2, 3, 4, 5, 6, 7, 8]);
    assert_eq!(block.try_data_array(&bytes, true), Some(vec![1, 2, 3, 4, 5, 6, 7, 8]));

    // A header list without links leads to no data.
    let mut empty = header(b"##HL", 32, 0);
    empty.extend_from_slice(&[0u8; 8]);
    let (_, hl) = Hlblock::read(&empty, 0, true).unwrap();
    assert_eq!(hl.read_data(&empty, true), Vec::<u8>::new());

    // A listed block that is not a data block: the data is not available.
    let mut broken = bytes.clone();
    broken[dt2_at as usize + 3] = b'X';
    let block = DataBlockType::read(&broken, 0, true);
    assert!(!block.data_available(&broken, true));
    assert_eq!(block.try_data_array(&broken, true), None);
}

#[test]
fn data_block_type_reads_each_kind() {
    let dt = dt_block(&[1, 2]);
    assert!(matches!(DataBlockType::read(&dt, 0, true), DataBlockType::Block(_)));
    let dz = dz_block(&[3, 4, 5]);
    let block = DataBlockType::read(&dz, 0, true);
    assert!(matches!(block, DataBlockType::BlockComp(_)));
    assert_eq!(block.data_array(&dz, true), vec![3, 4, 5]);
    assert_eq!(block.try_data_array(&dz, true), Some(vec![3, 4, 5]));
}

#[test]
fn data_list_chain_gives_all_data() {
    // Layout: DL(first) | DL(second) | DT | DZ | DT
    let first_len = dl_block(0, &[0, 0]).len() as u64;
    let second_len = dl_block(0, &[0]).len() as u64;
    let dt1 = dt_block(&[1, 2, 3]);
    let dz = dz_block(&[4, 5]);
    let dt2 = dt_block(&[6]);
    let second_at = first_len;
    let dt1_at = second_at + second_len;
    let dz_at = dt1_at + dt1.len() as u64;
    let dt2_at = dz_at + dz.len() as u64;
    let mut bytes = dl_block(second_at, &[dt1_at, dz_at]);
    bytes.extend_from_slice(&dl_block(0, &[dt2_at]));
    bytes.extend_from_slice(&dt1);
    bytes.extend_from_slice(&dz);
    bytes.extend_from_slice(&dt2);

    let (pos, dl) = Dlblock::read(&bytes, 0, true).unwrap();
    assert_eq!(pos as u64, first_len);
    assert_eq!(dl.dl_dl_next, second_at);
    assert_eq!(dl.dl_data, vec![dt1_at, dz_at]);
    assert_eq!(dl.dl_count, 2);
    assert_eq!(dl.data_array(&bytes, true), vec![1, 2, 3, 4, 5]);

    let next = dl.next(&bytes, true).unwrap();
    assert_eq!(next.dl_data, vec![dt2_at]);
    assert!(next.next(&bytes, true).is_none());
    let list = dl.list(&bytes, true);
    assert_eq!(list.len(), 2);
    assert_eq!(list[1].dl_data, vec![dt2_at]);

    let block = DataBlockType::read(&bytes, 0, true);
    assert!(matches!(block, DataBlockType::List(_)));
    assert!(block.data_available(&bytes, true));
    assert_eq!(block.data_array(&bytes, true), vec![1, 2, 3, 4, 5, 6]);
}

#[test]
fn data_list_without_links_is_an_error() {
    let bytes = header(b"##DL", 40, 0);
    let mut bytes = bytes;
    bytes.extend_from_slice(&[0u8; 16]);
    assert_eq!(Dlblock::read(&bytes, 0, true).err().unwrap(), "DL block without links");
}

#[test]
fn record_values_takes_one_value_per_record() {
    let data: Vec<u8> = (0..20u8).collect();
    let values = rsmdf::mdf4::mdf4_file::record_values(&data, 3, 6, 2, 3);
    assert_eq!(values, vec![vec![2, 3, 4], vec![8, 9, 10], vec![14, 15, 16]]);
    let none = rsmdf::mdf4::mdf4_file::record_values(&data, 0, 6, 0, 6);
    assert!(none.is_empty());
}
