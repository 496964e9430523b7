//! The source information block.

use vstd::prelude::*;

use super::block::Block;
use super::block_header::{has_block_id, header_link_count, id_error, lemma_encoded_id, BlockHeader};
use super::mdf4_enums::{bus_type_of, source_type_of, BusType, SourceType};
use super::mdf4_file::link_extract;
use super::utils::{lemma_uint_at_u64, read_array, uint_at};
use crate::text::invalid_id_message;

verus! {

/// A source information block: the links to the source's name, path and comment,
/// the source type, the bus type, flags and reserved bytes.
#[derive(Debug, Clone, PartialEq, Eq)]
pub struct Siblock {
    pub header: BlockHeader,
    pub si_tx_name: u64,
    pub si_tx_path: u64,
    pub si_md_comment: u64,
    pub si_type: SourceType,
    pub si_bus_type: BusType,
    pub si_flags: u8,
    pub si_reserved: [u8; 5],
}

/// Where the fields after the links of the source information block at `pos` start.
pub open spec fn si_fields_pos(bytes: Seq<u8>, pos: int, little_endian: bool) -> int {
    pos + 24 + 8 * header_link_count(bytes, pos, little_endian)
}

impl Siblock {
    /// This block is the one stored at `pos`.
    pub open spec fn encoded_at(&self, bytes: Seq<u8>, pos: int, little_endian: bool) -> bool {
        let f = si_fields_pos(bytes, pos, little_endian);
        &&& self.header.encoded_at(bytes, pos, little_endian)
        &&& self.si_tx_name == uint_at(bytes, pos + 24, 8, little_endian)
        &&& self.si_tx_path == uint_at(bytes, pos + 32, 8, little_endian)
        &&& self.si_md_comment == uint_at(bytes, pos + 40, 8, little_endian)
        &&& self.si_type == source_type_of(bytes[f])
        &&& self.si_bus_type == bus_type_of(bytes[f + 1])
        &&& self.si_flags == bytes[f + 2]
        &&& self.si_reserved@ == bytes.subrange(f + 3, f + 8)
    }

    /// The block that `new` and `default` give.
    fn empty() -> (b: Self)
        ensures
            b.header.id@ == seq![35u8, 35u8, 83u8, 73u8],
            b.header.reserved@ == seq![0u8, 0u8, 0u8, 0u8],
            b.header.length == 50,
            b.header.link_count == 0,
            b.si_tx_name == 0,
            b.si_tx_path == 0,
            b.si_md_comment == 0,
            b.si_type == SourceType::Bus,
            b.si_bus_type == BusType::Can,
            b.si_flags == 0,
            b.si_reserved@ == seq![0u8, 0u8, 0u8, 0u8, 0u8],
    {
        let b = Siblock {
            header: BlockHeader { id: [35u8, 35u8, 83u8, 73u8], reserved: [0u8; 4], length: 50, link_count: 0 },
            si_tx_name: 0,
            si_tx_path: 0,
            si_md_comment: 0,
            si_type: SourceType::Bus,
            si_bus_type: BusType::Can,
            si_flags: 0,
            si_reserved: [0u8; 5],
        };
        assert(b.header.id@ =~= seq![35u8, 35u8, 83u8, 73u8]);
        assert(b.header.reserved@ =~= seq![0u8, 0u8, 0u8, 0u8]);
        assert(b.si_reserved@ =~= seq![0u8, 0u8, 0u8, 0u8, 0u8]);
        b
    }

    /// An `##SI` block of 50 bytes without links, for a bus source on a CAN bus,
    /// with null links, flags and reserved bytes.
    pub fn new() -> (b: Self)
        ensures
            b.header.id@ == seq![35u8, 35u8, 83u8, 73u8],
            b.header.reserved@ == seq![0u8, 0u8, 0u8, 0u8],
            b.header.length == 50,
            b.header.link_count == 0,
            b.si_tx_name == 0,
            b.si_tx_path == 0,
            b.si_md_comment == 0,
            b.si_type == SourceType::Bus,
            b.si_bus_type == BusType::Can,
            b.si_flags == 0,
            b.si_reserved@ == seq![0u8, 0u8, 0u8, 0u8, 0u8],
    {
        Self::empty()
    }

    /// The same as `new`.
    pub fn default() -> (b: Self)
        ensures
            b.header.id@ == seq![35u8, 35u8, 83u8, 73u8],
            b.header.reserved@ == seq![0u8, 0u8, 0u8, 0u8],
            b.header.length == 50,
            b.header.link_count == 0,
            b.si_tx_name == 0,
            b.si_tx_path == 0,
            b.si_md_comment == 0,
            b.si_type == SourceType::Bus,
            b.si_bus_type == BusType::Can,
            b.si_flags == 0,
            b.si_reserved@ == seq![0u8, 0u8, 0u8, 0u8, 0u8],
    {
        Self::empty()
    }
}

impl Block for Siblock {
    open spec fn spec_byte_len(&self) -> nat {
        56
    }

    open spec fn spec_readable(bytes: Seq<u8>, pos: int, little_endian: bool) -> bool {
        &&& pos + 24 <= bytes.len()
        &&& has_block_id(bytes, pos, 83u8, 73u8) ==> {
            &&& header_link_count(bytes, pos, little_endian) >= 3
            &&& si_fields_pos(bytes, pos, little_endian) + 8 <= bytes.len()
        }
    }

    /// Reads the block at `pos`: its header, which must be that of an `##SI` block with at
    /// least three links, the links (the first three are the block's, the others are
    /// passed over), then the source type, the bus type, the flags and five reserved bytes.
    /// Fails where the identifier is not `##SI` or a type code stands for no type.
    /// With exactly three links, the block ends `byte_len` bytes after `pos`.
    fn read(bytes: &[u8], pos: usize, little_endian: bool) -> (res: Result<(usize, Self), String>)
        ensures
            res matches Err(e) ==> e@ == (if !has_block_id(bytes@, pos as int, 83u8, 73u8) {
                id_error(bytes@, pos as int, "SI"@)
            } else {
                if bytes@[si_fields_pos(bytes@, pos as int, little_endian)] > 5 {
                "Invalid source type in SI block"@
            } else {
                "Invalid bus type in SI block"@
            }
            }),
            res is Ok <==> {
                &&& has_block_id(bytes@, pos as int, 83u8, 73u8)
                &&& bytes@[si_fields_pos(bytes@, pos as int, little_endian)] <= 5
                &&& bytes@[si_fields_pos(bytes@, pos as int, little_endian) + 1] <= 8
            },
            res matches Ok((end, b)) ==> {
                &&& b.encoded_at(bytes@, pos as int, little_endian)
                &&& end == si_fields_pos(bytes@, pos as int, little_endian) + 8
                &&& b.header.link_count == 3 ==> end == pos + b.spec_byte_len()
            },
    {
        let (start, header) = match BlockHeader::read(bytes, pos, little_endian) {
            Ok(r) => r,
            Err(e) => return Err(e),
        };
        proof {
            lemma_encoded_id(header, bytes@, pos as int, little_endian, 83u8, 73u8);
        }
        if !header.has_id(83u8, 73u8) {
            return Err(invalid_id_message("SI", &header.id));
        }
        let (fields, links) = link_extract(bytes, start, little_endian, header.link_count);
        proof {
            lemma_uint_at_u64(bytes@, pos + 24, little_endian);
            lemma_uint_at_u64(bytes@, pos + 32, little_endian);
            lemma_uint_at_u64(bytes@, pos + 40, little_endian);
            assert(links@[1] == uint_at(bytes@, pos + 24 + 8 * 1, 8, little_endian) as u64);
            assert(links@[2] == uint_at(bytes@, pos + 24 + 8 * 2, 8, little_endian) as u64);
        }
        let si_tx_name: u64 = links[0];
        let si_tx_path: u64 = links[1];
        let si_md_comment: u64 = links[2];
        let type_code: u8 = bytes[fields];
        if type_code > 5 {
            return Err("Invalid source type in SI block".to_owned());
        }
        let bus_code: u8 = bytes[fields + 1];
        if bus_code > 8 {
            return Err("Invalid bus type in SI block".to_owned());
        }
        let si_type = SourceType::new(type_code);
        let si_bus_type = BusType::new(bus_code);
        let si_flags: u8 = bytes[fields + 2];
        let si_reserved: [u8; 5] = read_array::<5>(bytes, fields + 3);
        let b = Siblock {
            header,
            si_tx_name,
            si_tx_path,
            si_md_comment,
            si_type,
            si_bus_type,
            si_flags,
            si_reserved,
        };
        Ok((fields + 8, b))
    }

    fn read_at(bytes: &[u8], pos: usize, little_endian: bool) -> (res: Result<(usize, Self), String>)
        ensures
            res matches Err(e) ==> e@ == (if !has_block_id(bytes@, pos as int, 83u8, 73u8) {
                id_error(bytes@, pos as int, "SI"@)
            } else {
                if bytes@[si_fields_pos(bytes@, pos as int, little_endian)] > 5 {
                "Invalid source type in SI block"@
            } else {
                "Invalid bus type in SI block"@
            }
            }),
            res is Ok <==> {
                &&& has_block_id(bytes@, pos as int, 83u8, 73u8)
                &&& bytes@[si_fields_pos(bytes@, pos as int, little_endian)] <= 5
                &&& bytes@[si_fields_pos(bytes@, pos as int, little_endian) + 1] <= 8
            },
            res matches Ok((end, b)) ==> {
                &&& b.encoded_at(bytes@, pos as int, little_endian)
                &&& end == si_fields_pos(bytes@, pos as int, little_endian) + 8
                &&& b.header.link_count == 3 ==> end == pos + b.spec_byte_len()
            },
    {
        Self::read(bytes, pos, little_endian)
    }

    /// The header, three links, and eight bytes of fields.
    fn byte_len(&self) -> (n: usize) {
        self.header.byte_len() + 8 + 8 + 8 + 1 + 1 + 1 + 5
    }
}

} // verus!
