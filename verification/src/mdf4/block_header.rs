//! The header that starts every block but the identification block.

use vstd::prelude::*;

use super::block::Block;
use super::utils::{lemma_byte_orders, read_uint, swapped, uint_at};
use crate::text::id_message;

verus! {

/// The size of a block header in bytes.
pub const HEADER_LEN: usize = 24;

/// The header of a block: its identifier, its length in bytes and the number of its links.
#[derive(Debug, Clone, Copy, PartialEq, Eq)]
pub struct BlockHeader {
    pub id: [u8; 4],
    pub reserved: [u8; 4],
    pub length: u64,
    pub link_count: u64,
}

/// The bytes at `pos` start with the marker `##` that opens every block identifier.
pub open spec fn has_block_marker(bytes: Seq<u8>, pos: int) -> bool {
    bytes[pos] == 35u8 && bytes[pos + 1] == 35u8
}

/// The four bytes at `pos` are `#`, `#`, `c1`, `c2`.
pub open spec fn has_block_id(bytes: Seq<u8>, pos: int, c1: u8, c2: u8) -> bool {
    has_block_marker(bytes, pos) && bytes[pos + 2] == c1 && bytes[pos + 3] == c2
}

/// The length field of the header at `pos`.
pub open spec fn header_length(bytes: Seq<u8>, pos: int, little_endian: bool) -> nat {
    uint_at(bytes, pos + 8, 8, little_endian)
}

/// The link count field of the header at `pos`.
pub open spec fn header_link_count(bytes: Seq<u8>, pos: int, little_endian: bool) -> nat {
    uint_at(bytes, pos + 16, 8, little_endian)
}

/// The identifier of a header read at `pos` is `#`, `#`, `c1`, `c2` exactly when those
/// are the bytes at `pos`.
pub proof fn lemma_encoded_id(h: BlockHeader, bytes: Seq<u8>, pos: int, little_endian: bool, c1: u8, c2: u8)
    requires
        0 <= pos,
        pos + 24 <= bytes.len(),
        h.encoded_at(bytes, pos, little_endian),
    ensures
        (h.id@ == seq![35u8, 35u8, c1, c2]) == has_block_id(bytes, pos, c1, c2),
{
    if has_block_id(bytes, pos, c1, c2) {
        assert(h.id@ =~= seq![35u8, 35u8, c1, c2]);
    }
    if h.id@ == seq![35u8, 35u8, c1, c2] {
        assert(h.id@[0] == bytes[pos]);
        assert(h.id@[1] == bytes[pos + 1]);
        assert(h.id@[2] == bytes[pos + 2]);
        assert(h.id@[3] == bytes[pos + 3]);
    }
}

/// The bytes at a position determine the header read there: reading twice, with `read`
/// or `read_at`, gives the same header.
pub proof fn lemma_encoded_unique(h1: BlockHeader, h2: BlockHeader, bytes: Seq<u8>, pos: int, little_endian: bool)
    requires
        h1.encoded_at(bytes, pos, little_endian),
        h2.encoded_at(bytes, pos, little_endian),
    ensures
        h1 == h2,
{
    assert(h1.id =~= h2.id);
    assert(h1.reserved =~= h2.reserved);
}

/// The header at a position read in the two byte orders has the same identifier and
/// reserved bytes, and a length and a link count whose eight bytes are reversed.
pub proof fn lemma_header_byte_orders(h_le: BlockHeader, h_be: BlockHeader, bytes: Seq<u8>, pos: int)
    requires
        0 <= pos,
        pos + 24 <= bytes.len(),
        h_le.encoded_at(bytes, pos, true),
        h_be.encoded_at(bytes, pos, false),
    ensures
        h_le.id == h_be.id,
        h_le.reserved == h_be.reserved,
        h_be.length == swapped(h_le.length as nat, 8),
        h_be.link_count == swapped(h_le.link_count as nat, 8),
        h_le.length == swapped(h_be.length as nat, 8),
        h_le.link_count == swapped(h_be.link_count as nat, 8),
{
    assert(h_le.id =~= h_be.id);
    assert(h_le.reserved =~= h_be.reserved);
    lemma_byte_orders(bytes.subrange(pos + 8, pos + 16));
    lemma_byte_orders(bytes.subrange(pos + 16, pos + 24));
}

/// The message of a header read where the identifier does not start with `##`.
pub open spec fn marker_error() -> Seq<char> {
    "Invalid block header: identifier does not start with ##"@
}

/// The message of a read that expects a block of `kind` at `pos` and finds another
/// identifier there: that of the header read where the marker `##` is missing, else the one
/// that names the kind and the identifier found.
pub open spec fn id_error(bytes: Seq<u8>, pos: int, kind: Seq<char>) -> Seq<char> {
    if has_block_marker(bytes, pos) {
        id_message(kind, bytes.subrange(pos, pos + 4))
    } else {
        marker_error()
    }
}

impl BlockHeader {
    /// This header is the one stored at `pos`.
    pub open spec fn encoded_at(&self, bytes: Seq<u8>, pos: int, little_endian: bool) -> bool {
        &&& self.id@ == bytes.subrange(pos, pos + 4)
        &&& self.reserved@ == bytes.subrange(pos + 4, pos + 8)
        &&& self.length == header_length(bytes, pos, little_endian)
        &&& self.link_count == header_link_count(bytes, pos, little_endian)
    }

    /// The identifier is `#`, `#`, `c1`, `c2`.
    pub fn has_id(&self, c1: u8, c2: u8) -> (r: bool)
        ensures
            r == (self.id@ == seq![35u8, 35u8, c1, c2]),
    {
        let r: bool = self.id[0] == 35u8 && self.id[1] == 35u8 && self.id[2] == c1 && self.id[3] == c2;
        proof {
            if r {
                assert(self.id@ =~= seq![35u8, 35u8, c1, c2]);
            } else if self.id@ == seq![35u8, 35u8, c1, c2] {
                assert(self.id@[0] == 35u8 && self.id@[1] == 35u8);
                assert(self.id@[2] == c1 && self.id@[3] == c2);
            }
        }
        r
    }

    /// A header with identifier `id`, no links and the length of a bare header.
    pub fn new(id: &[u8]) -> (h: Self)
        requires
            id@.len() == 4,
        ensures
            h.id@ == id@,
            h.reserved@ == seq![0u8, 0u8, 0u8, 0u8],
            h.length == 24,
            h.link_count == 0,
    {
        let h = Self { id: [id[0], id[1], id[2], id[3]], reserved: [0u8; 4], length: 24, link_count: 0 };
        assert(h.id@ =~= id@);
        assert(h.reserved@ =~= seq![0u8, 0u8, 0u8, 0u8]);
        h
    }

    /// A header with an all-zero identifier, no links and the length of a bare header.
    pub fn default() -> (h: Self)
        ensures
            h.id@ == seq![0u8, 0u8, 0u8, 0u8],
            h.reserved@ == seq![0u8, 0u8, 0u8, 0u8],
            h.length == 24,
            h.link_count == 0,
    {
        let h = Self { id: [0u8; 4], reserved: [0u8; 4], length: 24, link_count: 0 };
        assert(h.id@ =~= seq![0u8, 0u8, 0u8, 0u8]);
        assert(h.reserved@ =~= seq![0u8, 0u8, 0u8, 0u8]);
        h
    }
}

impl Block for BlockHeader {
    open spec fn spec_byte_len(&self) -> nat {
        24
    }

    open spec fn spec_readable(bytes: Seq<u8>, pos: int, little_endian: bool) -> bool {
        pos + 24 <= bytes.len()
    }

    /// Reads the header at `pos`; fails where the identifier does not start with `##`.
    fn read(bytes: &[u8], pos: usize, little_endian: bool) -> (res: Result<(usize, Self), String>)
        ensures
            res is Ok <==> has_block_marker(bytes@, pos as int),
            res matches Err(e) ==> e@ == marker_error(),
            res matches Ok((end, h)) ==> end == pos + 24 && h.encoded_at(
                bytes@,
                pos as int,
                little_endian,
            ),
    {
        if bytes[pos] != 35u8 || bytes[pos + 1] != 35u8 {
            return Err("Invalid block header: identifier does not start with ##".to_owned());
        }
        let id: [u8; 4] = [bytes[pos], bytes[pos + 1], bytes[pos + 2], bytes[pos + 3]];
        let reserved: [u8; 4] = [bytes[pos + 4], bytes[pos + 5], bytes[pos + 6], bytes[pos + 7]];
        let length: u64 = read_uint(bytes, pos + 8, 8, little_endian);
        let link_count: u64 = read_uint(bytes, pos + 16, 8, little_endian);
        let h = Self { id, reserved, length, link_count };
        assert(h.id@ =~= bytes@.subrange(pos as int, pos + 4));
        assert(h.reserved@ =~= bytes@.subrange(pos + 4, pos + 8));
        Ok((pos + 24, h))
    }

    fn read_at(bytes: &[u8], pos: usize, little_endian: bool) -> (res: Result<(usize, Self), String>)
        ensures
            res is Ok <==> has_block_marker(bytes@, pos as int),
            res matches Err(e) ==> e@ == marker_error(),
            res matches Ok((end, h)) ==> end == pos + 24 && h.encoded_at(
                bytes@,
                pos as int,
                little_endian,
            ),
    {
        Self::read(bytes, pos, little_endian)
    }

    fn byte_len(&self) -> (n: usize) {
        HEADER_LEN
    }
}

} // verus!
