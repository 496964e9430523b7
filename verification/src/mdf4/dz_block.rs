//! The compressed data block.

use vstd::prelude::*;

use super::block::{Block, DataBlock};
use super::block_header::{has_block_id, id_error, lemma_encoded_id, BlockHeader};
use super::utils::{lemma_slice_len, read_uint, read_vec, uint_at};
use crate::text::{invalid_id_message, lossy_utf8, utf8_lossy};

verus! {

/// What a zlib decoder of flate2 (`flate2::read::ZlibDecoder`) reading `data` gives when
/// asked, with `Read::read_exact`, for exactly `len` bytes: those bytes, or nothing where the
/// stream is corrupt or ends before `len` bytes.
pub uninterp spec fn zlib_inflate_exact(data: Seq<u8>, len: nat) -> Option<Seq<u8>>;

/// `flate2::read::ZlibDecoder::new` over `data`, then `std::io::Read::read_exact` into a
/// buffer of `out_len` zero bytes.
///
/// Claims that the result is the one named `zlib_inflate_exact`, that what comes back holds
/// `out_len` bytes, and, as std documents for an empty buffer, that asking for no bytes
/// succeeds. `vec!` panics on a buffer of more than `isize::MAX` bytes.
#[verifier::external_body]
fn zlib_decompress(data: &[u8], out_len: usize) -> (res: Option<Vec<u8>>)
    requires
        out_len <= isize::MAX,
    ensures
        match res {
            Some(v) => zlib_inflate_exact(data@, out_len as nat) == Some(v@),
            None => zlib_inflate_exact(data@, out_len as nat) is None,
        },
        res matches Some(v) ==> v@.len() == out_len,
        out_len == 0 ==> res is Some,
{
    let mut decoder = flate2::read::ZlibDecoder::new(data);
    let mut out: Vec<u8> = vec![0u8; out_len];
    match std::io::Read::read_exact(&mut decoder, &mut out) {
        Ok(()) => Some(out),
        Err(_) => None,
    }
}

/// The number of compressed bytes that the compressed data block at `pos` announces.
pub open spec fn dz_data_len(bytes: Seq<u8>, pos: int, little_endian: bool) -> nat {
    uint_at(bytes, pos + 36, 8, little_endian)
}

/// A compressed data block: header, the two-letter type of the block that was compressed,
/// the compression method and its parameter, the length of the data before and after
/// compression, and the compressed data.
#[derive(Debug, Clone, PartialEq, Eq)]
pub struct Dzblock {
    pub header: BlockHeader,
    pub dz_org_block_type: String,
    pub dz_zip_type: u8,
    pub dz_reserved: u8,
    pub dz_zip_parameter: u8,
    pub dz_org_data_length: u64,
    pub dz_data_length: u64,
    pub dz_data: Vec<u8>,
}

impl Dzblock {
    /// The two blocks have the same fields.
    pub open spec fn same_fields(&self, other: &Self) -> bool {
        &&& self.header == other.header
        &&& self.dz_org_block_type@ == other.dz_org_block_type@
        &&& self.dz_zip_type == other.dz_zip_type
        &&& self.dz_reserved == other.dz_reserved
        &&& self.dz_zip_parameter == other.dz_zip_parameter
        &&& self.dz_org_data_length == other.dz_org_data_length
        &&& self.dz_data_length == other.dz_data_length
        &&& self.dz_data@ == other.dz_data@
    }

    /// This block is the one stored at `pos`.
    pub open spec fn encoded_at(&self, bytes: Seq<u8>, pos: int, little_endian: bool) -> bool {
        &&& self.header.encoded_at(bytes, pos, little_endian)
        &&& self.dz_org_block_type@ == lossy_utf8(bytes.subrange(pos + 24, pos + 26))
        &&& self.dz_zip_type == bytes[pos + 26]
        &&& self.dz_reserved == 0
        &&& self.dz_zip_parameter == bytes[pos + 27]
        &&& self.dz_org_data_length == uint_at(bytes, pos + 28, 8, little_endian)
        &&& self.dz_data_length == dz_data_len(bytes, pos, little_endian)
        &&& self.dz_data@ == bytes.subrange(pos + 44, pos + 44 + dz_data_len(bytes, pos, little_endian))
    }

    /// A `##DZ` block, with all of it within the bytes, is stored at `pos`.
    pub open spec fn spec_parses(bytes: Seq<u8>, pos: int, little_endian: bool) -> bool {
        &&& pos + 44 <= bytes.len()
        &&& has_block_id(bytes, pos, 68u8, 90u8)
        &&& pos + 44 + dz_data_len(bytes, pos, little_endian) <= bytes.len()
    }

    /// An empty `##DZ` block.
    pub fn new() -> (b: Self)
        ensures
            b.header.id@ == seq![35u8, 35u8, 68u8, 90u8],
            b.header.reserved@ == seq![0u8, 0u8, 0u8, 0u8],
            b.header.length == 24,
            b.header.link_count == 0,
            b.dz_org_block_type@ == Seq::<char>::empty(),
            b.dz_zip_type == 0,
            b.dz_reserved == 0,
            b.dz_zip_parameter == 0,
            b.dz_org_data_length == 0,
            b.dz_data_length == 0,
            b.dz_data@ == Seq::<u8>::empty(),
    {
        let id: [u8; 4] = [35u8, 35u8, 68u8, 90u8];
        let b = Self {
            header: BlockHeader::new(id.as_slice()),
            dz_org_block_type: String::new(),
            dz_zip_type: 0,
            dz_reserved: 0,
            dz_zip_parameter: 0,
            dz_org_data_length: 0,
            dz_data_length: 0,
            dz_data: Vec::new(),
        };
        assert(b.header.id@ =~= seq![35u8, 35u8, 68u8, 90u8]);
        b
    }

    /// The data before compression, where decompressing succeeds: the first
    /// `dz_org_data_length` bytes that the zlib stream in `dz_data` decodes to.
    /// Nothing where that length exceeds `isize::MAX` or the stream does not decode to as
    /// many bytes.
    pub fn decompressed(&self) -> (res: Option<Vec<u8>>)
        ensures
            self.dz_org_data_length > isize::MAX ==> res is None,
            self.dz_org_data_length <= isize::MAX ==> match res {
                Some(v) => zlib_inflate_exact(self.dz_data@, self.dz_org_data_length as nat)
                    == Some(v@),
                None => zlib_inflate_exact(self.dz_data@, self.dz_org_data_length as nat) is None,
            },
            res matches Some(v) ==> v@.len() == self.dz_org_data_length,
    {
        if self.dz_org_data_length > isize::MAX as u64 {
            return None;
        }
        zlib_decompress(self.dz_data.as_slice(), self.dz_org_data_length as usize)
    }

    /// Decompressing the data succeeds: the length before compression is at most
    /// `isize::MAX` and the zlib stream decodes to at least that many bytes.
    pub open spec fn spec_decompresses(&self) -> bool {
        &&& self.dz_org_data_length <= isize::MAX
        &&& zlib_inflate_exact(self.dz_data@, self.dz_org_data_length as nat) is Some
    }

    /// Whether decompressing the data succeeds.
    pub fn data_available(&self) -> (r: bool)
        ensures
            r == self.spec_decompresses(),
    {
        self.decompressed().is_some()
    }

    /// Whether a `##DZ` block, with all of it within the bytes, is stored at `pos`.
    pub fn parses_at(bytes: &[u8], pos: usize, little_endian: bool) -> (r: bool)
        ensures
            r == Self::spec_parses(bytes@, pos as int, little_endian),
    {
        let len: usize = bytes.len();
        if pos > len || len - pos < 44 {
            return false;
        }
        if bytes[pos] != 35u8 || bytes[pos + 1] != 35u8 || bytes[pos + 2] != 68u8 || bytes[pos + 3] != 90u8 {
            return false;
        }
        let data_len: u64 = read_uint(bytes, pos + 36, 8, little_endian);
        data_len <= (len - pos - 44) as u64
    }

    /// The compressed data of the block.
    pub fn data(&self) -> (d: &[u8])
        ensures
            d@ == self.dz_data@,
    {
        self.dz_data.as_slice()
    }
}

impl Block for Dzblock {
    open spec fn spec_byte_len(&self) -> nat {
        44 + self.dz_data@.len()
    }

    open spec fn spec_readable(bytes: Seq<u8>, pos: int, little_endian: bool) -> bool {
        &&& pos + 24 <= bytes.len()
        &&& has_block_id(bytes, pos, 68u8, 90u8) ==> pos + 44 <= bytes.len() && pos + 44
            + dz_data_len(bytes, pos, little_endian) <= bytes.len()
    }

    /// Reads the block at `pos`, whose header must be that of a `##DZ` block.
    /// The block ends `byte_len` bytes after `pos`.
    fn read(bytes: &[u8], pos: usize, little_endian: bool) -> (res: Result<(usize, Self), String>)
        ensures
            res matches Err(e) ==> e@ == id_error(bytes@, pos as int, "DZ"@),
            res is Ok <==> has_block_id(bytes@, pos as int, 68u8, 90u8),
            res matches Ok((end, b)) ==> b.encoded_at(bytes@, pos as int, little_endian) && end
                == pos + b.spec_byte_len(),
    {
        proof {
            lemma_slice_len(bytes);
        }
        let (start, header) = match BlockHeader::read(bytes, pos, little_endian) {
            Ok(r) => r,
            Err(e) => return Err(e),
        };
        proof {
            lemma_encoded_id(header, bytes@, pos as int, little_endian, 68u8, 90u8);
        }
        if !header.has_id(68u8, 90u8) {
            return Err(invalid_id_message("DZ", &header.id));
        }
        let dz_org_block_type: String = utf8_lossy(
            vstd::slice::slice_subrange(bytes, start, start + 2),
        );
        let dz_zip_type: u8 = bytes[start + 2];
        let dz_zip_parameter: u8 = bytes[start + 3];
        let dz_org_data_length: u64 = read_uint(bytes, start + 4, 8, little_endian);
        let dz_data_length: u64 = read_uint(bytes, start + 12, 8, little_endian);
        let data_len: usize = dz_data_length as usize;
        let dz_data: Vec<u8> = read_vec(bytes, start + 20, data_len);
        let b = Self {
            header,
            dz_org_block_type,
            dz_zip_type,
            dz_reserved: 0,
            dz_zip_parameter,
            dz_org_data_length,
            dz_data_length,
            dz_data,
        };
        Ok((start + 20 + data_len, b))
    }

    fn read_at(bytes: &[u8], pos: usize, little_endian: bool) -> (res: Result<(usize, Self), String>)
        ensures
            res matches Err(e) ==> e@ == id_error(bytes@, pos as int, "DZ"@),
            res is Ok <==> has_block_id(bytes@, pos as int, 68u8, 90u8),
            res matches Ok((end, b)) ==> b.encoded_at(bytes@, pos as int, little_endian) && end
                == pos + b.spec_byte_len(),
    {
        Self::read(bytes, pos, little_endian)
    }

    /// The header, twenty bytes of fields and the compressed data.
    fn byte_len(&self) -> (n: usize) {
        24 + 2 + 1 + 1 + 8 + 8 + self.dz_data.len()
    }
}

impl DataBlock for Dzblock {
    open spec fn spec_data_available(&self, stream: Seq<u8>, little_endian: bool) -> bool {
        self.spec_decompresses()
    }

    open spec fn spec_data(&self, stream: Seq<u8>, little_endian: bool) -> Seq<u8> {
        zlib_inflate_exact(self.dz_data@, self.dz_org_data_length as nat)->0
    }

    /// The data before compression.
    fn data_array(&self, stream: &[u8], little_endian: bool) -> (d: Vec<u8>) {
        self.decompressed().unwrap()
    }
}

} // verus!
