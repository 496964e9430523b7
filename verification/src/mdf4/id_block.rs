//! The identification block that opens every MDF file.

use vstd::prelude::*;

use super::block::Block;
use super::utils::{lemma_slice_len, read_array, read_uint, uint_at};
use crate::text::{lossy_utf8, trim_str, trimmed, utf8_lossy};

verus! {

/// The file identifier `MDF` followed by five spaces.
pub open spec fn mdf_file_id() -> Seq<u8> {
    seq![77u8, 68u8, 70u8, 32u8, 32u8, 32u8, 32u8, 32u8]
}

/// The identification block: file identifier, format version text, program identifier,
/// reserved bytes, version number and more reserved bytes, 64 bytes in all.
#[derive(Debug, Clone, PartialEq, Eq)]
pub struct Idblock {
    pub id_file: [u8; 8],
    pub id_vers: [u8; 8],
    pub id_prog: [u8; 8],
    pub id_reserved1: [u8; 4],
    pub id_ver: u16,
    pub id_reserved2: [u8; 34],
}

/// The eight bytes at `pos` are the file identifier.
pub open spec fn has_mdf_file_id(bytes: Seq<u8>, pos: int) -> bool {
    bytes.subrange(pos, pos + 8) == mdf_file_id()
}

impl Idblock {
    /// This block is the one stored at `pos`.
    pub open spec fn encoded_at(&self, bytes: Seq<u8>, pos: int, little_endian: bool) -> bool {
        &&& self.id_file@ == bytes.subrange(pos, pos + 8)
        &&& self.id_vers@ == bytes.subrange(pos + 8, pos + 16)
        &&& self.id_prog@ == bytes.subrange(pos + 16, pos + 24)
        &&& self.id_reserved1@ == bytes.subrange(pos + 24, pos + 28)
        &&& self.id_ver == uint_at(bytes, pos + 28, 2, little_endian)
        &&& self.id_reserved2@ == bytes.subrange(pos + 30, pos + 64)
    }

    /// The format version text, trimmed.
    pub fn version_string(&self) -> (s: String)
        ensures
            s@ == trimmed(lossy_utf8(self.id_vers@)),
    {
        let text: String = utf8_lossy(self.id_vers.as_slice());
        trim_str(text.as_str()).to_string()
    }

    /// The program identifier, trimmed.
    pub fn program_id(&self) -> (s: String)
        ensures
            s@ == trimmed(lossy_utf8(self.id_prog@)),
    {
        let text: String = utf8_lossy(self.id_prog.as_slice());
        trim_str(text.as_str()).to_string()
    }

    /// A block for version 4.11: identifier `MDF     `, version text `4.11    `,
    /// a blank program identifier, version number 411 and zero reserved bytes.
    pub fn new() -> (b: Self)
        ensures
            b.id_file@ == mdf_file_id(),
            b.id_vers@ == seq![52u8, 46u8, 49u8, 49u8, 32u8, 32u8, 32u8, 32u8],
            b.id_prog@ == seq![32u8, 32u8, 32u8, 32u8, 32u8, 32u8, 32u8, 32u8],
            b.id_reserved1@ == Seq::new(4, |i: int| 0u8),
            b.id_ver == 411,
            b.id_reserved2@ == Seq::new(34, |i: int| 0u8),
    {
        let b = Self {
            id_file: [77u8, 68u8, 70u8, 32u8, 32u8, 32u8, 32u8, 32u8],
            id_vers: [52u8, 46u8, 49u8, 49u8, 32u8, 32u8, 32u8, 32u8],
            id_prog: [32u8; 8],
            id_reserved1: [0u8; 4],
            id_ver: 411,
            id_reserved2: [0u8; 34],
        };
        assert(b.id_file@ =~= mdf_file_id());
        assert(b.id_vers@ =~= seq![52u8, 46u8, 49u8, 49u8, 32u8, 32u8, 32u8, 32u8]);
        assert(b.id_prog@ =~= seq![32u8, 32u8, 32u8, 32u8, 32u8, 32u8, 32u8, 32u8]);
        assert(b.id_reserved1@ =~= Seq::new(4, |i: int| 0u8));
        assert(b.id_reserved2@ =~= Seq::new(34, |i: int| 0u8));
        b
    }

    /// The same as `new`.
    pub fn default() -> (b: Self)
        ensures
            b.id_file@ == mdf_file_id(),
            b.id_vers@ == seq![52u8, 46u8, 49u8, 49u8, 32u8, 32u8, 32u8, 32u8],
            b.id_prog@ == seq![32u8, 32u8, 32u8, 32u8, 32u8, 32u8, 32u8, 32u8],
            b.id_reserved1@ == Seq::new(4, |i: int| 0u8),
            b.id_ver == 411,
            b.id_reserved2@ == Seq::new(34, |i: int| 0u8),
    {
        Self::new()
    }
}

/// Whether the eight bytes at `pos` are the file identifier.
pub fn is_mdf_file_id(bytes: &[u8], pos: usize) -> (r: bool)
    requires
        pos + 8 <= bytes@.len(),
    ensures
        r == has_mdf_file_id(bytes@, pos as int),
{
    let expected: [u8; 8] = [77u8, 68u8, 70u8, 32u8, 32u8, 32u8, 32u8, 32u8];
    let len: usize = bytes.len();
    let mut i: usize = 0;
    while i < 8
        invariant
            i <= 8,
            pos + 8 <= bytes@.len(),
            bytes@.len() == len,
            expected@ == mdf_file_id(),
            forall|k: int| 0 <= k < i ==> bytes@[pos + k] == mdf_file_id()[k],
        decreases 8 - i,
    {
        if bytes[pos + i] != expected[i] {
            assert(bytes@.subrange(pos as int, pos + 8)[i as int] != mdf_file_id()[i as int]);
            return false;
        }
        i = i + 1;
    }
    assert(bytes@.subrange(pos as int, pos + 8) =~= mdf_file_id());
    true
}

impl Block for Idblock {
    open spec fn spec_byte_len(&self) -> nat {
        64
    }

    open spec fn spec_readable(bytes: Seq<u8>, pos: int, little_endian: bool) -> bool {
        pos + 64 <= bytes.len()
    }

    /// Reads the 64 bytes at `pos`; fails where they do not start with the file identifier.
    fn read(bytes: &[u8], pos: usize, little_endian: bool) -> (res: Result<(usize, Self), String>)
        ensures
            res matches Err(e) ==> e@ == "Invalid MDF4 file identifier"@,
            res is Ok <==> has_mdf_file_id(bytes@, pos as int),
            res matches Ok((end, b)) ==> b.encoded_at(bytes@, pos as int, little_endian) && end
                == pos + b.spec_byte_len(),
    {
        proof {
            lemma_slice_len(bytes);
        }
        let id_file: [u8; 8] = read_array::<8>(bytes, pos);
        let id_vers: [u8; 8] = read_array::<8>(bytes, pos + 8);
        let id_prog: [u8; 8] = read_array::<8>(bytes, pos + 16);
        let id_reserved1: [u8; 4] = read_array::<4>(bytes, pos + 24);
        let id_ver: u64 = read_uint(bytes, pos + 28, 2, little_endian);
        let id_reserved2: [u8; 34] = read_array::<34>(bytes, pos + 30);
        if !is_mdf_file_id(bytes, pos) {
            return Err("Invalid MDF4 file identifier".to_owned());
        }
        proof {
            crate::mdf4::utils::lemma_pow256_values();
        }
        Ok(
            (
                pos + 64,
                Self {
                    id_file,
                    id_vers,
                    id_prog,
                    id_reserved1,
                    id_ver: id_ver as u16,
                    id_reserved2,
                },
            ),
        )
    }

    fn read_at(bytes: &[u8], pos: usize, little_endian: bool) -> (res: Result<(usize, Self), String>)
        ensures
            res matches Err(e) ==> e@ == "Invalid MDF4 file identifier"@,
            res is Ok <==> has_mdf_file_id(bytes@, pos as int),
            res matches Ok((end, b)) ==> b.encoded_at(bytes@, pos as int, little_endian) && end
                == pos + b.spec_byte_len(),
    {
        Self::read(bytes, pos, little_endian)
    }

    /// The sizes of the six fields: 8 + 8 + 8 + 4 + 2 + 34 bytes.
    fn byte_len(&self) -> (n: usize) {
        8 + 8 + 8 + 4 + 2 + 34
    }
}

} // verus!
