//! The metadata block, which holds text.

use vstd::prelude::*;

use super::block::Block;
use super::block_header::{has_block_id, header_length, id_error, lemma_encoded_id, BlockHeader};
use super::utils::{lemma_slice_len, read_uint};
use crate::text::{invalid_id_message, lossy_utf8, utf8_lossy};

verus! {

/// The message of a failed read of a metadata block at `pos`: that of a wrong identifier,
/// else that of a length shorter than a header.
pub open spec fn md_error(bytes: Seq<u8>, pos: int) -> Seq<char> {
    if !has_block_id(bytes, pos, 77u8, 68u8) {
        id_error(bytes, pos, "MD"@)
    } else {
        "Invalid MD block length"@
    }
}

/// The number of bytes of `s` before its first zero byte (all of them where there is none).
pub open spec fn first_zero(s: Seq<u8>) -> nat
    decreases s.len(),
{
    if s.len() == 0 {
        0
    } else if s[0] == 0 {
        0
    } else {
        1 + first_zero(s.drop_first())
    }
}

/// `first_zero` is the index of the first zero byte, or the length where there is none.
pub proof fn lemma_first_zero(s: Seq<u8>, j: int)
    requires
        0 <= j <= s.len(),
        forall|k: int| 0 <= k < j ==> s[k] != 0,
        j < s.len() ==> s[j] == 0,
    ensures
        first_zero(s) == j,
    decreases j,
{
    if j > 0 {
        lemma_first_zero(s.drop_first(), j - 1);
    }
}

/// The bytes of `s` before its first zero byte.
pub open spec fn zero_terminated(s: Seq<u8>) -> Seq<u8> {
    s.take(first_zero(s) as int)
}

/// The text bytes of the block at `pos`: those after the header and before the first zero
/// byte within the block's length.
pub open spec fn md_text_bytes(bytes: Seq<u8>, pos: int, little_endian: bool) -> Seq<u8> {
    zero_terminated(bytes.subrange(pos + 24, pos + header_length(bytes, pos, little_endian)))
}

/// The text bytes of the block at `pos` are the bytes from the end of its header up to
/// `j`, where `j` is the first zero byte after the header or, where there is none, the
/// block's end.
pub proof fn lemma_md_text_bytes(bytes: Seq<u8>, pos: int, little_endian: bool, j: int)
    requires
        0 <= pos,
        pos + 24 <= j <= pos + header_length(bytes, pos, little_endian) <= bytes.len(),
        forall|k: int| pos + 24 <= k < j ==> bytes[k] != 0,
        j < pos + header_length(bytes, pos, little_endian) ==> bytes[j] == 0,
    ensures
        md_text_bytes(bytes, pos, little_endian) == bytes.subrange(pos + 24, j),
{
    let body = bytes.subrange(pos + 24, pos + header_length(bytes, pos, little_endian));
    assert forall|k: int| 0 <= k < j - (pos + 24) implies body[k] != 0 by {
        assert(body[k] == bytes[pos + 24 + k]);
    }
    if j < pos + header_length(bytes, pos, little_endian) {
        assert(body[j - (pos + 24)] == bytes[j]);
    }
    lemma_first_zero(body, j - (pos + 24));
    assert(body.take(j - (pos + 24)) =~= bytes.subrange(pos + 24, j));
}

/// The text stored from `start` up to the first zero byte before `end`.
pub fn read_text(bytes: &[u8], start: usize, end: usize) -> (text: String)
    requires
        start <= end <= bytes@.len(),
    ensures
        text@ == lossy_utf8(zero_terminated(bytes@.subrange(start as int, end as int))),
{
    let mut text_end: usize = start;
    while text_end < end && bytes[text_end] != 0
        invariant
            start <= text_end <= end,
            end <= bytes@.len(),
            forall|k: int| start <= k < text_end ==> bytes@[k] != 0,
        decreases end - text_end,
    {
        text_end = text_end + 1;
    }
    proof {
        let body = bytes@.subrange(start as int, end as int);
        lemma_first_zero(body, text_end - start);
        assert(body.take(text_end - start) =~= bytes@.subrange(start as int, text_end as int));
    }
    utf8_lossy(vstd::slice::slice_subrange(bytes, start, text_end))
}

/// A metadata block: its header and its text, which ends at the first zero byte.
#[derive(Debug, Clone, PartialEq, Eq)]
pub struct Mdblock {
    pub header: BlockHeader,
    pub md_data: String,
}

impl Mdblock {
    /// Whether the bytes hold all that a read of a metadata block at `pos` looks at.
    pub fn readable_at(bytes: &[u8], pos: usize, little_endian: bool) -> (r: bool)
        ensures
            r == Self::spec_readable(bytes@, pos as int, little_endian),
    {
        let len: usize = bytes.len();
        if pos > len || len - pos < 24 {
            return false;
        }
        let is_md: bool = bytes[pos] == 35u8 && bytes[pos + 1] == 35u8 && bytes[pos + 2] == 77u8
            && bytes[pos + 3] == 68u8;
        let length: u64 = read_uint(bytes, pos + 8, 8, little_endian);
        !is_md || length < 24 || length <= (len - pos) as u64
    }

    /// The text of the block.
    pub fn data(&self) -> (s: &str)
        ensures
            s@ == self.md_data@,
    {
        self.md_data.as_str()
    }

    /// A copy of the text of the block.
    pub fn text(&self) -> (s: String)
        ensures
            s@ == self.md_data@,
    {
        self.md_data.clone()
    }
}

impl Block for Mdblock {
    open spec fn spec_byte_len(&self) -> nat {
        self.header.length as nat
    }

    open spec fn spec_readable(bytes: Seq<u8>, pos: int, little_endian: bool) -> bool {
        &&& pos + 24 <= bytes.len()
        &&& has_block_id(bytes, pos, 77u8, 68u8) && header_length(bytes, pos, little_endian) >= 24
            ==> pos + header_length(bytes, pos, little_endian) <= bytes.len()
    }

    /// Reads the block at `pos`: its header, which must be that of an `##MD` block no shorter
    /// than a header, then its text, up to the first zero byte or to the block's end.
    /// The block ends `length` bytes after `pos`.
    fn read(bytes: &[u8], pos: usize, little_endian: bool) -> (res: Result<(usize, Self), String>)
        ensures
            res matches Err(e) ==> e@ == md_error(bytes@, pos as int),
            res is Ok <==> has_block_id(bytes@, pos as int, 77u8, 68u8) && header_length(
                bytes@,
                pos as int,
                little_endian,
            ) >= 24,
            res matches Ok((end, b)) ==> {
                &&& b.header.encoded_at(bytes@, pos as int, little_endian)
                &&& b.md_data@ == lossy_utf8(md_text_bytes(bytes@, pos as int, little_endian))
                &&& end == pos + b.spec_byte_len()
            },
    {
        proof {
            lemma_slice_len(bytes);
        }
        let (start, header) = match BlockHeader::read(bytes, pos, little_endian) {
            Ok(r) => r,
            Err(e) => return Err(e),
        };
        proof {
            lemma_encoded_id(header, bytes@, pos as int, little_endian, 77u8, 68u8);
        }
        if !header.has_id(77u8, 68u8) {
            return Err(invalid_id_message("MD", &header.id));
        }
        if header.length < 24 {
            return Err("Invalid MD block length".to_owned());
        }
        let end: usize = pos + header.length as usize;
        let text: String = read_text(bytes, start, end);
        Ok((end, Self { header, md_data: text }))
    }

    fn read_at(bytes: &[u8], pos: usize, little_endian: bool) -> (res: Result<(usize, Self), String>)
        ensures
            res matches Err(e) ==> e@ == md_error(bytes@, pos as int),
            res is Ok <==> has_block_id(bytes@, pos as int, 77u8, 68u8) && header_length(
                bytes@,
                pos as int,
                little_endian,
            ) >= 24,
            res matches Ok((end, b)) ==> {
                &&& b.header.encoded_at(bytes@, pos as int, little_endian)
                &&& b.md_data@ == lossy_utf8(md_text_bytes(bytes@, pos as int, little_endian))
                &&& end == pos + b.spec_byte_len()
            },
    {
        Self::read(bytes, pos, little_endian)
    }

    /// The length that the header gives.
    fn byte_len(&self) -> (n: usize) {
        self.header.length as usize
    }
}

} // verus!
