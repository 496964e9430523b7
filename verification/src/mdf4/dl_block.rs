//! The data list block, which lists data blocks and links to the next data list block.

use vstd::prelude::*;

use super::block::{Block, DataBlock, LinkedBlock};
use super::block_header::{has_block_id, header_length, header_link_count, id_error, lemma_encoded_id, BlockHeader};
use super::dt_block::Dtblock;
use super::dz_block::{dz_data_len, zlib_inflate_exact, Dzblock};
use super::mdf4_file::{link_extract, links_at};
use super::utils::{lemma_slice_len, lemma_uint_at_u64, read_array, read_uint, uint_at};
use crate::text::invalid_id_message;

verus! {

/// Where the fields after the links of the data list block at `pos` start.
pub open spec fn dl_fields_pos(bytes: Seq<u8>, pos: int, little_endian: bool) -> int {
    pos + 24 + 8 * header_link_count(bytes, pos, little_endian)
}

/// The next link of the data list block at `pos`.
pub open spec fn dl_next_at(bytes: Seq<u8>, pos: int, little_endian: bool) -> nat {
    uint_at(bytes, pos + 24, 8, little_endian)
}

/// The data links of the data list block at `pos`: all its links after the first.
pub open spec fn dl_data_at(bytes: Seq<u8>, pos: int, little_endian: bool) -> Seq<u64> {
    links_at(bytes, pos + 32, (header_link_count(bytes, pos, little_endian) - 1) as nat, little_endian)
}

/// A `##DL` block with at least one link, whose length covers its links and fields,
/// is stored at `pos`, and all of it lies within the bytes.
pub open spec fn dl_parses(bytes: Seq<u8>, pos: int, little_endian: bool) -> bool {
    &&& pos + 24 <= bytes.len()
    &&& has_block_id(bytes, pos, 68u8, 76u8)
    &&& header_link_count(bytes, pos, little_endian) >= 1
    &&& dl_fields_pos(bytes, pos, little_endian) + 8 <= pos + header_length(bytes, pos, little_endian)
    &&& pos + header_length(bytes, pos, little_endian) <= bytes.len()
}

/// The addresses of the data list blocks met when following next links from `addr`
/// (none where `addr` is null), where a null link is reached within `fuel` blocks,
/// every block on the way being readable.
pub open spec fn dl_chain(bytes: Seq<u8>, addr: int, little_endian: bool, fuel: nat) -> Option<
    Seq<int>,
>
    decreases fuel,
{
    if addr == 0 {
        Some(Seq::empty())
    } else if fuel == 0 || !dl_parses(bytes, addr, little_endian) {
        None
    } else {
        match dl_chain(bytes, dl_next_at(bytes, addr, little_endian) as int, little_endian, (fuel - 1) as nat) {
            Some(rest) => Some(seq![addr] + rest),
            None => None,
        }
    }
}

/// Following next links from `addr` reaches a null link.
pub open spec fn dl_chain_ends(bytes: Seq<u8>, addr: int, little_endian: bool) -> bool {
    exists|fuel: nat| dl_chain(bytes, addr, little_endian, fuel) is Some
}

/// A number of steps within which following next links from `addr` reaches a null link.
pub open spec fn dl_chain_fuel(bytes: Seq<u8>, addr: int, little_endian: bool) -> nat {
    choose|fuel: nat| dl_chain(bytes, addr, little_endian, fuel) is Some
}

/// The addresses of the data list blocks met when following next links from `addr`.
pub open spec fn dl_chain_addrs(bytes: Seq<u8>, addr: int, little_endian: bool) -> Seq<int> {
    dl_chain(bytes, addr, little_endian, dl_chain_fuel(bytes, addr, little_endian))->0
}

/// The data block at `addr` is a data block, or a compressed data block that decompresses.
pub open spec fn entry_ok(bytes: Seq<u8>, addr: int, little_endian: bool) -> bool {
    ||| Dtblock::spec_parses(bytes, addr, little_endian)
    ||| {
        &&& Dzblock::spec_parses(bytes, addr, little_endian)
        &&& uint_at(bytes, addr + 28, 8, little_endian) <= isize::MAX
        &&& zlib_inflate_exact(
            bytes.subrange(addr + 44, addr + 44 + dz_data_len(bytes, addr, little_endian)),
            uint_at(bytes, addr + 28, 8, little_endian),
        ) is Some
    }
}

/// The data of the data block at `addr`: what a data block holds, or what a compressed
/// data block decompresses to.
pub open spec fn entry_data(bytes: Seq<u8>, addr: int, little_endian: bool) -> Seq<u8> {
    if Dtblock::spec_parses(bytes, addr, little_endian) {
        bytes.subrange(addr + 24, addr + header_length(bytes, addr, little_endian))
    } else {
        zlib_inflate_exact(
            bytes.subrange(addr + 44, addr + 44 + dz_data_len(bytes, addr, little_endian)),
            uint_at(bytes, addr + 28, 8, little_endian),
        )->0
    }
}

/// Every data block that `links` lead to has data.
pub open spec fn entries_ok(bytes: Seq<u8>, links: Seq<u64>, little_endian: bool) -> bool {
    forall|i: int| 0 <= i < links.len() ==> entry_ok(bytes, #[trigger] links[i] as int, little_endian)
}

/// The data of the data blocks that `links` lead to, one after another.
pub open spec fn entries_data(bytes: Seq<u8>, links: Seq<u64>, little_endian: bool) -> Seq<u8>
    decreases links.len(),
{
    if links.len() == 0 {
        Seq::empty()
    } else {
        entries_data(bytes, links.drop_last(), little_endian) + entry_data(
            bytes,
            links.last() as int,
            little_endian,
        )
    }
}

/// Every data list block at `addrs` lists data blocks that all have data.
pub open spec fn chain_entries_ok(bytes: Seq<u8>, addrs: Seq<int>, little_endian: bool) -> bool {
    forall|i: int|
        0 <= i < addrs.len() ==> entries_ok(
            bytes,
            dl_data_at(bytes, #[trigger] addrs[i], little_endian),
            little_endian,
        )
}

/// The data of the data list blocks at `addrs`, one after another.
pub open spec fn chain_data(bytes: Seq<u8>, addrs: Seq<int>, little_endian: bool) -> Seq<u8>
    decreases addrs.len(),
{
    if addrs.len() == 0 {
        Seq::empty()
    } else {
        chain_data(bytes, addrs.drop_last(), little_endian) + entries_data(
            bytes,
            dl_data_at(bytes, addrs.last(), little_endian),
            little_endian,
        )
    }
}

/// A data list block: its header, the link to the next data list block, the links to its
/// data blocks, flags, reserved bytes and the number of data blocks.
#[derive(Debug)]
pub struct Dlblock {
    pub header: BlockHeader,
    pub dl_dl_next: u64,
    pub dl_data: Vec<u64>,
    pub dl_flags: u8,
    pub dl_reserved: [u8; 3],
    pub dl_count: u32,
}

impl Dlblock {
    /// This block is the one stored at `pos`.
    pub open spec fn encoded_at(&self, bytes: Seq<u8>, pos: int, little_endian: bool) -> bool {
        let f = dl_fields_pos(bytes, pos, little_endian);
        &&& self.header.encoded_at(bytes, pos, little_endian)
        &&& self.dl_dl_next == dl_next_at(bytes, pos, little_endian)
        &&& self.dl_data@ == dl_data_at(bytes, pos, little_endian)
        &&& self.dl_flags == bytes[f]
        &&& self.dl_reserved@ == bytes.subrange(f + 1, f + 4)
        &&& self.dl_count == uint_at(bytes, f + 4, 4, little_endian)
    }

    /// The two blocks have the same fields.
    pub open spec fn same_fields(&self, other: &Self) -> bool {
        &&& self.header == other.header
        &&& self.dl_dl_next == other.dl_dl_next
        &&& self.dl_data@ == other.dl_data@
        &&& self.dl_flags == other.dl_flags
        &&& self.dl_reserved == other.dl_reserved
        &&& self.dl_count == other.dl_count
    }

    /// A copy of this block.
    pub fn duplicate(&self) -> (b: Self)
        ensures
            b.same_fields(self),
    {
        Self {
            header: self.header,
            dl_dl_next: self.dl_dl_next,
            dl_data: self.dl_data.clone(),
            dl_flags: self.dl_flags,
            dl_reserved: self.dl_reserved,
            dl_count: self.dl_count,
        }
    }
}

impl Dlblock {
    /// `blocks` are what `list` gives for this block: a copy of it, then the data list
    /// blocks met when following next links from it.
    pub open spec fn lists(&self, blocks: Seq<Dlblock>, stream: Seq<u8>, little_endian: bool) -> bool {
        let addrs = dl_chain_addrs(stream, self.dl_dl_next as int, little_endian);
        &&& blocks.len() == 1 + addrs.len()
        &&& blocks[0].same_fields(self)
        &&& forall|i: int|
            0 <= i < addrs.len() ==> #[trigger] blocks[i + 1].encoded_at(stream, addrs[i], little_endian)
    }
}

/// The data of each of `blocks`, one after another.
pub open spec fn blocks_data(blocks: Seq<Dlblock>, stream: Seq<u8>, little_endian: bool) -> Seq<u8>
    decreases blocks.len(),
{
    if blocks.len() == 0 {
        Seq::empty()
    } else {
        blocks_data(blocks.drop_last(), stream, little_endian) + entries_data(
            stream,
            blocks.last().dl_data@,
            little_endian,
        )
    }
}

/// The data of the first `j + 1` listed blocks is the data of the first block followed by
/// the data of the first `j` data list blocks of the chain.
pub proof fn lemma_blocks_data_prefix(
    dl: Dlblock,
    blocks: Seq<Dlblock>,
    stream: Seq<u8>,
    little_endian: bool,
    j: int,
)
    requires
        dl.lists(blocks, stream, little_endian),
        0 <= j < blocks.len(),
    ensures
        blocks_data(blocks.take(j + 1), stream, little_endian) == entries_data(
            stream,
            dl.dl_data@,
            little_endian,
        ) + chain_data(
            stream,
            dl_chain_addrs(stream, dl.dl_dl_next as int, little_endian).take(j),
            little_endian,
        ),
    decreases j,
{
    let addrs = dl_chain_addrs(stream, dl.dl_dl_next as int, little_endian);
    if j == 0 {
        assert(blocks.take(1).drop_last() =~= Seq::<Dlblock>::empty());
        assert(addrs.take(0) =~= Seq::<int>::empty());
        assert(blocks.take(1).last() == blocks[0]);
        let a = entries_data(stream, dl.dl_data@, little_endian);
        assert(blocks_data(blocks.take(1), stream, little_endian) == blocks_data(
            Seq::<Dlblock>::empty(),
            stream,
            little_endian,
        ) + a);
        assert(chain_data(stream, addrs.take(0), little_endian) == Seq::<u8>::empty());
        assert(Seq::<u8>::empty() + a =~= a);
        assert(a + Seq::<u8>::empty() =~= a);
    } else {
        assert(blocks[(j - 1) + 1].encoded_at(stream, addrs[j - 1], little_endian));
        lemma_blocks_data_prefix(dl, blocks, stream, little_endian, j - 1);
        assert(blocks.take(j + 1).drop_last() =~= blocks.take(j));
        assert(blocks.take(j + 1).last() == blocks[(j - 1) + 1]);
        assert(addrs.take(j).drop_last() =~= addrs.take(j - 1));
        assert(addrs.take(j).last() == addrs[j - 1]);
        let a = entries_data(stream, dl.dl_data@, little_endian);
        let b = chain_data(stream, addrs.take(j - 1), little_endian);
        let c = entries_data(stream, dl_data_at(stream, addrs[j - 1], little_endian), little_endian);
        assert(blocks_data(blocks.take(j + 1), stream, little_endian) == blocks_data(
            blocks.take(j),
            stream,
            little_endian,
        ) + c);
        assert(chain_data(stream, addrs.take(j), little_endian) == b + c);
        assert((a + b) + c =~= a + (b + c));
    }
}

impl Block for Dlblock {
    open spec fn spec_byte_len(&self) -> nat {
        self.header.length as nat
    }

    open spec fn spec_readable(bytes: Seq<u8>, pos: int, little_endian: bool) -> bool {
        &&& pos + 24 <= bytes.len()
        &&& has_block_id(bytes, pos, 68u8, 76u8) && dl_fields_pos(bytes, pos, little_endian) + 8
            <= pos + header_length(bytes, pos, little_endian) ==> pos + header_length(
            bytes,
            pos,
            little_endian,
        ) <= bytes.len()
    }

    /// Reads the block at `pos`, whose header must be that of a `##DL` block with at least
    /// one link and long enough for its links and fields. The block ends `length` bytes
    /// after `pos`.
    fn read(bytes: &[u8], pos: usize, little_endian: bool) -> (res: Result<(usize, Self), String>)
        ensures
            res matches Err(e) ==> e@ == (if !has_block_id(bytes@, pos as int, 68u8, 76u8) {
                id_error(bytes@, pos as int, "DL"@)
            } else {
                if header_link_count(bytes@, pos as int, little_endian) == 0 {
                "DL block without links"@
            } else {
                "Invalid DL block length"@
            }
            }),
            res is Ok <==> dl_parses(bytes@, pos as int, little_endian),
            res matches Ok((end, b)) ==> b.encoded_at(bytes@, pos as int, little_endian) && end
                == pos + b.spec_byte_len(),
    {
        proof {
            lemma_slice_len(bytes);
        }
        let (start, header) = match BlockHeader::read(bytes, pos, little_endian) {
            Ok(r) => r,
            Err(e) => return Err(e),
        };
        proof {
            lemma_encoded_id(header, bytes@, pos as int, little_endian, 68u8, 76u8);
        }
        if !header.has_id(68u8, 76u8) {
            return Err(invalid_id_message("DL", &header.id));
        }
        if header.link_count == 0 {
            return Err("DL block without links".to_owned());
        }
        if header.length < 32 || (header.length - 32) / 8 < header.link_count {
            return Err("Invalid DL block length".to_owned());
        }
        let dl_dl_next: u64 = read_uint(bytes, start, 8, little_endian);
        let (fields, dl_data) = link_extract(bytes, start + 8, little_endian, header.link_count - 1);
        let dl_flags: u8 = bytes[fields];
        let dl_reserved: [u8; 3] = read_array::<3>(bytes, fields + 1);
        let dl_count: u32 = read_uint(bytes, fields + 4, 4, little_endian) as u32;
        proof {
            crate::mdf4::utils::lemma_pow256_values();
        }
        Ok(
            (
                pos + header.length as usize,
                Self { header, dl_dl_next, dl_data, dl_flags, dl_reserved, dl_count },
            ),
        )
    }

    fn read_at(bytes: &[u8], pos: usize, little_endian: bool) -> (res: Result<(usize, Self), String>)
        ensures
            res matches Err(e) ==> e@ == (if !has_block_id(bytes@, pos as int, 68u8, 76u8) {
                id_error(bytes@, pos as int, "DL"@)
            } else {
                if header_link_count(bytes@, pos as int, little_endian) == 0 {
                "DL block without links"@
            } else {
                "Invalid DL block length"@
            }
            }),
            res is Ok <==> dl_parses(bytes@, pos as int, little_endian),
            res matches Ok((end, b)) ==> b.encoded_at(bytes@, pos as int, little_endian) && end
                == pos + b.spec_byte_len(),
    {
        Self::read(bytes, pos, little_endian)
    }

    /// The length that the header gives.
    fn byte_len(&self) -> (n: usize) {
        self.header.length as usize
    }
}

/// The data of the data block at `addr`, which is a data block or a compressed data block
/// that decompresses.
pub fn entry_data_array(stream: &[u8], addr: u64, little_endian: bool) -> (d: Vec<u8>)
    requires
        entry_ok(stream@, addr as int, little_endian),
    ensures
        d@ == entry_data(stream@, addr as int, little_endian),
{
    proof {
        lemma_slice_len(stream);
    }
    let pos: usize = addr as usize;
    if stream[pos + 3] == 84u8 {
        let (_, b) = Dtblock::read(stream, pos, little_endian).unwrap();
        b.data_array(stream, little_endian)
    } else {
        let (_, b) = Dzblock::read(stream, pos, little_endian).unwrap();
        proof {
            lemma_uint_at_u64(stream@, addr + 28, little_endian);
        }
        b.data_array(stream, little_endian)
    }
}

/// Whether the block at `addr` is a data block, or a compressed data block that decompresses.
pub fn entry_available(stream: &[u8], addr: u64, little_endian: bool) -> (r: bool)
    ensures
        r == entry_ok(stream@, addr as int, little_endian),
{
    proof {
        lemma_slice_len(stream);
    }
    if addr > stream.len() as u64 {
        return false;
    }
    let pos: usize = addr as usize;
    if Dtblock::parses_at(stream, pos, little_endian) {
        return true;
    }
    if !Dzblock::parses_at(stream, pos, little_endian) {
        return false;
    }
    let (_, b) = Dzblock::read(stream, pos, little_endian).unwrap();
    proof {
        lemma_uint_at_u64(stream@, addr + 28, little_endian);
    }
    b.data_available()
}

/// Whether every block that `links` lead to is a data block, or a compressed data block
/// that decompresses.
pub fn entries_available(stream: &[u8], links: &Vec<u64>, little_endian: bool) -> (r: bool)
    ensures
        r == entries_ok(stream@, links@, little_endian),
{
    let mut i: usize = 0;
    while i < links.len()
        invariant
            i <= links@.len(),
            forall|k: int| 0 <= k < i ==> entry_ok(stream@, #[trigger] links@[k] as int, little_endian),
        decreases links@.len() - i,
    {
        if !entry_available(stream, links[i], little_endian) {
            return false;
        }
        i = i + 1;
    }
    true
}

impl DataBlock for Dlblock {
    open spec fn spec_data_available(&self, stream: Seq<u8>, little_endian: bool) -> bool {
        entries_ok(stream, self.dl_data@, little_endian)
    }

    open spec fn spec_data(&self, stream: Seq<u8>, little_endian: bool) -> Seq<u8> {
        entries_data(stream, self.dl_data@, little_endian)
    }

    /// The data of the listed data blocks, one after another.
    fn data_array(&self, stream: &[u8], little_endian: bool) -> (d: Vec<u8>) {
        let mut data: Vec<u8> = Vec::new();
        let mut i: usize = 0;
        while i < self.dl_data.len()
            invariant
                i <= self.dl_data@.len(),
                entries_ok(stream@, self.dl_data@, little_endian),
                data@ == entries_data(stream@, self.dl_data@.take(i as int), little_endian),
            decreases self.dl_data@.len() - i,
        {
            let mut block_data: Vec<u8> = entry_data_array(stream, self.dl_data[i], little_endian);
            data.append(&mut block_data);
            assert(self.dl_data@.take(i + 1).drop_last() =~= self.dl_data@.take(i as int));
            i = i + 1;
        }
        assert(self.dl_data@.take(i as int) =~= self.dl_data@);
        data
    }
}

impl LinkedBlock for Dlblock {
    open spec fn spec_next_readable(&self, stream: Seq<u8>, little_endian: bool) -> bool {
        self.dl_dl_next == 0 || dl_parses(stream, self.dl_dl_next as int, little_endian)
    }

    open spec fn spec_chain_ends(&self, stream: Seq<u8>, little_endian: bool) -> bool {
        dl_chain_ends(stream, self.dl_dl_next as int, little_endian)
    }

    /// The data list block that the next link leads to; none where the link is null.
    fn next(&self, stream: &[u8], little_endian: bool) -> (r: Option<Self>)
        ensures
            r is None <==> self.dl_dl_next == 0,
            r matches Some(b) ==> b.encoded_at(stream@, self.dl_dl_next as int, little_endian),
    {
        proof {
            lemma_slice_len(stream);
        }
        if self.dl_dl_next == 0 {
            None
        } else {
            let (_, b) = Self::read(stream, self.dl_dl_next as usize, little_endian).unwrap();
            Some(b)
        }
    }

    /// This block, then the data list blocks met when following next links from it,
    /// up to the null link.
    fn list(&self, stream: &[u8], little_endian: bool) -> (r: Vec<Self>)
        ensures
            r@.len() == 1 + dl_chain_addrs(stream@, self.dl_dl_next as int, little_endian).len(),
            r@[0].same_fields(self),
            forall|i: int|
                0 <= i < dl_chain_addrs(stream@, self.dl_dl_next as int, little_endian).len()
                    ==> #[trigger] r@[i + 1].encoded_at(
                    stream@,
                    dl_chain_addrs(stream@, self.dl_dl_next as int, little_endian)[i],
                    little_endian,
                ),
            self.lists(r@, stream@, little_endian),
    {
        proof {
            lemma_slice_len(stream);
        }
        let ghost addrs = dl_chain_addrs(stream@, self.dl_dl_next as int, little_endian);
        let ghost mut fuel: nat = dl_chain_fuel(stream@, self.dl_dl_next as int, little_endian);
        let mut out: Vec<Self> = Vec::new();
        out.push(self.duplicate());
        let mut next: u64 = self.dl_dl_next;
        while next != 0
            invariant
                dl_chain(stream@, next as int, little_endian, fuel) == Some(
                    addrs.skip(out@.len() - 1),
                ),
                1 <= out@.len() <= addrs.len() + 1,
                stream@.len() <= usize::MAX,
                out@[0].same_fields(self),
                forall|i: int|
                    0 <= i < out@.len() - 1 ==> #[trigger] out@[i + 1].encoded_at(
                        stream@,
                        addrs[i],
                        little_endian,
                    ),
            decreases fuel,
        {
            let ghost k: int = out@.len() - 1;
            assert(fuel > 0 && dl_parses(stream@, next as int, little_endian));
            let ghost inner = dl_chain(
                stream@,
                dl_next_at(stream@, next as int, little_endian) as int,
                little_endian,
                (fuel - 1) as nat,
            );
            assert(inner is Some);
            let ghost rest = inner->0;
            assert(addrs.skip(k) == seq![next as int] + rest);
            assert(addrs.skip(k).len() == 1 + rest.len());
            assert(addrs.skip(k).len() == addrs.len() - k);
            assert(0 <= k < addrs.len());
            assert(addrs[k] == next as int) by {
                assert(addrs.skip(k)[0] == addrs[k]);
            }
            assert(rest =~= addrs.skip(k + 1)) by {
                assert(addrs.skip(k + 1) =~= addrs.skip(k).skip(1));
                assert((seq![next as int] + rest).skip(1) =~= rest);
            }
            let (_, b) = Self::read(stream, next as usize, little_endian).unwrap();
            next = b.dl_dl_next;
            out.push(b);
            proof {
                fuel = (fuel - 1) as nat;
            }
        }
        assert(addrs.skip(out@.len() - 1) =~= Seq::<int>::empty());
        out
    }
}

/// The data of the data list blocks met when following next links from `addr`, one after
/// another; nothing where `addr` is null.
pub fn chain_data_array(stream: &[u8], addr: u64, little_endian: bool) -> (d: Vec<u8>)
    requires
        dl_chain_ends(stream@, addr as int, little_endian),
        chain_entries_ok(stream@, dl_chain_addrs(stream@, addr as int, little_endian), little_endian),
    ensures
        d@ == chain_data(stream@, dl_chain_addrs(stream@, addr as int, little_endian), little_endian),
{
    proof {
        lemma_slice_len(stream);
    }
    let ghost addrs = dl_chain_addrs(stream@, addr as int, little_endian);
    let ghost mut fuel: nat = dl_chain_fuel(stream@, addr as int, little_endian);
    let ghost mut k: int = 0;
    let mut data: Vec<u8> = Vec::new();
    let mut next: u64 = addr;
    assert(addrs.skip(0) =~= addrs);
    assert(addrs.take(0) =~= Seq::<int>::empty());
    while next != 0
        invariant
            0 <= k <= addrs.len(),
            dl_chain(stream@, next as int, little_endian, fuel) == Some(addrs.skip(k)),
            stream@.len() <= usize::MAX,
            chain_entries_ok(stream@, addrs, little_endian),
            data@ == chain_data(stream@, addrs.take(k), little_endian),
        decreases fuel,
    {
        assert(fuel > 0 && dl_parses(stream@, next as int, little_endian));
        let ghost rest = dl_chain(
            stream@,
            dl_next_at(stream@, next as int, little_endian) as int,
            little_endian,
            (fuel - 1) as nat,
        )->0;
        assert(addrs.skip(k) == seq![next as int] + rest);
        assert(addrs.skip(k).len() == addrs.len() - k);
        assert(addrs[k] == next as int) by {
            assert(addrs.skip(k)[0] == addrs[k]);
        }
        assert(rest =~= addrs.skip(k + 1)) by {
            assert(addrs.skip(k + 1) =~= addrs.skip(k).skip(1));
            assert((seq![next as int] + rest).skip(1) =~= rest);
        }
        let (_, b) = Dlblock::read(stream, next as usize, little_endian).unwrap();
        assert(entries_ok(stream@, dl_data_at(stream@, addrs[k], little_endian), little_endian));
        let mut block_data: Vec<u8> = b.data_array(stream, little_endian);
        data.append(&mut block_data);
        assert(addrs.take(k + 1).drop_last() =~= addrs.take(k));
        next = b.dl_dl_next;
        proof {
            fuel = (fuel - 1) as nat;
            k = k + 1;
        }
    }
    assert(addrs.skip(k) =~= Seq::<int>::empty());
    assert(addrs.take(k) =~= addrs);
    data
}

/// Whether every data list block met when following next links from `addr` lists data
/// blocks that all have data.
pub fn chain_available(stream: &[u8], addr: u64, little_endian: bool) -> (r: bool)
    requires
        dl_chain_ends(stream@, addr as int, little_endian),
    ensures
        r == chain_entries_ok(stream@, dl_chain_addrs(stream@, addr as int, little_endian), little_endian),
{
    proof {
        lemma_slice_len(stream);
    }
    let ghost addrs = dl_chain_addrs(stream@, addr as int, little_endian);
    let ghost mut fuel: nat = dl_chain_fuel(stream@, addr as int, little_endian);
    let ghost mut k: int = 0;
    let mut next: u64 = addr;
    assert(addrs.skip(0) =~= addrs);
    while next != 0
        invariant
            0 <= k <= addrs.len(),
            dl_chain(stream@, next as int, little_endian, fuel) == Some(addrs.skip(k)),
            stream@.len() <= usize::MAX,
            addrs == dl_chain_addrs(stream@, addr as int, little_endian),
            forall|i: int|
                0 <= i < k ==> entries_ok(
                    stream@,
                    dl_data_at(stream@, #[trigger] addrs[i], little_endian),
                    little_endian,
                ),
        decreases fuel,
    {
        assert(fuel > 0 && dl_parses(stream@, next as int, little_endian));
        let ghost rest = dl_chain(
            stream@,
            dl_next_at(stream@, next as int, little_endian) as int,
            little_endian,
            (fuel - 1) as nat,
        )->0;
        assert(addrs.skip(k) == seq![next as int] + rest);
        assert(addrs.skip(k).len() == addrs.len() - k);
        assert(addrs[k] == next as int) by {
            assert(addrs.skip(k)[0] == addrs[k]);
        }
        assert(rest =~= addrs.skip(k + 1)) by {
            assert(addrs.skip(k + 1) =~= addrs.skip(k).skip(1));
            assert((seq![next as int] + rest).skip(1) =~= rest);
        }
        let (_, b) = Dlblock::read(stream, next as usize, little_endian).unwrap();
        if !entries_available(stream, &b.dl_data, little_endian) {
            return false;
        }
        next = b.dl_dl_next;
        proof {
            fuel = (fuel - 1) as nat;
            k = k + 1;
        }
    }
    assert(addrs.skip(k) =~= Seq::<int>::empty());
    true
}

} // verus!
