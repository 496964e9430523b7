//! The blocks that hold the records of a data group, whatever their kind.

use vstd::prelude::*;

use super::block::{Block, DataBlock, LinkedBlock};
use super::block_header::{has_block_id, lemma_encoded_unique};
use super::dl_block::{
    blocks_data, chain_data, chain_entries_ok, dl_chain_addrs, dl_data_at, dl_parses,
    entries_available, entries_data, entries_ok, lemma_blocks_data_prefix,
};
use super::utils::lemma_slice_len;

pub use super::dl_block::Dlblock;
pub use super::dt_block::Dtblock;
pub use super::dz_block::Dzblock;
pub use super::hl_block::Hlblock;

verus! {

/// A block that holds records: plain, compressed, a list of data blocks, or a header list.
pub enum DataBlockType {
    Block(Dtblock),
    BlockComp(Dzblock),
    List(Dlblock),
    HList(Hlblock),
}

/// A data block of one of the four kinds is stored at `pos`, and all of it lies within the
/// bytes.
pub open spec fn data_block_parses(bytes: Seq<u8>, pos: int, little_endian: bool) -> bool {
    ||| Dtblock::spec_parses(bytes, pos, little_endian)
    ||| Dzblock::spec_parses(bytes, pos, little_endian)
    ||| dl_parses(bytes, pos, little_endian)
    ||| Hlblock::spec_parses(bytes, pos, little_endian)
}

impl DataBlockType {
    /// This block is the one stored at `pos`.
    pub open spec fn encoded_at(&self, bytes: Seq<u8>, pos: int, little_endian: bool) -> bool {
        match self {
            DataBlockType::Block(b) => Dtblock::spec_parses(bytes, pos, little_endian)
                && b.encoded_at(bytes, pos, little_endian),
            DataBlockType::BlockComp(b) => Dzblock::spec_parses(bytes, pos, little_endian)
                && b.encoded_at(bytes, pos, little_endian),
            DataBlockType::List(b) => dl_parses(bytes, pos, little_endian) && b.encoded_at(
                bytes,
                pos,
                little_endian,
            ),
            DataBlockType::HList(b) => Hlblock::spec_parses(bytes, pos, little_endian)
                && b.encoded_at(bytes, pos, little_endian),
        }
    }

    /// Reading the data of the block from `stream` succeeds: a compressed block decompresses;
    /// the chain of data list blocks, the one a list block starts or the one a header list
    /// leads to, ends and each of its data blocks has data.
    pub open spec fn spec_data_available(&self, stream: Seq<u8>, little_endian: bool) -> bool {
        match self {
            DataBlockType::Block(b) => b.spec_data_available(stream, little_endian),
            DataBlockType::BlockComp(b) => b.spec_data_available(stream, little_endian),
            DataBlockType::List(b) => {
                &&& b.spec_chain_ends(stream, little_endian)
                &&& entries_ok(stream, b.dl_data@, little_endian)
                &&& chain_entries_ok(
                    stream,
                    dl_chain_addrs(stream, b.dl_dl_next as int, little_endian),
                    little_endian,
                )
            },
            DataBlockType::HList(b) => b.spec_chain_ends(stream, little_endian)
                && b.spec_data_available(stream, little_endian),
        }
    }

    /// The data of the block: the bytes of a data block, the decompressed bytes of a
    /// compressed block, the data of every data block listed along the chain of data list
    /// blocks, and for a header list the data of the chain of data list blocks that its first
    /// link leads to.
    pub open spec fn spec_data(&self, stream: Seq<u8>, little_endian: bool) -> Seq<u8> {
        match self {
            DataBlockType::Block(b) => b.spec_data(stream, little_endian),
            DataBlockType::BlockComp(b) => b.spec_data(stream, little_endian),
            DataBlockType::List(b) => entries_data(stream, b.dl_data@, little_endian) + chain_data(
                stream,
                dl_chain_addrs(stream, b.dl_dl_next as int, little_endian),
                little_endian,
            ),
            DataBlockType::HList(b) => b.spec_data(stream, little_endian),
        }
    }

    /// The data of the block, where the rest of the file is `stream`.
    pub fn data_array(&self, stream: &[u8], little_endian: bool) -> (d: Vec<u8>)
        requires
            self.spec_data_available(stream@, little_endian),
        ensures
            d@ == self.spec_data(stream@, little_endian),
    {
        match self {
            DataBlockType::Block(block) => block.data_array(stream, little_endian),
            DataBlockType::BlockComp(block) => block.data_array(stream, little_endian),
            DataBlockType::List(block) => {
                let ghost addrs = dl_chain_addrs(stream@, block.dl_dl_next as int, little_endian);
                let dl_list: Vec<Dlblock> = block.list(stream, little_endian);
                let mut data: Vec<u8> = dl_list[0].data_array(stream, little_endian);
                let mut i: usize = 1;
                assert(addrs.take(0) =~= Seq::<int>::empty());
                while i < dl_list.len()
                    invariant
                        1 <= i <= dl_list@.len(),
                        dl_list@.len() == 1 + addrs.len(),
                        forall|k: int|
                            0 <= k < addrs.len() ==> #[trigger] dl_list@[k + 1].encoded_at(
                                stream@,
                                addrs[k],
                                little_endian,
                            ),
                        forall|k: int|
                            0 <= k < addrs.len() ==> entries_ok(
                                stream@,
                                dl_data_at(stream@, #[trigger] addrs[k], little_endian),
                                little_endian,
                            ),
                        data@ == entries_data(stream@, block.dl_data@, little_endian) + chain_data(
                            stream@,
                            addrs.take(i - 1),
                            little_endian,
                        ),
                    decreases dl_list@.len() - i,
                {
                    assert(dl_list@[(i - 1) + 1].encoded_at(stream@, addrs[i - 1], little_endian));
                    let mut block_data: Vec<u8> = dl_list[i].data_array(stream, little_endian);
                    data.append(&mut block_data);
                    assert(addrs.take(i as int).drop_last() =~= addrs.take(i - 1));
                    i = i + 1;
                }
                assert(addrs.take(i - 1) =~= addrs);
                data
            },
            DataBlockType::HList(block) => block.read_data(stream, little_endian),
        }
    }

    /// Where the block is a data list block, following its next links reaches a null link;
    /// where it is a header list, so does following them from its first link.
    pub open spec fn spec_chain_ends(&self, stream: Seq<u8>, little_endian: bool) -> bool {
        match self {
            DataBlockType::List(b) => b.spec_chain_ends(stream, little_endian),
            DataBlockType::HList(b) => b.spec_chain_ends(stream, little_endian),
            _ => true,
        }
    }

    /// Whether reading the data of the block from `stream` succeeds.
    pub fn data_available(&self, stream: &[u8], little_endian: bool) -> (r: bool)
        requires
            self.spec_chain_ends(stream@, little_endian),
        ensures
            r == self.spec_data_available(stream@, little_endian),
    {
        match self {
            DataBlockType::Block(_) => true,
            DataBlockType::BlockComp(block) => block.data_available(),
            DataBlockType::List(block) => {
                let ghost addrs = dl_chain_addrs(stream@, block.dl_dl_next as int, little_endian);
                let dl_list: Vec<Dlblock> = block.list(stream, little_endian);
                if !entries_available(stream, &block.dl_data, little_endian) {
                    return false;
                }
                let mut i: usize = 1;
                while i < dl_list.len()
                    invariant
                        1 <= i <= dl_list@.len(),
                        dl_list@.len() == 1 + addrs.len(),
                        forall|k: int|
                            0 <= k < addrs.len() ==> #[trigger] dl_list@[k + 1].encoded_at(
                                stream@,
                                addrs[k],
                                little_endian,
                            ),
                        addrs == dl_chain_addrs(stream@, block.dl_dl_next as int, little_endian),
                        *self == DataBlockType::List(*block),
                        forall|k: int|
                            0 <= k < i - 1 ==> entries_ok(
                                stream@,
                                dl_data_at(stream@, #[trigger] addrs[k], little_endian),
                                little_endian,
                            ),
                    decreases dl_list@.len() - i,
                {
                    assert(dl_list@[(i - 1) + 1].encoded_at(stream@, addrs[i - 1], little_endian));
                    if !entries_available(stream, &dl_list[i].dl_data, little_endian) {
                        assert(!entries_ok(
                            stream@,
                            dl_data_at(stream@, addrs[i - 1], little_endian),
                            little_endian,
                        ));
                        return false;
                    }
                    i = i + 1;
                }
                true
            },
            DataBlockType::HList(block) => block.data_available(stream, little_endian),
        }
    }

    /// The data of the block, where reading it succeeds; nothing where it does not.
    pub fn try_data_array(&self, stream: &[u8], little_endian: bool) -> (d: Option<Vec<u8>>)
        requires
            self.spec_chain_ends(stream@, little_endian),
        ensures
            d is Some <==> self.spec_data_available(stream@, little_endian),
            d matches Some(v) ==> v@ == self.spec_data(stream@, little_endian),
    {
        if self.data_available(stream, little_endian) {
            Some(self.data_array(stream, little_endian))
        } else {
            None
        }
    }

    /// Reads the data block at `position`, whose kind its identifier gives:
    /// `##DT`, `##DZ`, `##DL` or `##HL`.
    pub fn read(stream: &[u8], position: usize, little_endian: bool) -> (r: Self)
        requires
            data_block_parses(stream@, position as int, little_endian),
        ensures
            r.encoded_at(stream@, position as int, little_endian),
    {
        proof {
            lemma_slice_len(stream);
        }
        let c1: u8 = stream[position + 2];
        let c2: u8 = stream[position + 3];
        if c1 == 68u8 && c2 == 84u8 {
            let (_, block) = Dtblock::read(stream, position, little_endian).unwrap();
            DataBlockType::Block(block)
        } else if c1 == 68u8 && c2 == 90u8 {
            let (_, block) = Dzblock::read(stream, position, little_endian).unwrap();
            DataBlockType::BlockComp(block)
        } else if c1 == 68u8 && c2 == 76u8 {
            let (_, block) = Dlblock::read(stream, position, little_endian).unwrap();
            DataBlockType::List(block)
        } else {
            let (_, block) = Hlblock::read(stream, position, little_endian).unwrap();
            DataBlockType::HList(block)
        }
    }
}

/// The data of a data list block is the data of the blocks that `list` gives for it, one
/// after another, and reading it succeeds exactly where the chain ends and reading the data
/// of each of those blocks succeeds.
pub proof fn lemma_list_data(dl: Dlblock, blocks: Seq<Dlblock>, stream: Seq<u8>, little_endian: bool)
    requires
        dl.lists(blocks, stream, little_endian),
    ensures
        DataBlockType::List(dl).spec_data(stream, little_endian) == blocks_data(
            blocks,
            stream,
            little_endian,
        ),
        DataBlockType::List(dl).spec_data_available(stream, little_endian) <==> {
            &&& dl.spec_chain_ends(stream, little_endian)
            &&& forall|i: int|
                0 <= i < blocks.len() ==> (#[trigger] blocks[i]).spec_data_available(
                    stream,
                    little_endian,
                )
        },
{
    let addrs = dl_chain_addrs(stream, dl.dl_dl_next as int, little_endian);
    lemma_blocks_data_prefix(dl, blocks, stream, little_endian, addrs.len() as int);
    assert(blocks.take(blocks.len() as int) =~= blocks);
    assert(addrs.take(addrs.len() as int) =~= addrs);
    if forall|i: int| 0 <= i < blocks.len() ==> (#[trigger] blocks[i]).spec_data_available(stream, little_endian) {
        assert(blocks[0].spec_data_available(stream, little_endian));
        assert forall|i: int| 0 <= i < addrs.len() implies entries_ok(
            stream,
            dl_data_at(stream, #[trigger] addrs[i], little_endian),
            little_endian,
        ) by {
            assert(blocks[i + 1].encoded_at(stream, addrs[i], little_endian));
            assert(blocks[i + 1].spec_data_available(stream, little_endian));
        }
    }
    if DataBlockType::List(dl).spec_data_available(stream, little_endian) {
        assert forall|i: int| 0 <= i < blocks.len() implies (#[trigger] blocks[i]).spec_data_available(
            stream,
            little_endian,
        ) by {
            if i > 0 {
                assert(blocks[(i - 1) + 1].encoded_at(stream, addrs[i - 1], little_endian));
            }
        }
    }
}

/// The block that `read` gives at a position has the kind that the identifier there names,
/// and has the fields of the block that reading that one kind there gives.
pub proof fn lemma_read_kind(r: DataBlockType, stream: Seq<u8>, pos: int, little_endian: bool)
    requires
        0 <= pos,
        r.encoded_at(stream, pos, little_endian),
    ensures
        r is Block <==> has_block_id(stream, pos, 68u8, 84u8),
        r is BlockComp <==> has_block_id(stream, pos, 68u8, 90u8),
        r is List <==> has_block_id(stream, pos, 68u8, 76u8),
        r is HList <==> has_block_id(stream, pos, 72u8, 76u8),
        forall|b: Dtblock|
            #[trigger] b.encoded_at(stream, pos, little_endian) && Dtblock::spec_parses(
                stream,
                pos,
                little_endian,
            ) ==> (r matches DataBlockType::Block(x) && x.same_fields(&b)),
        forall|b: Dzblock|
            #[trigger] b.encoded_at(stream, pos, little_endian) && Dzblock::spec_parses(
                stream,
                pos,
                little_endian,
            ) ==> (r matches DataBlockType::BlockComp(x) && x.same_fields(&b)),
        forall|b: Dlblock|
            #[trigger] b.encoded_at(stream, pos, little_endian) && dl_parses(stream, pos, little_endian)
                ==> (r matches DataBlockType::List(x) && x.same_fields(&b)),
        forall|b: Hlblock|
            #[trigger] b.encoded_at(stream, pos, little_endian) && Hlblock::spec_parses(
                stream,
                pos,
                little_endian,
            ) ==> (r matches DataBlockType::HList(x) && x.same_fields(&b)),
{
    match r {
        DataBlockType::Block(x) => {
            assert forall|b: Dtblock| #[trigger] b.encoded_at(stream, pos, little_endian) implies x.same_fields(&b) by {
                lemma_encoded_unique(x.header, b.header, stream, pos, little_endian);
            }
        },
        DataBlockType::BlockComp(x) => {
            assert forall|b: Dzblock| #[trigger] b.encoded_at(stream, pos, little_endian) implies x.same_fields(&b) by {
                lemma_encoded_unique(x.header, b.header, stream, pos, little_endian);
            }
        },
        DataBlockType::List(x) => {
            assert forall|b: Dlblock| #[trigger] b.encoded_at(stream, pos, little_endian) implies x.same_fields(&b) by {
                lemma_encoded_unique(x.header, b.header, stream, pos, little_endian);
                assert(x.dl_reserved =~= b.dl_reserved);
            }
        },
        DataBlockType::HList(x) => {
            assert forall|b: Hlblock| #[trigger] b.encoded_at(stream, pos, little_endian) implies x.same_fields(&b) by {
                lemma_encoded_unique(x.header, b.header, stream, pos, little_endian);
                assert(x.hl_reserved =~= b.hl_reserved);
            }
        },
    }
}

} // verus!
