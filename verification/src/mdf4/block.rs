//! What every block of an MDF 4 file offers.

use vstd::prelude::*;

verus! {

/// A block that can be read from the bytes of an MDF 4 file.
///
/// Reading a block at a position gives back the position right after what was read,
/// which lies within the bytes.
pub trait Block: Sized {
    /// The number of bytes that the block takes up in the file.
    spec fn spec_byte_len(&self) -> nat;

    /// The bytes hold all that a read of this block at `pos` looks at.
    spec fn spec_readable(bytes: Seq<u8>, pos: int, little_endian: bool) -> bool;

    /// Reads the block that starts at `pos`.
    fn read(bytes: &[u8], pos: usize, little_endian: bool) -> (res: Result<(usize, Self), String>)
        requires
            Self::spec_readable(bytes@, pos as int, little_endian),
        ensures
            res matches Ok((end, block)) ==> pos <= end <= bytes@.len(),
    ;

    /// Reads the block that starts at `pos`; the same as `read`.
    fn read_at(bytes: &[u8], pos: usize, little_endian: bool) -> (res: Result<
        (usize, Self),
        String,
    >)
        requires
            Self::spec_readable(bytes@, pos as int, little_endian),
        ensures
            res matches Ok((end, block)) ==> pos <= end <= bytes@.len(),
    ;

    /// The number of bytes that the block takes up in the file.
    fn byte_len(&self) -> (n: usize)
        requires
            self.spec_byte_len() <= usize::MAX,
        ensures
            n == self.spec_byte_len(),
    ;
}

/// A block that links to the next block of its kind, so that the blocks form a chain.
pub trait LinkedBlock: Sized {
    /// The next link of this block is null, or leads to a block that can be read.
    spec fn spec_next_readable(&self, stream: Seq<u8>, little_endian: bool) -> bool;

    /// Following the next links from this block reaches a null link, every block on the
    /// way being readable.
    spec fn spec_chain_ends(&self, stream: Seq<u8>, little_endian: bool) -> bool;

    /// The block that the next link leads to, where the link is not null.
    fn next(&self, stream: &[u8], little_endian: bool) -> (r: Option<Self>)
        requires
            self.spec_next_readable(stream@, little_endian),
    ;

    /// This block and the blocks that follow it in the chain, in order.
    fn list(&self, stream: &[u8], little_endian: bool) -> (r: Vec<Self>)
        requires
            self.spec_chain_ends(stream@, little_endian),
        ensures
            r@.len() >= 1,
    ;
}

/// A block that holds record data.
pub trait DataBlock {
    /// Reading the data of the block from `stream` succeeds.
    spec fn spec_data_available(&self, stream: Seq<u8>, little_endian: bool) -> bool;

    /// The data of the block.
    spec fn spec_data(&self, stream: Seq<u8>, little_endian: bool) -> Seq<u8>;

    /// The data of the block, where the rest of the file is `stream`.
    fn data_array(&self, stream: &[u8], little_endian: bool) -> (d: Vec<u8>)
        requires
            self.spec_data_available(stream@, little_endian),
        ensures
            d@ == self.spec_data(stream@, little_endian),
    ;
}

} // verus!
