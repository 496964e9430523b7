//! Links between blocks, and what is reported of channels and channel groups.

use vstd::prelude::*;

use super::block::Block;
use super::block_header::{has_block_id, header_length, header_link_count, BlockHeader};
use super::fh_block::Fhblock;
use super::md_block::{lemma_md_text_bytes, md_text_bytes, Mdblock};
use super::tx_block::{tx_ok, Txblock};
use super::utils::{lemma_slice_len, lemma_uint_at_u64, read_uint, uint_at};
use super::mdf4_enums::{bus_type_name, bus_type_of, source_type_name, source_type_of};
use super::si_block::{si_fields_pos, Siblock};
use crate::mdf::SourceInformation;
use crate::text::lossy_utf8;

verus! {

/// The `n` links (eight-byte addresses) stored one after another from `pos`.
pub open spec fn links_at(bytes: Seq<u8>, pos: int, n: nat, little_endian: bool) -> Seq<u64> {
    Seq::new(n, |i: int| uint_at(bytes, pos + 8 * i, 8, little_endian) as u64)
}

/// Reads the `no_links` links stored from `position`, and the position right after them.
pub fn link_extract(stream: &[u8], position: usize, little_endian: bool, no_links: u64) -> (res: (
    usize,
    Vec<u64>,
))
    requires
        position + 8 * no_links <= stream@.len(),
    ensures
        res.0 == position + 8 * no_links,
        res.1@ == links_at(stream@, position as int, no_links as nat, little_endian),
{
    let len: usize = stream.len();
    let mut links: Vec<u64> = Vec::new();
    let mut pos: usize = position;
    let mut i: u64 = 0;
    while i < no_links
        invariant
            i <= no_links,
            position + 8 * no_links <= stream@.len(),
            stream@.len() == len,
            pos == position + 8 * i,
            links@.len() == i,
            forall|k: int|
                0 <= k < i ==> #[trigger] links@[k] == uint_at(
                    stream@,
                    position + 8 * k,
                    8,
                    little_endian,
                ),
        decreases no_links - i,
    {
        let address: u64 = read_uint(stream, pos, 8, little_endian);
        links.push(address);
        pos = pos + 8;
        i = i + 1;
    }
    assert(links@ =~= links_at(stream@, position as int, no_links as nat, little_endian));
    (pos, links)
}

/// A text block that lies within the bytes is stored at `pos`.
pub open spec fn tx_within(bytes: Seq<u8>, pos: int, little_endian: bool) -> bool {
    pos + 24 <= bytes.len() && tx_ok(bytes, pos, little_endian) && pos + header_length(
        bytes,
        pos,
        little_endian,
    ) <= bytes.len()
}

/// The bytes hold all that reading the comment block at `pos` looks at: a file history
/// block with its links, a metadata block, a file history record block's header, or
/// another block whose length is at least that of a header.
pub open spec fn comment_readable(bytes: Seq<u8>, pos: int, little_endian: bool) -> bool {
    pos + 4 <= bytes.len() ==> {
        &&& pos + 24 <= bytes.len()
        &&& has_block_id(bytes, pos, 70u8, 72u8) ==> pos + 24 + 8 * header_link_count(
            bytes,
            pos,
            little_endian,
        ) <= bytes.len()
        &&& has_block_id(bytes, pos, 77u8, 68u8) ==> header_length(bytes, pos, little_endian)
            >= 24 && pos + header_length(bytes, pos, little_endian) <= bytes.len()
        &&& !has_block_id(bytes, pos, 70u8, 72u8) && !has_block_id(bytes, pos, 77u8, 68u8)
            && !has_block_id(bytes, pos, 70u8, 82u8) ==> header_length(bytes, pos, little_endian)
            >= 24 && pos + header_length(bytes, pos, little_endian) <= usize::MAX
    }
}

/// The position after the comment block at `pos` and the comment it gives: for a file
/// history block, the text of the text block its first link leads to (where that is a text
/// block within the bytes); for a metadata block, its text; for a file history record block
/// or another block, no text. Where fewer than four bytes are left, there is no block.
pub open spec fn comment_at(bytes: Seq<u8>, pos: int, little_endian: bool) -> (int, Seq<char>) {
    if pos + 4 > bytes.len() {
        (pos, Seq::empty())
    } else if has_block_id(bytes, pos, 70u8, 72u8) {
        let link_count = header_link_count(bytes, pos, little_endian);
        let tx = (uint_at(bytes, pos + 24, 8, little_endian) as u64) as usize as int;
        (
            pos + 24 + 8 * link_count,
            if link_count > 0 && tx_within(bytes, tx, little_endian) {
                lossy_utf8(md_text_bytes(bytes, tx, little_endian))
            } else {
                Seq::empty()
            },
        )
    } else if has_block_id(bytes, pos, 77u8, 68u8) {
        (
            pos + header_length(bytes, pos, little_endian),
            lossy_utf8(md_text_bytes(bytes, pos, little_endian)),
        )
    } else if has_block_id(bytes, pos, 70u8, 82u8) {
        (pos + 24, Seq::empty())
    } else {
        (pos + header_length(bytes, pos, little_endian), Seq::empty())
    }
}

/// The comment of a metadata block is its whole text: the bytes after its header up to
/// `j`, the first zero byte or, where there is none, the block's end, as UTF-8 with
/// invalid sequences replaced. The position after it is its end.
pub proof fn lemma_metadata_comment_is_whole_text(bytes: Seq<u8>, pos: int, little_endian: bool, j: int)
    requires
        0 <= pos,
        has_block_id(bytes, pos, 77u8, 68u8),
        pos + 24 <= j <= pos + header_length(bytes, pos, little_endian) <= bytes.len(),
        forall|k: int| pos + 24 <= k < j ==> bytes[k] != 0,
        j < pos + header_length(bytes, pos, little_endian) ==> bytes[j] == 0,
    ensures
        comment_at(bytes, pos, little_endian) == (
            pos + header_length(bytes, pos, little_endian),
            lossy_utf8(bytes.subrange(pos + 24, j)),
        ),
{
    lemma_md_text_bytes(bytes, pos, little_endian, j);
}

/// The comment of a file history block whose first link leads to a text block within the
/// bytes is that text block's whole text: the bytes after its header up to `j`, the first
/// zero byte or, where there is none, the block's end, as UTF-8 with invalid sequences
/// replaced.
pub proof fn lemma_history_comment_is_whole_text(bytes: Seq<u8>, pos: int, little_endian: bool, j: int)
    requires
        0 <= pos,
        pos + 32 <= bytes.len(),
        has_block_id(bytes, pos, 70u8, 72u8),
        header_link_count(bytes, pos, little_endian) > 0,
        tx_within(bytes, link_pos(uint_at(bytes, pos + 24, 8, little_endian) as u64), little_endian),
        ({
            let t = link_pos(uint_at(bytes, pos + 24, 8, little_endian) as u64);
            &&& t + 24 <= j <= t + header_length(bytes, t, little_endian)
            &&& forall|k: int| t + 24 <= k < j ==> bytes[k] != 0
            &&& j < t + header_length(bytes, t, little_endian) ==> bytes[j] == 0
        }),
    ensures
        comment_at(bytes, pos, little_endian).1 == lossy_utf8(
            bytes.subrange(link_pos(uint_at(bytes, pos + 24, 8, little_endian) as u64) + 24, j),
        ),
{
    let t = link_pos(uint_at(bytes, pos + 24, 8, little_endian) as u64);
    lemma_md_text_bytes(bytes, t, little_endian, j);
}

/// Reads the block that holds the file comment, at `position`: a file history block
/// (whose first link leads to a text block), a metadata block, or a file history record
/// block; another block is passed over. Gives the position after the block and the comment.
pub fn read_metadata(stream: &[u8], position: usize, little_endian: bool) -> (res: (usize, String))
    requires
        comment_readable(stream@, position as int, little_endian),
    ensures
        res.0 == comment_at(stream@, position as int, little_endian).0,
        res.1@ == comment_at(stream@, position as int, little_endian).1,
{
    proof {
        lemma_slice_len(stream);
    }
    let len: usize = stream.len();
    let mut pos: usize = position;
    let mut comment: String = String::new();
    if pos > len || len - pos < 4 {
        return (pos, comment);
    }
    let c1: u8 = stream[pos + 2];
    let c2: u8 = stream[pos + 3];
    let marked: bool = stream[pos] == 35u8 && stream[pos + 1] == 35u8;
    if marked && c1 == 70u8 && c2 == 72u8 {
        let (new_pos, fh_block) = Fhblock::read(stream, pos, little_endian).unwrap();
        pos = new_pos;
        if let Some(tx_pos) = fh_block.comment_addr() {
            proof {
                lemma_uint_at_u64(stream@, position + 24, little_endian);
            }
            if let Ok((_, tx_block)) = Txblock::try_read(stream, tx_pos as usize, little_endian) {
                comment = tx_block.text();
            }
        }
    } else if marked && c1 == 77u8 && c2 == 68u8 {
        let (new_pos, md_block) = Mdblock::read(stream, pos, little_endian).unwrap();
        pos = new_pos;
        comment = md_block.text();
    } else if marked && c1 == 70u8 && c2 == 82u8 {
        let (new_pos, _) = BlockHeader::read(stream, pos, little_endian).unwrap();
        pos = new_pos;
    } else {
        let length: u64 = read_uint(stream, pos + 8, 8, little_endian);
        pos = pos + 24 + (length as usize - 24);
    }
    (pos, comment)
}

/// A link, read as a position in the bytes.
pub open spec fn link_pos(link: u64) -> int {
    (link as usize) as int
}

/// The link is null, or leads to a text block within the bytes.
pub open spec fn linked_text_readable(bytes: Seq<u8>, link: u64, little_endian: bool) -> bool {
    link == 0 || tx_within(bytes, link_pos(link), little_endian)
}

/// The text of the text block that `link` leads to; none where the link is null.
pub open spec fn linked_text(bytes: Seq<u8>, link: u64, little_endian: bool) -> Seq<char> {
    if link == 0 {
        Seq::empty()
    } else {
        lossy_utf8(md_text_bytes(bytes, link_pos(link), little_endian))
    }
}

/// The text of the text block that `link` leads to; none where the link is null.
pub fn text_at(file: &[u8], link: u64, little_endian: bool) -> (s: String)
    requires
        linked_text_readable(file@, link, little_endian),
    ensures
        s@ == linked_text(file@, link, little_endian),
{
    if link == 0 {
        String::new()
    } else {
        let (_, tx_block) = Txblock::read(file, link as usize, little_endian).unwrap();
        tx_block.text()
    }
}

/// The first link (to the name) of the source information block at `pos`.
pub open spec fn si_name_link(bytes: Seq<u8>, pos: int, little_endian: bool) -> u64 {
    uint_at(bytes, pos + 24, 8, little_endian) as u64
}

/// The second link (to the path) of the source information block at `pos`.
pub open spec fn si_path_link(bytes: Seq<u8>, pos: int, little_endian: bool) -> u64 {
    uint_at(bytes, pos + 32, 8, little_endian) as u64
}

/// A source information block that reads without error is stored at `pos`, and its name
/// link is null or leads to a text block within the bytes.
pub open spec fn si_name_ok(bytes: Seq<u8>, pos: int, little_endian: bool) -> bool {
    &&& Siblock::spec_readable(bytes, pos, little_endian)
    &&& has_block_id(bytes, pos, 83u8, 73u8)
    &&& bytes[si_fields_pos(bytes, pos, little_endian)] <= 5
    &&& bytes[si_fields_pos(bytes, pos, little_endian) + 1] <= 8
    &&& linked_text_readable(bytes, si_name_link(bytes, pos, little_endian), little_endian)
}

/// A source information block that reads without error is stored at `pos`, and its name
/// and path links are null or lead to text blocks within the bytes.
pub open spec fn si_source_ok(bytes: Seq<u8>, pos: int, little_endian: bool) -> bool {
    &&& si_name_ok(bytes, pos, little_endian)
    &&& linked_text_readable(bytes, si_path_link(bytes, pos, little_endian), little_endian)
}

/// Reads the source information block at `pos` and the text of its name.
fn read_source_name(file: &[u8], pos: usize, little_endian: bool) -> (res: (Siblock, String))
    requires
        si_name_ok(file@, pos as int, little_endian),
    ensures
        res.0.encoded_at(file@, pos as int, little_endian),
        res.0.si_tx_path == si_path_link(file@, pos as int, little_endian),
        res.1@ == linked_text(file@, si_name_link(file@, pos as int, little_endian), little_endian),
{
    let (_, si_block) = Siblock::read(file, pos, little_endian).unwrap();
    proof {
        lemma_uint_at_u64(file@, pos + 24, little_endian);
        lemma_uint_at_u64(file@, pos + 32, little_endian);
    }
    let source_name: String = text_at(file, si_block.si_tx_name, little_endian);
    (si_block, source_name)
}

/// Reads the source information block at `pos` and the texts of its name and path.
fn read_source(file: &[u8], pos: usize, little_endian: bool) -> (res: (Siblock, String, String))
    requires
        si_source_ok(file@, pos as int, little_endian),
    ensures
        res.0.encoded_at(file@, pos as int, little_endian),
        res.1@ == linked_text(file@, si_name_link(file@, pos as int, little_endian), little_endian),
        res.2@ == linked_text(file@, si_path_link(file@, pos as int, little_endian), little_endian),
{
    let (si_block, source_name) = read_source_name(file, pos, little_endian);
    let source_path: String = text_at(file, si_block.si_tx_path, little_endian);
    (si_block, source_name, source_path)
}

/// `r` is what is read of the source information block that `si_link` leads to: none
/// where the link is null, else its source type, bus type, and the texts of its name and
/// path.
pub open spec fn source_information_result(
    file: Seq<u8>,
    si_link: u64,
    little_endian: bool,
    r: Option<SourceInformation>,
) -> bool {
    &&& r is None <==> si_link == 0
    &&& r matches Some(info) ==> {
        let p = link_pos(si_link);
        let f = si_fields_pos(file, p, little_endian);
        &&& info.source_type == source_type_of(file[f])
        &&& info.bus_type == bus_type_of(file[f + 1])
        &&& info.source_name@ == linked_text(file, si_name_link(file, p, little_endian), little_endian)
        &&& info.source_path@ == linked_text(file, si_path_link(file, p, little_endian), little_endian)
    }
}

/// `r` is what is reported as text of the source information block that `si_link` leads
/// to: none where the link is null, else the names of its source type and bus type, and
/// the texts of its name and path.
pub open spec fn group_metadata_result(
    file: Seq<u8>,
    si_link: u64,
    little_endian: bool,
    r: Option<ChannelGroupMetadata>,
) -> bool {
    &&& r is None <==> si_link == 0
    &&& r matches Some(m) ==> {
        let p = link_pos(si_link);
        let f = si_fields_pos(file, p, little_endian);
        &&& m.source_type@ == source_type_name(source_type_of(file[f]))
        &&& m.bus_type@ == bus_type_name(bus_type_of(file[f + 1]))
        &&& m.source_name@ == linked_text(file, si_name_link(file, p, little_endian), little_endian)
        &&& m.source_path@ == linked_text(file, si_path_link(file, p, little_endian), little_endian)
    }
}

/// The text that a non-null link leads to is the whole text of that text block: the bytes
/// after its header up to `j`, the first zero byte or, where there is none, the block's
/// end, as UTF-8 with invalid sequences replaced.
pub proof fn lemma_linked_text_is_whole_text(bytes: Seq<u8>, link: u64, little_endian: bool, j: int)
    requires
        link != 0,
        tx_within(bytes, link_pos(link), little_endian),
        link_pos(link) + 24 <= j <= link_pos(link) + header_length(bytes, link_pos(link), little_endian),
        forall|k: int| link_pos(link) + 24 <= k < j ==> bytes[k] != 0,
        j < link_pos(link) + header_length(bytes, link_pos(link), little_endian) ==> bytes[j] == 0,
    ensures
        linked_text(bytes, link, little_endian) == lossy_utf8(bytes.subrange(link_pos(link) + 24, j)),
{
    lemma_md_text_bytes(bytes, link_pos(link), little_endian, j);
}

/// Where the signals were acquired, from the source information block that `si_link`
/// leads to: its source type, bus type, and the texts of its name and path. None where the
/// link is null.
pub fn source_information_at(file: &[u8], si_link: u64, little_endian: bool) -> (r: Option<
    SourceInformation,
>)
    requires
        si_link == 0 || si_source_ok(file@, link_pos(si_link), little_endian),
    ensures
        source_information_result(file@, si_link, little_endian, r),
{
    if si_link == 0 {
        return None;
    }
    let (si_block, source_name, source_path) = read_source(file, si_link as usize, little_endian);
    Some(
        SourceInformation {
            source_type: si_block.si_type,
            bus_type: si_block.si_bus_type,
            source_name,
            source_path,
        },
    )
}

/// Where the signals of a channel group were acquired, as text, from the source
/// information block that `si_link` leads to. None where the link is null.
pub fn channel_group_metadata_at(file: &[u8], si_link: u64, little_endian: bool) -> (r: Option<
    ChannelGroupMetadata,
>)
    requires
        si_link == 0 || si_source_ok(file@, link_pos(si_link), little_endian),
    ensures
        group_metadata_result(file@, si_link, little_endian, r),
{
    if si_link == 0 {
        return None;
    }
    let (si_block, source_name, source_path) = read_source(file, si_link as usize, little_endian);
    Some(
        ChannelGroupMetadata {
            source_type: si_block.si_type.name(),
            source_name,
            source_path,
            bus_type: si_block.si_bus_type.name(),
        },
    )
}

/// The description, unit and source name of a channel, from the text blocks that its
/// comment and unit links lead to and from the source information block that its source
/// link leads to; each is empty where its link is null.
pub fn channel_metadata_at(
    file: &[u8],
    md_comment: u64,
    md_unit: u64,
    si_source: u64,
    little_endian: bool,
) -> (m: ChannelMetadata)
    requires
        linked_text_readable(file@, md_comment, little_endian),
        linked_text_readable(file@, md_unit, little_endian),
        si_source == 0 || si_name_ok(file@, link_pos(si_source), little_endian),
    ensures
        m.description@ == linked_text(file@, md_comment, little_endian),
        m.unit@ == linked_text(file@, md_unit, little_endian),
        m.source@ == (if si_source == 0 {
            Seq::<char>::empty()
        } else {
            linked_text(file@, si_name_link(file@, link_pos(si_source), little_endian), little_endian)
        }),
{
    let description: String = text_at(file, md_comment, little_endian);
    let unit: String = text_at(file, md_unit, little_endian);
    let source: String = if si_source != 0 {
        let (_, source_name) = read_source_name(file, si_source as usize, little_endian);
        source_name
    } else {
        String::new()
    };
    ChannelMetadata { description, unit, source }
}

/// What is reported as text of a source information block is what is read of it: both
/// are there or neither is, with the same name and path, and with the names of its source
/// type and bus type.
pub proof fn lemma_group_metadata_is_source_information(
    file: Seq<u8>,
    si_link: u64,
    little_endian: bool,
    m: Option<ChannelGroupMetadata>,
    s: Option<SourceInformation>,
)
    requires
        group_metadata_result(file, si_link, little_endian, m),
        source_information_result(file, si_link, little_endian, s),
    ensures
        m is Some <==> s is Some,
        m matches Some(g) ==> (s matches Some(i) ==> {
            &&& g.source_name@ == i.source_name@
            &&& g.source_path@ == i.source_path@
            &&& g.source_type@ == source_type_name(i.source_type)
            &&& g.bus_type@ == bus_type_name(i.bus_type)
        }),
{
}

/// The bytes of one value in each of `record_number` records of `record_size` bytes stored
/// one after another at the start of `data`: in each record, the `value_len` bytes from
/// `byte_offset`.
pub fn record_values(
    data: &[u8],
    record_number: usize,
    record_size: usize,
    byte_offset: usize,
    value_len: usize,
) -> (values: Vec<Vec<u8>>)
    requires
        record_number * record_size <= data@.len(),
        byte_offset + value_len <= record_size,
    ensures
        values@.len() == record_number,
        forall|i: int|
            0 <= i < record_number ==> (#[trigger] values@[i])@ == data@.subrange(
                i * record_size + byte_offset,
                i * record_size + byte_offset + value_len,
            ),
{
    proof {
        lemma_slice_len(data);
    }
    let mut values: Vec<Vec<u8>> = Vec::new();
    let mut pos: usize = 0;
    let mut i: usize = 0;
    while i < record_number
        invariant
            i <= record_number,
            pos == i * record_size,
            record_number * record_size <= data@.len(),
            data@.len() <= usize::MAX,
            byte_offset + value_len <= record_size,
            values@.len() == i,
            forall|k: int|
                0 <= k < i ==> (#[trigger] values@[k])@ == data@.subrange(
                    k * record_size + byte_offset,
                    k * record_size + byte_offset + value_len,
                ),
        decreases record_number - i,
    {
        assert((i + 1) * record_size <= record_number * record_size) by (nonlinear_arith)
            requires
                i < record_number,
        ;
        assert((i + 1) * record_size == i * record_size + record_size) by (nonlinear_arith);
        let start: usize = pos + byte_offset;
        let value: Vec<u8> = vstd::slice::slice_to_vec(
            vstd::slice::slice_subrange(data, start, start + value_len),
        );
        values.push(value);
        pos = pos + record_size;
        i = i + 1;
    }
    values
}

/// Where the signals of a channel group were acquired, as text.
#[derive(Debug, Clone)]
pub struct ChannelGroupMetadata {
    pub source_type: String,
    pub source_name: String,
    pub source_path: String,
    pub bus_type: String,
}

/// The description, unit and source of a channel.
#[derive(Debug, Clone)]
pub struct ChannelMetadata {
    pub description: String,
    pub unit: String,
    pub source: String,
}

} // verus!
