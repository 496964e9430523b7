//! The blocks of an MDF 4 file and how they are read from its bytes.

pub mod block;
pub mod block_header;
pub mod utils;
pub mod mdf4_enums;
pub mod mdf4_file;
pub mod fh_block;
pub mod si_block;
pub mod id_block;
pub mod md_block;
pub mod tx_block;
pub mod dv_block;
pub mod dz_block;
pub mod dt_block;
pub mod hl_block;
pub mod dl_block;
pub mod data_block;
pub mod channel;

use vstd::prelude::*;

use block::Block;
use block_header::{has_block_marker, header_length, marker_error, BlockHeader};
use channel::{apply_lines, md_ok, md_text, Channel, ChannelFields};
use md_block::{md_error, Mdblock};
use crate::text::{str_eq, text_lines};

verus! {

/// What a channel starts as before its metadata is read: no name, description or unit.
pub open spec fn blank_fields() -> ChannelFields {
    (Seq::empty(), Seq::empty(), Seq::empty())
}

/// Every metadata block met when reading one block after another from `pos` to the end
/// can be read (in little-endian byte order) without looking past the end.
pub open spec fn md_run_readable(bytes: Seq<u8>, pos: int) -> bool
    decreases bytes.len() - pos,
{
    if pos < 0 || pos >= bytes.len() {
        true
    } else if !Mdblock::spec_readable(bytes, pos, true) {
        false
    } else if !md_ok(bytes, pos) {
        true
    } else {
        md_run_readable(bytes, pos + header_length(bytes, pos, true))
    }
}

/// The channels that metadata blocks read one after another from `pos` to the end give,
/// and the message of the first block that is not read without error, if any: the
/// channels stop there.
pub open spec fn md_run(bytes: Seq<u8>, pos: int) -> (Seq<ChannelFields>, Option<Seq<char>>)
    decreases (if pos < bytes.len() {
        bytes.len() - pos
    } else {
        0
    }),
{
    if pos < 0 || pos >= bytes.len() {
        (Seq::empty(), None)
    } else if !md_ok(bytes, pos) {
        (Seq::empty(), Some(md_error(bytes, pos)))
    } else {
        let channel = apply_lines(blank_fields(), text_lines(md_text(bytes, pos)));
        let rest = md_run(bytes, pos + header_length(bytes, pos, true));
        (seq![channel] + rest.0, rest.1)
    }
}

/// Where the `k`-th block of a run of metadata blocks read one after another from `pos`
/// starts (`pos` itself for the first).
pub open spec fn md_pos(bytes: Seq<u8>, pos: int, k: nat) -> int
    decreases k,
{
    if k == 0 {
        pos
    } else {
        md_pos(bytes, pos + header_length(bytes, pos, true), (k - 1) as nat)
    }
}

/// Each channel of a run of metadata blocks is what its own block gives a blank channel:
/// the `k`-th channel starts blank and takes only the lines of the `k`-th block, whatever
/// the blocks before it hold; that block reads without error.
pub proof fn lemma_md_run_channels(bytes: Seq<u8>, pos: int, k: nat)
    requires
        k < md_run(bytes, pos).0.len(),
    ensures
        md_ok(bytes, md_pos(bytes, pos, k)),
        md_run(bytes, pos).0[k as int] == apply_lines(
            blank_fields(),
            text_lines(md_text(bytes, md_pos(bytes, pos, k))),
        ),
    decreases k,
{
    if k > 0 {
        lemma_md_run_channels(bytes, pos + header_length(bytes, pos, true), (k - 1) as nat);
    }
}

/// Whether every metadata block met when reading one block after another from `pos` to the
/// end can be read without looking past the end.
pub fn metadata_readable(bytes: &[u8], pos: usize) -> (r: bool)
    ensures
        r == md_run_readable(bytes@, pos as int),
{
    let len: usize = bytes.len();
    let mut p: usize = pos;
    while p < len
        invariant
            bytes@.len() == len,
            md_run_readable(bytes@, p as int) == md_run_readable(bytes@, pos as int),
        decreases len - p,
    {
        if len - p < 24 {
            return false;
        }
        let is_md: bool = bytes[p] == 35u8 && bytes[p + 1] == 35u8 && bytes[p + 2] == 77u8
            && bytes[p + 3] == 68u8;
        let length: u64 = utils::read_uint(bytes, p + 8, 8, true);
        if !is_md || length < 24 {
            return true;
        }
        if length > (len - p) as u64 {
            return false;
        }
        p = p + length as usize;
    }
    true
}

/// The channels of a file whose blocks after the first are metadata blocks, one per channel.
pub struct MDF4 {
    channels: Vec<Channel>,
}

impl View for MDF4 {
    type V = Seq<ChannelFields>;

    closed spec fn view(&self) -> Seq<ChannelFields> {
        self.channels@.map_values(|c: Channel| c@)
    }
}

impl MDF4 {
    /// A file without channels.
    pub fn new() -> (m: Self)
        ensures
            m@ == Seq::<ChannelFields>::empty(),
    {
        let m = Self { channels: Vec::new() };
        assert(m@ =~= Seq::<ChannelFields>::empty());
        m
    }

    /// Reads the bytes of a file: a block header (in little-endian byte order), then
    /// metadata blocks to the end, each of which adds a channel.
    pub fn read_bytes(&mut self, bytes: &[u8]) -> (res: Result<(), String>)
        requires
            24 <= bytes@.len(),
            has_block_marker(bytes@, 0) ==> md_run_readable(bytes@, 24),
        ensures
            res is Ok <==> has_block_marker(bytes@, 0) && md_run(bytes@, 24).1 is None,
            res matches Err(e) ==> e@ == (if has_block_marker(bytes@, 0) {
                md_run(bytes@, 24).1->0
            } else {
                marker_error()
            }),
            final(self)@ == old(self)@ + (if has_block_marker(bytes@, 0) {
                md_run(bytes@, 24).0
            } else {
                Seq::empty()
            }),
            forall|k: int|
                old(self)@.len() <= k < final(self)@.len() ==> final(self)@[k] == apply_lines(
                    blank_fields(),
                    text_lines(md_text(bytes@, md_pos(bytes@, 24, (k - old(self)@.len()) as nat))),
                ),
    {
        let ghost before = self@;
        let (start, _header) = match BlockHeader::read(bytes, 0, true) {
            Ok(r) => r,
            Err(e) => {
                assert(self@ =~= before + Seq::<ChannelFields>::empty());
                return Err(e);
            },
        };
        let mut pos: usize = start;
        while pos < bytes.len()
            invariant
                pos <= bytes@.len() || pos == start,
                start == 24,
                has_block_marker(bytes@, 0),
                before == old(self)@,
                md_run_readable(bytes@, pos as int),
                self@ + md_run(bytes@, pos as int).0 == before + md_run(bytes@, 24).0,
                md_run(bytes@, pos as int).1 == md_run(bytes@, 24).1,
            decreases bytes@.len() - pos,
        {
            let ghost prev = self@;
            let mut channel = Channel::new(String::new(), String::new(), String::new());
            let end: usize = match channel.read_metadata(bytes, pos) {
                Ok(end) => end,
                Err(e) => {
                    assert(self@ =~= before + md_run(bytes@, 24).0);
                    proof {
                    assert forall|k: int| before.len() <= k < self@.len() implies self@[k] == apply_lines(
                        blank_fields(),
                        text_lines(md_text(bytes@, md_pos(bytes@, 24, (k - before.len()) as nat))),
                    ) by {
                        lemma_md_run_channels(bytes@, 24, (k - before.len()) as nat);
                    }
                }
                    return Err(e);
                },
            };
            self.channels.push(channel);
            assert(self@ =~= prev.push(channel@));
            assert(self@ + md_run(bytes@, end as int).0 =~= prev + md_run(bytes@, pos as int).0);
            pos = end;
        }
        assert(self@ =~= before + md_run(bytes@, 24).0);
        proof {
            assert forall|k: int| before.len() <= k < self@.len() implies self@[k] == apply_lines(
                blank_fields(),
                text_lines(md_text(bytes@, md_pos(bytes@, 24, (k - before.len()) as nat))),
            ) by {
                lemma_md_run_channels(bytes@, 24, (k - before.len()) as nat);
            }
        }
        Ok(())
    }

    /// The channels read so far.
    pub fn channels(&self) -> (cs: &[Channel])
        ensures
            cs@.map_values(|c: Channel| c@) == self@,
    {
        self.channels.as_slice()
    }

    /// The first channel with the given name, where there is one.
    pub fn channel_by_name(&self, name: &str) -> (found: Option<&Channel>)
        ensures
            found is None <==> forall|i: int| 0 <= i < self@.len() ==> (#[trigger] self@[i]).0 != name@,
            found matches Some(c) ==> exists|i: int|
                0 <= i < self@.len() && self@[i] == c@ && c@.0 == name@ && forall|j: int|
                    0 <= j < i ==> (#[trigger] self@[j]).0 != name@,
    {
        let mut i: usize = 0;
        while i < self.channels.len()
            invariant
                i <= self.channels@.len(),
                self@.len() == self.channels@.len(),
                forall|k: int| 0 <= k < self@.len() ==> self@[k] == (#[trigger] self.channels@[k])@,
                forall|j: int| 0 <= j < i ==> (#[trigger] self@[j]).0 != name@,
            decreases self.channels@.len() - i,
        {
            if str_eq(self.channels[i].name(), name) {
                return Some(&self.channels[i]);
            }
            i = i + 1;
        }
        None
    }
}

} // verus!
