//! The format version of a measurement file, and its channels as a reader lists them.

use vstd::prelude::*;

use crate::mdf4::id_block::{has_mdf_file_id, is_mdf_file_id};
use crate::mdf4::mdf4_enums::{BusType, SourceType};
use crate::mdf4::utils::{lemma_slice_len, read_array};
use crate::text::{
    all_digits, decimal, has_substring, lemma_decimal_digits, lemma_decimal_injective,
    lemma_parse_decimal, lossy_utf8,
    parse_usize, parsed_usize, push_char, push_decimal, push_str, split_at_first, split_once_at,
    str_contains, str_eq, utf8_lossy,
};

verus! {

/// The major version of the MDF format that a file is written in.
#[derive(Debug, Clone, Copy, PartialEq, Eq, Structural)]
pub enum MDFVersion {
    MDF3,
    MDF4,
}

/// The major version number that the version text of an identification block starts with:
/// what `usize` parsing makes of the text before its first dot.
pub open spec fn spec_major_version(id_stream: Seq<u8>) -> Option<usize> {
    parsed_usize(split_at_first(lossy_utf8(id_stream.subrange(8, 16)), '.')[0])
}

/// The text before the first dot of the version text of the identification block at the
/// start of `id_stream`.
pub open spec fn major_version_text(id_stream: Seq<u8>) -> Seq<char> {
    split_at_first(lossy_utf8(id_stream.subrange(8, 16)), '.')[0]
}

/// The major version is the number written before the first dot of the version text,
/// whatever the rest of the text is: where that text is the decimal representation of `n`,
/// the major version is `n`, and a file of major version 3 is an MDF 3 file, of major
/// version 4 an MDF 4 file. Two version texts with the same part before the dot give the
/// same major version.
pub proof fn lemma_major_version(id_stream: Seq<u8>, n: nat)
    requires
        major_version_text(id_stream) == decimal(n),
        n <= usize::MAX,
    ensures
        spec_major_version(id_stream) == Some(n as usize),
        n == 3 ==> spec_major_version(id_stream) == Some(3usize),
        n == 4 ==> spec_major_version(id_stream) != Some(3usize),
        forall|other: Seq<u8>|
            major_version_text(other) == major_version_text(id_stream) ==> spec_major_version(
                other,
            ) == spec_major_version(id_stream),
{
    lemma_parse_decimal(n);
}

/// The file starts with the MDF identifier and a version text of major version 3 or 4.
pub open spec fn spec_known_version(id_stream: Seq<u8>) -> bool {
    &&& 64 <= id_stream.len()
    &&& has_mdf_file_id(id_stream, 0)
    &&& (spec_major_version(id_stream) == Some(3usize) || spec_major_version(id_stream) == Some(
        4usize,
    ))
}

/// The major version number at the start of the version text of the identification block
/// at the start of `id_stream`.
fn major_version(id_stream: &[u8]) -> (v: Option<usize>)
    requires
        16 <= id_stream@.len(),
    ensures
        v == spec_major_version(id_stream@),
{
    let id_vers: [u8; 8] = read_array::<8>(id_stream, 8);
    let text: String = utf8_lossy(id_vers.as_slice());
    let parts: Vec<&str> = split_once_at(text.as_str(), '.');
    parse_usize(parts[0])
}

/// The version of a file whose first bytes are `id_stream`: they must start with the MDF
/// identifier and a version text of major version 3 or 4.
pub fn check_version(id_stream: &[u8]) -> (v: MDFVersion)
    requires
        spec_known_version(id_stream@),
    ensures
        v == (if spec_major_version(id_stream@) == Some(3usize) {
            MDFVersion::MDF3
        } else {
            MDFVersion::MDF4
        }),
{
    match major_version(id_stream) {
        Some(3) => MDFVersion::MDF3,
        _ => MDFVersion::MDF4,
    }
}

/// The version of a file whose first bytes are `id_stream`, where they start with the MDF
/// identifier and a version text of major version 3 or 4; nothing otherwise.
pub fn version_of(id_stream: &[u8]) -> (v: Option<MDFVersion>)
    ensures
        v is Some <==> spec_known_version(id_stream@),
        v matches Some(version) ==> version == (if spec_major_version(id_stream@) == Some(3usize) {
            MDFVersion::MDF3
        } else {
            MDFVersion::MDF4
        }),
{
    proof {
        lemma_slice_len(id_stream);
    }
    if id_stream.len() < 64 {
        return None;
    }
    if !is_mdf_file_id(id_stream, 0) {
        return None;
    }
    match major_version(id_stream) {
        Some(3) | Some(4) => Some(check_version(id_stream)),
        _ => None,
    }
}

/// How a signal is resampled.
pub struct RasterType {}

/// A selection of channels.
pub struct ChannelsType {}

/// A channel of a measurement file: its name and where it stands
/// (data group, channel group, and index within the channel group).
#[derive(Debug, Clone, PartialEq, Eq)]
pub struct MdfChannel {
    pub name: String,
    pub data_group: usize,
    pub channel_group: usize,
    pub channel: usize,
    pub parent_name: Option<String>,
    pub is_nested: bool,
}

/// The path `/DG<data group>/CG<channel group>/<name>`.
pub open spec fn spec_full_path(data_group: nat, channel_group: nat, name: Seq<char>) -> Seq<
    char,
> {
    seq!['/', 'D', 'G'] + decimal(data_group) + seq!['/', 'C', 'G'] + decimal(channel_group)
        + seq!['/'] + name
}

/// The name with its parent's name and a dot before it, where there is a parent.
pub open spec fn spec_full_name(parent_name: Option<Seq<char>>, name: Seq<char>) -> Seq<char> {
    match parent_name {
        Some(p) => p + seq!['.'] + name,
        None => name,
    }
}


/// Where digits followed by a slash start two equal texts, the digits are the same,
/// and so is the rest.
proof fn lemma_digits_then_slash(d1: Seq<char>, r1: Seq<char>, d2: Seq<char>, r2: Seq<char>)
    requires
        d1 + r1 == d2 + r2,
        all_digits(d1),
        all_digits(d2),
        r1.len() > 0 && r1[0] == '/',
        r2.len() > 0 && r2[0] == '/',
    ensures
        d1 == d2,
        r1 == r2,
{
    if d1.len() < d2.len() {
        assert((d1 + r1)[d1.len() as int] == '/');
        assert((d2 + r2)[d1.len() as int] == d2[d1.len() as int]);
        assert(48 <= (d2[d1.len() as int] as u32) <= 57);
    } else if d2.len() < d1.len() {
        assert((d2 + r2)[d2.len() as int] == '/');
        assert((d1 + r1)[d2.len() as int] == d1[d2.len() as int]);
        assert(48 <= (d1[d2.len() as int] as u32) <= 57);
    } else {
        assert(d1 =~= (d1 + r1).subrange(0, d1.len() as int));
        assert(d2 =~= (d2 + r2).subrange(0, d2.len() as int));
        assert(r1 =~= (d1 + r1).skip(d1.len() as int));
        assert(r2 =~= (d2 + r2).skip(d2.len() as int));
    }
}

/// Channels with the same path have the same data group, channel group and name:
/// the path tells channels apart.
pub proof fn lemma_full_path_injective(
    dg1: nat,
    cg1: nat,
    name1: Seq<char>,
    dg2: nat,
    cg2: nat,
    name2: Seq<char>,
)
    requires
        spec_full_path(dg1, cg1, name1) == spec_full_path(dg2, cg2, name2),
    ensures
        dg1 == dg2,
        cg1 == cg2,
        name1 == name2,
{
    lemma_decimal_digits(dg1);
    lemma_decimal_digits(dg2);
    lemma_decimal_digits(cg1);
    lemma_decimal_digits(cg2);
    let p = seq!['/', 'D', 'G'];
    let q = seq!['/', 'C', 'G'];
    let r = seq!['/'];
    let tail1 = q + decimal(cg1) + r + name1;
    let tail2 = q + decimal(cg2) + r + name2;
    let s1 = spec_full_path(dg1, cg1, name1);
    let s2 = spec_full_path(dg2, cg2, name2);
    assert(s1.skip(3) =~= decimal(dg1) + tail1);
    assert(s2.skip(3) =~= decimal(dg2) + tail2);
    lemma_digits_then_slash(decimal(dg1), tail1, decimal(dg2), tail2);
    lemma_decimal_injective(dg1, dg2);
    let rest1 = r + name1;
    let rest2 = r + name2;
    assert(tail1.skip(3) =~= decimal(cg1) + rest1);
    assert(tail2.skip(3) =~= decimal(cg2) + rest2);
    lemma_digits_then_slash(decimal(cg1), rest1, decimal(cg2), rest2);
    lemma_decimal_injective(cg1, cg2);
    assert(name1 =~= rest1.skip(1));
    assert(name2 =~= rest2.skip(1));
}

impl MdfChannel {
    /// The parent's name, where there is a parent.
    pub open spec fn parent_view(&self) -> Option<Seq<char>> {
        match self.parent_name {
            Some(p) => Some(p@),
            None => None,
        }
    }

    /// The path of the channel: `/DG<data group>/CG<channel group>/<name>`.
    pub fn full_path(&self) -> (path: String)
        ensures
            path@ == spec_full_path(
                self.data_group as nat,
                self.channel_group as nat,
                self.name@,
            ),
    {
        let mut s = String::new();
        push_char(&mut s, '/');
        push_char(&mut s, 'D');
        push_char(&mut s, 'G');
        push_decimal(&mut s, self.data_group);
        push_char(&mut s, '/');
        push_char(&mut s, 'C');
        push_char(&mut s, 'G');
        push_decimal(&mut s, self.channel_group);
        push_char(&mut s, '/');
        push_str(&mut s, self.name.as_str());
        assert(s@ =~= spec_full_path(
            self.data_group as nat,
            self.channel_group as nat,
            self.name@,
        ));
        s
    }

    /// The name of the channel, preceded by its parent's name and a dot where it has a parent.
    pub fn full_name(&self) -> (full: String)
        ensures
            full@ == spec_full_name(self.parent_view(), self.name@),
    {
        match &self.parent_name {
            Some(parent) => {
                let mut s = String::new();
                push_str(&mut s, parent.as_str());
                push_char(&mut s, '.');
                push_str(&mut s, self.name.as_str());
                assert(s@ =~= parent@ + seq!['.'] + self.name@);
                s
            },
            None => self.name.clone(),
        }
    }

    /// The channel's parent is named `parent_name`.
    pub fn is_child_of(&self, parent_name: &str) -> (r: bool)
        ensures
            r == (self.parent_view() == Some(parent_name@)),
    {
        match &self.parent_name {
            Some(p) => str_eq(p.as_str(), parent_name),
            None => false,
        }
    }
}

/// A channel as plain values: name, data group, channel group, channel, parent name and
/// whether it is nested.
pub type ChannelView = (Seq<char>, usize, usize, usize, Option<Seq<char>>, bool);

impl View for MdfChannel {
    type V = ChannelView;

    open spec fn view(&self) -> ChannelView {
        (
            self.name@,
            self.data_group,
            self.channel_group,
            self.channel,
            self.parent_view(),
            self.is_nested,
        )
    }
}

/// The channels as plain values.
pub open spec fn channel_views(channels: Seq<MdfChannel>) -> Seq<ChannelView> {
    channels.map_values(|c: MdfChannel| c@)
}

/// The channels whose names contain `name`, in order.
pub open spec fn matching(channels: Seq<ChannelView>, name: Seq<char>) -> Seq<ChannelView>
    decreases channels.len(),
{
    if channels.len() == 0 {
        Seq::empty()
    } else {
        let rest = matching(channels.drop_last(), name);
        if has_substring(channels.last().0, name) {
            rest.push(channels.last())
        } else {
            rest
        }
    }
}

/// Every channel found has a name that contains the searched text.
pub proof fn lemma_matching_sound(channels: Seq<ChannelView>, name: Seq<char>)
    ensures
        forall|k: int|
            0 <= k < matching(channels, name).len() ==> has_substring(
                #[trigger] matching(channels, name)[k].0,
                name,
            ),
    decreases channels.len(),
{
    if channels.len() > 0 {
        let rest = matching(channels.drop_last(), name);
        lemma_matching_sound(channels.drop_last(), name);
        assert forall|k: int| 0 <= k < matching(channels, name).len() implies has_substring(
            #[trigger] matching(channels, name)[k].0,
            name,
        ) by {
            if k < rest.len() {
                assert(matching(channels, name)[k] == rest[k]);
            }
        }
    }
}

/// A channel whose name contains the searched text is among the channels found.
pub proof fn lemma_matching_complete(channels: Seq<ChannelView>, name: Seq<char>, i: int)
    requires
        0 <= i < channels.len(),
        has_substring(channels[i].0, name),
    ensures
        matching(channels, name).contains(channels[i]),
    decreases channels.len(),
{
    let rest = channels.drop_last();
    if i < channels.len() - 1 {
        lemma_matching_complete(rest, name, i);
        assert(rest[i] == channels[i]);
        let k = choose|k: int| 0 <= k < matching(rest, name).len() && matching(rest, name)[k] == channels[i];
        if has_substring(channels.last().0, name) {
            assert(matching(channels, name)[k] == channels[i]);
        }
    } else {
        assert(matching(channels, name).last() == channels[i]);
    }
}

/// A channel named exactly as the searched text is among the channels found.
pub proof fn lemma_search_finds_exact_name(channels: Seq<ChannelView>, i: int)
    requires
        0 <= i < channels.len(),
    ensures
        matching(channels, channels[i].0).contains(channels[i]),
{
    let name = channels[i].0;
    assert(name.subrange(0, 0 + name.len() as int) =~= name);
    assert(has_substring(name, name));
    lemma_matching_complete(channels, name, i);
}

/// The channel is named `name` and stands in data group `dg` and channel group `cg`.
pub open spec fn is_exact(c: ChannelView, name: Seq<char>, dg: usize, cg: usize) -> bool {
    c.0 == name && c.1 == dg && c.2 == cg
}

impl MdfChannel {
    /// A copy of the channel.
    pub fn duplicate(&self) -> (c: Self)
        ensures
            c@ == self@,
    {
        let parent_name: Option<String> = match &self.parent_name {
            Some(p) => Some(p.clone()),
            None => None,
        };
        Self {
            name: self.name.clone(),
            data_group: self.data_group,
            channel_group: self.channel_group,
            channel: self.channel,
            parent_name,
            is_nested: self.is_nested,
        }
    }
}

/// The channels whose names contain `channel_name`, in order.
pub fn search_channels(channels: &[MdfChannel], channel_name: &str) -> (results: Vec<MdfChannel>)
    ensures
        channel_views(results@) == matching(channel_views(channels@), channel_name@),
{
    let mut results: Vec<MdfChannel> = Vec::new();
    let mut i: usize = 0;
    while i < channels.len()
        invariant
            i <= channels@.len(),
            channel_views(results@) == matching(
                channel_views(channels@.take(i as int)),
                channel_name@,
            ),
        decreases channels@.len() - i,
    {
        let ghost before = results@;
        assert(channel_views(channels@.take(i + 1)).drop_last() =~= channel_views(
            channels@.take(i as int),
        ));
        assert(channel_views(channels@.take(i + 1)).last() == channels@[i as int]@);
        if str_contains(channels[i].name.as_str(), channel_name) {
            results.push(channels[i].duplicate());
            assert(channel_views(results@) =~= channel_views(before).push(channels@[i as int]@));
        }
        i = i + 1;
    }
    assert(channels@.take(i as int) =~= channels@);
    results
}

/// The first channel named `name` in data group `dg` and channel group `cg`, where there
/// is one.
pub fn search_channel_exact(channels: &[MdfChannel], name: &str, dg: usize, cg: usize) -> (found:
    Option<MdfChannel>)
    ensures
        found is None <==> forall|i: int|
            0 <= i < channels@.len() ==> !is_exact(#[trigger] channels@[i]@, name@, dg, cg),
        found matches Some(c) ==> exists|i: int|
            0 <= i < channels@.len() && c@ == channels@[i]@ && is_exact(c@, name@, dg, cg)
                && forall|j: int|
                0 <= j < i ==> !is_exact(#[trigger] channels@[j]@, name@, dg, cg),
{
    let mut i: usize = 0;
    while i < channels.len()
        invariant
            i <= channels@.len(),
            forall|j: int| 0 <= j < i ==> !is_exact(#[trigger] channels@[j]@, name@, dg, cg),
        decreases channels@.len() - i,
    {
        let c: &MdfChannel = &channels[i];
        if str_eq(c.name.as_str(), name) && c.data_group == dg && c.channel_group == cg {
            return Some(c.duplicate());
        }
        i = i + 1;
    }
    None
}

/// The first channel whose name contains `channel_name`; an error where there is none.
pub fn search_channel_first(channels: &[MdfChannel], channel_name: &str) -> (found: Result<
    MdfChannel,
    &'static str,
>)
    ensures
        found is Err <==> matching(channel_views(channels@), channel_name@).len() == 0,
        found matches Err(e) ==> e@ == "Channel not found"@,
        found matches Ok(c) ==> c@ == matching(channel_views(channels@), channel_name@)[0],
{
    let matches: Vec<MdfChannel> = search_channels(channels, channel_name);
    if matches.len() == 0 {
        Err("Channel not found")
    } else {
        assert(channel_views(matches@)[0] == matches@[0]@);
        Ok(matches[0].duplicate())
    }
}

/// Where the signals of a channel group were acquired.
#[derive(Debug, Clone)]
pub struct SourceInformation {
    pub source_type: SourceType,
    pub bus_type: BusType,
    pub source_name: String,
    pub source_path: String,
}

} // verus!
