//! The name, description and unit of a channel, as metadata blocks give them.

use vstd::prelude::*;

use super::block::Block;
use super::block_header::{has_block_id, header_length};
use super::md_block::{md_error, md_text_bytes, Mdblock};
use crate::text::{lines_of, lossy_utf8, split_at_first, split_once_at, str_eq, text_lines, trim_str, trimmed};

verus! {

/// The name, description and unit of a channel.
pub type ChannelFields = (Seq<char>, Seq<char>, Seq<char>);

/// What one line of metadata does to the fields: a line `key = value` whose trimmed key is
/// `name`, `description` or `unit` sets that field to the trimmed value; other lines
/// change nothing.
pub open spec fn apply_line(fields: ChannelFields, line: Seq<char>) -> ChannelFields {
    let parts = split_at_first(line, '=');
    if parts.len() != 2 {
        fields
    } else {
        let key = trimmed(parts[0]);
        let value = trimmed(parts[1]);
        if key == "name"@ {
            (value, fields.1, fields.2)
        } else if key == "description"@ {
            (fields.0, value, fields.2)
        } else if key == "unit"@ {
            (fields.0, fields.1, value)
        } else {
            fields
        }
    }
}

/// What the lines of metadata, in order, do to the fields.
pub open spec fn apply_lines(fields: ChannelFields, lines: Seq<Seq<char>>) -> ChannelFields
    decreases lines.len(),
{
    if lines.len() == 0 {
        fields
    } else {
        apply_line(apply_lines(fields, lines.drop_last()), lines.last())
    }
}

/// The key that sets field `i` of a channel: `name`, `description` or `unit`.
pub open spec fn field_key(i: int) -> Seq<char> {
    if i == 0 {
        "name"@
    } else if i == 1 {
        "description"@
    } else {
        "unit"@
    }
}

/// Field `i` of a channel: its name, description or unit.
pub open spec fn field(fields: ChannelFields, i: int) -> Seq<char> {
    if i == 0 {
        fields.0
    } else if i == 1 {
        fields.1
    } else {
        fields.2
    }
}

/// The line has the form `key = value` with the given key, once trimmed.
pub open spec fn line_sets(line: Seq<char>, key: Seq<char>) -> bool {
    let parts = split_at_first(line, '=');
    parts.len() == 2 && trimmed(parts[0]) == key
}

/// The trimmed value of a line `key = value`.
pub open spec fn line_value(line: Seq<char>) -> Seq<char> {
    trimmed(split_at_first(line, '=')[1])
}

/// One line sets field `i` to its value where its key is that field's key, and leaves the
/// field as it is otherwise.
pub proof fn lemma_apply_line_field(fields: ChannelFields, line: Seq<char>, i: int)
    requires
        0 <= i < 3,
    ensures
        field(apply_line(fields, line), i) == if line_sets(line, field_key(i)) {
            line_value(line)
        } else {
            field(fields, i)
        },
{
    reveal_strlit("name");
    reveal_strlit("description");
    reveal_strlit("unit");
    assert("name"@.len() != "description"@.len());
    assert("name"@[0] != "unit"@[0]);
    assert("description"@ != "unit"@);
}

/// A field that no line sets keeps the value it had.
pub proof fn lemma_field_not_set(fields: ChannelFields, lines: Seq<Seq<char>>, i: int)
    requires
        0 <= i < 3,
        forall|k: int| 0 <= k < lines.len() ==> !line_sets(#[trigger] lines[k], field_key(i)),
    ensures
        field(apply_lines(fields, lines), i) == field(fields, i),
    decreases lines.len(),
{
    if lines.len() > 0 {
        lemma_field_not_set(fields, lines.drop_last(), i);
        lemma_apply_line_field(apply_lines(fields, lines.drop_last()), lines.last(), i);
        assert(!line_sets(lines[lines.len() - 1], field_key(i)));
    }
}

/// Where several lines of metadata set a field, the last of them wins: the field takes the value of
/// the line `j` that sets it, where no later line does.
pub proof fn lemma_last_line_wins(fields: ChannelFields, lines: Seq<Seq<char>>, i: int, j: int)
    requires
        0 <= i < 3,
        0 <= j < lines.len(),
        line_sets(lines[j], field_key(i)),
        forall|k: int| j < k < lines.len() ==> !line_sets(#[trigger] lines[k], field_key(i)),
    ensures
        field(apply_lines(fields, lines), i) == line_value(lines[j]),
    decreases lines.len(),
{
    let prev = apply_lines(fields, lines.drop_last());
    lemma_apply_line_field(prev, lines.last(), i);
    if j < lines.len() - 1 {
        assert(!line_sets(lines[lines.len() - 1], field_key(i)));
        assert forall|k: int| j < k < lines.drop_last().len() implies !line_sets(
            #[trigger] lines.drop_last()[k],
            field_key(i),
        ) by {
            assert(lines.drop_last()[k] == lines[k]);
        }
        lemma_last_line_wins(fields, lines.drop_last(), i, j);
    }
}

/// A metadata block that reads without error is stored at `pos`.
pub open spec fn md_ok(bytes: Seq<u8>, pos: int) -> bool {
    has_block_id(bytes, pos, 77u8, 68u8) && header_length(bytes, pos, true) >= 24
}

/// The text of the metadata block at `pos`.
pub open spec fn md_text(bytes: Seq<u8>, pos: int) -> Seq<char> {
    lossy_utf8(md_text_bytes(bytes, pos, true))
}

/// A channel: its name, description and unit.
#[derive(Debug)]
pub struct Channel {
    name: String,
    description: String,
    unit: String,
}

impl View for Channel {
    type V = ChannelFields;

    closed spec fn view(&self) -> ChannelFields {
        (self.name@, self.description@, self.unit@)
    }
}

impl Channel {
    /// A channel with the given name, description and unit.
    pub fn new(name: String, description: String, unit: String) -> (c: Self)
        ensures
            c@ == (name@, description@, unit@),
    {
        Self { name, description, unit }
    }

    /// Reads the metadata block at `pos` (in little-endian byte order) and takes from its
    /// lines of text those of the form `key = value` that set the name, the description or
    /// the unit. Gives the position after the block.
    pub fn read_metadata(&mut self, bytes: &[u8], pos: usize) -> (res: Result<usize, String>)
        requires
            Mdblock::spec_readable(bytes@, pos as int, true),
        ensures
            res is Ok <==> md_ok(bytes@, pos as int),
            res matches Ok(end) ==> end == pos + header_length(bytes@, pos as int, true),
            res is Ok ==> final(self)@ == apply_lines(
                old(self)@,
                text_lines(md_text(bytes@, pos as int)),
            ),
            res matches Err(e) ==> e@ == md_error(bytes@, pos as int) && final(self)@ == old(self)@,
    {
        let (end, md_block) = match Mdblock::read(bytes, pos, true) {
            Ok(r) => r,
            Err(e) => return Err(e),
        };
        let metadata: &str = md_block.data();
        let lines: Vec<&str> = lines_of(metadata);
        let ghost start = self@;
        let ghost all = text_lines(md_text(bytes@, pos as int));
        assert(lines@.len() == all.len());
        let mut i: usize = 0;
        assert(all.take(0) =~= Seq::<Seq<char>>::empty());
        while i < lines.len()
            invariant
                i <= lines@.len(),
                lines@.len() == all.len(),
                forall|k: int| 0 <= k < lines@.len() ==> (#[trigger] lines@[k])@ == all[k],
                self@ == apply_lines(start, all.take(i as int)),
            decreases lines@.len() - i,
        {
            let line: &str = lines[i];
            assert(all.take(i + 1).drop_last() =~= all.take(i as int));
            assert(all.take(i + 1).last() == line@);
            let parts: Vec<&str> = split_once_at(line, '=');
            if parts.len() == 2 {
                let key: &str = trim_str(parts[0]);
                let value: &str = trim_str(parts[1]);
                if str_eq(key, "name") {
                    self.name = value.to_string();
                } else if str_eq(key, "description") {
                    self.description = value.to_string();
                } else if str_eq(key, "unit") {
                    self.unit = value.to_string();
                }
            }
            i = i + 1;
        }
        assert(all.take(i as int) =~= all);
        Ok(end)
    }

    /// The name of the channel.
    pub fn name(&self) -> (s: &str)
        ensures
            s@ == self@.0,
    {
        self.name.as_str()
    }

    /// The description of the channel.
    pub fn description(&self) -> (s: &str)
        ensures
            s@ == self@.1,
    {
        self.description.as_str()
    }

    /// The unit of the channel.
    pub fn unit(&self) -> (s: &str)
        ensures
            s@ == self@.2,
    {
        self.unit.as_str()
    }
}

} // verus!
