use crate::domain::RecordView;
use crate::text::decimal_text;
use vstd::prelude::*;

verus! {

/// The fields of a stored record, in the order in which they are written.
#[derive(Debug, Clone, Copy, PartialEq, Eq, Structural)]
pub enum RecordField {
    ClientVersion,
    BootstrapperVersion,
    MajorRev,
    Version,
    Patch,
    ChangeList,
}

impl RecordField {
    /// The field's name in the stored object, in lower camel case.
    pub open spec fn key(self) -> Seq<char> {
        match self {
            RecordField::ClientVersion => "clientVersion"@,
            RecordField::BootstrapperVersion => "bootstrapperVersion"@,
            RecordField::MajorRev => "majorRev"@,
            RecordField::Version => "version"@,
            RecordField::Patch => "patch"@,
            RecordField::ChangeList => "changeList"@,
        }
    }
}

/// The character of the hexadecimal digit `d`, in lower case.
pub open spec fn hex_char(d: nat) -> char {
    if d < 10 {
        (d + 48) as char
    } else {
        (d + 87) as char
    }
}

/// How one character of a string is written between the quotes: a quote, a
/// backslash and the control characters are escaped, all others stand for
/// themselves.
pub open spec fn escape_of(c: char) -> Seq<char> {
    if c == '"' {
        seq!['\\', '"']
    } else if c == '\\' {
        seq!['\\', '\\']
    } else if c == '\u{08}' {
        seq!['\\', 'b']
    } else if c == '\u{0C}' {
        seq!['\\', 'f']
    } else if c == '\n' {
        seq!['\\', 'n']
    } else if c == '\r' {
        seq!['\\', 'r']
    } else if c == '\t' {
        seq!['\\', 't']
    } else if (c as u32) < 0x20 {
        seq!['\\', 'u', '0', '0', hex_char((c as u32 / 16) as nat), hex_char((c as u32 % 16) as nat)]
    } else {
        seq![c]
    }
}

/// The characters of `s`, each written as [`escape_of`] says.
pub open spec fn escaped(s: Seq<char>) -> Seq<char>
    decreases s.len(),
{
    if s.len() == 0 {
        Seq::empty()
    } else {
        escaped(s.drop_last()) + escape_of(s.last())
    }
}

/// A string as it is written: escaped, between two quotes.
pub open spec fn json_string(s: Seq<char>) -> Seq<char> {
    seq!['"'] + escaped(s) + seq!['"']
}

/// What follows the brace that opens a record.
pub open spec fn gap_open(pretty: bool) -> Seq<char> {
    if pretty {
        seq!['\n', ' ', ' ']
    } else {
        Seq::empty()
    }
}

/// What stands between a field's name and its value.
pub open spec fn gap_colon(pretty: bool) -> Seq<char> {
    if pretty {
        seq![':', ' ']
    } else {
        seq![':']
    }
}

/// What stands between two fields.
pub open spec fn gap_comma(pretty: bool) -> Seq<char> {
    if pretty {
        seq![',', '\n', ' ', ' ']
    } else {
        seq![',']
    }
}

/// What stands before the brace that closes a record.
pub open spec fn gap_close(pretty: bool) -> Seq<char> {
    if pretty {
        seq!['\n']
    } else {
        Seq::empty()
    }
}

/// One field with its value.
pub open spec fn member_text(field: RecordField, value: Seq<char>, pretty: bool) -> Seq<char> {
    json_string(field.key()) + gap_colon(pretty) + value
}

/// A record as an object of six fields, either on one line without any space
/// or on a line for each field, indented by two spaces.
pub open spec fn record_layout(r: RecordView, pretty: bool) -> Seq<char> {
    seq!['{'] + gap_open(pretty) + member_text(
        RecordField::ClientVersion,
        json_string(r.client_version),
        pretty,
    ) + gap_comma(pretty) + member_text(
        RecordField::BootstrapperVersion,
        json_string(r.bootstrapper_version),
        pretty,
    ) + gap_comma(pretty) + member_text(
        RecordField::MajorRev,
        decimal_text(r.major_rev as nat),
        pretty,
    ) + gap_comma(pretty) + member_text(RecordField::Version, decimal_text(r.version as nat), pretty)
        + gap_comma(pretty) + member_text(RecordField::Patch, decimal_text(r.patch as nat), pretty)
        + gap_comma(pretty) + member_text(
        RecordField::ChangeList,
        decimal_text(r.change_list as nat),
        pretty,
    ) + gap_close(pretty) + seq!['}']
}

/// A record as it stands inside a history.
pub open spec fn record_text(r: RecordView) -> Seq<char> {
    record_layout(r, false)
}

/// A record as it stands alone in the latest-deployment artifact.
pub open spec fn record_pretty_text(r: RecordView) -> Seq<char> {
    record_layout(r, true)
}

/// One entry of a history: the key as a decimal string, then the record.
pub open spec fn entry_text(key: u64, r: RecordView) -> Seq<char> {
    seq!['"'] + decimal_text(key as nat) + seq!['"', ':'] + record_text(r)
}

/// The entries one after the other, with a comma between two of them.
pub open spec fn entries_text(entries: Seq<(u64, RecordView)>) -> Seq<char>
    decreases entries.len(),
{
    if entries.len() == 0 {
        Seq::empty()
    } else if entries.len() == 1 {
        entry_text(entries[0].0, entries[0].1)
    } else {
        entries_text(entries.drop_last()) + seq![','] + entry_text(
            entries.last().0,
            entries.last().1,
        )
    }
}

/// The entries of `m` whose key is below `bound`, by ascending key.
pub open spec fn entries_below(m: Map<u64, RecordView>, bound: nat) -> Seq<(u64, RecordView)>
    decreases bound,
{
    if bound == 0 {
        Seq::empty()
    } else {
        let key = (bound - 1) as u64;
        if bound - 1 <= u64::MAX && m.contains_key(key) {
            entries_below(m, (bound - 1) as nat).push((key, m[key]))
        } else {
            entries_below(m, (bound - 1) as nat)
        }
    }
}

/// All entries of `m`, by ascending key.
pub open spec fn ascending_entries(m: Map<u64, RecordView>) -> Seq<(u64, RecordView)> {
    entries_below(m, 0x1_0000_0000_0000_0000)
}

/// A history as it is written: one object on one line, its entries by
/// ascending key.
pub open spec fn history_text(m: Map<u64, RecordView>) -> Seq<char> {
    seq!['{'] + entries_text(ascending_entries(m)) + seq!['}']
}

/// The history artifact of a tuple that has no deployment yet.
pub open spec fn empty_history_text() -> Seq<char> {
    seq!['{', '}', '\n']
}

} // verus!
