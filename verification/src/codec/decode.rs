use crate::codec::grammar::{
    complete, decode_history_spec, decode_record_spec, digits_end, empty_draft, field_of,
    has_char, has_field, hex_value, scan_entries, scan_entry, scan_escape, scan_hex4, scan_key,
    scan_member, scan_members, scan_number, scan_record, scan_string, scan_string_body,
    scan_value, skip_ws, DraftView,
};
use crate::codec::layout::RecordField;
use crate::codec::pass::pass_value;
use crate::domain::{history_view, DeployHistory, DeploymentRecord, RecordView};
use crate::error::ArchiveError;
use crate::text::{chars_of, decimal_value, digit_value, is_digit, lemma_decimal_value_prefix};
use std::collections::BTreeMap;
use vstd::prelude::*;

verus! {

/// The fields of a record that have been read so far.
struct Draft {
    client_version: Option<String>,
    bootstrapper_version: Option<String>,
    major_rev: Option<u32>,
    version: Option<u32>,
    patch: Option<u32>,
    change_list: Option<u64>,
}

impl View for Draft {
    type V = DraftView;

    closed spec fn view(&self) -> DraftView {
        DraftView {
            client_version: match self.client_version {
                Some(t) => Some(t@),
                None => None,
            },
            bootstrapper_version: match self.bootstrapper_version {
                Some(t) => Some(t@),
                None => None,
            },
            major_rev: self.major_rev,
            version: self.version,
            patch: self.patch,
            change_list: self.change_list,
        }
    }
}

/// The run of digits that begins at `i` ends at or behind `i`, inside `s`.
proof fn lemma_digits_end_bounds(s: Seq<char>, i: int)
    requires
        0 <= i <= s.len(),
    ensures
        i <= digits_end(s, i) <= s.len(),
        forall|k: int| i <= k < digits_end(s, i) ==> is_digit(#[trigger] s[k]),
    decreases s.len() - i,
{
    if i < s.len() && is_digit(s[i]) {
        lemma_digits_end_bounds(s, i + 1);
    }
}

/// The place of the first character at or behind `i` that is no white space.
pub(crate) fn skip_space(chars: &Vec<char>, i: usize) -> (j: usize)
    requires
        i <= chars.len(),
    ensures
        j == skip_ws(chars@, i as int),
        i <= j <= chars.len(),
{
    let mut j: usize = i;
    while j < chars.len() && (chars[j] == ' ' || chars[j] == '\n' || chars[j] == '\r' || chars[j]
        == '\t')
        invariant
            i <= j <= chars.len(),
            skip_ws(chars@, i as int) == skip_ws(chars@, j as int),
        decreases chars.len() - j,
    {
        j += 1;
    }
    j
}

/// Whether the character `c` stands at place `i`.
pub(crate) fn at(chars: &Vec<char>, i: usize, c: char) -> (b: bool)
    ensures
        b == has_char(chars@, i as int, c),
{
    i < chars.len() && chars[i] == c
}

/// Reads the number of a field or of a key.
#[verifier::loop_isolation(false)]
fn read_number(chars: &Vec<char>, i: usize, max: u64) -> (r: Option<(u64, usize)>)
    requires
        i <= chars.len(),
    ensures
        match scan_number(chars@, i as int, max as nat) {
            Some((n, next)) => r == Some((n as u64, next as usize)) && i < next <= chars.len()
                && n <= max,
            None => r is None,
        },
{
    let ghost s = chars@;
    if i >= chars.len() || digit_value(chars[i]).is_none() {
        return None;
    }
    if chars[i] == '0' {
        return Some((0, i + 1));
    }
    let ghost end = digits_end(s, i as int);
    proof {
        lemma_digits_end_bounds(s, i as int);
    }
    let ghost run = s.subrange(i as int, end);
    let mut acc: u64 = 0;
    let mut j: usize = i;
    while j < chars.len() && digit_value(chars[j]).is_some()
        invariant
            i <= j <= chars.len(),
            j <= end,
            digits_end(s, j as int) == end,
            acc == decimal_value(run.take(j - i)),
            acc <= max,
        decreases chars.len() - j,
    {
        let digit = digit_value(chars[j]).unwrap();
        proof {
            lemma_digits_end_bounds(s, j as int + 1);
            let prefix = run.take(j - i + 1);
            assert(prefix.drop_last() == run.take(j - i));
            assert(prefix.last() == s[j as int]);
        }
        let next: u128 = acc as u128 * 10 + digit as u128;
        if next > max as u128 {
            proof {
                lemma_decimal_value_prefix(run, j - i + 1);
            }
            return None;
        }
        acc = next as u64;
        j += 1;
    }
    assert(j == end);
    assert(run.take(j - i) == run);
    Some((acc, j))
}

/// The number that a hexadecimal digit stands for.
fn hex_digit_value(c: char) -> (r: Option<u32>)
    ensures
        match hex_value(c) {
            Some(v) => r == Some(v as u32) && v < 16,
            None => r is None,
        },
{
    if c >= '0' && c <= '9' {
        Some(c as u32 - 48)
    } else if c >= 'a' && c <= 'f' {
        Some(c as u32 - 87)
    } else if c >= 'A' && c <= 'F' {
        Some(c as u32 - 55)
    } else {
        None
    }
}

/// Reads the four hexadecimal digits of an escape.
pub(crate) fn read_hex4(chars: &Vec<char>, i: usize) -> (r: Option<u32>)
    requires
        i <= chars.len(),
    ensures
        match scan_hex4(chars@, i as int) {
            Some(v) => r == Some(v as u32) && v <= 0xFFFF,
            None => r is None,
        },
{
    if chars.len() - i < 4 {
        return None;
    }
    let h0 = match hex_digit_value(chars[i]) {
        Some(v) => v,
        None => {
            return None;
        },
    };
    let h1 = match hex_digit_value(chars[i + 1]) {
        Some(v) => v,
        None => {
            return None;
        },
    };
    let h2 = match hex_digit_value(chars[i + 2]) {
        Some(v) => v,
        None => {
            return None;
        },
    };
    let h3 = match hex_digit_value(chars[i + 3]) {
        Some(v) => v,
        None => {
            return None;
        },
    };
    Some(((h0 * 16 + h1) * 16 + h2) * 16 + h3)
}

/// Reads the escape whose first character stands at place `i`.
fn read_escape(chars: &Vec<char>, i: usize) -> (r: Option<(char, usize)>)
    requires
        i <= chars.len(),
    ensures
        match scan_escape(chars@, i as int) {
            Some((c, next)) => r == Some((c, next as usize)) && i < next <= chars.len(),
            None => r is None,
        },
{
    if i >= chars.len() {
        return None;
    }
    let c = chars[i];
    if c == '"' {
        Some(('"', i + 1))
    } else if c == '\\' {
        Some(('\\', i + 1))
    } else if c == '/' {
        Some(('/', i + 1))
    } else if c == 'b' {
        Some(('\u{08}', i + 1))
    } else if c == 'f' {
        Some(('\u{0C}', i + 1))
    } else if c == 'n' {
        Some(('\n', i + 1))
    } else if c == 'r' {
        Some(('\r', i + 1))
    } else if c == 't' {
        Some(('\t', i + 1))
    } else if c == 'u' {
        let high = match read_hex4(chars, i + 1) {
            Some(v) => v,
            None => {
                return None;
            },
        };
        if high < 0xD800 || 0xE000 <= high {
            match char::from_u32(high) {
                Some(ch) => Some((ch, i + 5)),
                None => None,
            }
        } else if high < 0xDC00 && chars.len() - i > 6 && chars[i + 5] == '\\' && chars[i + 6]
            == 'u' {
            let low = match read_hex4(chars, i + 7) {
                Some(v) => v,
                None => {
                    return None;
                },
            };
            if 0xDC00 <= low && low < 0xE000 {
                match char::from_u32(0x10000 + (high - 0xD800) * 0x400 + (low - 0xDC00)) {
                    Some(ch) => Some((ch, i + 11)),
                    None => None,
                }
            } else {
                None
            }
        } else {
            None
        }
    } else {
        None
    }
}

/// Reads a string.
fn read_string(chars: &Vec<char>, i: usize) -> (r: Option<(String, usize)>)
    requires
        i <= chars.len(),
    ensures
        match scan_string(chars@, i as int) {
            Some((t, next)) => r matches Some((text, end)) && text@ == t && end == next && i < end
                <= chars.len(),
            None => r is None,
        },
{
    if !at(chars, i, '"') {
        return None;
    }
    let ghost s = chars@;
    let mut text = String::new();
    let mut j: usize = i + 1;
    loop
        invariant
            i < j <= chars.len(),
            s == chars@,
            scan_string(s, i as int) == scan_string_body(s, j as int, text@),
        decreases chars.len() - j,
    {
        if j >= chars.len() {
            return None;
        }
        let c = chars[j];
        if c == '"' {
            return Some((text, j + 1));
        } else if c == '\\' {
            match read_escape(chars, j + 1) {
                Some((ch, next)) => {
                    text.push(ch);
                    j = next;
                },
                None => {
                    return None;
                },
            }
        } else if (c as u32) < 0x20 {
            return None;
        } else {
            text.push(c);
            j += 1;
        }
    }
}

/// Whether two strings hold the same characters.
fn same(a: &String, b: &str) -> (r: bool)
    ensures
        r == (a@ == b@),
{
    let owned = b.to_owned();
    *a == owned
}

/// The field that a name stands for.
fn field_for(name: &String) -> (r: Option<RecordField>)
    ensures
        r == field_of(name@),
{
    if same(name, "clientVersion") {
        Some(RecordField::ClientVersion)
    } else if same(name, "bootstrapperVersion") {
        Some(RecordField::BootstrapperVersion)
    } else if same(name, "majorRev") {
        Some(RecordField::MajorRev)
    } else if same(name, "version") {
        Some(RecordField::Version)
    } else if same(name, "patch") {
        Some(RecordField::Patch)
    } else if same(name, "changeList") {
        Some(RecordField::ChangeList)
    } else {
        None
    }
}

/// Whether the draft has the field already.
fn has(draft: &Draft, field: RecordField) -> (r: bool)
    ensures
        r == has_field(draft@, field),
{
    match field {
        RecordField::ClientVersion => draft.client_version.is_some(),
        RecordField::BootstrapperVersion => draft.bootstrapper_version.is_some(),
        RecordField::MajorRev => draft.major_rev.is_some(),
        RecordField::Version => draft.version.is_some(),
        RecordField::Patch => draft.patch.is_some(),
        RecordField::ChangeList => draft.change_list.is_some(),
    }
}

/// Reads the value of one of the six fields into the draft.
fn read_value(chars: &Vec<char>, i: usize, draft: Draft, field: RecordField) -> (r: Option<
    (Draft, usize),
>)
    requires
        i <= chars.len(),
    ensures
        match scan_value(chars@, i as int, draft@, field) {
            Some((d, next)) => r matches Some((filled, end)) && filled@ == d && end == next && i
                < end <= chars.len(),
            None => r is None,
        },
{
    let mut draft = draft;
    match field {
        RecordField::ClientVersion => match read_string(chars, i) {
            Some((t, next)) => {
                draft.client_version = Some(t);
                Some((draft, next))
            },
            None => None,
        },
        RecordField::BootstrapperVersion => match read_string(chars, i) {
            Some((t, next)) => {
                draft.bootstrapper_version = Some(t);
                Some((draft, next))
            },
            None => None,
        },
        RecordField::MajorRev => match read_number(chars, i, 0xFFFF_FFFF) {
            Some((n, next)) => {
                draft.major_rev = Some(n as u32);
                Some((draft, next))
            },
            None => None,
        },
        RecordField::Version => match read_number(chars, i, 0xFFFF_FFFF) {
            Some((n, next)) => {
                draft.version = Some(n as u32);
                Some((draft, next))
            },
            None => None,
        },
        RecordField::Patch => match read_number(chars, i, 0xFFFF_FFFF) {
            Some((n, next)) => {
                draft.patch = Some(n as u32);
                Some((draft, next))
            },
            None => None,
        },
        RecordField::ChangeList => match read_number(chars, i, 0xFFFF_FFFF_FFFF_FFFF) {
            Some((n, next)) => {
                draft.change_list = Some(n);
                Some((draft, next))
            },
            None => None,
        },
    }
}

/// Reads one field of a record, or passes over it if its name is none of the six.
fn read_member(chars: &Vec<char>, i: usize, draft: Draft) -> (r: Option<(Draft, usize)>)
    requires
        i <= chars.len(),
    ensures
        match scan_member(chars@, i as int, draft@) {
            Some((d, next)) => r matches Some((filled, end)) && filled@ == d && end == next && i
                < end <= chars.len(),
            None => r is None,
        },
{
    let (name, after_name) = match read_string(chars, i) {
        Some(found) => found,
        None => {
            return None;
        },
    };
    let colon = skip_space(chars, after_name);
    if !at(chars, colon, ':') {
        return None;
    }
    let value = skip_space(chars, colon + 1);
    match field_for(&name) {
        Some(field) => {
            if has(&draft, field) {
                None
            } else {
                read_value(chars, value, draft, field)
            }
        },
        None => match pass_value(chars, value, 128) {
            Some(next) => Some((draft, next)),
            None => None,
        },
    }
}

/// The record of a draft that has all six fields.
fn finish(draft: Draft) -> (r: Option<DeploymentRecord>)
    ensures
        match complete(draft@) {
            Some(v) => r matches Some(record) && record@ == v,
            None => r is None,
        },
{
    match (
        draft.client_version,
        draft.bootstrapper_version,
        draft.major_rev,
        draft.version,
        draft.patch,
        draft.change_list,
    ) {
        (
            Some(client_version),
            Some(bootstrapper_version),
            Some(major_rev),
            Some(version),
            Some(patch),
            Some(change_list),
        ) => Some(
            DeploymentRecord {
                client_version,
                bootstrapper_version,
                major_rev,
                version,
                patch,
                change_list,
            },
        ),
        _ => None,
    }
}

/// Reads a record.
fn read_record(chars: &Vec<char>, i: usize) -> (r: Option<(DeploymentRecord, usize)>)
    requires
        i <= chars.len(),
    ensures
        match scan_record(chars@, i as int) {
            Some((v, next)) => r matches Some((record, end)) && record@ == v && end == next && i
                < end <= chars.len(),
            None => r is None,
        },
{
    if !at(chars, i, '{') {
        return None;
    }
    let ghost s = chars@;
    let mut draft = Draft {
        client_version: None,
        bootstrapper_version: None,
        major_rev: None,
        version: None,
        patch: None,
        change_list: None,
    };
    assert(draft@ == empty_draft());
    let mut pos: usize = i + 1;
    loop
        invariant
            i < pos <= chars.len(),
            s == chars@,
            scan_record(s, i as int) == scan_members(s, pos as int, draft@),
        decreases chars.len() - pos,
    {
        let start = skip_space(chars, pos);
        let (filled, after) = match read_member(chars, start, draft) {
            Some(found) => found,
            None => {
                return None;
            },
        };
        let mark = skip_space(chars, after);
        if at(chars, mark, ',') {
            draft = filled;
            pos = mark + 1;
        } else if at(chars, mark, '}') {
            return match finish(filled) {
                Some(record) => Some((record, mark + 1)),
                None => None,
            };
        } else {
            return None;
        }
    }
}

/// Reads the key of an entry.
fn read_key(chars: &Vec<char>, i: usize) -> (r: Option<(u64, usize)>)
    requires
        i <= chars.len(),
    ensures
        match scan_key(chars@, i as int) {
            Some((key, next)) => r == Some((key, next as usize)) && i < next <= chars.len(),
            None => r is None,
        },
{
    if !at(chars, i, '"') {
        return None;
    }
    match read_number(chars, i + 1, 0xFFFF_FFFF_FFFF_FFFF) {
        Some((n, end)) => if at(chars, end, '"') {
            Some((n, end + 1))
        } else {
            None
        },
        None => None,
    }
}

/// Reads one entry of a history.
fn read_entry(chars: &Vec<char>, i: usize) -> (r: Option<(u64, DeploymentRecord, usize)>)
    requires
        i <= chars.len(),
    ensures
        match scan_entry(chars@, i as int) {
            Some((entry, next)) => r matches Some((key, record, end)) && key == entry.0
                && record@ == entry.1 && end == next && i < end <= chars.len(),
            None => r is None,
        },
{
    let (key, after_key) = match read_key(chars, i) {
        Some(found) => found,
        None => {
            return None;
        },
    };
    let colon = skip_space(chars, after_key);
    if !at(chars, colon, ':') {
        return None;
    }
    let value = skip_space(chars, colon + 1);
    match read_record(chars, value) {
        Some((record, next)) => Some((key, record, next)),
        None => None,
    }
}

/// Reads the entries of a history up to the brace that closes it.
fn read_entries(chars: &Vec<char>, i: usize) -> (r: Option<(DeployHistory, usize)>)
    requires
        i <= chars.len(),
    ensures
        match scan_entries(chars@, i as int, Map::empty()) {
            Some((m, next)) => r matches Some((history, end)) && history_view(history) == m
                && end == next && i < end <= chars.len(),
            None => r is None,
        },
{
    let ghost s = chars@;
    let mut history: DeployHistory = BTreeMap::new();
    assert(history_view(history) =~= Map::<u64, RecordView>::empty());
    let mut pos: usize = i;
    loop
        invariant
            i <= pos <= chars.len(),
            s == chars@,
            scan_entries(s, i as int, Map::empty()) == scan_entries(
                s,
                pos as int,
                history_view(history),
            ),
        decreases chars.len() - pos,
    {
        let start = skip_space(chars, pos);
        let (key, record, after) = match read_entry(chars, start) {
            Some(found) => found,
            None => {
                return None;
            },
        };
        let mark = skip_space(chars, after);
        let ghost before = history_view(history);
        let ghost view = record@;
        history.insert(key, record);
        assert(history_view(history) =~= before.insert(key, view));
        if at(chars, mark, ',') {
            pos = mark + 1;
        } else if at(chars, mark, '}') {
            return Some((history, mark + 1));
        } else {
            return None;
        }
    }
}

/// Reads the history that the history artifact holds.
pub fn decode_history(text: &str) -> (r: Result<DeployHistory, ArchiveError>)
    ensures
        match decode_history_spec(text@) {
            Some(m) => r matches Ok(history) && history_view(history) == m,
            None => r matches Err(e) && e == ArchiveError::CorruptArchive,
        },
{
    let chars = chars_of(text);
    let open = skip_space(&chars, 0);
    if !at(&chars, open, '{') {
        return Err(ArchiveError::CorruptArchive);
    }
    let first = skip_space(&chars, open + 1);
    if at(&chars, first, '}') {
        let end = skip_space(&chars, first + 1);
        if end == chars.len() {
            let history: DeployHistory = BTreeMap::new();
            assert(history_view(history) =~= Map::<u64, RecordView>::empty());
            return Ok(history);
        } else {
            return Err(ArchiveError::CorruptArchive);
        }
    }
    match read_entries(&chars, open + 1) {
        Some((history, after)) => {
            let end = skip_space(&chars, after);
            if end == chars.len() {
                Ok(history)
            } else {
                Err(ArchiveError::CorruptArchive)
            }
        },
        None => Err(ArchiveError::CorruptArchive),
    }
}

/// Reads the record that the latest-deployment artifact holds.
pub fn decode_record(text: &str) -> (r: Result<DeploymentRecord, ArchiveError>)
    ensures
        match decode_record_spec(text@) {
            Some(v) => r matches Ok(record) && record@ == v,
            None => r matches Err(e) && e == ArchiveError::CorruptArchive,
        },
{
    let chars = chars_of(text);
    let start = skip_space(&chars, 0);
    match read_record(&chars, start) {
        Some((record, after)) => {
            let end = skip_space(&chars, after);
            if end == chars.len() {
                Ok(record)
            } else {
                Err(ArchiveError::CorruptArchive)
            }
        },
        None => Err(ArchiveError::CorruptArchive),
    }
}

} // verus!
