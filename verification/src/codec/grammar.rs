use crate::codec::layout::RecordField;
use crate::domain::RecordView;
use crate::text::{decimal_value, is_digit};
use vstd::prelude::*;

verus! {

/// Whether `c` is white space that may stand between two tokens.
pub open spec fn is_ws(c: char) -> bool {
    c == ' ' || c == '\n' || c == '\r' || c == '\t'
}

/// The place of the first character at or behind `i` that is no white space.
pub open spec fn skip_ws(s: Seq<char>, i: int) -> int
    decreases s.len() - i,
{
    if 0 <= i < s.len() && is_ws(s[i]) {
        skip_ws(s, i + 1)
    } else {
        i
    }
}

/// Whether the character `c` stands at place `i` of `s`.
pub open spec fn has_char(s: Seq<char>, i: int, c: char) -> bool {
    0 <= i < s.len() && s[i] == c
}

/// The place of the first character at or behind `i` that is no digit.
pub open spec fn digits_end(s: Seq<char>, i: int) -> int
    decreases s.len() - i,
{
    if 0 <= i < s.len() && is_digit(s[i]) {
        digits_end(s, i + 1)
    } else {
        i
    }
}

/// A number at place `i`: `0`, or digits that do not begin with `0`, and no
/// more than `max`. The result holds the number and the place behind it.
pub open spec fn scan_number(s: Seq<char>, i: int, max: nat) -> Option<(nat, int)> {
    if !(0 <= i < s.len()) || !is_digit(s[i]) {
        None
    } else if s[i] == '0' {
        Some((0nat, i + 1))
    } else {
        let end = digits_end(s, i);
        let value = decimal_value(s.subrange(i, end));
        if value <= max {
            Some((value, end))
        } else {
            None
        }
    }
}

/// The number that a hexadecimal digit stands for, in either case.
pub open spec fn hex_value(c: char) -> Option<nat> {
    if '0' <= c <= '9' {
        Some((c as u32 - 48) as nat)
    } else if 'a' <= c <= 'f' {
        Some((c as u32 - 87) as nat)
    } else if 'A' <= c <= 'F' {
        Some((c as u32 - 55) as nat)
    } else {
        None
    }
}

/// The number that the four hexadecimal digits at place `i` write.
pub open spec fn scan_hex4(s: Seq<char>, i: int) -> Option<nat> {
    if 0 <= i && i + 4 <= s.len() && hex_value(s[i]) is Some && hex_value(s[i + 1]) is Some
        && hex_value(s[i + 2]) is Some && hex_value(s[i + 3]) is Some {
        Some(
            ((hex_value(s[i]).unwrap() * 16 + hex_value(s[i + 1]).unwrap()) * 16 + hex_value(
                s[i + 2],
            ).unwrap()) * 16 + hex_value(s[i + 3]).unwrap(),
        )
    } else {
        None
    }
}

/// The character that two surrogates give together.
pub open spec fn surrogate_pair(high: nat, low: nat) -> char {
    (0x10000 + (high - 0xD800) * 0x400 + (low - 0xDC00)) as char
}

/// The escape whose first character, the one behind the backslash, stands at
/// place `i`. The result holds the character that it stands for and the place
/// behind it. A surrogate is accepted only as the first of a pair.
pub open spec fn scan_escape(s: Seq<char>, i: int) -> Option<(char, int)> {
    if !(0 <= i < s.len()) {
        None
    } else if s[i] == '"' {
        Some(('"', i + 1))
    } else if s[i] == '\\' {
        Some(('\\', i + 1))
    } else if s[i] == '/' {
        Some(('/', i + 1))
    } else if s[i] == 'b' {
        Some(('\u{08}', i + 1))
    } else if s[i] == 'f' {
        Some(('\u{0C}', i + 1))
    } else if s[i] == 'n' {
        Some(('\n', i + 1))
    } else if s[i] == 'r' {
        Some(('\r', i + 1))
    } else if s[i] == 't' {
        Some(('\t', i + 1))
    } else if s[i] == 'u' {
        match scan_hex4(s, i + 1) {
            None => None,
            Some(high) => if high < 0xD800 || 0xE000 <= high {
                Some((high as char, i + 5))
            } else if high < 0xDC00 && has_char(s, i + 5, '\\') && has_char(s, i + 6, 'u') {
                match scan_hex4(s, i + 7) {
                    Some(low) => if 0xDC00 <= low < 0xE000 {
                        Some((surrogate_pair(high, low), i + 11))
                    } else {
                        None
                    },
                    None => None,
                }
            } else {
                None
            },
        }
    } else {
        None
    }
}

/// The rest of a string whose characters so far are `acc`, up to the quote
/// that closes it. A control character must be escaped.
pub open spec fn scan_string_body(s: Seq<char>, i: int, acc: Seq<char>) -> Option<(Seq<char>, int)>
    decreases s.len() - i,
{
    if !(0 <= i < s.len()) {
        None
    } else if s[i] == '"' {
        Some((acc, i + 1))
    } else if s[i] == '\\' {
        match scan_escape(s, i + 1) {
            Some((c, next)) => scan_string_body(s, next, acc.push(c)),
            None => None,
        }
    } else if (s[i] as u32) < 0x20 {
        None
    } else {
        scan_string_body(s, i + 1, acc.push(s[i]))
    }
}

/// A string at place `i`: what it holds and the place behind it.
pub open spec fn scan_string(s: Seq<char>, i: int) -> Option<(Seq<char>, int)> {
    if has_char(s, i, '"') {
        scan_string_body(s, i + 1, Seq::empty())
    } else {
        None
    }
}

/// The field that a name in a stored record stands for.
pub open spec fn field_of(name: Seq<char>) -> Option<RecordField> {
    if name == RecordField::ClientVersion.key() {
        Some(RecordField::ClientVersion)
    } else if name == RecordField::BootstrapperVersion.key() {
        Some(RecordField::BootstrapperVersion)
    } else if name == RecordField::MajorRev.key() {
        Some(RecordField::MajorRev)
    } else if name == RecordField::Version.key() {
        Some(RecordField::Version)
    } else if name == RecordField::Patch.key() {
        Some(RecordField::Patch)
    } else if name == RecordField::ChangeList.key() {
        Some(RecordField::ChangeList)
    } else {
        None
    }
}

/// The fields of a record that have been read so far.
pub struct DraftView {
    pub client_version: Option<Seq<char>>,
    pub bootstrapper_version: Option<Seq<char>>,
    pub major_rev: Option<u32>,
    pub version: Option<u32>,
    pub patch: Option<u32>,
    pub change_list: Option<u64>,
}

/// The draft of a record of which no field has been read.
pub open spec fn empty_draft() -> DraftView {
    DraftView {
        client_version: None,
        bootstrapper_version: None,
        major_rev: None,
        version: None,
        patch: None,
        change_list: None,
    }
}

/// The record of a draft that has all six fields.
pub open spec fn complete(d: DraftView) -> Option<RecordView> {
    if d.client_version is Some && d.bootstrapper_version is Some && d.major_rev is Some
        && d.version is Some && d.patch is Some && d.change_list is Some {
        Some(
            RecordView {
                client_version: d.client_version.unwrap(),
                bootstrapper_version: d.bootstrapper_version.unwrap(),
                major_rev: d.major_rev.unwrap(),
                version: d.version.unwrap(),
                patch: d.patch.unwrap(),
                change_list: d.change_list.unwrap(),
            },
        )
    } else {
        None
    }
}

/// Whether the draft has the field already.
pub open spec fn has_field(d: DraftView, field: RecordField) -> bool {
    match field {
        RecordField::ClientVersion => d.client_version is Some,
        RecordField::BootstrapperVersion => d.bootstrapper_version is Some,
        RecordField::MajorRev => d.major_rev is Some,
        RecordField::Version => d.version is Some,
        RecordField::Patch => d.patch is Some,
        RecordField::ChangeList => d.change_list is Some,
    }
}

/// The value of `field` at place `i`, put into the draft: a string for the
/// two identifiers, a number that fits the field for the others.
pub open spec fn scan_value(s: Seq<char>, i: int, d: DraftView, field: RecordField) -> Option<
    (DraftView, int),
> {
    match field {
        RecordField::ClientVersion => match scan_string(s, i) {
            Some((t, next)) => Some((DraftView { client_version: Some(t), ..d }, next)),
            None => None,
        },
        RecordField::BootstrapperVersion => match scan_string(s, i) {
            Some((t, next)) => Some((DraftView { bootstrapper_version: Some(t), ..d }, next)),
            None => None,
        },
        RecordField::MajorRev => match scan_number(s, i, u32::MAX as nat) {
            Some((n, next)) => Some((DraftView { major_rev: Some(n as u32), ..d }, next)),
            None => None,
        },
        RecordField::Version => match scan_number(s, i, u32::MAX as nat) {
            Some((n, next)) => Some((DraftView { version: Some(n as u32), ..d }, next)),
            None => None,
        },
        RecordField::Patch => match scan_number(s, i, u32::MAX as nat) {
            Some((n, next)) => Some((DraftView { patch: Some(n as u32), ..d }, next)),
            None => None,
        },
        RecordField::ChangeList => match scan_number(s, i, u64::MAX as nat) {
            Some((n, next)) => Some((DraftView { change_list: Some(n as u64), ..d }, next)),
            None => None,
        },
    }
}

/// How deep the arrays and objects of a value that is passed over may nest.
pub open spec fn nesting_limit() -> nat {
    128
}

/// The place behind the escape whose first character, the one behind the
/// backslash, stands at place `i`, in a string that is passed over: four
/// hexadecimal digits may write any number.
pub open spec fn skip_escape(s: Seq<char>, i: int) -> Option<int> {
    if !(0 <= i < s.len()) {
        None
    } else if s[i] == '"' || s[i] == '\\' || s[i] == '/' || s[i] == 'b' || s[i] == 'f' || s[i]
        == 'n' || s[i] == 'r' || s[i] == 't' {
        Some(i + 1)
    } else if s[i] == 'u' && scan_hex4(s, i + 1) is Some {
        Some(i + 5)
    } else {
        None
    }
}

/// The place behind the quote that closes a string that is passed over.
pub open spec fn skip_string_body(s: Seq<char>, i: int) -> Option<int>
    decreases s.len() - i,
{
    if !(0 <= i < s.len()) {
        None
    } else if s[i] == '"' {
        Some(i + 1)
    } else if s[i] == '\\' {
        match skip_escape(s, i + 1) {
            Some(next) => skip_string_body(s, next),
            None => None,
        }
    } else if (s[i] as u32) < 0x20 {
        None
    } else {
        skip_string_body(s, i + 1)
    }
}

/// The place behind a string at place `i` that is passed over.
pub open spec fn skip_string(s: Seq<char>, i: int) -> Option<int> {
    if has_char(s, i, '"') {
        skip_string_body(s, i + 1)
    } else {
        None
    }
}

/// The place behind the digits that must stand at place `i`.
pub open spec fn skip_digits(s: Seq<char>, i: int) -> Option<int> {
    if 0 <= i < s.len() && is_digit(s[i]) {
        Some(digits_end(s, i))
    } else {
        None
    }
}

/// The place behind the exponent of a number, if one begins at place `i`.
pub open spec fn skip_exponent(s: Seq<char>, i: int) -> Option<int> {
    if has_char(s, i, 'e') || has_char(s, i, 'E') {
        if has_char(s, i + 1, '+') || has_char(s, i + 1, '-') {
            skip_digits(s, i + 2)
        } else {
            skip_digits(s, i + 1)
        }
    } else {
        Some(i)
    }
}

/// The place behind the fraction and the exponent of a number, if any
/// begins at place `i`.
pub open spec fn skip_fraction(s: Seq<char>, i: int) -> Option<int> {
    if has_char(s, i, '.') {
        match skip_digits(s, i + 1) {
            Some(end) => skip_exponent(s, end),
            None => None,
        }
    } else {
        skip_exponent(s, i)
    }
}

/// The place behind a number of any form at place `i`: a minus sign or none,
/// `0` or digits that do not begin with `0`, then a fraction and an exponent
/// or neither.
pub open spec fn skip_number(s: Seq<char>, i: int) -> Option<int> {
    let first = if has_char(s, i, '-') {
        i + 1
    } else {
        i
    };
    if has_char(s, first, '0') {
        skip_fraction(s, first + 1)
    } else {
        match skip_digits(s, first) {
            Some(end) => skip_fraction(s, end),
            None => None,
        }
    }
}

/// The place behind `word`, which must stand at place `i`.
pub open spec fn skip_word(s: Seq<char>, i: int, word: Seq<char>) -> Option<int> {
    if 0 <= i && i + word.len() <= s.len() && s.subrange(i, i + word.len()) == word {
        Some(i + word.len())
    } else {
        None
    }
}

/// The place behind a value of any kind at place `i`: a string, a number,
/// `true`, `false`, `null`, an array or an object. `depth` says how deep
/// arrays and objects may still nest.
pub open spec fn skip_value(s: Seq<char>, i: int, depth: nat) -> Option<int>
    decreases depth, s.len() - i, 0nat,
{
    if !(0 <= i < s.len()) {
        None
    } else if s[i] == '"' {
        skip_string(s, i)
    } else if s[i] == '-' || is_digit(s[i]) {
        skip_number(s, i)
    } else if s[i] == 't' {
        skip_word(s, i, seq!['t', 'r', 'u', 'e'])
    } else if s[i] == 'f' {
        skip_word(s, i, seq!['f', 'a', 'l', 's', 'e'])
    } else if s[i] == 'n' {
        skip_word(s, i, seq!['n', 'u', 'l', 'l'])
    } else if s[i] == '[' && depth > 0 {
        if has_char(s, skip_ws(s, i + 1), ']') {
            Some(skip_ws(s, i + 1) + 1)
        } else {
            skip_items(s, i + 1, (depth - 1) as nat)
        }
    } else if s[i] == '{' && depth > 0 {
        if has_char(s, skip_ws(s, i + 1), '}') {
            Some(skip_ws(s, i + 1) + 1)
        } else {
            skip_pairs(s, i + 1, (depth - 1) as nat)
        }
    } else {
        None
    }
}

/// The place behind the bracket that closes an array whose next item begins
/// at or behind place `i`.
pub open spec fn skip_items(s: Seq<char>, i: int, depth: nat) -> Option<int>
    decreases depth, s.len() - i, 1nat,
{
    let start = skip_ws(s, i);
    if !(0 <= i <= start < s.len()) {
        None
    } else {
        match skip_value(s, start, depth) {
            None => None,
            Some(after) => {
                let mark = skip_ws(s, after);
                if has_char(s, mark, ',') && i <= mark {
                    skip_items(s, mark + 1, depth)
                } else if has_char(s, mark, ']') {
                    Some(mark + 1)
                } else {
                    None
                }
            },
        }
    }
}

/// The place behind the brace that closes an object whose next field begins
/// at or behind place `i`. The names of the fields are strings of any
/// content.
pub open spec fn skip_pairs(s: Seq<char>, i: int, depth: nat) -> Option<int>
    decreases depth, s.len() - i, 1nat,
{
    let start = skip_ws(s, i);
    match skip_string(s, start) {
        None => None,
        Some(after_name) => {
            let colon = skip_ws(s, after_name);
            let value = skip_ws(s, colon + 1);
            if !has_char(s, colon, ':') || !(0 <= i <= value < s.len()) {
                None
            } else {
                match skip_value(s, value, depth) {
                    None => None,
                    Some(after) => {
                        let mark = skip_ws(s, after);
                        if has_char(s, mark, ',') && i <= mark {
                            skip_pairs(s, mark + 1, depth)
                        } else if has_char(s, mark, '}') {
                            Some(mark + 1)
                        } else {
                            None
                        }
                    },
                }
            }
        },
    }
}

/// One field at place `i`: its name, a colon and its value, with any white
/// space round the colon. A field with one of the six names must not be in
/// the draft yet, and its value is put there. A field with any other name is
/// passed over, whatever value it has.
pub open spec fn scan_member(s: Seq<char>, i: int, d: DraftView) -> Option<(DraftView, int)> {
    match scan_string(s, i) {
        None => None,
        Some((name, after_name)) => {
            let colon = skip_ws(s, after_name);
            if !has_char(s, colon, ':') {
                None
            } else {
                match field_of(name) {
                    Some(field) => if has_field(d, field) {
                        None
                    } else {
                        scan_value(s, skip_ws(s, colon + 1), d, field)
                    },
                    None => match skip_value(s, skip_ws(s, colon + 1), nesting_limit()) {
                        Some(next) => Some((d, next)),
                        None => None,
                    },
                }
            }
        },
    }
}

/// The fields of a record from place `i` on, up to the brace that closes it:
/// fields with commas between them, in any order, each of the six once, any
/// others besides, and white space at most round them.
pub open spec fn scan_members(s: Seq<char>, i: int, d: DraftView) -> Option<(RecordView, int)>
    decreases s.len() - i,
{
    match scan_member(s, skip_ws(s, i), d) {
        None => None,
        Some((draft, after)) => {
            let mark = skip_ws(s, after);
            if has_char(s, mark, ',') && i <= mark {
                scan_members(s, mark + 1, draft)
            } else if has_char(s, mark, '}') {
                match complete(draft) {
                    Some(r) => Some((r, mark + 1)),
                    None => None,
                }
            } else {
                None
            }
        },
    }
}

/// A record at place `i`: the record and the place behind it.
pub open spec fn scan_record(s: Seq<char>, i: int) -> Option<(RecordView, int)> {
    if has_char(s, i, '{') {
        scan_members(s, i + 1, empty_draft())
    } else {
        None
    }
}

/// The key of an entry at place `i`: a number between quotes, written as
/// [`scan_number`] says.
pub open spec fn scan_key(s: Seq<char>, i: int) -> Option<(u64, int)> {
    if has_char(s, i, '"') {
        match scan_number(s, i + 1, u64::MAX as nat) {
            Some((n, end)) => if has_char(s, end, '"') {
                Some((n as u64, end + 1))
            } else {
                None
            },
            None => None,
        }
    } else {
        None
    }
}

/// One entry at place `i`: a key, a colon and a record.
pub open spec fn scan_entry(s: Seq<char>, i: int) -> Option<((u64, RecordView), int)> {
    match scan_key(s, i) {
        None => None,
        Some((key, after_key)) => {
            let colon = skip_ws(s, after_key);
            if has_char(s, colon, ':') {
                match scan_record(s, skip_ws(s, colon + 1)) {
                    Some((r, next)) => Some(((key, r), next)),
                    None => None,
                }
            } else {
                None
            }
        },
    }
}

/// The entries of a history from place `i` on, up to the brace that closes
/// it, with commas between them and white space at most round them. They are
/// put into `acc` one after the other: of two entries with one key the later
/// stays.
pub open spec fn scan_entries(s: Seq<char>, i: int, acc: Map<u64, RecordView>) -> Option<
    (Map<u64, RecordView>, int),
>
    decreases s.len() - i,
{
    match scan_entry(s, skip_ws(s, i)) {
        None => None,
        Some((entry, after)) => {
            let mark = skip_ws(s, after);
            if has_char(s, mark, ',') && i <= mark {
                scan_entries(s, mark + 1, acc.insert(entry.0, entry.1))
            } else if has_char(s, mark, '}') {
                Some((acc.insert(entry.0, entry.1), mark + 1))
            } else {
                None
            }
        },
    }
}

/// Whether only white space stands at and behind place `i`.
pub open spec fn ends_at(s: Seq<char>, i: int) -> bool {
    skip_ws(s, i) == s.len()
}

/// The history that a text holds: one object, empty or with entries, and
/// white space at most round it and between its tokens.
pub open spec fn decode_history_spec(s: Seq<char>) -> Option<Map<u64, RecordView>> {
    let open = skip_ws(s, 0);
    if !has_char(s, open, '{') {
        None
    } else {
        let first = skip_ws(s, open + 1);
        if has_char(s, first, '}') {
            if ends_at(s, first + 1) {
                Some(Map::empty())
            } else {
                None
            }
        } else {
            match scan_entries(s, open + 1, Map::empty()) {
                Some((m, end)) => if ends_at(s, end) {
                    Some(m)
                } else {
                    None
                },
                None => None,
            }
        }
    }
}

/// The record that a text holds, with white space at most round it.
pub open spec fn decode_record_spec(s: Seq<char>) -> Option<RecordView> {
    match scan_record(s, skip_ws(s, 0)) {
        Some((r, end)) => if ends_at(s, end) {
            Some(r)
        } else {
            None
        },
        None => None,
    }
}

} // verus!
