use crate::codec::grammar::{
    complete, decode_history_spec, decode_record_spec, digits_end, empty_draft, field_of, has_char, has_field, hex_value, is_ws, scan_entries, scan_entry, scan_escape,
    scan_hex4, scan_key, scan_member, scan_members, scan_number, scan_record, scan_string,
    scan_string_body, skip_ws, DraftView,
};
use crate::codec::layout::{
    ascending_entries, entries_below, entries_text, entry_text, escape_of, escaped, gap_close,
    gap_colon, gap_comma, gap_open, hex_char, history_text, json_string, member_text,
    record_layout, record_pretty_text, record_text, RecordField,
};
use crate::domain::RecordView;
use crate::text::{all_digits, decimal_text, decimal_value, digit_char, digit_of, is_digit};
use vstd::prelude::*;

verus! {

/// Whether `piece` stands in `s` from place `i` on.
#[verifier::opaque]
pub open spec fn holds_at(s: Seq<char>, i: int, piece: Seq<char>) -> bool {
    &&& 0 <= i
    &&& i + piece.len() <= s.len()
    &&& forall|k: int| 0 <= k < piece.len() ==> s[i + k] == #[trigger] piece[k]
}

/// The characters of a piece that stands in `s` are those of `s`.
proof fn lemma_char_at(s: Seq<char>, i: int, piece: Seq<char>, k: int)
    requires
        holds_at(s, i, piece),
        0 <= k < piece.len(),
    ensures
        0 <= i + k < s.len(),
        s[i + k] == piece[k],
{
    reveal(holds_at);
}

/// Where two pieces stand one behind the other, each of them stands.
proof fn lemma_split(s: Seq<char>, i: int, a: Seq<char>, b: Seq<char>)
    requires
        holds_at(s, i, a + b),
    ensures
        holds_at(s, i, a),
        holds_at(s, i + a.len(), b),
{
    reveal(holds_at);
    assert forall|k: int| 0 <= k < a.len() implies s[i + k] == #[trigger] a[k] by {
        assert((a + b)[k] == a[k]);
    }
    assert forall|k: int| 0 <= k < b.len() implies s[i + a.len() + k] == #[trigger] b[k] by {
        assert((a + b)[a.len() + k] == b[k]);
    }
}

/// White space is skipped up to the first character that is none.
proof fn lemma_skip_gap(s: Seq<char>, i: int, gap: Seq<char>)
    requires
        holds_at(s, i, gap),
        forall|k: int| 0 <= k < gap.len() ==> is_ws(#[trigger] gap[k]),
        i + gap.len() < s.len() ==> !is_ws(s[i + gap.len()]),
    ensures
        skip_ws(s, i) == i + gap.len(),
    decreases gap.len(),
{
    reveal(holds_at);
    if gap.len() > 0 {
        assert(s[i] == gap[0]);
        let rest = gap.skip(1);
        assert forall|k: int| 0 <= k < rest.len() implies s[i + 1 + k] == #[trigger] rest[k] by {
            assert(rest[k] == gap[k + 1]);
        }
        assert forall|k: int| 0 <= k < rest.len() implies is_ws(#[trigger] rest[k]) by {
            assert(rest[k] == gap[k + 1]);
        }
        lemma_skip_gap(s, i + 1, rest);
    }
}

/// The gaps of both layouts hold white space only.
proof fn lemma_gaps_are_space(pretty: bool)
    ensures
        forall|k: int| 0 <= k < gap_open(pretty).len() ==> is_ws(#[trigger] gap_open(pretty)[k]),
        forall|k: int| 0 <= k < gap_close(pretty).len() ==> is_ws(#[trigger] gap_close(pretty)[k]),
        gap_comma(pretty) == seq![','] + gap_open(pretty),
        gap_colon(pretty).len() >= 1,
        gap_colon(pretty)[0] == ':',
        forall|k: int| 1 <= k < gap_colon(pretty).len() ==> is_ws(#[trigger] gap_colon(pretty)[k]),
{
    assert(gap_comma(pretty) =~= seq![','] + gap_open(pretty));
}

/// What `decimal_text` writes: digits that begin with `0` for 0 only, and
/// that give the number back.
pub proof fn lemma_decimal_text(n: nat)
    ensures
        decimal_text(n).len() >= 1,
        all_digits(decimal_text(n)),
        decimal_value(decimal_text(n)) == n,
        n > 0 ==> decimal_text(n)[0] != '0',
        n == 0 ==> decimal_text(n)[0] == '0',
    decreases n,
{
    let t = decimal_text(n);
    if n < 10 {
        assert(t == seq![digit_char(n)]);
        assert(t.drop_last() =~= Seq::<char>::empty());
        assert(decimal_value(t.drop_last()) == 0);
        assert(digit_of(t.last()) == n);
    } else {
        let front = decimal_text(n / 10);
        lemma_decimal_text(n / 10);
        assert(t == front.push(digit_char(n % 10)));
        assert(t.drop_last() =~= front);
        assert(digit_of(t.last()) == n % 10);
        assert(t[0] == front[0]);
        assert forall|i: int| 0 <= i < t.len() implies is_digit(#[trigger] t[i]) by {
            if i < front.len() {
                assert(t[i] == front[i]);
            }
        }
    }
}

/// A run of digits ends where the first other character stands.
proof fn lemma_digits_run(s: Seq<char>, i: int, run: Seq<char>)
    requires
        holds_at(s, i, run),
        all_digits(run),
        i + run.len() < s.len() ==> !is_digit(s[i + run.len()]),
    ensures
        digits_end(s, i) == i + run.len(),
    decreases run.len(),
{
    reveal(holds_at);
    if run.len() > 0 {
        assert(s[i] == run[0]);
        let rest = run.skip(1);
        assert forall|k: int| 0 <= k < rest.len() implies s[i + 1 + k] == #[trigger] rest[k] by {
            assert(rest[k] == run[k + 1]);
        }
        assert forall|k: int| 0 <= k < rest.len() implies is_digit(#[trigger] rest[k]) by {
            assert(rest[k] == run[k + 1]);
        }
        lemma_digits_run(s, i + 1, rest);
    }
}

/// A number that was written is read as that number.
proof fn lemma_scan_number(s: Seq<char>, i: int, n: nat, max: nat)
    requires
        holds_at(s, i, decimal_text(n)),
        n <= max,
        i + decimal_text(n).len() < s.len() ==> !is_digit(s[i + decimal_text(n).len()]),
    ensures
        scan_number(s, i, max) == Some((n, i + decimal_text(n).len())),
{
    reveal(holds_at);
    lemma_decimal_text(n);
    let t = decimal_text(n);
    assert(s[i] == t[0]);
    if n == 0 {
        assert(t.len() == 1);
    } else {
        lemma_digits_run(s, i, t);
        assert(s.subrange(i, i + t.len()) =~= t);
    }
}

/// A hexadecimal digit that was written is read as its number.
proof fn lemma_hex_char(d: nat)
    requires
        d < 16,
    ensures
        hex_value(hex_char(d)) == Some(d),
{
}

/// One character that was written inside a string is read as that character.
proof fn lemma_scan_escaped_char(s: Seq<char>, p: int, c: char, acc: Seq<char>)
    requires
        holds_at(s, p, escape_of(c)),
    ensures
        scan_string_body(s, p, acc) == scan_string_body(s, p + escape_of(c).len(), acc.push(c)),
{
    reveal(holds_at);
    let e = escape_of(c);
    assert(s[p] == e[0]);
    if c == '"' || c == '\\' || c == '\u{08}' || c == '\u{0C}' || c == '\n' || c == '\r' || c
        == '\t' {
        assert(s[p + 1] == e[1]);
    } else if (c as u32) < 0x20 {
        let code = c as u32;
        assert(s[p + 1] == e[1]);
        assert(s[p + 2] == e[2]);
        assert(s[p + 3] == e[3]);
        assert(s[p + 4] == e[4]);
        assert(s[p + 5] == e[5]);
        lemma_hex_char(0);
        lemma_hex_char((code / 16) as nat);
        lemma_hex_char((code % 16) as nat);
        assert(hex_value('0') == Some(0nat));
        assert(scan_hex4(s, p + 2) == Some(code as nat));
        assert((code as nat) as char == c);
        assert(scan_escape(s, p + 1) == Some((c, p + 6)));
    } else {
    }
}

/// The characters that were written inside a string are read as they were.
proof fn lemma_scan_escaped(s: Seq<char>, i: int, t: Seq<char>)
    requires
        holds_at(s, i, escaped(t)),
    ensures
        scan_string_body(s, i, Seq::empty()) == scan_string_body(s, i + escaped(t).len(), t),
    decreases t.len(),
{
    if t.len() > 0 {
        let front = t.drop_last();
        lemma_split(s, i, escaped(front), escape_of(t.last()));
        lemma_scan_escaped(s, i, front);
        lemma_scan_escaped_char(s, i + escaped(front).len(), t.last(), front);
        assert(front.push(t.last()) =~= t);
    } else {
        assert(t =~= Seq::<char>::empty());
    }
}

/// A string that was written is read as that string.
proof fn lemma_scan_string(s: Seq<char>, i: int, t: Seq<char>)
    requires
        holds_at(s, i, json_string(t)),
    ensures
        scan_string(s, i) == Some((t, i + json_string(t).len())),
{
    reveal(holds_at);
    lemma_split(s, i, seq!['"'] + escaped(t), seq!['"']);
    lemma_split(s, i, seq!['"'], escaped(t));
    assert(s[i] == seq!['"'][0]);
    lemma_scan_escaped(s, i + 1, t);
    let close = i + 1 + escaped(t).len();
    assert(s[close] == seq!['"'][0]);
}

/// Every field is found again by its name.
proof fn lemma_field_names(field: RecordField)
    ensures
        field_of(field.key()) == Some(field),
{
    reveal_strlit("clientVersion");
    reveal_strlit("bootstrapperVersion");
    reveal_strlit("majorRev");
    reveal_strlit("version");
    reveal_strlit("patch");
    reveal_strlit("changeList");
    assert("clientVersion"@.len() == 13);
    assert("bootstrapperVersion"@.len() == 19);
    assert("majorRev"@.len() == 8);
    assert("version"@.len() == 7);
    assert("patch"@.len() == 5);
    assert("changeList"@.len() == 10);
}

/// Whether the field holds a string.
pub open spec fn is_text_field(field: RecordField) -> bool {
    field == RecordField::ClientVersion || field == RecordField::BootstrapperVersion
}

/// The largest number that a field holds.
pub open spec fn field_limit(field: RecordField) -> nat {
    if field == RecordField::ChangeList {
        u64::MAX as nat
    } else {
        u32::MAX as nat
    }
}

/// The draft with a string put into one of its fields.
pub open spec fn put_text(d: DraftView, field: RecordField, t: Seq<char>) -> DraftView {
    match field {
        RecordField::ClientVersion => DraftView { client_version: Some(t), ..d },
        RecordField::BootstrapperVersion => DraftView { bootstrapper_version: Some(t), ..d },
        _ => d,
    }
}

/// The draft with a number put into one of its fields.
pub open spec fn put_number(d: DraftView, field: RecordField, n: nat) -> DraftView {
    match field {
        RecordField::MajorRev => DraftView { major_rev: Some(n as u32), ..d },
        RecordField::Version => DraftView { version: Some(n as u32), ..d },
        RecordField::Patch => DraftView { patch: Some(n as u32), ..d },
        RecordField::ChangeList => DraftView { change_list: Some(n as u64), ..d },
        _ => d,
    }
}

/// The place at which the value of a written field begins, where the gap
/// before the field begins at `x`.
pub open spec fn value_start(x: int, field: RecordField, pretty: bool) -> int {
    x + gap_open(pretty).len() + json_string(field.key()).len() + gap_colon(pretty).len()
}

/// Up to its value a field that was written is read as that field.
proof fn lemma_member_head(
    s: Seq<char>,
    x: int,
    field: RecordField,
    value: Seq<char>,
    pretty: bool,
)
    requires
        holds_at(s, x, gap_open(pretty)),
        holds_at(s, x + gap_open(pretty).len(), member_text(field, value, pretty)),
        value.len() > 0,
        !is_ws(value[0]),
    ensures
        skip_ws(s, x) == x + gap_open(pretty).len(),
        scan_string(s, x + gap_open(pretty).len()) == Some(
            (field.key(), x + gap_open(pretty).len() + json_string(field.key()).len()),
        ),
        field_of(field.key()) == Some(field),
        skip_ws(s, x + gap_open(pretty).len() + json_string(field.key()).len()) == x + gap_open(
            pretty,
        ).len() + json_string(field.key()).len(),
        has_char(s, x + gap_open(pretty).len() + json_string(field.key()).len(), ':'),
        skip_ws(s, x + gap_open(pretty).len() + json_string(field.key()).len() + 1) == value_start(
            x,
            field,
            pretty,
        ),
        holds_at(s, value_start(x, field, pretty), value),
{
    reveal(holds_at);
    lemma_gaps_are_space(pretty);
    let p = x + gap_open(pretty).len();
    let name = json_string(field.key());
    let colon = gap_colon(pretty);
    lemma_split(s, p, name + colon, value);
    lemma_split(s, p, name, colon);
    assert(name[0] == '"');
    assert(s[p] == name[0]);
    lemma_skip_gap(s, x, gap_open(pretty));
    lemma_scan_string(s, p, field.key());
    lemma_field_names(field);
    let a = p + name.len();
    assert(s[a] == colon[0]);
    let v = a + colon.len();
    assert(s[v] == value[0]);
    let space = colon.skip(1);
    assert forall|k: int| 0 <= k < space.len() implies s[a + 1 + k] == #[trigger] space[k] by {
        assert(space[k] == colon[k + 1]);
    }
    assert forall|k: int| 0 <= k < space.len() implies is_ws(#[trigger] space[k]) by {
        assert(space[k] == colon[k + 1]);
    }
    lemma_skip_gap(s, a + 1, space);
}

/// A field that holds a string and was written is read into the draft.
proof fn lemma_text_member(
    s: Seq<char>,
    x: int,
    d: DraftView,
    field: RecordField,
    t: Seq<char>,
    pretty: bool,
)
    requires
        is_text_field(field),
        !has_field(d, field),
        holds_at(s, x, gap_open(pretty)),
        holds_at(s, x + gap_open(pretty).len(), member_text(field, json_string(t), pretty)),
    ensures
        scan_member(s, skip_ws(s, x), d) == Some(
            (
                put_text(d, field, t),
                x + gap_open(pretty).len() + member_text(field, json_string(t), pretty).len(),
            ),
        ),
{
    let value = json_string(t);
    assert(value[0] == '"');
    lemma_member_head(s, x, field, value, pretty);
    lemma_scan_string(s, value_start(x, field, pretty), t);
}

/// A field that holds a number and was written is read into the draft.
proof fn lemma_number_member(
    s: Seq<char>,
    x: int,
    d: DraftView,
    field: RecordField,
    n: nat,
    pretty: bool,
)
    requires
        !is_text_field(field),
        n <= field_limit(field),
        !has_field(d, field),
        holds_at(s, x, gap_open(pretty)),
        holds_at(s, x + gap_open(pretty).len(), member_text(field, decimal_text(n), pretty)),
        x + gap_open(pretty).len() + member_text(field, decimal_text(n), pretty).len() < s.len(),
        !is_digit(
            s[x + gap_open(pretty).len() + member_text(field, decimal_text(n), pretty).len()],
        ),
    ensures
        scan_member(s, skip_ws(s, x), d) == Some(
            (
                put_number(d, field, n),
                x + gap_open(pretty).len() + member_text(field, decimal_text(n), pretty).len(),
            ),
        ),
{
    let value = decimal_text(n);
    lemma_decimal_text(n);
    assert(is_digit(value[0]));
    lemma_member_head(s, x, field, value, pretty);
    lemma_scan_number(s, value_start(x, field, pretty), n, field_limit(field));
}

/// A written field that holds a string and has a comma behind it leads on to
/// the next field.
proof fn lemma_text_step(
    s: Seq<char>,
    x: int,
    d: DraftView,
    field: RecordField,
    t: Seq<char>,
    pretty: bool,
)
    requires
        0 <= x,
        is_text_field(field),
        !has_field(d, field),
        holds_at(s, x, gap_open(pretty)),
        holds_at(s, x + gap_open(pretty).len(), member_text(field, json_string(t), pretty)),
        has_char(
            s,
            x + gap_open(pretty).len() + member_text(field, json_string(t), pretty).len(),
            ',',
        ),
    ensures
        scan_members(s, x, d) == scan_members(
            s,
            x + gap_open(pretty).len() + member_text(field, json_string(t), pretty).len() + 1,
            put_text(d, field, t),
        ),
{
    lemma_text_member(s, x, d, field, t, pretty);
    let e = x + gap_open(pretty).len() + member_text(field, json_string(t), pretty).len();
    assert(skip_ws(s, e) == e);
}

/// A written field that holds a number and has a comma behind it leads on to
/// the next field.
proof fn lemma_number_step(
    s: Seq<char>,
    x: int,
    d: DraftView,
    field: RecordField,
    n: nat,
    pretty: bool,
)
    requires
        0 <= x,
        !is_text_field(field),
        n <= field_limit(field),
        !has_field(d, field),
        holds_at(s, x, gap_open(pretty)),
        holds_at(s, x + gap_open(pretty).len(), member_text(field, decimal_text(n), pretty)),
        has_char(
            s,
            x + gap_open(pretty).len() + member_text(field, decimal_text(n), pretty).len(),
            ',',
        ),
    ensures
        scan_members(s, x, d) == scan_members(
            s,
            x + gap_open(pretty).len() + member_text(field, decimal_text(n), pretty).len() + 1,
            put_number(d, field, n),
        ),
{
    lemma_number_member(s, x, d, field, n, pretty);
    let e = x + gap_open(pretty).len() + member_text(field, decimal_text(n), pretty).len();
    assert(skip_ws(s, e) == e);
}

/// The last written field, with the closing brace behind it, ends the record.
proof fn lemma_last_step(s: Seq<char>, x: int, d: DraftView, n: nat, pretty: bool)
    requires
        0 <= x,
        n <= u64::MAX,
        !has_field(d, RecordField::ChangeList),
        holds_at(s, x, gap_open(pretty)),
        holds_at(
            s,
            x + gap_open(pretty).len(),
            member_text(RecordField::ChangeList, decimal_text(n), pretty),
        ),
        holds_at(
            s,
            x + gap_open(pretty).len() + member_text(
                RecordField::ChangeList,
                decimal_text(n),
                pretty,
            ).len(),
            gap_close(pretty),
        ),
        has_char(
            s,
            x + gap_open(pretty).len() + member_text(
                RecordField::ChangeList,
                decimal_text(n),
                pretty,
            ).len() + gap_close(pretty).len(),
            '}',
        ),
    ensures
        scan_members(s, x, d) == match complete(put_number(d, RecordField::ChangeList, n)) {
            Some(r) => Some(
                (
                    r,
                    x + gap_open(pretty).len() + member_text(
                        RecordField::ChangeList,
                        decimal_text(n),
                        pretty,
                    ).len() + gap_close(pretty).len() + 1,
                ),
            ),
            None => None,
        },
{
    lemma_gaps_are_space(pretty);
    let gc = gap_close(pretty);
    let e = x + gap_open(pretty).len() + member_text(
        RecordField::ChangeList,
        decimal_text(n),
        pretty,
    ).len();
    assert(!is_digit(s[e])) by {
        if gc.len() > 0 {
            lemma_char_at(s, e, gc, 0);
        }
    }
    lemma_number_member(s, x, d, RecordField::ChangeList, n, pretty);
    lemma_skip_gap(s, e, gc);
}

/// The pieces of a written record, each at its place.
proof fn lemma_record_pieces(s: Seq<char>, i: int, r: RecordView, pretty: bool) -> (e: (
    int,
    int,
    int,
    int,
    int,
    int,
))
    requires
        holds_at(s, i, record_layout(r, pretty)),
    ensures
        0 <= i,
        has_char(s, i, '{'),
        holds_at(s, i + 1, gap_open(pretty)),
        holds_at(
            s,
            i + 1 + gap_open(pretty).len(),
            member_text(RecordField::ClientVersion, json_string(r.client_version), pretty),
        ),
        e.0 == i + 1 + gap_open(pretty).len() + member_text(
            RecordField::ClientVersion,
            json_string(r.client_version),
            pretty,
        ).len(),
        has_char(s, e.0, ','),
        holds_at(s, e.0 + 1, gap_open(pretty)),
        holds_at(
            s,
            e.0 + 1 + gap_open(pretty).len(),
            member_text(
                RecordField::BootstrapperVersion,
                json_string(r.bootstrapper_version),
                pretty,
            ),
        ),
        e.1 == e.0 + 1 + gap_open(pretty).len() + member_text(
            RecordField::BootstrapperVersion,
            json_string(r.bootstrapper_version),
            pretty,
        ).len(),
        has_char(s, e.1, ','),
        holds_at(s, e.1 + 1, gap_open(pretty)),
        holds_at(
            s,
            e.1 + 1 + gap_open(pretty).len(),
            member_text(RecordField::MajorRev, decimal_text(r.major_rev as nat), pretty),
        ),
        e.2 == e.1 + 1 + gap_open(pretty).len() + member_text(
            RecordField::MajorRev,
            decimal_text(r.major_rev as nat),
            pretty,
        ).len(),
        has_char(s, e.2, ','),
        holds_at(s, e.2 + 1, gap_open(pretty)),
        holds_at(
            s,
            e.2 + 1 + gap_open(pretty).len(),
            member_text(RecordField::Version, decimal_text(r.version as nat), pretty),
        ),
        e.3 == e.2 + 1 + gap_open(pretty).len() + member_text(
            RecordField::Version,
            decimal_text(r.version as nat),
            pretty,
        ).len(),
        has_char(s, e.3, ','),
        holds_at(s, e.3 + 1, gap_open(pretty)),
        holds_at(
            s,
            e.3 + 1 + gap_open(pretty).len(),
            member_text(RecordField::Patch, decimal_text(r.patch as nat), pretty),
        ),
        e.4 == e.3 + 1 + gap_open(pretty).len() + member_text(
            RecordField::Patch,
            decimal_text(r.patch as nat),
            pretty,
        ).len(),
        has_char(s, e.4, ','),
        holds_at(s, e.4 + 1, gap_open(pretty)),
        holds_at(
            s,
            e.4 + 1 + gap_open(pretty).len(),
            member_text(RecordField::ChangeList, decimal_text(r.change_list as nat), pretty),
        ),
        e.5 == e.4 + 1 + gap_open(pretty).len() + member_text(
            RecordField::ChangeList,
            decimal_text(r.change_list as nat),
            pretty,
        ).len(),
        holds_at(s, e.5, gap_close(pretty)),
        has_char(s, e.5 + gap_close(pretty).len(), '}'),
        e.5 + gap_close(pretty).len() + 1 == i + record_layout(r, pretty).len(),
{
    lemma_gaps_are_space(pretty);
    let open = seq!['{'];
    let go = gap_open(pretty);
    let comma = gap_comma(pretty);
    let gc = gap_close(pretty);
    let shut = seq!['}'];
    let m1 = member_text(RecordField::ClientVersion, json_string(r.client_version), pretty);
    let m2 = member_text(
        RecordField::BootstrapperVersion,
        json_string(r.bootstrapper_version),
        pretty,
    );
    let m3 = member_text(RecordField::MajorRev, decimal_text(r.major_rev as nat), pretty);
    let m4 = member_text(RecordField::Version, decimal_text(r.version as nat), pretty);
    let m5 = member_text(RecordField::Patch, decimal_text(r.patch as nat), pretty);
    let m6 = member_text(RecordField::ChangeList, decimal_text(r.change_list as nat), pretty);
    let t1 = open + go;
    let t2 = t1 + m1 + comma;
    let t3 = t2 + m2 + comma;
    let t4 = t3 + m3 + comma;
    let t5 = t4 + m4 + comma;
    let t6 = t5 + m5 + comma;
    assert(record_layout(r, pretty) == t6 + m6 + gc + shut);
    assert(0 <= i) by {
        reveal(holds_at);
    }
    lemma_split(s, i, t6 + m6 + gc, shut);
    lemma_split(s, i, t6 + m6, gc);
    lemma_split(s, i, t6, m6);
    lemma_split(s, i, t5 + m5, comma);
    lemma_split(s, i, t5, m5);
    lemma_split(s, i, t4 + m4, comma);
    lemma_split(s, i, t4, m4);
    lemma_split(s, i, t3 + m3, comma);
    lemma_split(s, i, t3, m3);
    lemma_split(s, i, t2 + m2, comma);
    lemma_split(s, i, t2, m2);
    lemma_split(s, i, t1 + m1, comma);
    lemma_split(s, i, t1, m1);
    lemma_split(s, i, open, go);
    lemma_char_at(s, i, open, 0);
    let e1 = i + (t1 + m1).len();
    let e2 = i + (t2 + m2).len();
    let e3 = i + (t3 + m3).len();
    let e4 = i + (t4 + m4).len();
    let e5 = i + (t5 + m5).len();
    let e6 = i + (t6 + m6).len();
    lemma_split(s, e1, seq![','], go);
    lemma_split(s, e2, seq![','], go);
    lemma_split(s, e3, seq![','], go);
    lemma_split(s, e4, seq![','], go);
    lemma_split(s, e5, seq![','], go);
    lemma_char_at(s, e1, seq![','], 0);
    lemma_char_at(s, e2, seq![','], 0);
    lemma_char_at(s, e3, seq![','], 0);
    lemma_char_at(s, e4, seq![','], 0);
    lemma_char_at(s, e5, seq![','], 0);
    lemma_char_at(s, e6 + gc.len(), shut, 0);
    (e1, e2, e3, e4, e5, e6)
}

/// A record that was written is read as that record.
pub proof fn lemma_scan_record(s: Seq<char>, i: int, r: RecordView, pretty: bool)
    requires
        holds_at(s, i, record_layout(r, pretty)),
    ensures
        scan_record(s, i) == Some((r, i + record_layout(r, pretty).len())),
{
    let e = lemma_record_pieces(s, i, r, pretty);
    let d0 = empty_draft();
    let d1 = put_text(d0, RecordField::ClientVersion, r.client_version);
    let d2 = put_text(d1, RecordField::BootstrapperVersion, r.bootstrapper_version);
    let d3 = put_number(d2, RecordField::MajorRev, r.major_rev as nat);
    let d4 = put_number(d3, RecordField::Version, r.version as nat);
    let d5 = put_number(d4, RecordField::Patch, r.patch as nat);
    let d6 = put_number(d5, RecordField::ChangeList, r.change_list as nat);
    lemma_text_step(s, i + 1, d0, RecordField::ClientVersion, r.client_version, pretty);
    lemma_text_step(
        s,
        e.0 + 1,
        d1,
        RecordField::BootstrapperVersion,
        r.bootstrapper_version,
        pretty,
    );
    lemma_number_step(s, e.1 + 1, d2, RecordField::MajorRev, r.major_rev as nat, pretty);
    lemma_number_step(s, e.2 + 1, d3, RecordField::Version, r.version as nat, pretty);
    lemma_number_step(s, e.3 + 1, d4, RecordField::Patch, r.patch as nat, pretty);
    lemma_last_step(s, e.4 + 1, d5, r.change_list as nat, pretty);
    assert(complete(d6) == Some(r));
}

/// The history that a list of entries gives when they are put into an empty
/// one in their order.
pub open spec fn insert_all(entries: Seq<(u64, RecordView)>) -> Map<u64, RecordView>
    decreases entries.len(),
{
    if entries.len() == 0 {
        Map::empty()
    } else {
        insert_all(entries.drop_last()).insert(entries.last().0, entries.last().1)
    }
}

/// An entry that was written is read as that entry.
proof fn lemma_scan_entry(s: Seq<char>, x: int, key: u64, r: RecordView)
    requires
        holds_at(s, x, entry_text(key, r)),
    ensures
        skip_ws(s, x) == x,
        scan_entry(s, x) == Some(((key, r), x + entry_text(key, r).len())),
{
    reveal(holds_at);
    let digits = decimal_text(key as nat);
    lemma_decimal_text(key as nat);
    lemma_split(s, x, seq!['"'] + digits + seq!['"', ':'], record_text(r));
    lemma_split(s, x, seq!['"'] + digits, seq!['"', ':']);
    lemma_split(s, x, seq!['"'], digits);
    assert(s[x] == seq!['"'][0]);
    let end = x + 1 + digits.len();
    assert(s[end] == seq!['"', ':'][0]);
    assert(s[end + 1] == seq!['"', ':'][1]);
    lemma_scan_number(s, x + 1, key as nat, u64::MAX as nat);
    assert(scan_key(s, x) == Some((key, end + 1)));
    assert(skip_ws(s, end + 1) == end + 1);
    let open = end + 2;
    assert(record_text(r)[0] == '{');
    assert(s[open] == record_text(r)[0]);
    assert(skip_ws(s, open) == open);
    lemma_scan_record(s, open, r, false);
}

/// A written entry is read and put into the history; a comma behind it leads
/// on to the next entry, the closing brace ends the history.
proof fn lemma_entry_step(
    s: Seq<char>,
    x: int,
    acc: Map<u64, RecordView>,
    key: u64,
    r: RecordView,
    last: bool,
)
    requires
        holds_at(s, x, entry_text(key, r)),
        has_char(
            s,
            x + entry_text(key, r).len(),
            if last {
                '}'
            } else {
                ','
            },
        ),
    ensures
        scan_entries(s, x, acc) == if last {
            Some((acc.insert(key, r), x + entry_text(key, r).len() + 1))
        } else {
            scan_entries(s, x + entry_text(key, r).len() + 1, acc.insert(key, r))
        },
{
    lemma_scan_entry(s, x, key, r);
    let e = x + entry_text(key, r).len();
    assert(skip_ws(s, e) == e);
    assert(0 <= x) by {
        reveal(holds_at);
    }
}

/// Entries that were written, with a comma behind the last, are read and
/// lead on to what follows the comma.
proof fn lemma_scan_entries_on(s: Seq<char>, base: int, entries: Seq<(u64, RecordView)>)
    requires
        entries.len() >= 1,
        holds_at(s, base, entries_text(entries)),
        has_char(s, base + entries_text(entries).len(), ','),
    ensures
        scan_entries(s, base, Map::empty()) == scan_entries(
            s,
            base + entries_text(entries).len() + 1,
            insert_all(entries),
        ),
    decreases entries.len(),
{
    let last = entries.last();
    let front = entries.drop_last();
    if entries.len() == 1 {
        assert(front.len() == 0);
        assert(insert_all(front) == Map::<u64, RecordView>::empty());
        assert(insert_all(entries) == insert_all(front).insert(last.0, last.1));
        lemma_entry_step(s, base, Map::empty(), last.0, last.1, false);
    } else {
        lemma_split(s, base, entries_text(front) + seq![','], entry_text(last.0, last.1));
        lemma_split(s, base, entries_text(front), seq![',']);
        let mid = base + entries_text(front).len();
        lemma_char_at(s, mid, seq![','], 0);
        lemma_scan_entries_on(s, base, front);
        lemma_entry_step(s, mid + 1, insert_all(front), last.0, last.1, false);
    }
}

/// Entries that were written, with the closing brace behind the last, are
/// read as the history that they give.
proof fn lemma_scan_entries_closed(s: Seq<char>, base: int, entries: Seq<(u64, RecordView)>)
    requires
        entries.len() >= 1,
        holds_at(s, base, entries_text(entries)),
        has_char(s, base + entries_text(entries).len(), '}'),
    ensures
        scan_entries(s, base, Map::empty()) == Some(
            (insert_all(entries), base + entries_text(entries).len() + 1),
        ),
{
    let last = entries.last();
    let front = entries.drop_last();
    if entries.len() == 1 {
        assert(front.len() == 0);
        assert(insert_all(front) == Map::<u64, RecordView>::empty());
        assert(insert_all(entries) == insert_all(front).insert(last.0, last.1));
        lemma_entry_step(s, base, Map::empty(), last.0, last.1, true);
    } else {
        lemma_split(s, base, entries_text(front) + seq![','], entry_text(last.0, last.1));
        lemma_split(s, base, entries_text(front), seq![',']);
        let mid = base + entries_text(front).len();
        lemma_char_at(s, mid, seq![','], 0);
        lemma_scan_entries_on(s, base, front);
        lemma_entry_step(s, mid + 1, insert_all(front), last.0, last.1, true);
    }
}

/// Put into an empty history, the entries of `m` below a bound give the part
/// of `m` below that bound.
proof fn lemma_insert_entries_below(m: Map<u64, RecordView>, bound: nat)
    requires
        bound <= 0x1_0000_0000_0000_0000,
    ensures
        insert_all(entries_below(m, bound)) == Map::<u64, RecordView>::new(
            |k: u64| m.contains_key(k) && k < bound,
            |k: u64| m[k],
        ),
    decreases bound,
{
    let part = Map::<u64, RecordView>::new(|k: u64| m.contains_key(k) && k < bound, |k: u64| m[k]);
    if bound == 0 {
        assert(insert_all(entries_below(m, bound)) =~= part);
    } else {
        lemma_insert_entries_below(m, (bound - 1) as nat);
        let rest = entries_below(m, (bound - 1) as nat);
        let key = (bound - 1) as u64;
        if m.contains_key(key) {
            let all = rest.push((key, m[key]));
            assert(all.drop_last() =~= rest);
            assert(insert_all(all) =~= part);
        } else {
            assert(insert_all(rest) =~= part);
        }
    }
}

/// A record that was written, in either layout, is read as that record.
pub proof fn lemma_record_round_trip(r: RecordView)
    ensures
        decode_record_spec(record_text(r)) == Some(r),
        decode_record_spec(record_pretty_text(r)) == Some(r),
{
    lemma_layout_round_trip(r, false);
    lemma_layout_round_trip(r, true);
}

proof fn lemma_layout_round_trip(r: RecordView, pretty: bool)
    ensures
        decode_record_spec(record_layout(r, pretty)) == Some(r),
{
    reveal(holds_at);
    let s = record_layout(r, pretty);
    assert(s[0] == '{');
    assert(skip_ws(s, 0) == 0);
    assert(holds_at(s, 0, s));
    lemma_scan_record(s, 0, r, pretty);
    assert(skip_ws(s, s.len() as int) == s.len());
}

/// A history that was written is read as that history.
pub proof fn lemma_history_round_trip(m: Map<u64, RecordView>)
    ensures
        decode_history_spec(history_text(m)) == Some(m),
{
    reveal(holds_at);
    let entries = ascending_entries(m);
    let body = entries_text(entries);
    let s = history_text(m);
    lemma_insert_entries_below(m, 0x1_0000_0000_0000_0000);
    assert(insert_all(entries) =~= m);
    assert(s == seq!['{'] + body + seq!['}']);
    assert(s[0] == '{');
    assert(skip_ws(s, 0) == 0);
    let end: int = 1 + body.len() as int;
    assert(s[end] == '}');
    assert(skip_ws(s, s.len() as int) == s.len());
    if entries.len() == 0 {
        assert(body.len() == 0);
        assert(skip_ws(s, 1) == 1);
    } else {
        assert(holds_at(s, 1, body)) by {
            assert forall|k: int| 0 <= k < body.len() implies s[1 + k] == #[trigger] body[k] by {
            }
        }
        lemma_first_of_entries(entries);
        assert(s[1] == body[0]);
        assert(skip_ws(s, 1) == 1);
        lemma_scan_entries_closed(s, 1, entries);
    }
}

/// Written entries begin with the quote of the first key.
proof fn lemma_first_of_entries(entries: Seq<(u64, RecordView)>)
    requires
        entries.len() >= 1,
    ensures
        entries_text(entries).len() >= 1,
        entries_text(entries)[0] == '"',
    decreases entries.len(),
{
    if entries.len() == 1 {
        assert(entry_text(entries[0].0, entries[0].1)[0] == '"');
    } else {
        lemma_first_of_entries(entries.drop_last());
    }
}

} // verus!
