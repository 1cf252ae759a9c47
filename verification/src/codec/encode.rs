use crate::codec::layout::{
    empty_history_text, entries_text, entry_text, escape_of, escaped,
    gap_close, gap_colon, gap_comma, gap_open, hex_char, history_text, json_string, member_text,
    record_layout, record_pretty_text, record_text, RecordField,
};
use crate::codec::listing::{lemma_lists_ascending_entries, lemma_walk_ascends, lists};
use crate::domain::{history_view, DeployHistory, DeploymentRecord, RecordView};
use crate::text::{decimal_text};
use vstd::prelude::*;
use vstd::std_specs::iter::IteratorSpec;

verus! {

/// The character of a hexadecimal digit.
fn hex_digit(d: u8) -> (c: char)
    requires
        d < 16,
    ensures
        c == hex_char(d as nat),
{
    if d < 10 {
        (d + 48u8) as char
    } else {
        (d + 87u8) as char
    }
}

/// Appends one character of a string as it is written between the quotes.
fn push_escaped(out: &mut String, c: char)
    ensures
        final(out)@ == old(out)@ + escape_of(c),
{
    let ghost before = out@;
    if c == '"' {
        out.push('\\');
        out.push('"');
    } else if c == '\\' {
        out.push('\\');
        out.push('\\');
    } else if c == '\u{08}' {
        out.push('\\');
        out.push('b');
    } else if c == '\u{0C}' {
        out.push('\\');
        out.push('f');
    } else if c == '\n' {
        out.push('\\');
        out.push('n');
    } else if c == '\r' {
        out.push('\\');
        out.push('r');
    } else if c == '\t' {
        out.push('\\');
        out.push('t');
    } else if (c as u32) < 0x20 {
        let code: u8 = c as u8;
        out.push('\\');
        out.push('u');
        out.push('0');
        out.push('0');
        out.push(hex_digit(code / 16));
        out.push(hex_digit(code % 16));
    } else {
        out.push(c);
    }
    assert(out@ =~= before + escape_of(c));
}

/// Appends a string, escaped and between quotes.
fn push_json_string(out: &mut String, s: &str)
    ensures
        final(out)@ == old(out)@ + json_string(s@),
{
    let ghost before = out@;
    out.push('"');
    for c in it: s.chars()
        invariant
            it.seq() == s@,
            out@ == before.push('"') + escaped(it.seq().take(it.index())),
    {
        let ghost done = it.seq().take(it.index());
        let ghost next = it.seq().take(it.index() + 1);
        push_escaped(out, c);
        assert(next.drop_last() == done);
        assert(next.last() == c);
        assert(out@ =~= before.push('"') + escaped(next));
    }
    out.push('"');
    assert(s@.take(s@.len() as int) == s@);
    assert(out@ =~= before + json_string(s@));
}

/// Appends a number in decimal form.
fn push_decimal(out: &mut String, n: u64)
    ensures
        final(out)@ == old(out)@ + decimal_text(n as nat),
    decreases n,
{
    let ghost before = out@;
    if n >= 10 {
        push_decimal(out, n / 10);
    }
    let digit: u8 = (n % 10) as u8;
    out.push((digit + 48u8) as char);
    assert(out@ =~= before + decimal_text(n as nat));
}

/// Appends what follows the brace that opens a record.
fn push_gap_open(out: &mut String, pretty: bool)
    ensures
        final(out)@ == old(out)@ + gap_open(pretty),
{
    let ghost before = out@;
    if pretty {
        out.push('\n');
        out.push(' ');
        out.push(' ');
    }
    assert(out@ =~= before + gap_open(pretty));
}

/// Appends what stands between two fields.
fn push_gap_comma(out: &mut String, pretty: bool)
    ensures
        final(out)@ == old(out)@ + gap_comma(pretty),
{
    let ghost before = out@;
    out.push(',');
    if pretty {
        out.push('\n');
        out.push(' ');
        out.push(' ');
    }
    assert(out@ =~= before + gap_comma(pretty));
}

/// Appends what stands before the brace that closes a record.
fn push_gap_close(out: &mut String, pretty: bool)
    ensures
        final(out)@ == old(out)@ + gap_close(pretty),
{
    let ghost before = out@;
    if pretty {
        out.push('\n');
    }
    assert(out@ =~= before + gap_close(pretty));
}

/// Appends the name of a field and the colon behind it.
fn push_name(out: &mut String, field: RecordField, pretty: bool)
    ensures
        final(out)@ == old(out)@ + (json_string(field.key()) + gap_colon(pretty)),
{
    let ghost before = out@;
    let name = match field {
        RecordField::ClientVersion => "clientVersion",
        RecordField::BootstrapperVersion => "bootstrapperVersion",
        RecordField::MajorRev => "majorRev",
        RecordField::Version => "version",
        RecordField::Patch => "patch",
        RecordField::ChangeList => "changeList",
    };
    push_json_string(out, name);
    out.push(':');
    if pretty {
        out.push(' ');
    }
    assert(out@ =~= before + (json_string(field.key()) + gap_colon(pretty)));
}

/// Appends a field that holds a string.
fn push_text_member(out: &mut String, field: RecordField, value: &str, pretty: bool)
    ensures
        final(out)@ == old(out)@ + member_text(field, json_string(value@), pretty),
{
    let ghost before = out@;
    push_name(out, field, pretty);
    push_json_string(out, value);
    assert(out@ =~= before + member_text(field, json_string(value@), pretty));
}

/// Appends a field that holds a number.
fn push_number_member(out: &mut String, field: RecordField, value: u64, pretty: bool)
    ensures
        final(out)@ == old(out)@ + member_text(field, decimal_text(value as nat), pretty),
{
    let ghost before = out@;
    push_name(out, field, pretty);
    push_decimal(out, value);
    assert(out@ =~= before + member_text(field, decimal_text(value as nat), pretty));
}

/// Appends a record in one of the two layouts.
fn push_record(out: &mut String, r: &DeploymentRecord, pretty: bool)
    ensures
        final(out)@ == old(out)@ + record_layout(r@, pretty),
{
    let ghost before = out@;
    let ghost v = r@;
    let ghost comma = gap_comma(pretty);
    out.push('{');
    assert(out@ == before + seq!['{']);
    push_gap_open(out, pretty);
    let ghost t1 = seq!['{'] + gap_open(pretty);
    proof {
        lemma_concat_assoc(before, seq!['{'], gap_open(pretty));
    }
    let ghost m1 = member_text(RecordField::ClientVersion, json_string(v.client_version), pretty);
    push_text_member(out, RecordField::ClientVersion, r.client_version.as_str(), pretty);
    push_gap_comma(out, pretty);
    let ghost t2 = t1 + m1 + comma;
    proof {
        lemma_concat_assoc(before, t1, m1);
        lemma_concat_assoc(before, t1 + m1, comma);
    }
    let ghost m2 = member_text(
        RecordField::BootstrapperVersion,
        json_string(v.bootstrapper_version),
        pretty,
    );
    push_text_member(
        out,
        RecordField::BootstrapperVersion,
        r.bootstrapper_version.as_str(),
        pretty,
    );
    push_gap_comma(out, pretty);
    let ghost t3 = t2 + m2 + comma;
    proof {
        lemma_concat_assoc(before, t2, m2);
        lemma_concat_assoc(before, t2 + m2, comma);
    }
    let ghost m3 = member_text(RecordField::MajorRev, decimal_text(v.major_rev as nat), pretty);
    push_number_member(out, RecordField::MajorRev, r.major_rev as u64, pretty);
    push_gap_comma(out, pretty);
    let ghost t4 = t3 + m3 + comma;
    proof {
        lemma_concat_assoc(before, t3, m3);
        lemma_concat_assoc(before, t3 + m3, comma);
    }
    let ghost m4 = member_text(RecordField::Version, decimal_text(v.version as nat), pretty);
    push_number_member(out, RecordField::Version, r.version as u64, pretty);
    push_gap_comma(out, pretty);
    let ghost t5 = t4 + m4 + comma;
    proof {
        lemma_concat_assoc(before, t4, m4);
        lemma_concat_assoc(before, t4 + m4, comma);
    }
    let ghost m5 = member_text(RecordField::Patch, decimal_text(v.patch as nat), pretty);
    push_number_member(out, RecordField::Patch, r.patch as u64, pretty);
    push_gap_comma(out, pretty);
    let ghost t6 = t5 + m5 + comma;
    proof {
        lemma_concat_assoc(before, t5, m5);
        lemma_concat_assoc(before, t5 + m5, comma);
    }
    let ghost m6 = member_text(
        RecordField::ChangeList,
        decimal_text(v.change_list as nat),
        pretty,
    );
    push_number_member(out, RecordField::ChangeList, r.change_list, pretty);
    push_gap_close(out, pretty);
    let ghost shut = out@;
    out.push('}');
    assert(out@ == shut + seq!['}']);
    proof {
        lemma_concat_assoc(before, t6, m6);
        lemma_concat_assoc(before, t6 + m6, gap_close(pretty));
        lemma_concat_assoc(before, t6 + m6 + gap_close(pretty), seq!['}']);
    }
}

/// Appending in two steps gives what appending the whole gives.
proof fn lemma_concat_assoc(a: Seq<char>, b: Seq<char>, c: Seq<char>)
    ensures
        (a + b) + c == a + (b + c),
{
    assert((a + b) + c =~= a + (b + c));
}

/// Appends one entry of a history.
fn push_entry(out: &mut String, key: u64, r: &DeploymentRecord)
    ensures
        final(out)@ == old(out)@ + entry_text(key, r@),
{
    let ghost before = out@;
    out.push('"');
    push_decimal(out, key);
    out.push('"');
    out.push(':');
    let ghost head = seq!['"'] + decimal_text(key as nat) + seq!['"', ':'];
    assert(out@ =~= before + head);
    push_record(out, r, false);
    assert(out@ =~= before + entry_text(key, r@));
}

/// The text of the latest-deployment artifact for `record`.
pub fn encode_latest(record: &DeploymentRecord) -> (text: String)
    ensures
        text@ == record_pretty_text(record@),
{
    let mut out = String::new();
    push_record(&mut out, record, true);
    assert(out@ =~= record_pretty_text(record@));
    out
}

/// The text of one record as it stands inside a history.
pub fn encode_record(record: &DeploymentRecord) -> (text: String)
    ensures
        text@ == record_text(record@),
{
    let mut out = String::new();
    push_record(&mut out, record, false);
    assert(out@ =~= record_text(record@));
    out
}

/// The text with which the history artifact of a tuple is created.
pub fn empty_history() -> (text: String)
    ensures
        text@ == empty_history_text(),
{
    let mut out = String::new();
    out.push('{');
    out.push('}');
    out.push('\n');
    assert(out@ =~= empty_history_text());
    out
}

/// The entries that walking a history gives, as plain values.
pub open spec fn walked(all: Seq<(&u64, &DeploymentRecord)>) -> Seq<(u64, RecordView)> {
    all.map_values(|kv: (&u64, &DeploymentRecord)| (*kv.0, kv.1@))
}

/// The text of the history artifact for `history`.
pub fn encode_history(history: &DeployHistory) -> (text: String)
    ensures
        text@ == history_text(history_view(*history)),
{
    let ghost m = history_view(*history);
    let mut out = String::new();
    out.push('{');
    let walk = history.iter();
    let ghost all = walk.remaining();
    let ghost entries = walked(all);
    proof {
        let keys = all.map_values(|kv: (&u64, &DeploymentRecord)| *kv.0);
        lemma_walk_ascends(keys);
        assert forall|i: int, j: int| 0 <= i < j < entries.len() implies entries[i].0
            < entries[j].0 by {
            assert(keys[i] == entries[i].0 && keys[j] == entries[j].0);
        }
        assert forall|i: int| 0 <= i < entries.len() implies (#[trigger] entries[i]).0
            < 0x1_0000_0000_0000_0000 && m.contains_key(entries[i].0) && m[entries[i].0]
            == entries[i].1 by {
            assert(history@.contains_key(*all[i].0));
        }
        assert forall|k: u64|
            #[trigger] m.contains_key(k) && k < 0x1_0000_0000_0000_0000 implies exists|i: int|
            0 <= i < entries.len() && (#[trigger] entries[i]).0 == k by {
            assert(history@.contains_key(k));
            assert(all.contains((&k, &history@[k])));
            let i = choose|i: int| 0 <= i < all.len() && all[i] == (&k, &history@[k]);
            assert(entries[i].0 == k);
        }
        assert(lists(entries, m));
        lemma_lists_ascending_entries(entries, m);
    }
    let mut first = true;
    for kv in it: walk
        invariant
            it.seq() == all,
            entries == walked(all),
            first == (it.index() == 0),
            out@ == seq!['{'] + entries_text(entries.take(it.index())),
    {
        let ghost done = entries.take(it.index());
        let ghost next = entries.take(it.index() + 1);
        let ghost before = out@;
        let (key, record) = kv;
        if !first {
            out.push(',');
        }
        first = false;
        push_entry(&mut out, *key, record);
        proof {
            assert(next.drop_last() == done);
            assert(next.last() == (*key, record@));
            assert(done.len() == it.index());
            assert(out@ =~= seq!['{'] + entries_text(next));
        }
    }
    out.push('}');
    assert(entries.take(entries.len() as int) == entries);
    assert(out@ =~= history_text(m));
    out
}

} // verus!
