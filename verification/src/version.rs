use crate::domain::DeploymentRecord;
use crate::error::{ArchiveError, VersionFault, VersionField};
use crate::http::LiveDeploymentInfo;
use crate::text::{
    all_digits, chars_of, decimal_value, digit_of, digit_value, is_digit,
    lemma_decimal_value_prefix,
};
use vstd::prelude::*;

verus! {

/// The four numbers of a version string.
#[derive(Debug, Clone, Copy, PartialEq, Eq, Structural)]
pub struct VersionNumbers {
    pub major_rev: u32,
    pub version: u32,
    pub patch: u32,
    pub change_list: u64,
}

/// The place of the first `.` at or behind `from`, or the length of `s`
/// where there is none.
pub open spec fn dot_from(s: Seq<char>, from: int) -> int
    decreases s.len() - from,
{
    if from < 0 || from >= s.len() {
        s.len() as int
    } else if s[from] == '.' {
        from
    } else {
        dot_from(s, from + 1)
    }
}

/// Where the segment with number `n` begins, counting the segments between
/// dots from 0; `None` where `s` has no such segment.
pub open spec fn segment_start(s: Seq<char>, n: nat) -> Option<int>
    decreases n,
{
    if n == 0 {
        Some(0)
    } else {
        match segment_start(s, (n - 1) as nat) {
            Some(p) => if dot_from(s, p) < s.len() {
                Some(dot_from(s, p) + 1)
            } else {
                None
            },
            None => None,
        }
    }
}

/// The segment with number `n` of the dot-separated string `s`.
pub open spec fn segment(s: Seq<char>, n: nat) -> Option<Seq<char>> {
    match segment_start(s, n) {
        Some(p) => Some(s.subrange(p, dot_from(s, p))),
        None => None,
    }
}

/// The digits of a segment: a `+` in front of them is allowed and dropped.
pub open spec fn unsigned_digits(s: Seq<char>) -> Seq<char> {
    if s.len() > 1 && s[0] == '+' {
        s.skip(1)
    } else {
        s
    }
}

/// The number that a segment writes, for a field that holds at most `max`.
pub open spec fn parse_unsigned(s: Seq<char>, max: nat) -> Result<nat, VersionFault> {
    let d = unsigned_digits(s);
    if d.len() == 0 || !all_digits(d) {
        Err(VersionFault::NotANumber)
    } else if decimal_value(d) > max {
        Err(VersionFault::OutOfRange)
    } else {
        Ok(decimal_value(d))
    }
}

/// The field with number `n`.
pub open spec fn field_at(n: nat) -> VersionField {
    if n == 0 {
        VersionField::MajorRev
    } else if n == 1 {
        VersionField::Version
    } else if n == 2 {
        VersionField::Patch
    } else {
        VersionField::ChangeList
    }
}

/// The largest number that a field holds.
pub open spec fn field_max(field: VersionField) -> nat {
    match field {
        VersionField::ChangeList => u64::MAX as nat,
        _ => u32::MAX as nat,
    }
}

/// The first of the four fields for which `s` has no segment.
pub open spec fn first_missing(s: Seq<char>) -> Option<VersionField> {
    if segment(s, 0) is None {
        Some(VersionField::MajorRev)
    } else if segment(s, 1) is None {
        Some(VersionField::Version)
    } else if segment(s, 2) is None {
        Some(VersionField::Patch)
    } else if segment(s, 3) is None {
        Some(VersionField::ChangeList)
    } else {
        None
    }
}

/// What the segment of one field parses to, where `s` has that segment.
pub open spec fn field_value(s: Seq<char>, n: nat) -> Result<nat, VersionFault> {
    parse_unsigned(segment(s, n).unwrap(), field_max(field_at(n)))
}

/// What a version string means. It needs four segments between dots, and more
/// may follow. A missing segment is reported before any segment that is no
/// number, and of several faulty segments the first is reported.
pub open spec fn parse_version_spec(s: Seq<char>) -> Result<VersionNumbers, ArchiveError> {
    if let Some(field) = first_missing(s) {
        Err(ArchiveError::MalformedVersion { field, fault: VersionFault::Missing })
    } else if let Err(fault) = field_value(s, 0) {
        Err(ArchiveError::MalformedVersion { field: VersionField::MajorRev, fault })
    } else if let Err(fault) = field_value(s, 1) {
        Err(ArchiveError::MalformedVersion { field: VersionField::Version, fault })
    } else if let Err(fault) = field_value(s, 2) {
        Err(ArchiveError::MalformedVersion { field: VersionField::Patch, fault })
    } else if let Err(fault) = field_value(s, 3) {
        Err(ArchiveError::MalformedVersion { field: VersionField::ChangeList, fault })
    } else {
        Ok(
            VersionNumbers {
                major_rev: field_value(s, 0).unwrap() as u32,
                version: field_value(s, 1).unwrap() as u32,
                patch: field_value(s, 2).unwrap() as u32,
                change_list: field_value(s, 3).unwrap() as u64,
            },
        )
    }
}

/// The record that a fetched payload gives, or the error of its version
/// string: the numbers come from the version, the two identifiers pass
/// through unread.
pub open spec fn deployment_record_spec(
    version: Seq<char>,
    client_version_upload: Seq<char>,
    bootstrapper_version: Seq<char>,
) -> Result<crate::domain::RecordView, ArchiveError> {
    match parse_version_spec(version) {
        Ok(numbers) => Ok(
            crate::domain::RecordView {
                client_version: client_version_upload,
                bootstrapper_version,
                major_rev: numbers.major_rev,
                version: numbers.version,
                patch: numbers.patch,
                change_list: numbers.change_list,
            },
        ),
        Err(e) => Err(e),
    }
}

fn find_dot(chars: &Vec<char>, from: usize) -> (end: usize)
    requires
        from <= chars.len(),
    ensures
        end == dot_from(chars@, from as int),
        from <= end <= chars.len(),
{
    let mut i: usize = from;
    while i < chars.len() && chars[i] != '.'
        invariant
            from <= i <= chars.len(),
            dot_from(chars@, from as int) == dot_from(chars@, i as int),
        decreases chars.len() - i,
    {
        i += 1;
    }
    i
}

#[verifier::loop_isolation(false)]
fn parse_number(chars: &Vec<char>, from: usize, to: usize, max: u64) -> (r: Result<
    u64,
    VersionFault,
>)
    requires
        from <= to <= chars.len(),
    ensures
        match parse_unsigned(chars@.subrange(from as int, to as int), max as nat) {
            Ok(n) => r == Ok::<u64, VersionFault>(n as u64),
            Err(fault) => r == Err::<u64, VersionFault>(fault),
        },
{
    let ghost seg = chars@.subrange(from as int, to as int);
    let start: usize = if to - from > 1 && chars[from] == '+' {
        from + 1
    } else {
        from
    };
    let ghost d = unsigned_digits(seg);
    assert(d == chars@.subrange(start as int, to as int));
    if start == to {
        return Err(VersionFault::NotANumber);
    }
    let mut i: usize = start;
    while i < to
        invariant
            start <= i <= to <= chars.len(),
            d == chars@.subrange(start as int, to as int),
            all_digits(d.take(i - start)),
        decreases to - i,
    {
        if digit_value(chars[i]).is_none() {
            assert(!is_digit(d[i - start]));
            return Err(VersionFault::NotANumber);
        }
        i += 1;
        assert forall|k: int| 0 <= k < i - start implies is_digit(#[trigger] d.take(i - start)[k]) by {
            if k < i - start - 1 {
                assert(d.take(i - start - 1)[k] == d[k]);
            }
        }
    }
    assert(d.take(to - start) == d);
    let mut acc: u64 = 0;
    let mut j: usize = start;
    while j < to
        invariant
            start <= j <= to <= chars.len(),
            d == chars@.subrange(start as int, to as int),
            all_digits(d),
            acc == decimal_value(d.take(j - start)),
            acc <= max,
        decreases to - j,
    {
        assert(d[j - start] == chars@[j as int] && is_digit(d[j - start]));
        let digit = digit_value(chars[j]).unwrap();
        let ghost prefix = d.take(j - start + 1);
        assert(prefix.drop_last() == d.take(j - start));
        assert(prefix.last() == d[j - start]);
        assert(decimal_value(prefix) == acc * 10 + digit_of(d[j - start]));
        let next: u128 = acc as u128 * 10 + digit as u128;
        if next > max as u128 {
            proof {
                lemma_decimal_value_prefix(d, j - start + 1);
            }
            return Err(VersionFault::OutOfRange);
        }
        acc = next as u64;
        j += 1;
    }
    assert(d.take(to - start) == d);
    Ok(acc)
}

fn missing(field: VersionField) -> (e: ArchiveError)
    ensures
        e == (ArchiveError::MalformedVersion { field, fault: VersionFault::Missing }),
{
    ArchiveError::MalformedVersion { field, fault: VersionFault::Missing }
}

/// Parses a version string of the form `<major>.<version>.<patch>.<changeList>`.
pub fn parse_version(version: &str) -> (r: Result<VersionNumbers, ArchiveError>)
    ensures
        r == parse_version_spec(version@),
{
    let chars = chars_of(version);
    let ghost s = chars@;
    let end0 = find_dot(&chars, 0);
    assert(segment_start(s, 0) == Some(0int));
    if end0 >= chars.len() {
        assert(segment_start(s, 1) is None);
        return Err(missing(VersionField::Version));
    }
    let start1 = end0 + 1;
    assert(segment_start(s, 1) == Some(start1 as int));
    let end1 = find_dot(&chars, start1);
    if end1 >= chars.len() {
        assert(segment_start(s, 2) is None);
        return Err(missing(VersionField::Patch));
    }
    let start2 = end1 + 1;
    assert(segment_start(s, 2) == Some(start2 as int));
    let end2 = find_dot(&chars, start2);
    if end2 >= chars.len() {
        assert(segment_start(s, 3) is None);
        return Err(missing(VersionField::ChangeList));
    }
    let start3 = end2 + 1;
    assert(segment_start(s, 3) == Some(start3 as int));
    let end3 = find_dot(&chars, start3);
    assert(first_missing(s) is None);
    let major_rev = match parse_number(&chars, 0, end0, 0xFFFF_FFFF) {
        Ok(n) => n as u32,
        Err(fault) => {
            return Err(ArchiveError::MalformedVersion { field: VersionField::MajorRev, fault });
        },
    };
    let number = match parse_number(&chars, start1, end1, 0xFFFF_FFFF) {
        Ok(n) => n as u32,
        Err(fault) => {
            return Err(ArchiveError::MalformedVersion { field: VersionField::Version, fault });
        },
    };
    let patch = match parse_number(&chars, start2, end2, 0xFFFF_FFFF) {
        Ok(n) => n as u32,
        Err(fault) => {
            return Err(ArchiveError::MalformedVersion { field: VersionField::Patch, fault });
        },
    };
    let change_list = match parse_number(&chars, start3, end3, 0xFFFF_FFFF_FFFF_FFFF) {
        Ok(n) => n,
        Err(fault) => {
            return Err(ArchiveError::MalformedVersion { field: VersionField::ChangeList, fault });
        },
    };
    Ok(VersionNumbers { major_rev, version: number, patch, change_list })
}

impl TryFrom<LiveDeploymentInfo> for DeploymentRecord {
    type Error = ArchiveError;

    /// The record of a fetched payload: the numbers of its version string
    /// and its two identifiers, which pass through unread.
    fn try_from(record: LiveDeploymentInfo) -> (r: Result<Self, ArchiveError>) {
        match parse_version(record.version.as_str()) {
            Ok(numbers) => Ok(
                DeploymentRecord {
                    client_version: record.client_version_upload,
                    bootstrapper_version: record.bootstrapper_version,
                    major_rev: numbers.major_rev,
                    version: numbers.version,
                    patch: numbers.patch,
                    change_list: numbers.change_list,
                },
            ),
            Err(e) => Err(e),
        }
    }
}

impl vstd::std_specs::convert::TryFromSpecImpl<LiveDeploymentInfo> for DeploymentRecord {
    open spec fn obeys_try_from_spec() -> bool {
        true
    }

    open spec fn try_from_spec(record: LiveDeploymentInfo) -> Result<Self, ArchiveError> {
        match parse_version_spec(record.version@) {
            Ok(numbers) => Ok(
                DeploymentRecord {
                    client_version: record.client_version_upload,
                    bootstrapper_version: record.bootstrapper_version,
                    major_rev: numbers.major_rev,
                    version: numbers.version,
                    patch: numbers.patch,
                    change_list: numbers.change_list,
                },
            ),
            Err(e) => Err(e),
        }
    }
}

/// Turns a fetched payload into the record to save.
pub fn get_deployment_record(record: LiveDeploymentInfo) -> (r: Result<
    DeploymentRecord,
    ArchiveError,
>)
    ensures
        match deployment_record_spec(
            record.version@,
            record.client_version_upload@,
            record.bootstrapper_version@,
        ) {
            Ok(view) => r is Ok && r.unwrap()@ == view,
            Err(e) => r == Err::<DeploymentRecord, ArchiveError>(e),
        },
{
    DeploymentRecord::try_from(record)
}

} // verus!
