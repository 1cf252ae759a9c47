use roblox_version_archive::domain::DeploymentRecord;
use roblox_version_archive::error::{ArchiveError, VersionFault, VersionField};
use roblox_version_archive::http::LiveDeploymentInfo;
use roblox_version_archive::version::{get_deployment_record, parse_version, VersionNumbers};

fn malformed(field: VersionField, fault: VersionFault) -> ArchiveError {
    ArchiveError::MalformedVersion { field, fault }
}

fn payload(version: &str) -> LiveDeploymentInfo {
    LiveDeploymentInfo {
        version: version.to_string(),
        client_version_upload: "version-0123456789abcdef".to_string(),
        bootstrapper_version: "1, 6, 0, 6010123".to_string(),
    }
}

#[test]
fn parses_four_segments() {
    assert_eq!(
        parse_version("123.0.456.789012"),
        Ok(VersionNumbers { major_rev: 123, version: 0, patch: 456, change_list: 789012 })
    );
}

#[test]
fn three_segments_lack_the_change_list() {
    assert_eq!(
        parse_version("1.2.3"),
        Err(malformed(VersionField::ChangeList, VersionFault::Missing))
    );
}

#[test]
fn letters_are_no_number() {
    assert_eq!(
        parse_version("1.2.3.abc"),
        Err(malformed(VersionField::ChangeList, VersionFault::NotANumber))
    );
}

#[test]
fn missing_segments_are_named_in_order() {
    assert_eq!(parse_version(""), Err(malformed(VersionField::Version, VersionFault::Missing)));
    assert_eq!(parse_version("7"), Err(malformed(VersionField::Version, VersionFault::Missing)));
    assert_eq!(parse_version("7.1"), Err(malformed(VersionField::Patch, VersionFault::Missing)));
    assert_eq!(
        parse_version("x.y"),
        Err(malformed(VersionField::Patch, VersionFault::Missing))
    );
}

#[test]
fn the_first_faulty_segment_is_reported() {
    assert_eq!(
        parse_version("a.b.c.d"),
        Err(malformed(VersionField::MajorRev, VersionFault::NotANumber))
    );
    assert_eq!(
        parse_version("1.b.c.d"),
        Err(malformed(VersionField::Version, VersionFault::NotANumber))
    );
    assert_eq!(
        parse_version("1.2.c.d"),
        Err(malformed(VersionField::Patch, VersionFault::NotANumber))
    );
}

#[test]
fn empty_segments_are_no_number() {
    assert_eq!(
        parse_version("..."),
        Err(malformed(VersionField::MajorRev, VersionFault::NotANumber))
    );
    assert_eq!(
        parse_version("1.2.3."),
        Err(malformed(VersionField::ChangeList, VersionFault::NotANumber))
    );
    assert_eq!(
        parse_version("1..3.4"),
        Err(malformed(VersionField::Version, VersionFault::NotANumber))
    );
}

#[test]
fn a_sign_is_accepted_only_as_plus_before_digits() {
    assert_eq!(
        parse_version("+1.+2.+3.+4"),
        Ok(VersionNumbers { major_rev: 1, version: 2, patch: 3, change_list: 4 })
    );
    assert_eq!(
        parse_version("-1.2.3.4"),
        Err(malformed(VersionField::MajorRev, VersionFault::NotANumber))
    );
    assert_eq!(
        parse_version("+.2.3.4"),
        Err(malformed(VersionField::MajorRev, VersionFault::NotANumber))
    );
    assert_eq!(
        parse_version("++1.2.3.4"),
        Err(malformed(VersionField::MajorRev, VersionFault::NotANumber))
    );
    assert_eq!(
        parse_version("1.2.3. 4"),
        Err(malformed(VersionField::ChangeList, VersionFault::NotANumber))
    );
}

#[test]
fn every_field_has_its_own_range() {
    assert_eq!(
        parse_version("4294967295.4294967295.4294967295.18446744073709551615"),
        Ok(VersionNumbers {
            major_rev: u32::MAX,
            version: u32::MAX,
            patch: u32::MAX,
            change_list: u64::MAX
        })
    );
    assert_eq!(
        parse_version("4294967296.0.0.0"),
        Err(malformed(VersionField::MajorRev, VersionFault::OutOfRange))
    );
    assert_eq!(
        parse_version("0.4294967296.0.0"),
        Err(malformed(VersionField::Version, VersionFault::OutOfRange))
    );
    assert_eq!(
        parse_version("0.0.99999999999999999999999999.0"),
        Err(malformed(VersionField::Patch, VersionFault::OutOfRange))
    );
    assert_eq!(
        parse_version("0.0.0.18446744073709551616"),
        Err(malformed(VersionField::ChangeList, VersionFault::OutOfRange))
    );
    assert_eq!(
        parse_version("0.0.0.4294967296"),
        Ok(VersionNumbers { major_rev: 0, version: 0, patch: 0, change_list: 4294967296 })
    );
}

#[test]
fn leading_zeros_and_further_segments_are_accepted() {
    assert_eq!(
        parse_version("001.002.003.004.5.six"),
        Ok(VersionNumbers { major_rev: 1, version: 2, patch: 3, change_list: 4 })
    );
}

#[test]
fn std_agrees_on_each_segment() {
    for text in ["0", "7", "+7", "007", "4294967295", "4294967296", "", "+", "-", "-7", "7a", " 7"] {
        let version = format!("{text}.0.0.0");
        assert_eq!(
            parse_version(&version).map(|v| v.major_rev).ok(),
            text.parse::<u32>().ok(),
            "{text:?}"
        );
        let version = format!("0.0.0.{text}");
        assert_eq!(
            parse_version(&version).map(|v| v.change_list).ok(),
            text.parse::<u64>().ok(),
            "{text:?}"
        );
    }
}

#[test]
fn record_takes_numbers_from_the_version_and_passes_identifiers_through() {
    let record = get_deployment_record(payload("0.601.1.6010123")).unwrap();
    assert_eq!(
        record,
        DeploymentRecord {
            client_version: "version-0123456789abcdef".to_string(),
            bootstrapper_version: "1, 6, 0, 6010123".to_string(),
            major_rev: 0,
            version: 601,
            patch: 1,
            change_list: 6010123,
        }
    );
}

#[test]
fn record_of_a_malformed_version_is_an_error() {
    assert_eq!(
        get_deployment_record(payload("0.601.1")),
        Err(malformed(VersionField::ChangeList, VersionFault::Missing))
    );
    assert_eq!(
        DeploymentRecord::try_from(payload("0.601.x.1")),
        Err(malformed(VersionField::Patch, VersionFault::NotANumber))
    );
}

#[test]
fn try_from_gives_the_same_record() {
    assert_eq!(
        DeploymentRecord::try_from(payload("1.2.3.4")),
        get_deployment_record(payload("1.2.3.4"))
    );
}

#[test]
fn error_messages() {
    assert_eq!(
        malformed(VersionField::ChangeList, VersionFault::Missing).to_string(),
        "No change_list in version"
    );
    assert_eq!(
        malformed(VersionField::MajorRev, VersionFault::NotANumber).to_string(),
        "Failed to parse major_rev"
    );
    assert_eq!(
        malformed(VersionField::Patch, VersionFault::OutOfRange).to_string(),
        "Failed to parse patch: out of range"
    );
    assert_eq!(ArchiveError::CorruptArchive.to_string(), "Failed to parse records from disk");
    assert_eq!(VersionField::Version.to_string(), "version");
}

#[test]
fn a_payload_converts_into_a_record() {
    let converted: Result<DeploymentRecord, ArchiveError> = payload("1.2.3.4").try_into();
    assert_eq!(converted, get_deployment_record(payload("1.2.3.4")));
    let failed: Result<DeploymentRecord, ArchiveError> = payload("1.2.3").try_into();
    assert_eq!(failed, Err(malformed(VersionField::ChangeList, VersionFault::Missing)));
}
