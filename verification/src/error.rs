use vstd::prelude::*;

verus! {

/// The four numeric fields of a version string, in the order of its segments.
#[derive(Debug, Clone, Copy, PartialEq, Eq, Structural)]
pub enum VersionField {
    MajorRev,
    Version,
    Patch,
    ChangeList,
}

/// What is wrong with one segment of a version string.
#[derive(Debug, Clone, Copy, PartialEq, Eq, Structural)]
pub enum VersionFault {
    /// The version string has too few segments to hold the field.
    Missing,
    /// The segment is not a plain decimal number.
    NotANumber,
    /// The segment is a decimal number that does not fit the field.
    OutOfRange,
}

/// Why one (space, binary type, channel) tuple could not be processed.
#[derive(Debug, Clone, Copy, PartialEq, Eq, Structural)]
pub enum ArchiveError {
    /// The fetched version string breaks the four-segment numeric form.
    MalformedVersion { field: VersionField, fault: VersionFault },
    /// A stored artifact does not decode to the shape it must have.
    CorruptArchive,
}

impl VersionField {
    /// The field's name as it appears in messages.
    pub open spec fn name(self) -> Seq<char> {
        match self {
            VersionField::MajorRev => "major_rev"@,
            VersionField::Version => "version"@,
            VersionField::Patch => "patch"@,
            VersionField::ChangeList => "change_list"@,
        }
    }

    /// The field's name as an owned string.
    pub fn to_string(&self) -> (s: String)
        ensures
            s@ == self.name(),
    {
        match self {
            VersionField::MajorRev => "major_rev".to_owned(),
            VersionField::Version => "version".to_owned(),
            VersionField::Patch => "patch".to_owned(),
            VersionField::ChangeList => "change_list".to_owned(),
        }
    }
}

impl ArchiveError {
    /// The message shown to an operator for this error.
    pub open spec fn message(self) -> Seq<char> {
        match self {
            ArchiveError::MalformedVersion { field, fault } => match fault {
                VersionFault::Missing => "No "@ + field.name() + " in version"@,
                VersionFault::NotANumber => "Failed to parse "@ + field.name(),
                VersionFault::OutOfRange => "Failed to parse "@ + field.name() + ": out of range"@,
            },
            ArchiveError::CorruptArchive => "Failed to parse records from disk"@,
        }
    }

    /// The message for this error as an owned string.
    pub fn to_string(&self) -> (s: String)
        ensures
            s@ == self.message(),
    {
        match self {
            ArchiveError::MalformedVersion { field, fault } => {
                let name = field.to_string();
                match fault {
                    VersionFault::Missing => {
                        "No ".to_owned().concat(name.as_str()).concat(" in version")
                    },
                    VersionFault::NotANumber => "Failed to parse ".to_owned().concat(name.as_str()),
                    VersionFault::OutOfRange => {
                        "Failed to parse ".to_owned().concat(name.as_str()).concat(": out of range")
                    },
                }
            },
            ArchiveError::CorruptArchive => "Failed to parse records from disk".to_owned(),
        }
    }
}

} // verus!
