use crate::domain::{BinaryType, DeploymentSpace, PrimaryChannel, RecordType};
use vstd::prelude::*;

verus! {

/// What the `client-version` API answers for one binary type and channel.
#[derive(Debug)]
pub struct LiveDeploymentInfo {
    pub version: String,
    pub client_version_upload: String,
    pub bootstrapper_version: String,
}

/// The URL of one record file of the published archive.
pub open spec fn archive_url_text(
    space: DeploymentSpace,
    binary_type: BinaryType,
    channel: PrimaryChannel,
    record: RecordType,
) -> Seq<char> {
    "https://raw.githubusercontent.com/grilme99/RobloxVersionArchive/main/"@ + space.name() + "/"@
        + binary_type.name() + "/"@ + channel.name() + "/"@ + record.name()
}

/// The URL that answers with the latest deployment of one binary type on one
/// channel, below the `client-version` API's base URL.
pub open spec fn deployment_info_url_text(
    base_url: Seq<char>,
    binary_type: BinaryType,
    channel: PrimaryChannel,
) -> Seq<char> {
    base_url + "/"@ + binary_type.name() + "/channel/"@ + channel.name()
}

/// Generate an archive URL for the specified parameters.
pub fn get_archive_url(
    deployment_space: &DeploymentSpace,
    binary_type: &BinaryType,
    channel: &PrimaryChannel,
    record: &RecordType,
) -> (url: String)
    ensures
        url@ == archive_url_text(*deployment_space, *binary_type, *channel, *record),
{
    let space = deployment_space.to_string();
    let binary = binary_type.to_string();
    let chan = channel.to_string();
    let file = record.to_string();
    "https://raw.githubusercontent.com/grilme99/RobloxVersionArchive/main/".to_owned().concat(
        space.as_str(),
    ).concat("/").concat(binary.as_str()).concat("/").concat(chan.as_str()).concat("/").concat(
        file.as_str(),
    )
}

/// The URL to ask for the latest deployment of a binary type on a channel.
pub fn deployment_info_url(base_url: &str, binary_type: &BinaryType, channel: &PrimaryChannel) -> (url:
    String)
    ensures
        url@ == deployment_info_url_text(base_url@, *binary_type, *channel),
{
    let binary = binary_type.to_string();
    let chan = channel.to_string();
    base_url.to_owned().concat("/").concat(binary.as_str()).concat("/channel/").concat(
        chan.as_str(),
    )
}

} // verus!
