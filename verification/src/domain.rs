use std::collections::BTreeMap;
use vstd::prelude::*;

verus! {

/// A release channel.
///
/// `LIVE` is the main release channel. The `z` channels are internal ones;
/// `zlive` is most likely an internal staging channel.
#[derive(Debug, Clone, Copy, PartialEq, Eq, PartialOrd, Hash, Structural)]
pub enum PrimaryChannel {
    Live,
    ZLive,
    ZCanary,
    ZIntegration,
}

/// The channels that are archived. There are lesser-known ones besides.
pub const PRIMARY_CHANNELS: [PrimaryChannel; 4] = [
    PrimaryChannel::Live,
    PrimaryChannel::ZLive,
    PrimaryChannel::ZCanary,
    PrimaryChannel::ZIntegration,
];

impl PrimaryChannel {
    /// The channel's identifier, the same in API paths and in archive
    /// directories.
    pub open spec fn name(self) -> Seq<char> {
        match self {
            PrimaryChannel::Live => "LIVE"@,
            PrimaryChannel::ZLive => "zlive"@,
            PrimaryChannel::ZCanary => "zcanary"@,
            PrimaryChannel::ZIntegration => "zintegration"@,
        }
    }

    /// The channel's identifier as an owned string.
    pub fn to_string(&self) -> (s: String)
        ensures
            s@ == self.name(),
    {
        let str = match self {
            PrimaryChannel::Live => "LIVE",
            PrimaryChannel::ZLive => "zlive",
            PrimaryChannel::ZCanary => "zcanary",
            PrimaryChannel::ZIntegration => "zintegration",
        };
        str.to_owned()
    }
}

/// A product binary.
#[derive(Debug, Clone, Copy, PartialEq, Eq, PartialOrd, Hash, Structural)]
pub enum BinaryType {
    WindowsPlayer,
    WindowsStudio,
    WindowsStudio64,
    MacPlayer,
    MacStudio,
}

/// All binary types that are archived.
pub const BINARY_TYPES: [BinaryType; 5] = [
    BinaryType::WindowsPlayer,
    BinaryType::WindowsStudio,
    BinaryType::WindowsStudio64,
    BinaryType::MacPlayer,
    BinaryType::MacStudio,
];

impl BinaryType {
    /// The binary type's identifier, the same in API paths and in archive
    /// directories.
    pub open spec fn name(self) -> Seq<char> {
        match self {
            BinaryType::WindowsPlayer => "WindowsPlayer"@,
            BinaryType::WindowsStudio => "WindowsStudio"@,
            BinaryType::WindowsStudio64 => "WindowsStudio64"@,
            BinaryType::MacPlayer => "MacPlayer"@,
            BinaryType::MacStudio => "MacStudio"@,
        }
    }

    /// The binary type's identifier as an owned string.
    pub fn to_string(&self) -> (s: String)
        ensures
            s@ == self.name(),
    {
        let str = match self {
            BinaryType::WindowsPlayer => "WindowsPlayer",
            BinaryType::WindowsStudio => "WindowsStudio",
            BinaryType::WindowsStudio64 => "WindowsStudio64",
            BinaryType::MacPlayer => "MacPlayer",
            BinaryType::MacStudio => "MacStudio",
        };
        str.to_owned()
    }
}

/// The record files that the archive keeps for every tuple.
#[derive(Debug, Clone, Copy, PartialEq, Eq, PartialOrd, Hash, Structural)]
pub enum RecordType {
    LatestDeploy,
    DeployHistory,
}

impl RecordType {
    /// The record file's name.
    pub open spec fn name(self) -> Seq<char> {
        match self {
            RecordType::LatestDeploy => "LatestDeploy.json"@,
            RecordType::DeployHistory => "DeployHistory.json"@,
        }
    }

    /// The record file's name as an owned string.
    pub fn to_string(&self) -> (s: String)
        ensures
            s@ == self.name(),
    {
        let str = match self {
            RecordType::LatestDeploy => "LatestDeploy.json",
            RecordType::DeployHistory => "DeployHistory.json",
        };
        str.to_owned()
    }
}

/// A deployment region, with an API domain and an archive subtree of its own.
#[derive(Debug, Clone, Copy, PartialEq, Eq, PartialOrd, Hash, Structural)]
pub enum DeploymentSpace {
    /// The deployment space of global users.
    Global,
    /// The deployment space of Luobu. An application that global users launch
    /// must not use it.
    Luobu,
}

impl DeploymentSpace {
    /// The name of the space's archive directory.
    pub open spec fn name(self) -> Seq<char> {
        match self {
            DeploymentSpace::Global => "Global"@,
            DeploymentSpace::Luobu => "Luobu"@,
        }
    }

    /// The domain on which the space's APIs live.
    pub open spec fn domain(self) -> Seq<char> {
        match self {
            DeploymentSpace::Global => "roblox.com"@,
            DeploymentSpace::Luobu => "roblox.qq.com"@,
        }
    }

    /// The base URL of the space's `client-version` API: the domain put into
    /// the one URL template.
    pub open spec fn client_version_url_text(self) -> Seq<char> {
        "https://clientsettings."@ + self.domain() + "/v2/client-version"@
    }

    /// Global and Luobu have completely separate APIs on different domains.
    pub fn get_roblox_domain(&self) -> (domain: &'static str)
        ensures
            domain@ == self.domain(),
    {
        match self {
            DeploymentSpace::Global => "roblox.com",
            DeploymentSpace::Luobu => "roblox.qq.com",
        }
    }

    /// The `client-version` API URL of this deployment space.
    pub fn get_client_version_url(&self) -> (url: String)
        ensures
            url@ == self.client_version_url_text(),
    {
        "https://clientsettings.".to_owned().concat(self.get_roblox_domain()).concat(
            "/v2/client-version",
        )
    }

    /// The same URL as a constant of the program.
    pub fn client_version_url(&self) -> (url: &'static str)
        ensures
            url@ == self.client_version_url_text(),
    {
        proof {
            reveal_strlit("https://clientsettings.");
            reveal_strlit("/v2/client-version");
            reveal_strlit("roblox.com");
            reveal_strlit("roblox.qq.com");
            reveal_strlit("https://clientsettings.roblox.com/v2/client-version");
            reveal_strlit("https://clientsettings.roblox.qq.com/v2/client-version");
        }
        match self {
            DeploymentSpace::Global => {
                assert("https://clientsettings.roblox.com/v2/client-version"@
                    =~= "https://clientsettings."@ + "roblox.com"@ + "/v2/client-version"@);
                "https://clientsettings.roblox.com/v2/client-version"
            },
            DeploymentSpace::Luobu => {
                assert("https://clientsettings.roblox.qq.com/v2/client-version"@
                    =~= "https://clientsettings."@ + "roblox.qq.com"@ + "/v2/client-version"@);
                "https://clientsettings.roblox.qq.com/v2/client-version"
            },
        }
    }

    /// The name of the space's archive directory as an owned string.
    pub fn to_string(&self) -> (s: String)
        ensures
            s@ == self.name(),
    {
        let str = match self {
            DeploymentSpace::Global => "Global",
            DeploymentSpace::Luobu => "Luobu",
        };
        str.to_owned()
    }
}

/// The deployment info that is saved into the archive.
#[derive(Debug)]
pub struct DeploymentRecord {
    pub client_version: String,
    pub bootstrapper_version: String,
    pub major_rev: u32,
    pub version: u32,
    pub patch: u32,
    /// The key of a record within one history.
    pub change_list: u64,
}

/// What a deployment record holds, as plain values.
pub struct RecordView {
    pub client_version: Seq<char>,
    pub bootstrapper_version: Seq<char>,
    pub major_rev: u32,
    pub version: u32,
    pub patch: u32,
    pub change_list: u64,
}

impl View for DeploymentRecord {
    type V = RecordView;

    open spec fn view(&self) -> RecordView {
        RecordView {
            client_version: self.client_version@,
            bootstrapper_version: self.bootstrapper_version@,
            major_rev: self.major_rev,
            version: self.version,
            patch: self.patch,
            change_list: self.change_list,
        }
    }
}

impl Clone for DeploymentRecord {
    fn clone(&self) -> (r: Self)
        ensures
            r@ == self@,
    {
        DeploymentRecord {
            client_version: self.client_version.clone(),
            bootstrapper_version: self.bootstrapper_version.clone(),
            major_rev: self.major_rev,
            version: self.version,
            patch: self.patch,
            change_list: self.change_list,
        }
    }
}

impl PartialEq for DeploymentRecord {
    fn eq(&self, other: &Self) -> (r: bool) {
        self.client_version == other.client_version && self.bootstrapper_version
            == other.bootstrapper_version && self.major_rev == other.major_rev && self.version
            == other.version && self.patch == other.patch && self.change_list == other.change_list
    }
}

impl vstd::std_specs::cmp::PartialEqSpecImpl for DeploymentRecord {
    open spec fn obeys_eq_spec() -> bool {
        true
    }

    open spec fn eq_spec(&self, other: &Self) -> bool {
        self@ == other@
    }
}

impl Eq for DeploymentRecord {

}

/// The history of one (space, binary type, channel) tuple: its records by
/// change list, in ascending order.
pub type DeployHistory = BTreeMap<u64, DeploymentRecord>;

/// What a history holds, as plain values.
pub open spec fn history_view(history: DeployHistory) -> Map<u64, RecordView> {
    history@.map_values(|r: DeploymentRecord| r@)
}

} // verus!
