use roblox_version_archive::domain::{
    BinaryType, DeploymentSpace, PrimaryChannel, RecordType, BINARY_TYPES, PRIMARY_CHANNELS,
};
use roblox_version_archive::http::{deployment_info_url, get_archive_url};

#[test]
fn archive_url_formatted_correctly() {
    let archive_url = get_archive_url(
        &DeploymentSpace::Global,
        &BinaryType::WindowsPlayer,
        &PrimaryChannel::Live,
        &RecordType::DeployHistory,
    );

    assert_eq!(archive_url, "https://raw.githubusercontent.com/grilme99/RobloxVersionArchive/main/Global/WindowsPlayer/LIVE/DeployHistory.json");
}

#[test]
fn archive_url_of_latest_deploy_on_luobu() {
    let archive_url = get_archive_url(
        &DeploymentSpace::Luobu,
        &BinaryType::MacStudio,
        &PrimaryChannel::ZIntegration,
        &RecordType::LatestDeploy,
    );
    assert_eq!(archive_url, "https://raw.githubusercontent.com/grilme99/RobloxVersionArchive/main/Luobu/MacStudio/zintegration/LatestDeploy.json");
}

#[test]
fn channel_names() {
    assert_eq!(PrimaryChannel::Live.to_string(), "LIVE");
    assert_eq!(PrimaryChannel::ZLive.to_string(), "zlive");
    assert_eq!(PrimaryChannel::ZCanary.to_string(), "zcanary");
    assert_eq!(PrimaryChannel::ZIntegration.to_string(), "zintegration");
}

#[test]
fn binary_type_names() {
    assert_eq!(BinaryType::WindowsPlayer.to_string(), "WindowsPlayer");
    assert_eq!(BinaryType::WindowsStudio.to_string(), "WindowsStudio");
    assert_eq!(BinaryType::WindowsStudio64.to_string(), "WindowsStudio64");
    assert_eq!(BinaryType::MacPlayer.to_string(), "MacPlayer");
    assert_eq!(BinaryType::MacStudio.to_string(), "MacStudio");
}

#[test]
fn record_type_names() {
    assert_eq!(RecordType::LatestDeploy.to_string(), "LatestDeploy.json");
    assert_eq!(RecordType::DeployHistory.to_string(), "DeployHistory.json");
}

#[test]
fn deployment_space_names_and_domains() {
    assert_eq!(DeploymentSpace::Global.to_string(), "Global");
    assert_eq!(DeploymentSpace::Luobu.to_string(), "Luobu");
    assert_eq!(DeploymentSpace::Global.get_roblox_domain(), "roblox.com");
    assert_eq!(DeploymentSpace::Luobu.get_roblox_domain(), "roblox.qq.com");
}

#[test]
fn client_version_urls() {
    assert_eq!(
        DeploymentSpace::Global.get_client_version_url(),
        "https://clientsettings.roblox.com/v2/client-version"
    );
    assert_eq!(
        DeploymentSpace::Luobu.get_client_version_url(),
        "https://clientsettings.roblox.qq.com/v2/client-version"
    );
    assert_eq!(
        DeploymentSpace::Global.client_version_url(),
        "https://clientsettings.roblox.com/v2/client-version"
    );
    assert_eq!(
        DeploymentSpace::Luobu.client_version_url(),
        "https://clientsettings.roblox.qq.com/v2/client-version"
    );
}

#[test]
fn both_forms_of_the_client_version_url_agree() {
    for space in [DeploymentSpace::Global, DeploymentSpace::Luobu] {
        assert_eq!(space.get_client_version_url(), space.client_version_url());
    }
}

#[test]
fn catalogs_hold_every_value_once() {
    assert_eq!(
        PRIMARY_CHANNELS,
        [
            PrimaryChannel::Live,
            PrimaryChannel::ZLive,
            PrimaryChannel::ZCanary,
            PrimaryChannel::ZIntegration
        ]
    );
    assert_eq!(
        BINARY_TYPES,
        [
            BinaryType::WindowsPlayer,
            BinaryType::WindowsStudio,
            BinaryType::WindowsStudio64,
            BinaryType::MacPlayer,
            BinaryType::MacStudio
        ]
    );
}

#[test]
fn deployment_info_url_joins_base_binary_and_channel() {
    let base = DeploymentSpace::Global.get_client_version_url();
    assert_eq!(
        deployment_info_url(&base, &BinaryType::WindowsStudio64, &PrimaryChannel::ZCanary),
        "https://clientsettings.roblox.com/v2/client-version/WindowsStudio64/channel/zcanary"
    );
}

#[test]
fn archive_path_uses_the_names_of_the_api_path() {
    for binary in BINARY_TYPES {
        for channel in PRIMARY_CHANNELS {
            let api = deployment_info_url("base", &binary, &channel);
            assert_eq!(
                api,
                format!("base/{}/channel/{}", binary.to_string(), channel.to_string())
            );
            let url = get_archive_url(
                &DeploymentSpace::Global,
                &binary,
                &channel,
                &RecordType::DeployHistory,
            );
            assert!(url.ends_with(&format!(
                "/Global/{}/{}/DeployHistory.json",
                binary.to_string(),
                channel.to_string()
            )));
        }
    }
}
