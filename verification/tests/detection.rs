use roblox_fast_flag_editor::detect::{
    client_settings_path, install_location, pick_version_dir, DetectError, VersionDir,
};

fn dir(name: &str, is_dir: bool, modified: i128, has_player: bool) -> VersionDir {
    VersionDir {
        name: name.to_string(),
        path: format!("C:\\Roblox\\Versions\\{name}"),
        is_dir,
        modified,
        has_player,
    }
}

#[test]
fn settings_path_under_version_folder() {
    assert_eq!(
        client_settings_path("C:\\Roblox\\Versions\\version-1"),
        "C:\\Roblox\\Versions\\version-1\\ClientSettings\\ClientAppSettings.json"
    );
    assert_eq!(
        client_settings_path("C:\\Roblox\\"),
        "C:\\Roblox\\ClientSettings\\ClientAppSettings.json"
    );
    assert_eq!(client_settings_path("d/"), "d/ClientSettings\\ClientAppSettings.json");
    assert_eq!(client_settings_path(""), "ClientSettings\\ClientAppSettings.json");
    assert_eq!(client_settings_path("C:"), "C:ClientSettings\\ClientAppSettings.json");
}

#[test]
fn registry_output_gives_install_location() {
    let out = "\r\nHKEY_CURRENT_USER\\Software\\Microsoft\\Windows\\CurrentVersion\\Uninstall\\roblox-player\r\n    InstallLocation    REG_SZ    C:\\Users\\me\\AppData\\Local\\Roblox\\Versions\\version-abc\r\n\r\n";
    assert_eq!(
        install_location(out).as_deref(),
        Some("C:\\Users\\me\\AppData\\Local\\Roblox\\Versions\\version-abc")
    );
}

#[test]
fn registry_output_without_value_gives_nothing() {
    assert_eq!(install_location(""), None);
    assert_eq!(install_location("ERROR: The system was unable to find the key"), None);
    assert_eq!(install_location("    InstallLocation    REG_EXPAND_SZ    C:\\x\n"), None);
    assert_eq!(install_location("    InstallLocation    REG_SZ    \n"), None);
}

#[test]
fn registry_output_uses_first_matching_line() {
    let out = "a\n InstallLocation REG_SZ  first path \r\n InstallLocation REG_SZ second\n";
    assert_eq!(install_location(out).as_deref(), Some("first path"));
    let out = "InstallLocation without tag\nInstallLocation REG_SZ later\n";
    assert_eq!(install_location(out), None);
}

#[test]
fn picks_first_folder_with_player() {
    let dirs = vec![
        dir("version-a", true, 30, false),
        dir("version-b", true, 10, true),
        dir("version-c", true, 20, true),
    ];
    assert_eq!(pick_version_dir(&dirs).ok(), Some(1));
}

#[test]
fn picks_newest_folder_without_player() {
    let dirs = vec![
        dir("version-a", true, 10, false),
        dir("version-b", true, 30, false),
        dir("version-c", true, 30, false),
        dir("version-d", true, -5, false),
    ];
    assert_eq!(pick_version_dir(&dirs).ok(), Some(1));
}

#[test]
fn skips_files_and_other_names() {
    let dirs = vec![
        dir("version-a", false, 99, true),
        dir("studio-x", true, 99, true),
        dir("Version-y", true, 98, true),
        dir("version-z", true, 1, false),
    ];
    assert_eq!(pick_version_dir(&dirs).ok(), Some(3));
}

#[test]
fn no_version_folder_is_an_error() {
    let dirs = vec![dir("other", true, 1, true), dir("version-f", false, 1, true)];
    match pick_version_dir(&dirs) {
        Err(e) => {
            assert!(matches!(e, DetectError::NoVersionFolders));
            assert_eq!(e.message(), "No Roblox version folders found");
        }
        Ok(_) => panic!("expected an error"),
    }
    assert!(matches!(pick_version_dir(&Vec::new()), Err(DetectError::NoVersionFolders)));
}

#[test]
fn detect_error_messages() {
    assert_eq!(
        DetectError::LocalAppDataMissing.message(),
        "LOCALAPPDATA environment variable not found"
    );
    assert_eq!(
        DetectError::NotInstalled("C:\\R\\Versions".to_string()).message(),
        "Roblox not installed (not found: C:\\R\\Versions)"
    );
    assert_eq!(
        DetectError::ReadDirFailed("denied".to_string()).message(),
        "Cannot read Versions dir: denied"
    );
}

#[test]
fn verbatim_base_is_rebuilt_from_its_components() {
    assert_eq!(
        client_settings_path("\\\\?\\C:\\x\\\\y\\"),
        "\\\\?\\C:\\x\\y\\ClientSettings\\ClientAppSettings.json"
    );
    assert_eq!(client_settings_path("\\\\?\\C:"), "\\\\?\\C:\\ClientSettings\\ClientAppSettings.json");
    assert_eq!(
        client_settings_path("\\\\?\\UNC\\srv\\share"),
        "\\\\?\\UNC\\srv\\share\\ClientSettings\\ClientAppSettings.json"
    );
    assert_eq!(
        client_settings_path("\\\\?\\C:\\a/b\\.\\.."),
        "\\\\?\\C:\\a/b\\.\\..\\ClientSettings\\ClientAppSettings.json"
    );
    assert_eq!(
        client_settings_path("\\\\?\\Volume{1}\\Roblox"),
        "\\\\?\\Volume{1}\\Roblox\\ClientSettings\\ClientAppSettings.json"
    );
}
