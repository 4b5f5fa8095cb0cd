use videee::bridge::{
    endpoint, import_outcome, install_target_path, script_install_path, script_status,
    scripts_folder_missing, target_from_data_dir, BridgeError, OsPath, Platform, PORT,
};

#[test]
fn bridge_error_display_messages_are_human_readable() {
    assert!(BridgeError::NotRunning.message().contains("Workspace"));
    assert_eq!(
        BridgeError::ResolveError("No project is open".to_string()).message(),
        "No project is open"
    );
}

#[test]
fn endpoint_is_the_fixed_local_port() {
    assert_eq!(PORT, 51735);
    assert_eq!(endpoint(), "http://127.0.0.1:51735/");
}

#[test]
fn request_failures_are_classified() {
    assert!(matches!(BridgeError::from_request_failure(true, true, "x".to_string()), BridgeError::NotRunning));
    assert!(matches!(BridgeError::from_request_failure(false, true, "x".to_string()), BridgeError::Timeout));
    match BridgeError::from_request_failure(false, false, "boom".to_string()) {
        BridgeError::Other(m) => assert_eq!(m, "boom"),
        _ => panic!("expected Other"),
    }
    assert_eq!(
        BridgeError::Timeout.message(),
        "DaVinci Resolve didn't respond in time. Is it busy?"
    );
    assert_eq!(
        BridgeError::unexpected_response("eof").message(),
        "unexpected response from Resolve bridge: eof"
    );
}

#[test]
fn import_outcome_carries_resolve_message() {
    assert!(import_outcome(true, None).is_ok());
    assert!(import_outcome(true, Some("ignored".to_string())).is_ok());
    match import_outcome(false, Some("No project is open".to_string())) {
        Err(BridgeError::ResolveError(m)) => assert_eq!(m, "No project is open"),
        _ => panic!("expected ResolveError"),
    }
    match import_outcome(false, None) {
        Err(BridgeError::ResolveError(m)) => assert_eq!(m, "Resolve rejected the import"),
        _ => panic!("expected ResolveError"),
    }
}

#[test]
fn script_paths_follow_each_platform_layout() {
    let sep = std::path::MAIN_SEPARATOR;
    let mac = script_install_path("/Users/a/Library/Application Support", &Platform::MacOs);
    assert_eq!(
        mac,
        format!("/Users/a/Library/Application Support{sep}Blackmagic Design{sep}DaVinci Resolve{sep}Fusion{sep}Scripts{sep}Utility{sep}Videe.lua")
    );
    let other = script_install_path("/home/a/.local/share", &Platform::Other);
    assert_eq!(
        other,
        format!("/home/a/.local/share{sep}DaVinciResolve{sep}Fusion{sep}Scripts{sep}Utility{sep}Videe.lua")
    );
    let win = script_install_path("/r", &Platform::Windows);
    assert!(win.ends_with(&format!("Support{sep}Fusion{sep}Scripts{sep}Utility{sep}Videe.lua")));
}

#[test]
fn install_target_needs_a_data_directory() {
    assert_eq!(
        target_from_data_dir(None, &Platform::Other),
        Err("could not determine this OS's application data directory".to_string())
    );
    match target_from_data_dir(Some(OsPath::Text("/d".to_string())), &Platform::Other).unwrap() {
        OsPath::Text(t) => assert!(t.starts_with("/d")),
        OsPath::Native(_) => panic!("a text directory gives a text target"),
    }
    match install_target_path(&Platform::Other) {
        Ok(OsPath::Text(p)) => assert!(p.ends_with("Videe.lua")),
        Ok(OsPath::Native(p)) => assert!(p.ends_with("Videe.lua")),
        Err(e) => assert_eq!(e, "could not determine this OS's application data directory"),
    }
}

#[test]
fn install_target_keeps_a_native_data_directory() {
    let dir = std::path::PathBuf::from("/data");
    let t = target_from_data_dir(Some(OsPath::Native(dir.clone())), &Platform::Other).unwrap();
    let expected = dir.join("DaVinciResolve").join("Fusion").join("Scripts").join("Utility").join("Videe.lua");
    assert_eq!(t, OsPath::Native(expected));
    let mac = target_from_data_dir(Some(OsPath::Native(dir.clone())), &Platform::MacOs).unwrap();
    let expected_mac = dir
        .join("Blackmagic Design")
        .join("DaVinci Resolve")
        .join("Fusion")
        .join("Scripts")
        .join("Utility")
        .join("Videe.lua");
    assert_eq!(mac, OsPath::Native(expected_mac));
}

#[test]
fn script_status_reports_only_an_installed_script() {
    let t = || Ok(OsPath::Text("/x/Videe.lua".to_string()));
    assert_eq!(script_status(t(), true), Some(OsPath::Text("/x/Videe.lua".to_string())));
    assert_eq!(script_status(t(), false), None);
    assert_eq!(script_status(Err("e".to_string()), true), None);
    assert_eq!(
        scripts_folder_missing("/s"),
        "DaVinci Resolve's scripts folder wasn't found at /s. Is DaVinci Resolve installed?"
    );
}
