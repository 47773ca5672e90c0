use nevc_mtr1_gui::firmware::tools::{
    app_data_dir_in, compile_outcome, core_list_has_avr, firmware_dir, is_cli_asset, path_join,
    select_cli_asset, tools_dir, upload_outcome, ReleaseAsset, APP_DIR_NAME, ARDUINO_CLI_EXE,
    AVR_CORE, BOARD_FQBN, FIRMWARE_ZIP_ROOT,
};

fn asset(name: &str, url: Option<&str>) -> ReleaseAsset {
    ReleaseAsset {
        name: name.to_string(),
        browser_download_url: url.map(|u| u.to_string()),
    }
}

#[test]
fn constants_name_the_tools() {
    assert_eq!(ARDUINO_CLI_EXE, "arduino-cli.exe");
    assert_eq!(BOARD_FQBN, "arduino:avr:leonardo");
    assert_eq!(AVR_CORE, "arduino:avr");
    assert_eq!(APP_DIR_NAME, "nevc_mtr1_gui");
    assert_eq!(FIRMWARE_ZIP_ROOT, "NEVC-MTR1-t01-main");
}

#[test]
fn path_join_adds_one_separator() {
    assert_eq!(path_join("C:\\Users\\me\\AppData", '\\', "tools"), "C:\\Users\\me\\AppData\\tools");
    assert_eq!(path_join("C:\\data\\", '\\', "tools"), "C:\\data\\tools");
    assert_eq!(path_join("/home/me/", '/', "x"), "/home/me/x");
    assert_eq!(path_join("", '/', "x"), "x");
    assert_eq!(path_join("a/", '\\', "b"), "a/b");
}

#[test]
fn app_directories() {
    let app = app_data_dir_in("/home/me/.local/share", '/');
    assert_eq!(app, "/home/me/.local/share/nevc_mtr1_gui");
    assert_eq!(tools_dir(&app, '/'), "/home/me/.local/share/nevc_mtr1_gui/tools");
    assert_eq!(firmware_dir(&app, '/'), "/home/me/.local/share/nevc_mtr1_gui/firmware");
    assert_eq!(tools_dir("C:\\d", '\\'), "C:\\d\\tools");
}

#[test]
fn cli_asset_names() {
    assert!(is_cli_asset("arduino-cli_1.1.1_Windows_64bit.zip"));
    assert!(!is_cli_asset("arduino-cli_1.1.1_Windows_32bit.zip"));
    assert!(!is_cli_asset("arduino-cli_1.1.1_Windows_64bit.msi"));
    assert!(!is_cli_asset("arduino-cli_1.1.1_Linux_64bit.tar.gz"));
    assert!(!is_cli_asset(""));
}

#[test]
fn select_cli_asset_picks_first_match() {
    let assets = vec![
        asset("arduino-cli_1.1.1_Linux_64bit.tar.gz", Some("https://x/linux")),
        asset("arduino-cli_1.1.1_Windows_64bit.zip", None),
        asset("arduino-cli_1.1.1_Windows_64bit.zip", Some("https://x/win64")),
        asset("other_Windows_64bit.zip", Some("https://x/other")),
    ];
    assert_eq!(select_cli_asset(Some(assets)), Ok("https://x/win64".to_string()));
}

#[test]
fn select_cli_asset_errors() {
    assert_eq!(select_cli_asset(None), Err("No assets in release JSON".to_string()));
    assert_eq!(
        select_cli_asset(Some(vec![])),
        Err("Could not find Windows 64-bit arduino-cli zip in release".to_string())
    );
    assert_eq!(
        select_cli_asset(Some(vec![asset("arduino-cli_Windows_64bit.zip", None)])),
        Err("Could not find Windows 64-bit arduino-cli zip in release".to_string())
    );
}

#[test]
fn core_listing() {
    let listing = "ID          Installed Latest Name\narduino:avr 1.8.6     1.8.6  Arduino AVR Boards\n";
    assert!(core_list_has_avr(listing));
    assert!(!core_list_has_avr("No platforms installed.\n"));
    assert!(!core_list_has_avr(""));
}

#[test]
fn compile_and_upload_outcomes() {
    assert_eq!(compile_outcome(true, "Sketch uses 1 byte\n", ""), Ok("Sketch uses 1 byte\n".to_string()));
    assert_eq!(compile_outcome(true, "a", "b"), Ok("ab".to_string()));
    assert_eq!(
        compile_outcome(false, "out\n", "err\n"),
        Err("Compilation failed:\nout\nerr\n".to_string())
    );
    assert_eq!(upload_outcome(true, "x", "y"), Ok(()));
    assert_eq!(upload_outcome(false, "o", "e"), Err("Upload failed:\noe".to_string()));
}

#[test]
fn path_join_on_a_bare_drive() {
    assert_eq!(path_join("C:", '\\', "nevc_mtr1_gui"), "C:nevc_mtr1_gui");
    let app = app_data_dir_in("C:", '\\');
    assert_eq!(tools_dir(&app, '\\'), "C:nevc_mtr1_gui\\tools");
    assert_eq!(firmware_dir(&app, '\\'), "C:nevc_mtr1_gui\\firmware");
    assert_eq!(path_join("C:", '/', "x"), "C:/x");
    assert_eq!(path_join("CD:", '\\', "x"), "CD:\\x");
}
