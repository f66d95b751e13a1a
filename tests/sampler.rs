use screen_time::days::{expired_log_names, is_expired_day, is_expired_log, log_file_name};
use screen_time::xprop::{
    parse_active_win_id, parse_app_name, parse_desktop_file_path, should_ignore_app,
    XpropParseError,
};

#[test]
fn app_name_from_wm_class() {
    let out = b"WM_CLASS(STRING) = \"chromium-browser\", \"Chromium-browser\"\n".to_vec();
    assert_eq!(parse_app_name(&out).unwrap(), "chromium-browser");
}

#[test]
fn app_name_without_comma_fails() {
    let out = b"WM_CLASS:  not found.\n".to_vec();
    assert_eq!(parse_app_name(&out), Err(XpropParseError::Class));
}

#[test]
fn app_name_invalid_utf8_fails() {
    let out = vec![b'=', b' ', b'"', 0xff, b'"', b','];
    assert_eq!(parse_app_name(&out), Err(XpropParseError::Class));
}

#[test]
fn win_id_is_last_word() {
    let out = b"_NET_ACTIVE_WINDOW(WINDOW): window id # 0x3a00007\n".to_vec();
    assert_eq!(parse_active_win_id(&out).unwrap(), "0x3a00007\n");
    assert_eq!(parse_active_win_id(&b"single".to_vec()).unwrap(), "single");
    assert_eq!(parse_active_win_id(&vec![0xc3]), Err(XpropParseError::WinId));
}

#[test]
fn desktop_path_from_property() {
    let out = b"_BAMF_DESKTOP_FILE(STRING) = \"/usr/share/applications/code.desktop\"\n".to_vec();
    assert_eq!(parse_desktop_file_path(&out).unwrap(), "/usr/share/applications/code.desktop");
    let missing = b"_BAMF_DESKTOP_FILE:  not found.\n".to_vec();
    assert_eq!(parse_desktop_file_path(&missing), Err(XpropParseError::DesktopPath));
}

#[test]
fn ignored_apps() {
    assert!(should_ignore_app("x"));
    assert!(should_ignore_app("é"));
    assert!(should_ignore_app("Desktop"));
    assert!(should_ignore_app("unity-panel"));
    assert!(should_ignore_app("wingpanel"));
    assert!(!should_ignore_app("firefox"));
    assert!(!should_ignore_app(""));
}

#[test]
fn log_file_names() {
    assert_eq!(log_file_name(735846).unwrap(), "Sep-05-2015.csv");
    assert_eq!(log_file_name(719163).unwrap(), "Jan-01-1970.csv");
    assert!(log_file_name(i32::MAX).is_none());
}

#[test]
fn retention_window() {
    assert!(is_expired_day(Some(735846), 735861));
    assert!(!is_expired_day(Some(735846), 735860));
    assert!(!is_expired_day(None, 735861));
    assert!(is_expired_day(Some(i32::MIN), i32::MIN + 15));
    assert!(is_expired_log("Sep-05-2015.csv", 735861));
    assert!(!is_expired_log("Sep-05-2015.csv", 735860));
    assert!(!is_expired_log("app-names.csv", 735861));
}

#[test]
fn expired_logs_in_order() {
    let names = vec![
        "Sep-05-2015.csv".to_string(),
        "app-names.csv".to_string(),
        "Sep-19-2015.csv".to_string(),
        "Aug-31-2015.csv".to_string(),
    ];
    let expired = expired_log_names(&names, 735861);
    assert_eq!(expired, vec!["Sep-05-2015.csv".to_string(), "Aug-31-2015.csv".to_string()]);
}
