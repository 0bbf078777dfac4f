use adm::autostart::{expected_cmd, is_enabled, sync, toggle};

const EXE: &str = "C:\\Apps\\ADM\\adm.exe";

#[test]
fn command_line() {
    assert_eq!(expected_cmd(EXE), "\"C:\\Apps\\ADM\\adm.exe\" --tray");
}

#[test]
fn enabled_only_for_current_exe() {
    assert!(!is_enabled(None, EXE));
    assert!(is_enabled(Some("\"c:\\apps\\adm\\ADM.EXE\" --TRAY"), EXE));
    assert!(!is_enabled(Some("\"C:\\Old\\adm.exe\" --tray"), EXE));
}

#[test]
fn startup_sync() {
    let cur = expected_cmd(EXE);
    assert_eq!(sync(true, None, EXE), Some(true));
    assert_eq!(sync(true, Some("\"C:\\Old\\adm.exe\" --tray"), EXE), Some(true));
    assert_eq!(sync(true, Some(cur.as_str()), EXE), None);
    assert_eq!(sync(false, Some(cur.as_str()), EXE), Some(false));
    assert_eq!(sync(false, None, EXE), None);
    assert!(toggle(false));
    assert!(!toggle(true));
}
