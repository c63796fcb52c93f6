use linuxy::updater::update_check_indicates_available;

#[test]
fn detects_update_from_exit_code() {
    assert!(update_check_indicates_available(Some(1), "", ""));
}

#[test]
fn detects_update_from_output_text() {
    assert!(update_check_indicates_available(Some(0), "An update is available", ""));
}

#[test]
fn reports_no_update_when_signal_absent() {
    assert!(!update_check_indicates_available(Some(0), "already up to date", ""));
}

use linuxy::updater::{interpret_update_apply, interpret_update_check, update_display_name, UpdateInfo};

#[test]
fn update_marker_is_found_in_either_stream_in_any_case() {
    assert!(update_check_indicates_available(Some(0), "", "UPDATE IS AVAILABLE"));
    assert!(update_check_indicates_available(None, "An Update Is Available!", ""));
    assert!(!update_check_indicates_available(Some(2), "update available", ""));
}

#[test]
fn update_check_fails_on_other_exit_codes() {
    assert_eq!(interpret_update_check(Some(0), "", ""), Ok(false));
    assert_eq!(interpret_update_check(Some(1), "", ""), Ok(true));
    assert_eq!(
        interpret_update_check(Some(2), "", "  no zsync info \n"),
        Err("Update check failed: no zsync info".to_string())
    );
    assert_eq!(interpret_update_check(None, "", ""), Err("Update check failed: ".to_string()));
}

#[test]
fn update_apply_succeeds_only_with_exit_code_zero() {
    assert_eq!(interpret_update_apply(Some(0), "x"), Ok("Update applied successfully.".to_string()));
    assert_eq!(interpret_update_apply(Some(1), " broken\n"), Err("Update failed: broken".to_string()));
    assert_eq!(interpret_update_apply(None, ""), Err("Update failed: ".to_string()));
}

#[test]
fn update_names_come_from_the_desktop_entry() {
    assert_eq!(update_display_name("krita", None), "krita");
    assert_eq!(update_display_name("krita", Some("[Desktop Entry]\nName=Krita\nName=Other\n")), "Krita");
    assert_eq!(update_display_name("krita", Some("[Desktop Entry]\nExec=x\n")), "krita");
}

#[test]
fn update_info_records_the_check() {
    let i = UpdateInfo::from_check("/a.AppImage", "A", Some(1), "", "");
    assert_eq!(i.path, "/a.AppImage");
    assert_eq!(i.name, "A");
    assert!(i.has_update);
    assert_eq!(i.error, None);
    let j = UpdateInfo::from_check("/a.AppImage", "A", Some(3), "", " bad \n");
    assert!(!j.has_update);
    assert_eq!(j.error, Some("bad".to_string()));
    let k = UpdateInfo::from_failure("/b", "B", "Failed to run appimageupdatetool");
    assert!(!k.has_update);
    assert_eq!(k.error, Some("Failed to run appimageupdatetool".to_string()));
}
