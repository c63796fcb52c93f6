use linuxy::watcher::{update_tracking_state, TrackedFile};

#[test]
fn marks_file_stable_only_after_repeated_same_size() {
    let mut state = TrackedFile::default();

    update_tracking_state(&mut state, 128);
    assert_eq!(state.stable_polls, 0);

    update_tracking_state(&mut state, 128);
    assert_eq!(state.stable_polls, 1);

    update_tracking_state(&mut state, 128);
    assert_eq!(state.stable_polls, 2);
}

#[test]
fn resets_stability_when_size_changes() {
    let mut state = TrackedFile::default();

    update_tracking_state(&mut state, 128);
    update_tracking_state(&mut state, 128);
    update_tracking_state(&mut state, 256);

    assert_eq!(state.last_size, 256);
    assert_eq!(state.stable_polls, 0);
}

use linuxy::watcher::{is_appimage_path, Observation, WatchState, STABLE_POLLS_REQUIRED};

fn seen(path: &str, size: u64) -> Observation {
    Observation { path: path.to_string(), is_file: true, size: Some(size) }
}

#[test]
fn saturates_the_stable_count() {
    let mut state = TrackedFile { last_size: 5, stable_polls: u8::MAX, notified: true };
    update_tracking_state(&mut state, 5);
    assert_eq!(state.stable_polls, u8::MAX);
    assert!(state.notified);
}

#[test]
fn watcher_announces_a_download_once_it_holds_still() {
    assert_eq!(STABLE_POLLS_REQUIRED, 2);
    let mut w = WatchState::new();
    assert_eq!(w.len(), 0);
    assert!(w.poll(&vec![seen("/d/A.AppImage", 10)]).is_empty());
    assert!(w.poll(&vec![seen("/d/A.AppImage", 20)]).is_empty());
    assert!(w.poll(&vec![seen("/d/A.AppImage", 20)]).is_empty());
    assert_eq!(w.poll(&vec![seen("/d/A.AppImage", 20)]), vec!["/d/A.AppImage".to_string()]);
    let rec = w.get("/d/A.AppImage").unwrap();
    assert!(rec.notified);
    assert_eq!(rec.last_size, 20);
    assert!(w.poll(&vec![seen("/d/A.AppImage", 20)]).is_empty());
    assert_eq!(w.len(), 1);
}

#[test]
fn watcher_ignores_other_entries_and_forgets_vanished_files() {
    let mut w = WatchState::new();
    let obs = vec![
        seen("/d/a.txt", 10),
        seen("/d/empty.AppImage", 0),
        Observation { path: "/d/dir.AppImage".to_string(), is_file: false, size: Some(4) },
        Observation { path: "/d/gone.AppImage".to_string(), is_file: true, size: None },
        seen("/d/b.appimage", 3),
    ];
    assert!(w.poll(&obs).is_empty());
    assert_eq!(w.len(), 1);
    assert!(w.get("/d/a.txt").is_none());
    assert!(w.get("/d/b.appimage").is_some());
    assert!(w.poll(&vec![]).is_empty());
    assert_eq!(w.len(), 0);
    assert!(w.get("/d/b.appimage").is_none());
}

#[test]
fn watcher_recognises_appimages() {
    assert!(is_appimage_path("/d/x.AppImage"));
    assert!(is_appimage_path("/d/x.appimage"));
    assert!(!is_appimage_path("/d/x.APPIMAGE"));
}

#[test]
fn watcher_needs_three_equal_polls_and_announces_once_while_present() {
    let mut w = WatchState::new();
    let mut announced = Vec::new();
    let sizes = [5u64, 5, 5, 5, 5, 6, 6, 6];
    for s in sizes {
        announced.push(w.poll(&vec![seen("/d/A.AppImage", s)]).len());
    }
    assert_eq!(announced, vec![0, 0, 1, 0, 0, 0, 0, 0]);
    // After the file disappears and comes back, it is announced again.
    assert!(w.poll(&vec![]).is_empty());
    let again: Vec<usize> = (0..3).map(|_| w.poll(&vec![seen("/d/A.AppImage", 9)]).len()).collect();
    assert_eq!(again, vec![0, 0, 1]);
}
