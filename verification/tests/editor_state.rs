use roblox_fast_flag_editor::editor::{status_line, try_add, AddModal, App, StatusMsg, StatusTone};
use roblox_fast_flag_editor::flags::FlagStore;
use roblox_fast_flag_editor::icon::load_icon;

fn app_with(doc: &str) -> App {
    let mut store = FlagStore::new();
    assert!(store.parse_json(doc).is_ok());
    App::new(store, Ok("C:\\s.json".to_string()))
}

fn keys_values(app: &App) -> Vec<(String, String, bool)> {
    app.store.flags().iter().map(|f| (f.key.clone(), f.value.clone(), f.dirty)).collect()
}

#[test]
fn status_ok_and_err() {
    let ok = StatusMsg::ok("done".to_string());
    assert_eq!((ok.text.as_str(), ok.ttl, ok.is_error), ("done", 180, false));
    let err = StatusMsg::err("bad".to_string());
    assert_eq!((err.text.as_str(), err.ttl, err.is_error), ("bad", 300, true));
    let d = StatusMsg::default();
    assert_eq!((d.text.as_str(), d.ttl, d.is_error), ("", 0, false));
}

#[test]
fn status_expires_after_its_frames() {
    let mut s = StatusMsg::ok("hello".to_string());
    for _ in 0..179 {
        s.tick();
    }
    assert_eq!((s.text.as_str(), s.ttl), ("hello", 1));
    s.tick();
    assert_eq!((s.text.as_str(), s.ttl), ("", 0));
    s.tick();
    assert_eq!((s.text.as_str(), s.ttl), ("", 0));
}

#[test]
fn status_without_count_persists() {
    let mut s = StatusMsg { text: "keep".to_string(), ttl: 0, is_error: true };
    s.tick();
    assert_eq!((s.text.as_str(), s.ttl, s.is_error), ("keep", 0, true));
}

#[test]
fn status_line_tones() {
    let (t, m) = status_line(&StatusMsg::default());
    assert_eq!((t, m.as_str()), (StatusTone::Idle, "Ready"));
    let (t, m) = status_line(&StatusMsg::err("x".to_string()));
    assert_eq!((t, m.as_str()), (StatusTone::Error, "x"));
    let (t, m) = status_line(&StatusMsg::ok("y".to_string()));
    assert_eq!((t, m.as_str()), (StatusTone::Success, "y"));
}

#[test]
fn new_app_reports_loading() {
    let app = App::new(FlagStore::new(), Ok("C:\\a.json".to_string()));
    assert_eq!(app.status.text, "Loaded: C:\\a.json");
    assert!(!app.status.is_error);
    assert!(app.search.is_empty());
    assert!(!app.add_modal.open);
    let app = App::new(FlagStore::new(), Err("nope".to_string()));
    assert_eq!(app.status.text, "Could not load flags: nope");
    assert!(app.status.is_error);
}

#[test]
fn apply_success_clears_dirty() {
    let mut app = app_with(r#"{"A": 1}"#);
    app.store.set_flag("B".to_string(), "2".to_string());
    app.apply(Ok("C:\\s.json".to_string()));
    assert_eq!(app.status.text, "\u{2714} Applied to: C:\\s.json");
    assert_eq!(app.status.ttl, 180);
    assert!(app.store.flags().iter().all(|f| !f.dirty));
}

#[test]
fn apply_failure_keeps_dirty() {
    let mut app = app_with(r#"{"A": 1}"#);
    app.store.set_flag("B".to_string(), "2".to_string());
    app.apply(Err("disk full".to_string()));
    assert_eq!(app.status.text, "\u{2718} Save failed: disk full");
    assert!(app.status.is_error);
    assert!(app.store.flags()[1].dirty);
}

#[test]
fn reset_outcomes() {
    let mut app = app_with(r#"{"A": 1}"#);
    app.reset(Err("in use".to_string()));
    assert_eq!(app.status.text, "\u{2718} Reset failed: in use");
    assert_eq!(app.store.flags().len(), 1);
    app.reset(Ok(()));
    assert_eq!(app.status.text, "\u{2714} Reset: ClientAppSettings.json deleted");
    assert!(app.store.flags().is_empty());
}

#[test]
fn try_add_rejects_blank_key() {
    let mut app = app_with(r#"{"A": 1}"#);
    app.add_modal = AddModal { open: true, key: "   ".to_string(), ..Default::default() };
    assert!(!try_add(&mut app));
    assert_eq!(app.add_modal.error, "Flag name cannot be empty.");
    assert!(app.add_modal.open);
    assert_eq!(app.store.flags().len(), 1);
}

#[test]
fn try_add_adds_trimmed_key() {
    let mut app = app_with(r#"{"A": 1}"#);
    app.add_modal = AddModal {
        open: true,
        key: "  FIntTaskSchedulerTargetFps ".to_string(),
        value: "144".to_string(),
        ..Default::default()
    };
    assert!(try_add(&mut app));
    assert!(!app.add_modal.open);
    assert_eq!(app.status.text, "Added flag: FIntTaskSchedulerTargetFps = 144");
    assert_eq!(
        keys_values(&app),
        vec![
            ("A".to_string(), "1".to_string(), false),
            ("FIntTaskSchedulerTargetFps".to_string(), "144".to_string(), true),
        ]
    );
}

#[test]
fn try_add_updates_existing_key() {
    let mut app = app_with(r#"{"A": 1}"#);
    app.add_modal = AddModal { open: true, key: "A".to_string(), value: "2".to_string(), ..Default::default() };
    assert!(try_add(&mut app));
    assert_eq!(app.status.text, "Updated flag: A = 2");
    assert_eq!(keys_values(&app), vec![("A".to_string(), "2".to_string(), true)]);
}

#[test]
fn icon_from_bytes_that_are_no_image() {
    assert!(load_icon(b"not an image").is_none());
    assert!(load_icon(&[]).is_none());
}

#[test]
fn icon_from_png_bytes() {
    let png: [u8; 70] = [
        137, 80, 78, 71, 13, 10, 26, 10, 0, 0, 0, 13, 73, 72, 68, 82, 0, 0, 0, 1, 0, 0, 0, 1, 8,
        6, 0, 0, 0, 31, 21, 196, 137, 0, 0, 0, 13, 73, 68, 65, 84, 120, 156, 99, 248, 207, 192,
        240, 31, 0, 5, 0, 1, 255, 137, 153, 61, 29, 0, 0, 0, 0, 73, 69, 78, 68, 174, 66, 96, 130,
    ];
    let icon = load_icon(&png).expect("a 1x1 image");
    assert_eq!((icon.width, icon.height), (1, 1));
    assert_eq!(icon.rgba, vec![255, 0, 0, 255]);
}

#[test]
fn add_dialog_opens_empty() {
    let mut app = app_with(r#"{"A": 1}"#);
    app.add_modal = AddModal { open: false, key: "k".into(), value: "v".into(), error: "e".into(), just_opened: false };
    app.open_add_dialog();
    let m = &app.add_modal;
    assert!(m.open && m.just_opened);
    assert!(m.key.is_empty() && m.value.is_empty() && m.error.is_empty());
    assert_eq!(keys_values(&app), vec![("A".to_string(), "1".to_string(), false)]);
}

#[test]
fn import_reports_count_or_failure() {
    let mut app = app_with(r#"{"A": 1}"#);
    app.record_import("p.json", Ok(r#"{"X": 1, "Y": 2, "Z": 3, "W": 4, "V": 5, "U": 6, "T": 7, "S": 8, "R": 9, "Q": 10, "P": 11, "O": 12}"#.to_string()));
    assert_eq!(app.status.text, "\u{2714} Imported 12 flags from p.json");
    assert!(!app.status.is_error);
    assert_eq!(app.store.flags().len(), 12);
    app.record_import("q.json", Err("denied".to_string()));
    assert_eq!(app.status.text, "\u{2718} Import failed: Cannot read q.json: denied");
    assert!(app.status.is_error);
    app.record_import("r.json", Ok("[1]".to_string()));
    assert_eq!(app.status.text, "\u{2718} Import failed: JSON root must be an object");
    assert_eq!(app.store.flags().len(), 12);
    app.record_import("s.json", Ok("{}".to_string()));
    assert_eq!(app.status.text, "\u{2714} Imported 0 flags from s.json");
}

#[test]
fn export_reports_outcome() {
    let mut app = app_with(r#"{"A": 1}"#);
    app.record_export("out.json", Ok(()));
    assert_eq!((app.status.text.as_str(), app.status.is_error), ("\u{2714} Exported to out.json", false));
    app.record_export("out.json", Err("full".to_string()));
    assert_eq!((app.status.text.as_str(), app.status.is_error), ("\u{2718} Export failed: full", true));
    assert_eq!(keys_values(&app), vec![("A".to_string(), "1".to_string(), false)]);
}

#[test]
fn remove_reports_the_key() {
    let mut app = app_with(r#"{"A": 1, "B": 2}"#);
    app.remove("A");
    assert_eq!(app.status.text, "Removed flag: A");
    assert_eq!(keys_values(&app), vec![("B".to_string(), "2".to_string(), false)]);
    app.remove("missing");
    assert_eq!(app.status.text, "Removed flag: missing");
    assert_eq!(keys_values(&app).len(), 1);
}
