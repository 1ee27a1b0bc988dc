use augur_gui::diagnostics::{
    crash_entry, field, location_text, log_line, names_breadcrumb, now, panic_entry,
    stale_breadcrumbs, Diagnostics, LogPlaces, Platform, Session,
};

fn session(activity: &str) -> Session {
    Session {
        pid: 4242,
        breadcrumb: "/tmp/session-4242.open".into(),
        started_at: "2026-08-05T21:00:00Z".into(),
        version: "0.1.0".into(),
        activity: activity.into(),
    }
}

/// The breadcrumb has to be readable by the *next* process, which shares no
/// memory with this one, so its shape is part of the contract.
#[test]
fn a_breadcrumb_round_trips_through_the_unclean_session_report() {
    let body = session("recording row 23").body();
    assert!(body.contains("started_at = 2026-08-05T21:00:00Z"), "{body}");
    assert!(body.contains("activity = recording row 23"), "{body}");
    // The pid is the owning process's, not the file name's.
    assert!(body.contains("pid = 4242"), "{body}");
    assert_eq!(field(&body, "pid"), "4242");
    assert_eq!(field(&body, "activity"), "recording row 23");
    assert_eq!(field(&body, "version"), "0.1.0");
    assert_eq!(field(&body, "nothing"), "unknown");
}

/// A death that runs no code still turns into a line an operator can read,
/// naming what was being recorded when it happened.
#[test]
fn a_hard_crash_becomes_a_log_entry_naming_the_row_it_died_on() {
    let body = session("recording automated-run_p23 (protocol row 23/40)").body();
    let text = crash_entry(&body);
    assert!(text.contains("CRASH"), "{text}");
    assert!(text.contains("pid 4242"), "{text}");
    assert!(text.contains("started 2026-08-05T21:00:00Z"), "{text}");
    assert!(text.contains("protocol row 23/40"), "{text}");
    // Distinguishing it from a panic is the reason it is worth logging: the
    // two have different causes and different next steps.
    assert!(text.contains("without unwinding"), "{text}");
    let stale = stale_breadcrumbs(&vec![
        "sessions.log".into(),
        "session-4242.open".into(),
        "session-7.open".into(),
        "session-7.closed".into(),
    ]);
    assert_eq!(
        stale.as_list(),
        &vec!["session-4242.open".to_owned(), "session-7.open".to_owned()]
    );
}

fn places(log_dir: Option<&str>) -> LogPlaces {
    LogPlaces {
        log_dir: log_dir.map(String::from),
        local_app_data: Some("C:\\Users\\op\\AppData\\Local".into()),
        home: Some("/home/op".into()),
        state_home: None,
        temp_dir: "/tmp".into(),
    }
}

/// An operator who has to guess where the log went does not have a log.
#[test]
fn the_log_directory_is_overridable_for_the_bench() {
    let expected = "/tmp/augur-log-override";
    for platform in [Platform::Windows, Platform::MacOs, Platform::Other] {
        assert_eq!(places(Some(expected)).log_directory(platform, '/'), expected);
    }
}

#[test]
fn logs_live_below_the_users_state() {
    let places = places(None);
    assert_eq!(
        places.log_directory(Platform::Other, '/'),
        "/home/op/.local/state/augur/logs"
    );
    assert_eq!(
        places.log_directory(Platform::MacOs, '/'),
        "/home/op/Library/Application Support/augur/logs"
    );
    assert_eq!(
        places.log_directory(Platform::Windows, '\\'),
        "C:\\Users\\op\\AppData\\Local\\augur\\logs"
    );
    let homeless = LogPlaces { home: None, local_app_data: None, ..places };
    assert_eq!(homeless.log_directory(Platform::Other, '/'), "/tmp/augur/logs");
    assert_eq!(homeless.log_directory(Platform::Windows, '/'), "/tmp/augur/logs");
}

#[test]
fn moments_are_written_as_internet_time() {
    assert_eq!(now(0), "1970-01-01T00:00:00Z");
    assert_eq!(now(1_785_963_600_000_000_000), "2026-08-05T21:00:00Z");
    assert_eq!(now(1_500_000_000), "1970-01-01T00:00:01.5Z");
}

#[test]
fn moments_out_of_range_are_still_told() {
    assert_eq!(now(i128::MAX), now(i128::MIN));
    assert!(!now(i128::MAX).is_empty());
}

#[test]
fn panics_are_told_with_what_is_known() {
    let place = location_text("src/app.rs", 10, 3);
    assert_eq!(place, "src/app.rs:10:3");
    let full = panic_entry(Some("boom"), Some(&place), Some("row 1"), "stack");
    assert_eq!(full, "PANIC  boom\n       at src/app.rs:10:3\n       while: row 1\nstack");
    let bare = panic_entry(None, None, None, "");
    assert!(bare.contains("non-string payload") && bare.contains("unknown location"));
    assert_eq!(log_line("T", "E"), "T E\n");
}

#[test]
fn sessions_leave_breadcrumbs_until_they_exit() {
    let mut diagnostics = Diagnostics::new();
    assert!(diagnostics.log_path().is_none());
    assert!(diagnostics.note("early".into()).is_none());
    assert!(diagnostics.mark_clean_exit().is_none());
    let record = diagnostics.install("/logs", '/', 77, "0.1.0", "linux", "x86_64", "T");
    assert_eq!(record.log, "/logs/sessions.log");
    assert_eq!(record.breadcrumb, "/logs/session-77.open");
    assert_eq!(record.entry, "START  pid 77 \u{00B7} augur 0.1.0 \u{00B7} linux x86_64");
    assert_eq!(diagnostics.log_path().map(String::as_str), Some("/logs/sessions.log"));
    assert_eq!(diagnostics.activity().map(String::as_str), Some("starting up"));
    let body = diagnostics.note("recording".into()).unwrap();
    assert_eq!(field(&body, "activity"), "recording");
    assert!(names_breadcrumb("session-77.open"));
    assert!(!names_breadcrumb("other-77.open"));
    let (breadcrumb, entry) = diagnostics.mark_clean_exit().unwrap();
    assert_eq!((breadcrumb.as_str(), entry.as_str()), ("/logs/session-77.open", "EXIT   clean"));
}
