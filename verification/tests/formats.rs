//! Text the window shows, and what the user is told.

use video_coach::format::{format_hms, format_hms_tenths, headed, sentence};
use video_coach::id::{parse_id, Id};
use video_coach::store::StoreError;
use video_coach::user_error::UserError;

fn ticks(seconds: f64) -> i128 {
    (seconds * 3_000_000_000.0).round() as i128
}

#[test]
fn format_hms_matches_macos() {
    assert_eq!(format_hms(0), "0:00");
    assert_eq!(format_hms(ticks(-5.0)), "0:00");
    assert_eq!(format_hms(ticks(59.9)), "0:59");
    assert_eq!(format_hms(ticks(3599.9)), "59:59");
    assert_eq!(format_hms(ticks(3600.0)), "1:00:00");
    assert_eq!(format_hms(ticks(1242.17)), "20:42");
}

#[test]
fn absurd_times_saturate() {
    assert_eq!(format_hms(i128::MIN), "0:00");
    assert_eq!(format_hms(i128::MAX), "5124095576030431:00:15");
}

#[test]
fn a_paused_clock_shows_its_tenth() {
    assert_eq!(format_hms_tenths(ticks(59.96)), "0:59.9");
    assert_eq!(format_hms_tenths(ticks(3600.0)), "1:00:00.0");
    assert_eq!(format_hms_tenths(-1), "0:00.0");
}

#[test]
fn sentence_capitalizes_the_first_letter() {
    assert_eq!(
        sentence("the file has no video stream"),
        "The file has no video stream"
    );
    assert_eq!(sentence(""), "");
}

#[test]
fn a_capital_can_be_more_than_one_letter() {
    assert_eq!(sentence("ßtraße"), "SStraße");
}

#[test]
fn ids_are_read_as_they_are_written() {
    let id = Id { bits: 0x1234 };
    assert_eq!(id.text(), "00000000-0000-0000-0000-000000001234");
    assert_eq!(parse_id(&id.text()), Some(id));
    let big = Id { bits: 0x0123_4567_89ab_cdef_fedc_ba98_7654_3210 };
    assert_eq!(big.text(), "01234567-89ab-cdef-fedc-ba9876543210");
    assert_eq!(parse_id("01234567-89AB-CDEF-FEDC-BA9876543210"), Some(big));
    assert_eq!(parse_id("not an id"), None);
    assert_eq!(parse_id(""), None);
}

#[test]
fn every_failure_has_its_sentence() {
    let said = |e: UserError| e.message();
    assert_eq!(
        said(UserError::AspectMismatch { existing: 1778, attempted: 1333 }),
        "the video's shape (1.333:1) doesn't match the project's other videos (1.778:1)"
    );
    assert_eq!(said(UserError::Source("no video".into())), "no video");
    assert_eq!(said(UserError::Playback("x".into())), "playback failed: x");
    assert_eq!(
        said(UserError::UnreadableProject("x".into())),
        "the project file is unreadable: x"
    );
    assert_eq!(
        said(UserError::LegacyProject { found: 6 }),
        "this project was created by the macOS version of Coach Cuts (format v6) and cannot be opened"
    );
    assert_eq!(
        said(UserError::TooNewProject { found: 8 }),
        "this project was made by a newer version of Coach Cuts (format v8)"
    );
    assert_eq!(
        said(UserError::SourceReferenced { index: 2 }),
        "that video is still used by a clip or match event; delete those first"
    );
    assert_eq!(said(UserError::CantRecord("x".into())), "can't record: x");
    assert_eq!(
        said(UserError::NoCamera),
        "no camera with a 16:9, 30 fps mode up to 1280 wide was found"
    );
    assert_eq!(said(UserError::RecordingFailed("x".into())), "recording failed: x");
    assert_eq!(
        said(UserError::DeviceFallback { what: "camera".into() }),
        "the chosen camera isn't connected, so the default one is recording"
    );
    assert_eq!(
        said(UserError::StopNotClean),
        "the recording didn't finish cleanly; its clip was kept, but its end may be cut short"
    );
    assert_eq!(said(UserError::CantExport("x".into())), "can't export: x");
    assert_eq!(said(UserError::CantPreview("x".into())), "can't preview: x");
    assert_eq!(said(UserError::Scoreboard("x".into())), "x");
    assert_eq!(said(UserError::Io("x".into())), "x");
}

#[test]
fn only_what_needs_no_answer_is_a_notice() {
    assert!(UserError::DeviceFallback { what: "camera".into() }.is_notice());
    assert!(UserError::StopNotClean.is_notice());
    assert!(UserError::Scoreboard("x".into()).is_notice());
    assert!(!UserError::NoCamera.is_notice());
    assert!(!UserError::Io("x".into()).is_notice());
}

#[test]
fn a_store_error_is_told_as_what_it_is() {
    assert_eq!(
        UserError::from_store(StoreError::LegacyProject { found: 6, minimum: 7 }),
        UserError::LegacyProject { found: 6 }
    );
    assert_eq!(
        UserError::from_store(StoreError::TooNew { found: 8, supported: 7 }),
        UserError::TooNewProject { found: 8 }
    );
    assert_eq!(
        UserError::from_store(StoreError::Malformed("m".into())),
        UserError::UnreadableProject("m".into())
    );
    assert_eq!(
        UserError::from_store(StoreError::NotSerializable("m".into())),
        UserError::Io("m".into())
    );
    assert_eq!(
        UserError::from_store(StoreError::MissingProjectJson("/p".into())),
        UserError::UnreadableProject("no project.json in /p".into())
    );
}

#[test]
fn a_message_takes_another_first_letter() {
    assert_eq!(headed("SS", "ßtraße"), "SStraße");
    assert_eq!(headed("X", ""), "");
}
