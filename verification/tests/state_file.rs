//! The app's own state file, and the pickers.

use video_coach::lifecycle::{opening, rename_project, restoring, Opening};
use video_coach::pickers::{Pick, Pickers};
use video_coach::project::{Preferences, FULL_VOLUME};
use video_coach::state::{
    cache_dir, config_dir, whisper_model_path, State, StateFile, WhisperModel,
};
use video_coach::store::StoreError;

#[test]
fn xdg_wins_when_absolute() {
    assert_eq!(
        config_dir(Some("/x/cfg"), Some("/home/u")).as_deref(),
        Some("/x/cfg")
    );
}

#[test]
fn relative_or_empty_xdg_falls_back_to_home() {
    for xdg in ["", "rel/cfg"] {
        assert_eq!(
            config_dir(Some(xdg), Some("/home/u")).as_deref(),
            Some("/home/u/.config"),
            "{xdg:?}"
        );
    }
    assert_eq!(
        config_dir(None, Some("/home/u")).as_deref(),
        Some("/home/u/.config")
    );
}

#[test]
fn no_config_dir_without_xdg_or_home() {
    assert_eq!(config_dir(None, None), None);
    assert_eq!(config_dir(None, Some("home/u")), None);
}

#[test]
fn the_cache_directory_follows_its_own_variable() {
    assert_eq!(
        cache_dir(Some("/x/cache"), Some("/home/u")).as_deref(),
        Some("/x/cache")
    );
    assert_eq!(
        cache_dir(None, Some("/home/u")).as_deref(),
        Some("/home/u/.cache")
    );
    assert_eq!(cache_dir(None, None), None);
}

#[test]
fn remembers_and_forgets() {
    let mut state = StateFile::in_config_dir("/cfg");
    assert_eq!(state.last_project(), None);
    state.set_last_project(Some("/p/game"));
    assert_eq!(state.last_project().map(String::as_str), Some("/p/game"));
    assert_eq!(
        state.path().map(String::as_str),
        Some("/cfg/coach-cuts/state.json")
    );
    state.set_last_project(None);
    assert_eq!(state.last_project(), None);
}

#[test]
fn remembers_the_speech_model() {
    let mut state = StateFile::in_config_dir("/cfg");
    assert_eq!(state.whisper_model(), WhisperModel::default());
    state.set_whisper_model(WhisperModel::Base);
    // What a relaunch reads from the document that was written.
    let mut again = StateFile::in_config_dir("/cfg");
    again.read(Some(State {
        last_project: state.document().last_project.clone(),
        whisper_model: state.document().whisper_model.clone(),
    }));
    assert_eq!(again.whisper_model(), WhisperModel::Base);
}

#[test]
fn the_two_settings_are_independent() {
    let mut state = StateFile::in_config_dir("/cfg");
    state.set_last_project(Some("/p/game"));
    state.set_whisper_model(WhisperModel::Base);
    assert_eq!(state.last_project().map(String::as_str), Some("/p/game"));
    state.set_last_project(Some("/p/other"));
    assert_eq!(state.whisper_model(), WhisperModel::Base);
}

#[test]
fn an_unknown_or_absent_model_reads_as_the_default() {
    let mut state = StateFile::in_config_dir("/cfg");
    for label in [None, Some("medium.en".to_string())] {
        state.read(Some(State {
            last_project: Some("/p/game".to_string()),
            whisper_model: label,
        }));
        assert_eq!(state.whisper_model(), WhisperModel::default());
        assert_eq!(state.last_project().map(String::as_str), Some("/p/game"));
    }
}

#[test]
fn corrupt_file_reads_as_none() {
    let mut state = StateFile::in_config_dir("/cfg");
    state.set_last_project(Some("/p/game"));
    state.read(None);
    assert_eq!(state.last_project(), None);
}

#[test]
fn labels_name_their_models() {
    assert_eq!(WhisperModel::Small.label(), "small.en");
    assert_eq!(WhisperModel::Base.label(), "base.en");
    for model in [WhisperModel::Small, WhisperModel::Base] {
        assert_eq!(WhisperModel::from_label(&model.label()), Some(model));
    }
    assert_eq!(WhisperModel::from_label(&"tiny".to_string()), None);
}

#[test]
fn the_default_location_follows_the_environment() {
    let file = StateFile::default_location(None, Some("/home/u"));
    assert_eq!(
        file.path().map(String::as_str),
        Some("/home/u/.config/coach-cuts/state.json")
    );
    assert_eq!(StateFile::default_location(None, None).path(), None);
}

#[test]
fn the_speech_model_is_looked_for_in_the_cache() {
    assert_eq!(
        whisper_model_path(Some("/m/own.bin"), None, Some("/home/u")),
        "/m/own.bin"
    );
    assert_eq!(
        whisper_model_path(Some(""), Some("/c/"), Some("/home/u")),
        "/c/coach-cuts/models/ggml-small.en.bin"
    );
    assert_eq!(
        whisper_model_path(None, None, Some("/home/u")),
        "/home/u/.cache/coach-cuts/models/ggml-small.en.bin"
    );
    assert_eq!(whisper_model_path(None, None, None), "ggml-small.en.bin");
}

#[test]
fn one_picker_is_up_at_a_time() {
    let mut pickers = Pickers::default();
    assert!(pickers.open());
    assert!(!pickers.open());
    pickers.closed();
    assert!(pickers.open());
}

#[test]
fn a_picker_knows_what_it_looks_for() {
    let folder = Pick::ProjectFolder;
    assert!(folder.is_folder());
    assert_eq!(folder.title(), "Open Project Folder");
    assert!(folder.extensions().is_empty());
    let video = Pick::Video { title: "Locate the Missing Video" };
    assert!(!video.is_folder());
    assert_eq!(video.title(), "Locate the Missing Video");
    let offered = video.extensions();
    assert_eq!(offered.len(), 14);
    assert!(offered.contains(&"mp4") && offered.contains(&"MP4"));
}

#[test]
fn a_project_that_is_not_there_is_forgotten_and_not_created() {
    let mut state = StateFile::in_config_dir("/cfg");
    assert!(!restoring(&mut state, true), "nothing is remembered");
    state.set_last_project(Some("/p/game"));
    assert!(restoring(&mut state, true));
    assert_eq!(state.last_project().map(String::as_str), Some("/p/game"));
    assert!(!restoring(&mut state, false));
    assert_eq!(state.last_project(), None);
}

#[test]
fn restore_reopens_the_last_project() {
    let folder = "/tmp/project";
    let mut state = StateFile::in_config_dir("/cfg");
    let missing = StoreError::MissingProjectJson(folder.to_string());
    let Opening::Create(mut project) = opening(folder, Some(missing)) else {
        panic!("an empty folder gets a project");
    };
    assert_eq!(project.name, "project");
    state.set_last_project(Some(folder));
    assert!(rename_project(&mut project, "Remembered"));

    // The next start reads what this one left.
    let document = State {
        last_project: state.document().last_project.clone(),
        whisper_model: state.document().whisper_model.clone(),
    };
    let mut next = StateFile::in_config_dir("/cfg");
    next.read(Some(document));
    assert_eq!(next.last_project().map(String::as_str), Some(folder));
    assert!(restoring(&mut next, true));
    assert_eq!(project.name, "Remembered");
    assert_eq!(next.last_project().map(String::as_str), Some(folder));
}

#[test]
fn a_new_project_has_the_default_preferences() {
    let missing = StoreError::MissingProjectJson("/p/Game".to_string());
    let Opening::Create(project) = opening("/p/Game", Some(missing)) else {
        panic!("an empty folder gets a project");
    };
    assert_eq!(project.preferences, Preferences::default());
    assert_eq!(project.preferences.scan_volume, FULL_VOLUME);
    assert!(project.preferences.pip_for_new_recordings);
}
