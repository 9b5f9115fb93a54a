//! Project lifecycle: read first, then commit folder and project together. A
//! refused open changes nothing, neither the file nor the open project.

use vstd::prelude::*;

use crate::project::{
    Preferences, Project, Quality, Resolution, CURRENT_FORMAT_VERSION, FULL_VOLUME,
};
use crate::sources;
use crate::sources::file_name;
use crate::state::StateFile;
use crate::store::StoreError;
use crate::text;
use crate::user_error;
use crate::user_error::UserError;

verus! {

/// What to do about a folder that was to be opened, once its project was read.
#[derive(Debug, PartialEq, Eq)]
pub enum Opening {
    /// The project that was read becomes the open one.
    Commit,
    /// There is none: write a new one, and open that.
    Create(Project),
    /// Nothing changes.
    Refuse(UserError),
}

/// The name of a project created in a folder.
pub open spec fn new_name(folder: Seq<char>) -> Seq<char> {
    match sources::last_name(folder) {
        Some(name) => name,
        None => "Untitled"@,
    }
}

/// What to do about `folder`, whose project was read with this outcome. Only a
/// folder without a project gets a new one, named after it.
pub fn opening(folder: &str, read: Option<StoreError>) -> (opening: Opening)
    ensures
        match read {
            None => opening is Commit,
            Some(e) => if e is MissingProjectJson {
                &&& opening is Create
                &&& opening->Create_0.name@ == new_name(folder@)
                &&& opening->Create_0.source_videos@.len() == 0
                &&& opening->Create_0.clips@.len() == 0
                &&& opening->Create_0.match_events@.len() == 0
                &&& opening->Create_0.scoreboard is None
                &&& opening->Create_0.preferences == (Preferences {
                    scan_volume: FULL_VOLUME,
                    preview_source_volume: FULL_VOLUME,
                    preview_commentary_volume: FULL_VOLUME,
                    last_export_resolution: Resolution::R1080,
                    last_export_quality: Quality::Medium,
                    preferred_camera_id: None,
                    preferred_mic_id: None,
                    pip_for_new_recordings: true,
                })
                &&& opening->Create_0.format_version == CURRENT_FORMAT_VERSION
            } else {
                &&& opening is Refuse
                &&& user_error::tells_of(opening->Refuse_0, e)
            },
        },
{
    match read {
        None => Opening::Commit,
        Some(StoreError::MissingProjectJson(_)) => {
            let name = match file_name(folder) {
                Some(name) => name,
                None => "Untitled".to_owned(),
            };
            Opening::Create(Project::new(name))
        },
        Some(e) => Opening::Refuse(UserError::from_store(e)),
    }
}

/// What becomes of the remembered project once its folder was read, or
/// couldn't be: it is reopened only if it is there. One that isn't is
/// forgotten rather than created, since creating it would bring back a folder
/// that was deleted or unmounted.
pub fn restoring(state: &mut StateFile, read: bool) -> (commit: bool)
    ensures
        commit == (read && old(state)@.last_project is Some),
        final(state)@ == if read {
            old(state)@
        } else {
            old(state)@.opened(None)
        },
        final(state).location() == old(state).location(),
{
    if !read {
        state.set_last_project(None);
        return false;
    }
    state.last_project().is_some()
}

/// Gives the project another name: trimmed, and neither empty nor the one it
/// has. Returns whether it changed.
pub fn rename_project(project: &mut Project, name: &str) -> (changed: bool)
    ensures
        ({
            let wanted = text::trimmed(name@);
            &&& changed == (wanted.len() > 0 && wanted != old(project).name@)
            &&& changed ==> final(project).name@ == wanted
            &&& !changed ==> *final(project) == *old(project)
            &&& final(project).format_version == old(project).format_version
            &&& final(project).source_videos == old(project).source_videos
            &&& final(project).clips == old(project).clips
            &&& final(project).preferences == old(project).preferences
            &&& final(project).scoreboard == old(project).scoreboard
            &&& final(project).match_events == old(project).match_events
        }),
{
    let name = text::trim(name);
    if name.as_str().is_empty() || name == project.name {
        return false;
    }
    project.name = name;
    true
}

/// **Only a folder without a project gets a new one**, named after it; one
/// whose project could not be read is refused.
pub proof fn law_only_an_empty_folder_gets_a_project(
    folder: &str,
    read: Option<StoreError>,
    decided: Opening,
)
    requires
        call_ensures(opening, (folder, read), decided),
    ensures
        decided is Commit <==> read is None,
        decided is Create <==> read is Some && read->0 is MissingProjectJson,
        decided is Refuse <==> read is Some && !(read->0 is MissingProjectJson),
        decided matches Opening::Create(project) ==> {
            &&& project.clips@.len() == 0 && project.source_videos@.len() == 0
            &&& project.match_events@.len() == 0 && project.scoreboard is None
            &&& project.format_version == 7
        },
{
}

/// **A project takes a new name without the blanks around it**, unless nothing
/// is left or it has it already, and changes in nothing else.
pub proof fn law_a_project_takes_a_new_name(project: &mut Project, name: &str, changed: bool)
    requires
        call_ensures(rename_project, (project, name), changed),
    ensures
        changed <==> text::trimmed(name@).len() > 0 && text::trimmed(name@) != old(
            project).name@,
        changed ==> final(project).name@ == text::trimmed(name@),
        !changed ==> final(project).name@ == old(project).name@,
        final(project).clips == old(project).clips,
        final(project).source_videos == old(project).source_videos,
        final(project).match_events == old(project).match_events,
        final(project).scoreboard == old(project).scoreboard,
        final(project).preferences == old(project).preferences,
{
}

} // verus!
