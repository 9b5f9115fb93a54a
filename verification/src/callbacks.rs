//! What each of the window's callbacks asks for.

use vstd::prelude::*;

use crate::clips;
use crate::command::Command;
use crate::export_run;
use crate::export_run::find_clip;
use crate::id;
use crate::id::{parse_id, Id};
use crate::match_panel;
use crate::match_panel::{over_cap_warning, parse_overtime_periods, parse_periods};
use crate::project::{Clip, Project};
use crate::scoreboard_config::MatchEventKind;
use crate::state::WhisperModel;
use crate::tag;
use crate::tag::normalize_tags;
use crate::text;
use crate::transport;
use crate::undo::{ClipEdit, EditView};

verus! {

// ---------------------------------------------------------------------------
// Rows.

/// A row the window names, if it names one: it sends a negative number for
/// none.
pub fn row_index(index: i32) -> (row: Option<usize>)
    ensures
        row == if index >= 0 {
            Some(index as usize)
        } else {
            None
        },
{
    if index >= 0 {
        Some(index as usize)
    } else {
        None
    }
}

/// The missing video of a row was located.
pub fn relink_source(index: i32, path: String) -> (command: Option<Command>)
    ensures
        command == if index >= 0 {
            Some(Command::RelinkSource(index as usize, path))
        } else {
            None
        },
{
    match row_index(index) {
        Some(index) => Some(Command::RelinkSource(index, path)),
        None => None,
    }
}

/// A source was removed from the list.
pub fn remove_source(index: i32) -> (command: Option<Command>)
    ensures
        command == if index >= 0 {
            Some(Command::RemoveSource(index as usize))
        } else {
            None
        },
{
    match row_index(index) {
        Some(index) => Some(Command::RemoveSource(index)),
        None => None,
    }
}

/// A source was dragged to another place.
pub fn move_source(from: i32, to: i32) -> (command: Option<Command>)
    ensures
        command == if from >= 0 && to >= 0 {
            Some(Command::MoveSource { from: from as usize, to: to as usize })
        } else {
            None
        },
{
    match (row_index(from), row_index(to)) {
        (Some(from), Some(to)) => Some(Command::MoveSource { from, to }),
        _ => None,
    }
}

/// A clip was dragged to another place.
pub fn move_clip(from: i32, to: i32) -> (command: Option<Command>)
    ensures
        command == if from >= 0 && to >= 0 {
            Some(Command::MoveClip { from: from as usize, to: to as usize })
        } else {
            None
        },
{
    match (row_index(from), row_index(to)) {
        (Some(from), Some(to)) => Some(Command::MoveClip { from, to }),
        _ => None,
    }
}

/// The project's name was typed over. `None` without a project, and for a name
/// that is blank or already the project's.
pub fn rename_project(name: &str, open: Option<&Project>) -> (command: Option<Command>)
    ensures
        ({
            let wanted = text::trimmed(name@);
            match command {
                Some(c) => {
                    &&& open is Some
                    &&& wanted.len() > 0
                    &&& wanted != open->0.name@
                    &&& c is RenameProject
                    &&& c->RenameProject_0@ == wanted
                },
                None => open is None || wanted.len() == 0 || wanted == open->0.name@,
            }
        }),
{
    let name = text::trim(name);
    match open {
        Some(project) => if name.as_str().is_empty() || name == project.name {
            None
        } else {
            Some(Command::RenameProject(name))
        },
        None => None,
    }
}

// ---------------------------------------------------------------------------
// Ids.

/// What a row's action asks of the clip or match event that it names.
#[derive(Debug, Clone, Copy, PartialEq, Eq, Structural)]
pub enum Verb {
    JumpToClip,
    DeleteClip,
    OpenPreview,
    Transcribe,
    DeleteMatchEvent,
    /// Whether the webcam inset is shown.
    ShowPip(bool),
}

/// The command of a verb.
pub open spec fn does(verb: Verb, id: Id) -> Command {
    match verb {
        Verb::JumpToClip => Command::JumpToClip(id),
        Verb::DeleteClip => Command::DeleteClip(id),
        Verb::OpenPreview => Command::OpenPreview(id),
        Verb::Transcribe => Command::Transcribe { clip_id: id },
        Verb::DeleteMatchEvent => Command::DeleteMatchEvent(id),
        Verb::ShowPip(on) => Command::EditClip { id, edit: ClipEdit::ShowPip(on) },
    }
}

/// A row's action. `None` for a text that is no id.
pub fn by_id(verb: Verb, id: &str) -> (command: Option<Command>)
    ensures
        command == match id::id_of(id::uuid_in(id@)) {
            Some(id) => Some(does(verb, id)),
            None => None,
        },
{
    match parse_id(id) {
        Some(id) => Some(
            match verb {
                Verb::JumpToClip => Command::JumpToClip(id),
                Verb::DeleteClip => Command::DeleteClip(id),
                Verb::OpenPreview => Command::OpenPreview(id),
                Verb::Transcribe => Command::Transcribe { clip_id: id },
                Verb::DeleteMatchEvent => Command::DeleteMatchEvent(id),
                Verb::ShowPip(on) => Command::EditClip { id, edit: ClipEdit::ShowPip(on) },
            },
        ),
        None => None,
    }
}

// ---------------------------------------------------------------------------
// Drag and drop.

/// What a drag carries: the list's name and the dragged row's index, so a
/// source dropped on the clip list (or back) is refused.
pub open spec fn payload(list: Seq<char>, index: int) -> Seq<char> {
    list + seq![':'] + text::signed_decimal(index)
}

/// What a drag carries.
pub fn drag_payload(list: &str, index: i32) -> (data: String)
    ensures
        data@ == payload(list@, index as int),
{
    let mut data = list.to_owned();
    data.push(':');
    text::push_signed_decimal(&mut data, index as i64);
    assert(data@ =~= payload(list@, index as int));
    data
}

/// Where the first colon of a text stands, or its length.
pub open spec fn colon_at(s: Seq<char>) -> int
    decreases s.len(),
{
    if s.len() == 0 || s[0] == ':' {
        0
    } else {
        1 + colon_at(s.drop_first())
    }
}

/// The row that a drag's data names on a list, or -1.
pub open spec fn dropped(list: Seq<char>, data: Seq<char>) -> int {
    let colon = colon_at(data);
    if colon == data.len() || data.take(colon) != list {
        -1
    } else {
        match text::integer_in(data.skip(colon + 1)) {
            Some(n) => if i32::MIN <= n <= i32::MAX {
                n
            } else {
                -1
            },
            None => -1,
        }
    }
}

proof fn lemma_colon_is_inside(s: Seq<char>)
    ensures
        0 <= colon_at(s) <= s.len(),
        colon_at(s) < s.len() ==> s[colon_at(s)] == ':',
        forall|i: int| 0 <= i < colon_at(s) ==> #[trigger] s[i] != ':',
    decreases s.len(),
{
    if !(s.len() == 0 || s[0] == ':') {
        lemma_colon_is_inside(s.drop_first());
        assert forall|i: int| 0 <= i < colon_at(s) implies #[trigger] s[i] != ':' by {
            if i > 0 {
                assert(s.drop_first()[i - 1] == s[i]);
            }
        }
    }
}

/// The row that a drop on `list` names, or -1 for a drag of another list or of
/// anything else.
pub fn dropped_index(list: &str, data: &str) -> (index: i32)
    ensures
        index == dropped(list@, data@),
{
    let chars = text::chars_of(data);
    let mut colon: usize = 0;
    assert(data@.skip(0) =~= data@);
    while colon < chars.len() && chars[colon] != ':'
        invariant
            chars@ == data@,
            colon <= data@.len(),
            colon_at(data@) == colon + colon_at(data@.skip(colon as int)),
        decreases chars.len() - colon,
    {
        assert(data@.skip(colon as int).drop_first() =~= data@.skip(colon + 1));
        colon = colon + 1;
    }
    if colon == chars.len() {
        return -1;
    }
    let from = text::text_of(&chars, 0, colon);
    assert(from@ =~= data@.take(colon as int));
    if from != list.to_owned() {
        return -1;
    }
    let index = text::text_of(&chars, colon + 1, chars.len());
    assert(index@ =~= data@.skip(colon + 1));
    match text::parse_i32(index.as_str()) {
        Some(n) => n,
        None => -1,
    }
}

/// **A drop names the row that was dragged**, on the list it was dragged from,
/// and no row on any other list. A list's name holds no colon.
pub proof fn law_a_drop_names_the_dragged_row(
    list: Seq<char>,
    elsewhere: Seq<char>,
    index: i32,
)
    requires
        !list.contains(':'),
        elsewhere != list,
    ensures
        dropped(list, payload(list, index as int)) == index,
        dropped(elsewhere, payload(list, index as int)) == -1,
{
    let data = payload(list, index as int);
    lemma_colon_is_inside(data);
    let colon = colon_at(data);
    assert(data[list.len() as int] == ':');
    assert(colon == list.len()) by {
        if colon < list.len() {
            assert(data[colon] == list[colon]);
            assert(list.contains(':'));
        }
    }
    assert(data.take(colon) =~= list);
    assert(data.skip(colon + 1) =~= text::signed_decimal(index as int));
    text::lemma_signed_decimal_reads_back(index as int);
}

// ---------------------------------------------------------------------------
// The Match panel.

/// A tag where the game video is: `abs` on the whole timeline, mapped back to
/// a source as one, since reading the source and the offset separately would
/// pair a new source with the old one's offset across a seek. `None` without
/// sources.
pub fn tag_match_event(kind: MatchEventKind, abs: i128, open: Option<&Project>) -> (command:
    Option<Command>)
    ensures
        command == {
            let all = transport::open_sources(open);
            if all.len() == 0 {
                None
            } else {
                let (index, into) = transport::located(all, abs as int);
                Some(
                    Command::TagMatchEvent {
                        kind,
                        source_index: index as usize,
                        source_time: into as i64,
                    },
                )
            }
        },
{
    match open {
        Some(project) => {
            if project.source_videos.len() == 0 {
                return None;
            }
            let (source_index, source_time) = project.locate(abs);
            Some(Command::TagMatchEvent { kind, source_index, source_time })
        },
        None => None,
    }
}

/// Where the first match event with this id stands.
pub open spec fn event_index(
    events: Seq<crate::scoreboard_config::MatchEventRecord>,
    id: Id,
) -> Option<int>
    decreases events.len(),
{
    if events.len() == 0 {
        None
    } else {
        match event_index(events.drop_last(), id) {
            Some(i) => Some(i),
            None => if events.last().id == id {
                Some(events.len() - 1)
            } else {
                None
            },
        }
    }
}

proof fn lemma_event_found_stays_found(
    events: Seq<crate::scoreboard_config::MatchEventRecord>,
    id: Id,
    n: int,
)
    requires
        0 <= n <= events.len(),
        event_index(events.take(n), id) is Some,
    ensures
        event_index(events, id) == event_index(events.take(n), id),
    decreases events.len() - n,
{
    if n < events.len() {
        assert(events.take(n + 1).drop_last() =~= events.take(n));
        lemma_event_found_stays_found(events, id, n + 1);
    } else {
        assert(events.take(n) =~= events);
    }
}

fn find_event(project: &Project, id: Id) -> (found: Option<usize>)
    ensures
        match found {
            Some(i) => i < project.match_events@.len() && event_index(project.match_events@, id)
                == Some(i as int),
            None => event_index(project.match_events@, id) is None,
        },
{
    for i in 0..project.match_events.len()
        invariant
            event_index(project.match_events@.take(i as int), id) is None,
    {
        assert(project.match_events@.take(i + 1).drop_last()
            =~= project.match_events@.take(i as int));
        if project.match_events[i].id == id {
            proof {
                lemma_event_found_stays_found(project.match_events@, id, i + 1);
            }
            return Some(i);
        }
    }
    assert(project.match_events@.take(project.match_events@.len() as int)
        =~= project.match_events@);
    None
}

/// A row of the event list was chosen: one frame-accurate seek to it, the same
/// one a scrub release makes.
pub fn seek_match_event(id: &str, open: Option<&Project>) -> (command: Option<Command>)
    ensures
        match (id::id_of(id::uuid_in(id@)), open) {
            (Some(wanted), Some(project)) => match event_index(project.match_events@, wanted) {
                Some(i) => {
                    let event = project.match_events@[i];
                    command matches Some(Command::ScrubRelease { abs }) && abs == project.offset(
                        event.source_index as int,
                    ) + event.source_time
                },
                None => command is None,
            },
            _ => command is None,
        },
{
    let id = match parse_id(id) {
        Some(id) => id,
        None => {
            return None;
        },
    };
    match open {
        Some(project) => match find_event(project, id) {
            Some(i) => {
                let event = project.match_events[i];
                Some(
                    Command::ScrubRelease {
                        abs: project.abs_seconds(event.source_index, event.source_time),
                    },
                )
            },
            None => None,
        },
        None => None,
    }
}

/// The setup sheet's warning for the format being typed; empty while one of
/// its counts doesn't parse, and without a project.
pub fn match_over_cap(
    regulation: &str,
    overtime: &str,
    back_anchor: bool,
    open: Option<&Project>,
) -> (warning: String)
    ensures
        ({
            let r = match_panel::count_in(regulation@, 1, 10);
            let o = match_panel::count_in(overtime@, 0, 10);
            if r is Some && o is Some && open is Some {
                let over = match_panel::past_the_cap(
                    match_panel::start_stops(open->0.match_events@),
                    (r->0 + o->0) as nat,
                    back_anchor,
                );
                warning@ == match_panel::cap_text(over)
            } else {
                warning@.len() == 0
            }
        }),
{
    match (parse_periods(regulation), parse_overtime_periods(overtime), open) {
        (Some(r), Some(o), Some(project)) => over_cap_warning(project, r + o, back_anchor),
        _ => String::new(),
    }
}

// ---------------------------------------------------------------------------
// The inspector.

/// A field of the inspector.
#[derive(Debug, Clone, Copy, PartialEq, Eq, Structural)]
pub enum ClipField {
    Name,
    Tags,
    Notes,
    Transcript,
}

/// The edit that a field's text is.
pub open spec fn typed(field: ClipField, t: Seq<char>) -> EditView {
    match field {
        ClipField::Name => EditView::Name(t),
        ClipField::Tags => EditView::Tags(tag::tags_of(text::split_at(t, ','))),
        ClipField::Notes => EditView::Notes(t),
        ClipField::Transcript => EditView::Transcript(t),
    }
}

fn typed_edit(field: ClipField, t: &str) -> (edit: ClipEdit)
    ensures
        edit@ == typed(field, t@),
{
    match field {
        ClipField::Name => ClipEdit::Name(t.to_owned()),
        ClipField::Tags => ClipEdit::Tags(normalize_tags(t)),
        ClipField::Notes => ClipEdit::Notes(t.to_owned()),
        ClipField::Transcript => ClipEdit::Transcript(t.to_owned()),
    }
}

fn holds_value(clip: &Clip, edit: &ClipEdit) -> (same: bool)
    ensures
        same == (clip@.field(edit@) == edit@),
{
    match edit {
        ClipEdit::Name(t) => clip.name == *t,
        ClipEdit::Tags(tags) => text::same_texts(&clip.tags, tags),
        ClipEdit::Notes(t) => clip.notes == *t,
        ClipEdit::ShowPip(on) => clip.show_pip == *on,
        ClipEdit::Transcript(t) => clip.transcript == *t,
    }
}

/// Whether an edit of a clip changes anything: there is such a clip, and the
/// field holds another value.
pub open spec fn changes(open: Option<&Project>, id: Option<Id>, edit: EditView) -> bool {
    open is Some && id is Some && match export_run::clip_index(open->0.clips@, id->0) {
        Some(i) => open->0.clips@[i]@.field(edit) != edit,
        None => false,
    }
}

/// A field's text was committed. The command, if it will be applied; `None` if
/// the inspector shows the clip again itself, for an edit that normalizes
/// away, or one of a clip that has gone.
pub fn edit_clip(id: &str, field: ClipField, t: &str, open: Option<&Project>) -> (command:
    Option<Command>)
    ensures
        match command {
            Some(c) => {
                &&& changes(open, id::id_of(id::uuid_in(id@)), typed(field, t@))
                &&& c is EditClip
                &&& id::id_of(id::uuid_in(id@)) == Some(c->EditClip_id)
                &&& c->EditClip_edit@ == typed(field, t@)
            },
            None => !changes(open, id::id_of(id::uuid_in(id@)), typed(field, t@)),
        },
{
    let edit = typed_edit(field, t);
    let id = match parse_id(id) {
        Some(id) => id,
        None => {
            return None;
        },
    };
    let project = match open {
        Some(project) => project,
        None => {
            return None;
        },
    };
    match find_clip(&project.clips, id) {
        Some(i) => if holds_value(&project.clips[i], &edit) {
            None
        } else {
            Some(Command::EditClip { id, edit })
        },
        None => None,
    }
}

/// The model of a row of the picker, whose rows are the models in order.
pub open spec fn model_at(index: int) -> Option<WhisperModel> {
    if index == 0 {
        Some(WhisperModel::Small)
    } else if index == 1 {
        Some(WhisperModel::Base)
    } else {
        None
    }
}

/// A model was picked. While the environment names a file of its own the
/// picker is disabled and its one row stands for no choice (`overridden`).
pub fn set_transcribe_model(index: i32, overridden: bool) -> (command: Option<Command>)
    ensures
        command == match model_at(index as int) {
            Some(model) => if overridden {
                None
            } else {
                Some(Command::SetTranscribeModel(model))
            },
            None => None,
        },
{
    if overridden {
        return None;
    }
    match index {
        0 => Some(Command::SetTranscribeModel(WhisperModel::Small)),
        1 => Some(Command::SetTranscribeModel(WhisperModel::Base)),
        _ => None,
    }
}

/// A device's row was chosen: its name, or `None` for the system default,
/// whose row carries no name.
pub fn device_choice(node_name: String) -> (choice: Option<String>)
    ensures
        choice == if node_name@.len() == 0 {
            None
        } else {
            Some(node_name)
        },
{
    if node_name.as_str().is_empty() {
        None
    } else {
        Some(node_name)
    }
}

/// **The inspector sends what will be applied**: an edit it sends is applied as
/// it is and changes its clip. Of tags that takes that they are distinct, and
/// that normalizing leaves each as it is.
pub proof fn law_a_sent_edit_changes_its_clip(
    open: Option<&Project>,
    id: Id,
    edit: EditView,
)
    requires
        changes(open, Some(id), edit),
        edit matches EditView::Tags(tags) ==> {
            &&& tags.no_duplicates()
            &&& forall|i: int|
                0 <= i < tags.len() ==> (#[trigger] tags[i]).len() > 0 && tag::settled(tags[i])
        },
    ensures
        clips::tidied(edit) == edit,
        export_run::clip_index(open->0.clips@, id) is Some,
        open->0.clips@[export_run::clip_index(open->0.clips@, id)->0]@.edited(edit)
            != open->0.clips@[export_run::clip_index(open->0.clips@, id)->0]@,
{
    let clip = open->0.clips@[export_run::clip_index(open->0.clips@, id)->0]@;
    assert(clip.edited(edit).field(edit) == edit);
    if let EditView::Tags(tags) = edit {
        tag::law_joined_tags_read_back(tags);
    }
}

/// **A field's text ends up in its field**, tags cut at their commas.
pub proof fn law_a_field_s_text_ends_up_in_it(clip: crate::project::ClipView, t: Seq<char>)
    ensures
        clip.edited(typed(ClipField::Name, t)).name == t,
        clip.edited(typed(ClipField::Notes, t)).notes == t,
        clip.edited(typed(ClipField::Transcript, t)).transcript == t,
        clip.edited(typed(ClipField::Tags, t)).tags == tag::tags_of(text::split_at(t, ',')),
{
}

/// **A chosen row's event is the first with its id.**
pub proof fn law_a_row_names_its_event(
    events: Seq<crate::scoreboard_config::MatchEventRecord>,
    id: Id,
    i: int,
)
    ensures
        0 <= i < events.len() && events[i].id == id && (forall|k: int|
            0 <= k < i ==> (#[trigger] events[k]).id != id) ==> event_index(events, id) == Some(i),
        (forall|k: int| 0 <= k < events.len() ==> (#[trigger] events[k]).id != id)
            ==> event_index(events, id) is None,
    decreases events.len(),
{
    if events.len() > 0 {
        let before = events.drop_last();
        law_a_row_names_its_event(before, id, i);
        assert forall|k: int| 0 <= k < before.len() implies before[k] == #[trigger] events[k] by {}
        if forall|k: int| 0 <= k < events.len() ==> (#[trigger] events[k]).id != id {
            assert forall|k: int| 0 <= k < before.len() implies (#[trigger] before[k]).id
                != id by {
                assert(before[k] == events[k]);
            }
            assert(events[events.len() - 1].id != id);
        }
        if 0 <= i < events.len() && events[i].id == id && (forall|k: int|
            0 <= k < i ==> (#[trigger] events[k]).id != id) {
            if i < before.len() {
                assert(before[i] == events[i]);
                assert forall|k: int| 0 <= k < i implies (#[trigger] before[k]).id != id by {
                    assert(before[k] == events[k]);
                }
            } else {
                assert forall|k: int| 0 <= k < before.len() implies (#[trigger] before[k]).id
                    != id by {
                    assert(before[k] == events[k]);
                }
            }
        }
    }
}

/// **An edit is sent if it changes its clip**, and only then.
pub proof fn law_an_edit_is_sent_if_it_changes_its_clip(
    project: &Project,
    i: int,
    field: ClipField,
    t: Seq<char>,
)
    requires
        0 <= i < project.clips@.len(),
        forall|k: int|
            0 <= k < i ==> (#[trigger] project.clips@[k]).id != project.clips@[i].id,
    ensures
        ({
            let clip = project.clips@[i];
            let sent = changes(Some(project), Some(clip.id), typed(field, t));
            &&& field is Name ==> (sent <==> clip.name@ != t)
            &&& field is Notes ==> (sent <==> clip.notes@ != t)
            &&& field is Transcript ==> (sent <==> clip.transcript@ != t)
            &&& field is Tags ==> (sent <==> text::texts(clip.tags@) != tag::tags_of(
                text::split_at(t, ','),
            ))
        }),
{
    export_run::lemma_first_clip(project.clips@, project.clips@[i].id, i);
}

/// **A tag lands where the readout is**: on the source that the moment falls
/// on, as far in as the moment is.
pub proof fn law_a_tag_lands_where_the_readout_is(
    kind: MatchEventKind,
    abs: i128,
    open: &Project,
    command: Option<Command>,
    starts: Seq<int>,
    index: int,
)
    requires
        call_ensures(tag_match_event, (kind, abs, Some(open)), command),
        transport::start_at(open.source_videos@, starts),
        open.source_videos@.len() <= usize::MAX,
        0 <= abs < starts.last(),
        0 <= index < open.source_videos@.len(),
        starts[index] <= abs < starts[index + 1],
    ensures
        command == Some(
            Command::TagMatchEvent {
                kind,
                source_index: index as usize,
                source_time: (abs - starts[index]) as i64,
            },
        ),
{
    let all = open.source_videos@;
    transport::lemma_starts(all, starts, index);
    assert(all[index].duration >= 0);
    assert forall|i: int| 0 <= i < all.len() implies 0 <= #[trigger] all[i].duration by {}
    transport::law_a_moment_is_found_on_its_source(all, index, abs - starts[index]);
}

/// **A dragged row is moved to where it is dropped**, and a row that is not
/// there moves nothing.
pub proof fn law_a_dragged_row_is_moved(
    from: i32,
    to: i32,
    clip: Option<Command>,
    source: Option<Command>,
    removed: Option<Command>,
)
    requires
        call_ensures(move_clip, (from, to), clip),
        call_ensures(move_source, (from, to), source),
        call_ensures(remove_source, (from,), removed),
    ensures
        from >= 0 && to >= 0 ==> clip == Some(
            Command::MoveClip { from: from as usize, to: to as usize },
        ) && source == Some(Command::MoveSource { from: from as usize, to: to as usize }),
        from < 0 || to < 0 ==> clip is None && source is None,
        from >= 0 ==> removed == Some(Command::RemoveSource(from as usize)),
        from < 0 ==> removed is None,
{
}

/// **A row's action is its own**: what is asked of the clip or event that its
/// id names is what the action says, and a text that is no id asks nothing.
pub proof fn law_a_row_s_action_is_its_own(
    id: &str,
    on: bool,
    jump: Option<Command>,
    delete: Option<Command>,
    preview: Option<Command>,
    transcribe: Option<Command>,
    untag: Option<Command>,
    pip: Option<Command>,
)
    requires
        call_ensures(by_id, (Verb::JumpToClip, id), jump),
        call_ensures(by_id, (Verb::DeleteClip, id), delete),
        call_ensures(by_id, (Verb::OpenPreview, id), preview),
        call_ensures(by_id, (Verb::Transcribe, id), transcribe),
        call_ensures(by_id, (Verb::DeleteMatchEvent, id), untag),
        call_ensures(by_id, (Verb::ShowPip(on), id), pip),
    ensures
        id::uuid_in(id@) matches Some(bits) ==> {
            &&& jump matches Some(Command::JumpToClip(n)) && n.bits == bits
            &&& delete matches Some(Command::DeleteClip(n)) && n.bits == bits
            &&& preview matches Some(Command::OpenPreview(n)) && n.bits == bits
            &&& transcribe matches Some(Command::Transcribe { clip_id }) && clip_id.bits == bits
            &&& untag matches Some(Command::DeleteMatchEvent(n)) && n.bits == bits
            &&& pip matches Some(Command::EditClip { id: n, edit }) && n.bits == bits && edit
                == ClipEdit::ShowPip(on)
        },
        id::uuid_in(id@) is None ==> jump is None && delete is None && preview is None
            && transcribe is None && untag is None && pip is None,
{
}

} // verus!
