//! The failures and notices the user is told about.

use vstd::prelude::*;

use crate::store::StoreError;
use crate::text;

verus! {

/// A failure the user is told about.
#[derive(Debug, PartialEq, Eq)]
pub enum UserError {
    /// A video's shape differs from the project's other videos. Aspect ratios
    /// are in thousandths.
    AspectMismatch { existing: u64, attempted: u64 },
    /// A chosen source file was refused.
    Source(String),
    /// The player failed on a source it had accepted.
    Playback(String),
    UnreadableProject(String),
    LegacyProject { found: u32 },
    TooNewProject { found: u32 },
    SourceReferenced { index: usize },
    /// Recording is refused: the project isn't ready for it.
    CantRecord(String),
    NoCamera,
    RecordingFailed(String),
    /// A notice: the chosen device is absent, and the recording goes ahead on
    /// the default one.
    DeviceFallback { what: String },
    /// A notice: the recording didn't finalize cleanly. The clip was kept.
    StopNotClean,
    /// Export is refused: there's nothing, or no way, to export yet.
    CantExport(String),
    /// Preview is refused, or the one running gave up.
    CantPreview(String),
    /// A notice: a match command is refused out loud.
    Scoreboard(String),
    Io(String),
}

/// Whether an error refuses an export for this reason.
pub open spec fn refuses_export(error: UserError, why: Seq<char>) -> bool {
    error matches UserError::CantExport(said) && said@ == why
}

/// Whether an error is what the user is told of a project that could not be
/// read or written.
pub open spec fn tells_of(error: UserError, e: StoreError) -> bool {
    match e {
        StoreError::LegacyProject { found, .. } => error == (UserError::LegacyProject { found }),
        StoreError::TooNew { found, .. } => error == (UserError::TooNewProject { found }),
        StoreError::Malformed(why) => error == UserError::UnreadableProject(why),
        StoreError::MissingProjectJson(_) => error matches UserError::UnreadableProject(why)
            && why@ == e@.sentence(),
        StoreError::NotSerializable(why) => error == UserError::Io(why),
        StoreError::Io(why) => error == UserError::Io(why),
    }
}

/// Whether an error refuses a preview for this reason.
pub open spec fn refuses_preview(error: UserError, why: Seq<char>) -> bool {
    error matches UserError::CantPreview(said) && said@ == why
}

/// A ratio in thousandths, written with three decimals.
pub open spec fn ratio_text(thousandths: nat) -> Seq<char> {
    let rest = thousandths % 1000;
    text::decimal(thousandths / 1000) + "."@ + text::decimal(rest / 100) + text::decimal(
        rest / 10 % 10,
    ) + text::decimal(rest % 10)
}

fn push_ratio(out: &mut String, thousandths: u64)
    ensures
        final(out)@ == old(out)@ + ratio_text(thousandths as nat),
{
    let rest: u64 = thousandths % 1000;
    text::push_decimal(out, thousandths / 1000);
    out.append(".");
    text::push_decimal(out, rest / 100);
    text::push_decimal(out, rest / 10 % 10);
    text::push_decimal(out, rest % 10);
    assert(out@ =~= old(out)@ + ratio_text(thousandths as nat));
}

impl UserError {
    /// The sentence shown to the user.
    pub open spec fn sentence(self) -> Seq<char> {
        match self {
            UserError::AspectMismatch { existing, attempted } => "the video's shape ("@
                + ratio_text(attempted as nat)
                + ":1) doesn't match the project's other videos ("@ + ratio_text(existing as nat)
                + ":1)"@,
            UserError::Source(why) => why@,
            UserError::Playback(why) => "playback failed: "@ + why@,
            UserError::UnreadableProject(why) => "the project file is unreadable: "@ + why@,
            UserError::LegacyProject { found } =>
                "this project was created by the macOS version of Coach Cuts (format v"@
                    + text::decimal(found as nat) + ") and cannot be opened"@,
            UserError::TooNewProject { found } =>
                "this project was made by a newer version of Coach Cuts (format v"@
                    + text::decimal(found as nat) + ")"@,
            UserError::SourceReferenced { .. } =>
                "that video is still used by a clip or match event; delete those first"@,
            UserError::CantRecord(why) => "can't record: "@ + why@,
            UserError::NoCamera => "no camera with a 16:9, 30 fps mode up to 1280 wide was found"@,
            UserError::RecordingFailed(why) => "recording failed: "@ + why@,
            UserError::DeviceFallback { what } => "the chosen "@ + what@
                + " isn't connected, so the default one is recording"@,
            UserError::StopNotClean =>
                "the recording didn't finish cleanly; its clip was kept, but its end may be cut short"@,
            UserError::CantExport(why) => "can't export: "@ + why@,
            UserError::CantPreview(why) => "can't preview: "@ + why@,
            UserError::Scoreboard(why) => why@,
            UserError::Io(why) => why@,
        }
    }

    /// Whether the user should know it but need not answer.
    pub open spec fn notice(self) -> bool {
        self is DeviceFallback || self is StopNotClean || self is Scoreboard
    }

    /// Something the user should know that needs no answer: it is shown
    /// without blocking, since it can arrive mid-recording.
    pub fn is_notice(&self) -> (notice: bool)
        ensures
            notice == self.notice(),
    {
        match self {
            UserError::DeviceFallback { .. } | UserError::StopNotClean | UserError::Scoreboard(
                _,
            ) => true,
            _ => false,
        }
    }

    /// The sentence shown to the user.
    pub fn message(&self) -> (message: String)
        ensures
            message@ == self.sentence(),
    {
        let mut out = String::new();
        match self {
            UserError::AspectMismatch { existing, attempted } => {
                out.append("the video's shape (");
                push_ratio(&mut out, *attempted);
                out.append(":1) doesn't match the project's other videos (");
                push_ratio(&mut out, *existing);
                out.append(":1)");
            },
            UserError::Source(why) => {
                out.append(why.as_str());
            },
            UserError::Playback(why) => {
                out.append("playback failed: ");
                out.append(why.as_str());
            },
            UserError::UnreadableProject(why) => {
                out.append("the project file is unreadable: ");
                out.append(why.as_str());
            },
            UserError::LegacyProject { found } => {
                out.append("this project was created by the macOS version of Coach Cuts (format v");
                text::push_decimal(&mut out, *found as u64);
                out.append(") and cannot be opened");
            },
            UserError::TooNewProject { found } => {
                out.append("this project was made by a newer version of Coach Cuts (format v");
                text::push_decimal(&mut out, *found as u64);
                out.append(")");
            },
            UserError::SourceReferenced { .. } => {
                out.append("that video is still used by a clip or match event; delete those first");
            },
            UserError::CantRecord(why) => {
                out.append("can't record: ");
                out.append(why.as_str());
            },
            UserError::NoCamera => {
                out.append("no camera with a 16:9, 30 fps mode up to 1280 wide was found");
            },
            UserError::RecordingFailed(why) => {
                out.append("recording failed: ");
                out.append(why.as_str());
            },
            UserError::DeviceFallback { what } => {
                out.append("the chosen ");
                out.append(what.as_str());
                out.append(" isn't connected, so the default one is recording");
            },
            UserError::StopNotClean => {
                out.append(
                    "the recording didn't finish cleanly; its clip was kept, but its end may be cut short",
                );
            },
            UserError::CantExport(why) => {
                out.append("can't export: ");
                out.append(why.as_str());
            },
            UserError::CantPreview(why) => {
                out.append("can't preview: ");
                out.append(why.as_str());
            },
            UserError::Scoreboard(why) => {
                out.append(why.as_str());
            },
            UserError::Io(why) => {
                out.append(why.as_str());
            },
        }
        assert(out@ =~= self.sentence());
        out
    }

    /// What the user is told of a project that could not be read or written.
    pub fn from_store(e: StoreError) -> (error: UserError)
        ensures
            tells_of(error, e),
    {
        if let StoreError::MissingProjectJson(_) = e {
            return UserError::UnreadableProject(e.message());
        }
        match e {
            StoreError::LegacyProject { found, .. } => UserError::LegacyProject { found },
            StoreError::TooNew { found, .. } => UserError::TooNewProject { found },
            StoreError::Malformed(why) => UserError::UnreadableProject(why),
            StoreError::MissingProjectJson(why) => UserError::UnreadableProject(why),
            StoreError::NotSerializable(why) => UserError::Io(why),
            StoreError::Io(why) => UserError::Io(why),
        }
    }

    /// A refusal to export.
    pub fn cant_export(why: &str) -> (error: UserError)
        ensures
            refuses_export(error, why@),
    {
        UserError::CantExport(why.to_owned())
    }

    /// A refusal to preview.
    pub fn cant_preview(why: &str) -> (error: UserError)
        ensures
            refuses_preview(error, why@),
    {
        UserError::CantPreview(why.to_owned())
    }
}

} // verus!
