//! File pickers: which dialog to show, one at a time.

use vstd::prelude::*;

verus! {

/// What a picker looks for.
#[derive(Debug, Clone, Copy, PartialEq, Eq)]
pub enum Pick {
    ProjectFolder,
    /// A video file; `title` names what it's for.
    Video { title: &'static str },
}

impl Pick {
    /// Whether a folder is looked for, rather than a file.
    pub open spec fn folder(self) -> bool {
        self is ProjectFolder
    }

    /// The dialog's title.
    pub open spec fn titled(self) -> Seq<char> {
        match self {
            Pick::ProjectFolder => "Open Project Folder"@,
            Pick::Video { title } => title@,
        }
    }

    /// Whether a folder is looked for, rather than a file.
    pub fn is_folder(self) -> (folder: bool)
        ensures
            folder == self.folder(),
    {
        matches!(self, Pick::ProjectFolder)
    }

    /// The dialog's title.
    pub fn title(self) -> (title: &'static str)
        ensures
            title@ == self.titled(),
    {
        match self {
            Pick::ProjectFolder => "Open Project Folder",
            Pick::Video { title } => title,
        }
    }

    /// The file extensions offered by default; none for a folder. Both cases
    /// of each: a dialog's match may be case-sensitive, and cameras write
    /// `.MP4`.
    pub fn extensions(self) -> (extensions: Vec<&'static str>)
        ensures
            extensions@ == if self.folder() {
                seq![]
            } else {
                seq![
                    "mp4",
                    "MP4",
                    "mov",
                    "MOV",
                    "m4v",
                    "M4V",
                    "mkv",
                    "MKV",
                    "webm",
                    "WEBM",
                    "avi",
                    "AVI",
                    "mts",
                    "MTS",
                ]
            },
    {
        match self {
            Pick::ProjectFolder => Vec::new(),
            Pick::Video { .. } => {
                let mut extensions: Vec<&'static str> = Vec::new();
                extensions.push("mp4");
                extensions.push("MP4");
                extensions.push("mov");
                extensions.push("MOV");
                extensions.push("m4v");
                extensions.push("M4V");
                extensions.push("mkv");
                extensions.push("MKV");
                extensions.push("webm");
                extensions.push("WEBM");
                extensions.push("avi");
                extensions.push("AVI");
                extensions.push("mts");
                extensions.push("MTS");
                extensions
            },
        }
    }
}

/// Opens one picker at a time.
#[derive(Debug, PartialEq, Eq)]
pub struct Pickers {
    /// A picker is up: further requests are ignored rather than stacked.
    busy: bool,
}

impl View for Pickers {
    type V = bool;

    /// Whether a picker is up.
    closed spec fn view(&self) -> bool {
        self.busy
    }
}

impl Default for Pickers {
    fn default() -> (pickers: Pickers)
        ensures
            !pickers@,
    {
        Pickers { busy: false }
    }
}

impl Pickers {
    /// Asks for a picker: whether to show it. It is refused while one is up.
    pub fn open(&mut self) -> (show: bool)
        ensures
            show == !old(self)@,
            final(self)@,
    {
        if self.busy {
            return false;
        }
        self.busy = true;
        true
    }

    /// The picker closed, with a choice or without one, or could not be shown.
    pub fn closed(&mut self)
        ensures
            !final(self)@,
    {
        self.busy = false;
    }
}

} // verus!
