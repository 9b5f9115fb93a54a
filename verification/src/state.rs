//! The app's own state file, `$XDG_CONFIG_HOME/coach-cuts/state.json`: the last
//! successfully opened project folder and which speech model transcription
//! runs. **Neither is a project's**: the model describes how fast this machine
//! is, not the match.
//!
//! Losing this file only costs the user a re-open and a re-pick.

use vstd::prelude::*;

use crate::sources;
use crate::sources::is_absolute;
use crate::text;

verus! {

/// The app's own directory under whichever XDG base directory is in play.
pub const APP_DIR: &'static str = "coach-cuts";

/// The state file's name in that directory.
pub const STATE_FILENAME: &'static str = "state.json";

// ---------------------------------------------------------------------------
// Directories.

/// `part` inside the folder `dir`.
pub open spec fn inside_dir(dir: Seq<char>, part: Seq<char>) -> Seq<char> {
    if dir.len() == 0 || dir.last() == '/' {
        dir + part
    } else {
        dir + "/"@ + part
    }
}

/// `part` inside the folder `dir`. `part` is a relative path.
pub fn join_path(dir: &str, part: &str) -> (path: String)
    ensures
        path@ == inside_dir(dir@, part@),
{
    let chars = text::chars_of(dir);
    let mut path = dir.to_owned();
    if chars.len() > 0 && chars[chars.len() - 1] != '/' {
        path.append("/");
    }
    path.append(part);
    assert(path@ =~= inside_dir(dir@, part@));
    path
}

/// The XDG base-directory rule: the variable if it holds an absolute path,
/// else `fallback` in the home directory.
pub open spec fn base_of(
    xdg: Option<Seq<char>>,
    home: Option<Seq<char>>,
    fallback: Seq<char>,
) -> Option<Seq<char>> {
    if xdg is Some && sources::absolute(xdg->0) {
        xdg
    } else if home is Some && sources::absolute(home->0) {
        Some(inside_dir(home->0, fallback))
    } else {
        None
    }
}

/// What an environment variable holds.
pub open spec fn held(variable: Option<&str>) -> Option<Seq<char>> {
    match variable {
        Some(v) => Some(v@),
        None => None,
    }
}

/// What an optional text holds.
pub open spec fn held_text(t: Option<String>) -> Option<Seq<char>> {
    match t {
        Some(v) => Some(v@),
        None => None,
    }
}

fn base_dir(xdg: Option<&str>, home: Option<&str>, fallback: &str) -> (dir: Option<String>)
    ensures
        held_text(dir) == base_of(held(xdg), held(home), fallback@),
{
    match xdg {
        Some(path) => if is_absolute(path) {
            return Some(path.to_owned());
        },
        None => {},
    }
    match home {
        Some(path) => if is_absolute(path) {
            Some(join_path(path, fallback))
        } else {
            None
        },
        None => None,
    }
}

/// `$XDG_CONFIG_HOME`, else `~/.config`: where the state file lives.
pub fn config_dir(xdg: Option<&str>, home: Option<&str>) -> (dir: Option<String>)
    ensures
        held_text(dir) == base_of(held(xdg), held(home), ".config"@),
{
    base_dir(xdg, home, ".config")
}

/// `$XDG_CACHE_HOME`, else `~/.cache`: where the speech models are looked for.
/// Hundreds of megabytes of downloaded weights are a cache, not configuration.
pub fn cache_dir(xdg: Option<&str>, home: Option<&str>) -> (dir: Option<String>)
    ensures
        held_text(dir) == base_of(held(xdg), held(home), ".cache"@),
{
    base_dir(xdg, home, ".cache")
}

/// The directory under the app's cache that holds the speech models.
pub const MODELS_DIRNAME: &'static str = "models";

/// The default speech model's file.
pub const MODEL_FILE: &'static str = "ggml-small.en.bin";

/// Where the speech model is read from: the file the environment names, if it
/// names one, else the default model in the app's cache. With no cache
/// directory at all a bare file name is still a path for a failure to name.
pub fn whisper_model_path(
    named: Option<&str>,
    xdg_cache_home: Option<&str>,
    home: Option<&str>,
) -> (path: String)
    ensures
        path@ == if named is Some && named->0@.len() > 0 {
            named->0@
        } else {
            match base_of(held(xdg_cache_home), held(home), ".cache"@) {
                Some(dir) => inside_dir(
                    inside_dir(inside_dir(dir, APP_DIR@), MODELS_DIRNAME@),
                    MODEL_FILE@,
                ),
                None => MODEL_FILE@,
            }
        },
{
    if let Some(path) = named {
        if !path.is_empty() {
            return path.to_owned();
        }
    }
    match cache_dir(xdg_cache_home, home) {
        Some(dir) => {
            let app = join_path(dir.as_str(), APP_DIR);
            let models = join_path(app.as_str(), MODELS_DIRNAME);
            join_path(models.as_str(), MODEL_FILE)
        },
        None => MODEL_FILE.to_owned(),
    }
}

// ---------------------------------------------------------------------------
// The speech models.

/// A speech model transcription can run.
#[derive(Debug, Clone, Copy, PartialEq, Eq, Structural)]
pub enum WhisperModel {
    /// The default, more accurate.
    Small,
    /// Faster.
    Base,
}

impl Default for WhisperModel {
    fn default() -> (model: WhisperModel)
        ensures
            model == WhisperModel::Small,
    {
        WhisperModel::Small
    }
}

impl WhisperModel {
    /// What the picker and the state file call a model.
    pub open spec fn named(self) -> Seq<char> {
        match self {
            WhisperModel::Small => "small.en"@,
            WhisperModel::Base => "base.en"@,
        }
    }

    /// The model a label names, if any.
    pub open spec fn labelled(label: Seq<char>) -> Option<WhisperModel> {
        if label == "small.en"@ {
            Some(WhisperModel::Small)
        } else if label == "base.en"@ {
            Some(WhisperModel::Base)
        } else {
            None
        }
    }

    /// What the picker and the state file call this model.
    pub fn label(self) -> (label: String)
        ensures
            label@ == self.named(),
    {
        match self {
            WhisperModel::Small => "small.en".to_owned(),
            WhisperModel::Base => "base.en".to_owned(),
        }
    }

    /// The file a model is kept in.
    pub open spec fn file(self) -> Seq<char> {
        match self {
            WhisperModel::Small => "ggml-small.en.bin"@,
            WhisperModel::Base => "ggml-base.en.bin"@,
        }
    }

    /// The model that is kept in a file of this name, if any.
    pub fn from_file_name(file: &str) -> (model: Option<WhisperModel>)
        ensures
            model == if file@ == WhisperModel::Small.file() {
                Some(WhisperModel::Small)
            } else if file@ == WhisperModel::Base.file() {
                Some(WhisperModel::Base)
            } else {
                None
            },
    {
        let file = file.to_owned();
        if file == "ggml-small.en.bin".to_owned() {
            Some(WhisperModel::Small)
        } else if file == "ggml-base.en.bin".to_owned() {
            Some(WhisperModel::Base)
        } else {
            None
        }
    }

    /// The model a label names, if any.
    pub fn from_label(label: &String) -> (model: Option<WhisperModel>)
        ensures
            model == WhisperModel::labelled(label@),
    {
        if *label == "small.en".to_owned() {
            Some(WhisperModel::Small)
        } else if *label == "base.en".to_owned() {
            Some(WhisperModel::Base)
        } else {
            None
        }
    }
}

/// **A label names its model**, and two models never share one.
pub proof fn law_a_label_names_its_model(model: WhisperModel)
    ensures
        WhisperModel::labelled(model.named()) == Some(model),
{
    reveal_strlit("small.en");
    reveal_strlit("base.en");
    assert("small.en"@.len() != "base.en"@.len());
}

// ---------------------------------------------------------------------------
// The document.

/// What the state file remembers. Every field defaults.
#[derive(Debug, PartialEq, Eq)]
pub struct State {
    pub last_project: Option<String>,
    /// A model's label, not the model: the file is hand-readable, and a label
    /// this version doesn't know reads as the default rather than throwing the
    /// whole document away.
    pub whisper_model: Option<String>,
}

impl Default for State {
    fn default() -> (state: State)
        ensures
            state.last_project is None,
            state.whisper_model is None,
    {
        State { last_project: None, whisper_model: None }
    }
}

/// What a [`State`] holds, as mathematical values.
#[verifier::ext_equal]
pub struct Remembered {
    pub last_project: Option<Seq<char>>,
    pub whisper_model: Option<Seq<char>>,
}

impl View for State {
    type V = Remembered;

    open spec fn view(&self) -> Remembered {
        Remembered {
            last_project: held_text(self.last_project),
            whisper_model: held_text(self.whisper_model),
        }
    }
}

impl Remembered {
    /// Nothing remembered.
    pub open spec fn nothing() -> Remembered {
        Remembered { last_project: None, whisper_model: None }
    }

    /// After a project was opened, or forgotten.
    pub open spec fn opened(self, folder: Option<Seq<char>>) -> Remembered {
        Remembered { last_project: folder, ..self }
    }

    /// After a model was picked.
    pub open spec fn picked(self, model: WhisperModel) -> Remembered {
        Remembered { whisper_model: Some(model.named()), ..self }
    }

    /// The model transcription runs: the default where the document doesn't
    /// say, or says something this version doesn't know.
    pub open spec fn model(self) -> WhisperModel {
        match self.whisper_model {
            Some(label) => match WhisperModel::labelled(label) {
                Some(model) => model,
                None => WhisperModel::Small,
            },
            None => WhisperModel::Small,
        }
    }
}

/// The state file: where it lives, and what it holds. It lives nowhere when
/// there is no config directory at all, in which case nothing is remembered
/// beyond this process.
#[derive(Debug, PartialEq, Eq)]
pub struct StateFile {
    path: Option<String>,
    state: State,
}

impl View for StateFile {
    type V = Remembered;

    closed spec fn view(&self) -> Remembered {
        self.state@
    }
}

impl StateFile {
    /// Where the file lives.
    pub closed spec fn location(&self) -> Option<Seq<char>> {
        held_text(self.path)
    }

    /// `$XDG_CONFIG_HOME/coach-cuts/state.json`, falling back to
    /// `~/.config/coach-cuts/state.json`. The two variables are arguments, and
    /// nothing is read yet.
    pub fn default_location(xdg_config_home: Option<&str>, home: Option<&str>) -> (file: StateFile)
        ensures
            file.location() == match base_of(held(xdg_config_home), held(home), ".config"@) {
                Some(dir) => Some(inside_dir(inside_dir(dir, APP_DIR@), STATE_FILENAME@)),
                None => None,
            },
            file@ == Remembered::nothing(),
    {
        match config_dir(xdg_config_home, home) {
            Some(dir) => StateFile::in_config_dir(dir.as_str()),
            None => StateFile { path: None, state: State::default() },
        }
    }

    /// The state file under `config_dir`, not read yet.
    pub fn in_config_dir(config_dir: &str) -> (file: StateFile)
        ensures
            file.location() == Some(
                inside_dir(inside_dir(config_dir@, APP_DIR@), STATE_FILENAME@),
            ),
            file@ == Remembered::nothing(),
    {
        let dir = join_path(config_dir, APP_DIR);
        StateFile {
            path: Some(join_path(dir.as_str(), STATE_FILENAME)),
            state: State::default(),
        }
    }

    /// Where the file lives, if anywhere.
    pub fn path(&self) -> (path: Option<&String>)
        ensures
            match path {
                Some(p) => self.location() == Some(p@),
                None => self.location() is None,
            },
    {
        match &self.path {
            Some(p) => Some(p),
            None => None,
        }
    }

    /// Takes over what was read from the file: **every write reads first**, so
    /// a field one setter doesn't know about survives the other's write. A
    /// file that is absent or unreadable (`None`) reads as nothing remembered.
    pub fn read(&mut self, document: Option<State>)
        ensures
            final(self)@ == match document {
                Some(state) => state@,
                None => Remembered::nothing(),
            },
            final(self).location() == old(self).location(),
    {
        self.state = match document {
            Some(state) => state,
            None => State::default(),
        };
    }

    /// The document to write.
    pub fn document(&self) -> (state: &State)
        ensures
            state@ == self@,
    {
        &self.state
    }

    /// The remembered project folder, if any.
    pub fn last_project(&self) -> (folder: Option<&String>)
        ensures
            match folder {
                Some(f) => self@.last_project == Some(f@),
                None => self@.last_project is None,
            },
    {
        match &self.state.last_project {
            Some(f) => Some(f),
            None => None,
        }
    }

    /// Remembers `folder`, or forgets the last project with `None`.
    pub fn set_last_project(&mut self, folder: Option<&str>)
        ensures
            final(self)@ == old(self)@.opened(held(folder)),
            final(self).location() == old(self).location(),
    {
        self.state.last_project = match folder {
            Some(f) => Some(f.to_owned()),
            None => None,
        };
    }

    /// Which speech model transcription runs. A file that doesn't say, or says
    /// something this version doesn't know, reads as the default.
    pub fn whisper_model(&self) -> (model: WhisperModel)
        ensures
            model == self@.model(),
    {
        match &self.state.whisper_model {
            Some(label) => match WhisperModel::from_label(label) {
                Some(model) => model,
                None => WhisperModel::default(),
            },
            None => WhisperModel::default(),
        }
    }

    /// Remembers `model` for every project on this machine.
    pub fn set_whisper_model(&mut self, model: WhisperModel)
        ensures
            final(self)@ == old(self)@.picked(model),
            final(self).location() == old(self).location(),
    {
        self.state.whisper_model = Some(model.label());
    }
}

/// **Neither setting clobbers the other**: picking a model forgets no project,
/// and opening a project forgets no model.
pub proof fn law_the_settings_are_independent(
    remembered: Remembered,
    folder: Option<Seq<char>>,
    model: WhisperModel,
)
    ensures
        remembered.picked(model).last_project == remembered.last_project,
        remembered.opened(folder).model() == remembered.model(),
        remembered.picked(model).model() == model,
        remembered.opened(folder).last_project == folder,
        remembered.picked(model).opened(folder) == remembered.opened(folder).picked(model),
{
    law_a_label_names_its_model(model);
}

/// **A base directory is the variable's, or the fallback at home**: the
/// variable counts where it holds an absolute path, and home where it does.
pub proof fn law_a_base_directory_is_the_variable_s(
    xdg: Option<Seq<char>>,
    home: Seq<char>,
    fallback: Seq<char>,
)
    requires
        home.len() > 0 && home[0] == '/' && home.last() != '/',
    ensures
        xdg matches Some(dir) && dir.len() > 0 && dir[0] == '/' ==> base_of(
            xdg,
            Some(home),
            fallback,
        ) == xdg && base_of(xdg, None, fallback) == xdg,
        xdg is None || !(xdg->0.len() > 0 && xdg->0[0] == '/') ==> base_of(
            xdg,
            Some(home),
            fallback,
        ) == Some(home + "/"@ + fallback) && base_of(xdg, None, fallback) is None,
{
}

} // verus!
