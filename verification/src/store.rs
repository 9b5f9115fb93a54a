//! What may be opened as a project, and what is said of what may not.
//!
//! The version guard runs against the **raw JSON**, before it is read into a
//! project, so a file of an older lineage produces a clear error rather than a
//! confusing field-level one.

use vstd::prelude::*;

use crate::project::{Project, CURRENT_FORMAT_VERSION};
use crate::text;

verus! {

// ---------------------------------------------------------------------------
// JSON documents.

/// A JSON document, as `serde_json` holds it.
#[verifier::external_type_specification]
#[verifier::external_body]
pub struct ExValue(serde_json::Value);

/// What `serde_json::from_str` makes of a text: the document, or the message
/// of its error.
pub uninterp spec fn json_in(text: Seq<char>) -> Result<serde_json::Value, Seq<char>>;

/// Whether a document's root is an object, as `serde_json::Value::is_object`
/// says.
pub uninterp spec fn json_is_object(value: serde_json::Value) -> bool;

/// A field of an object, as `serde_json::Value::get` finds it.
pub uninterp spec fn json_field(value: serde_json::Value, key: Seq<char>) -> Option<
    serde_json::Value,
>;

/// A document as an unsigned integer, as `serde_json::Value::as_u64` reads it.
pub uninterp spec fn json_u64(value: serde_json::Value) -> Option<u64>;

/// The decimal text of a document's `serde_json::Value::as_f64`.
pub uninterp spec fn json_float(value: serde_json::Value) -> Option<Seq<char>>;

/// A document's own text, as its `Display` writes it.
pub uninterp spec fn json_text(value: serde_json::Value) -> Seq<char>;

/// `serde_json::from_str`: reads a JSON document, or says why the text is
/// none. Which texts are JSON is left unsaid.
#[verifier::external_body]
fn parse_json(text: &str) -> (document: Result<serde_json::Value, String>)
    ensures
        match document {
            Ok(value) => json_in(text@) == Ok::<serde_json::Value, Seq<char>>(value),
            Err(message) => json_in(text@) == Err::<serde_json::Value, Seq<char>>(message@),
        },
{
    match serde_json::from_str(text) {
        Ok(value) => Ok(value),
        Err(e) => Err(e.to_string()),
    }
}

/// `serde_json::Value::is_object`.
pub assume_specification[ serde_json::Value::is_object ](value: &serde_json::Value) -> (object:
    bool)
    ensures
        object == json_is_object(*value),
;

/// `serde_json::Value::get` by a key: a field of an object. Nothing but an
/// object has one.
#[verifier::external_body]
fn get_field<'a>(value: &'a serde_json::Value, key: &str) -> (field: Option<&'a serde_json::Value>)
    ensures
        match field {
            Some(found) => json_field(*value, key@) == Some(*found),
            None => json_field(*value, key@) is None,
        },
        field is Some ==> json_is_object(*value),
{
    value.get(key)
}

/// `serde_json::Value::as_u64`.
pub assume_specification[ serde_json::Value::as_u64 ](value: &serde_json::Value) -> (n: Option<
    u64,
>)
    ensures
        n == json_u64(*value),
;

/// `serde_json::Value::as_f64`, written out in decimal by its `Display`.
#[verifier::external_body]
fn float_text(value: &serde_json::Value) -> (written: Option<String>)
    ensures
        match written {
            Some(t) => json_float(*value) == Some(t@),
            None => json_float(*value) is None,
        },
{
    match value.as_f64() {
        Some(f) => Some(f.to_string()),
        None => None,
    }
}

/// The `Display` of a `serde_json::Value`.
#[verifier::external_body]
fn document_text(value: &serde_json::Value) -> (written: String)
    ensures
        written@ == json_text(*value),
{
    value.to_string()
}

/// `serde_json::Map::insert` of a number into an object: the field then reads
/// as that number, and every other field is as it was.
#[verifier::external_body]
fn set_number_field(value: &mut serde_json::Value, key: &str, n: u32)
    requires
        json_is_object(*old(value)),
    ensures
        json_is_object(*final(value)),
        json_field(*final(value), key@) is Some,
        json_u64(json_field(*final(value), key@)->0) == Some(n as u64),
        forall|other: Seq<char>|
            other != key@ ==> json_field(*final(value), other) == json_field(*old(value), other),
{
    if let Some(fields) = value.as_object_mut() {
        fields.insert(key.to_string(), serde_json::Value::from(n));
    }
}

// ---------------------------------------------------------------------------
// Errors.

/// The file that makes a folder a project.
pub const PROJECT_FILENAME: &'static str = "project.json";

/// The directory of a project's commentary recordings.
pub const RECORDINGS_DIRNAME: &'static str = "recordings";

/// Why a project was not read or written.
#[derive(Debug, PartialEq, Eq)]
pub enum StoreError {
    /// No `project.json` in the folder: a case of its own, since "empty folder,
    /// create a project" and "unreadable file, refuse and do not overwrite" are
    /// told apart by it.
    MissingProjectJson(String),
    /// Written by an older lineage.
    LegacyProject { found: u32, minimum: u32 },
    /// Written by a later version.
    TooNew { found: u32, supported: u32 },
    /// Unreadable.
    Malformed(String),
    /// Could not be written out.
    NotSerializable(String),
    /// The file system's own words.
    Io(String),
}

/// What a [`StoreError`] says, as mathematical values.
pub enum StoreErrorView {
    MissingProjectJson(Seq<char>),
    LegacyProject { found: u32, minimum: u32 },
    TooNew { found: u32, supported: u32 },
    Malformed(Seq<char>),
    NotSerializable(Seq<char>),
    Io(Seq<char>),
}

impl View for StoreError {
    type V = StoreErrorView;

    open spec fn view(&self) -> StoreErrorView {
        match *self {
            StoreError::MissingProjectJson(folder) => StoreErrorView::MissingProjectJson(folder@),
            StoreError::LegacyProject { found, minimum } => StoreErrorView::LegacyProject {
                found,
                minimum,
            },
            StoreError::TooNew { found, supported } => StoreErrorView::TooNew { found, supported },
            StoreError::Malformed(why) => StoreErrorView::Malformed(why@),
            StoreError::NotSerializable(why) => StoreErrorView::NotSerializable(why@),
            StoreError::Io(why) => StoreErrorView::Io(why@),
        }
    }
}

impl StoreErrorView {
    /// The sentence shown to the user.
    pub open spec fn sentence(self) -> Seq<char> {
        match self {
            StoreErrorView::MissingProjectJson(folder) => "no project.json in "@ + folder,
            StoreErrorView::LegacyProject { found, minimum } =>
                "this project was created by the macOS version of Coach Cuts (format v"@
                    + text::decimal(found as nat) + ") and cannot be opened; v"@ + text::decimal(
                    minimum as nat,
                ) + " or later is required"@,
            StoreErrorView::TooNew { found, supported } => "project format v"@ + text::decimal(
                found as nat,
            ) + " is newer than this build supports (v"@ + text::decimal(supported as nat)
                + ")"@,
            StoreErrorView::Malformed(why) => "project.json is unreadable: "@ + why,
            StoreErrorView::NotSerializable(why) => "could not write project.json: "@ + why,
            StoreErrorView::Io(why) => why,
        }
    }
}

impl StoreError {
    /// The sentence shown to the user.
    pub fn message(&self) -> (message: String)
        ensures
            message@ == self@.sentence(),
    {
        let mut out = String::new();
        match self {
            StoreError::MissingProjectJson(folder) => {
                out.append("no project.json in ");
                out.append(folder.as_str());
            },
            StoreError::LegacyProject { found, minimum } => {
                out.append("this project was created by the macOS version of Coach Cuts (format v");
                text::push_decimal(&mut out, *found as u64);
                out.append(") and cannot be opened; v");
                text::push_decimal(&mut out, *minimum as u64);
                out.append(" or later is required");
            },
            StoreError::TooNew { found, supported } => {
                out.append("project format v");
                text::push_decimal(&mut out, *found as u64);
                out.append(" is newer than this build supports (v");
                text::push_decimal(&mut out, *supported as u64);
                out.append(")");
            },
            StoreError::Malformed(why) => {
                out.append("project.json is unreadable: ");
                out.append(why.as_str());
            },
            StoreError::NotSerializable(why) => {
                out.append("could not write project.json: ");
                out.append(why.as_str());
            },
            StoreError::Io(why) => {
                out.append(why.as_str());
            },
        }
        assert(out@ =~= self@.sentence());
        out
    }
}

// ---------------------------------------------------------------------------
// The version guard.

/// How a `formatVersion` field reads.
#[derive(Debug, PartialEq, Eq)]
pub enum VersionField {
    Absent,
    /// An unsigned integer.
    Integer(u64),
    /// Any other number, written out in decimal.
    Float(String),
    /// Not a number: the field's own text.
    Other(String),
}

/// How a `formatVersion` field reads, as mathematical values.
pub enum VersionFieldView {
    Absent,
    Integer(u64),
    Float(Seq<char>),
    Other(Seq<char>),
}

impl View for VersionField {
    type V = VersionFieldView;

    open spec fn view(&self) -> VersionFieldView {
        match *self {
            VersionField::Absent => VersionFieldView::Absent,
            VersionField::Integer(n) => VersionFieldView::Integer(n),
            VersionField::Float(t) => VersionFieldView::Float(t@),
            VersionField::Other(t) => VersionFieldView::Other(t@),
        }
    }
}

/// How a document's `formatVersion` field reads.
pub open spec fn version_field(value: serde_json::Value) -> VersionFieldView {
    match json_field(value, "formatVersion"@) {
        None => VersionFieldView::Absent,
        Some(field) => match json_u64(field) {
            Some(n) => VersionFieldView::Integer(n),
            None => match json_float(field) {
                Some(t) => VersionFieldView::Float(t),
                None => VersionFieldView::Other(json_text(field)),
            },
        },
    }
}

/// The whole number a float's decimal text writes, if it writes one: a whole
/// float is written without a point, and negative zero as `-0`.
pub open spec fn whole(t: Seq<char>) -> Option<nat> {
    if t == seq!['-', '0'] {
        Some(0)
    } else if t.len() > 0 && text::all_digits(t) {
        Some(text::digits_value(t))
    } else {
        None
    }
}

/// The format version a field states. An absent one is version 1; an integral
/// float such as `7.0` counts, since plenty of writers spell integers so; any
/// other value is refused for what it is.
pub open spec fn stated_version(field: VersionFieldView) -> Result<u32, StoreErrorView> {
    match field {
        VersionFieldView::Absent => Ok(1),
        VersionFieldView::Integer(n) => if n <= u32::MAX {
            Ok(n as u32)
        } else {
            Err(
                StoreErrorView::Malformed(
                    "formatVersion out of range: "@ + text::decimal(n as nat),
                ),
            )
        },
        VersionFieldView::Float(t) => if whole(t) is Some && whole(t)->0 <= u32::MAX {
            Ok(whole(t)->0 as u32)
        } else {
            Err(StoreErrorView::Malformed("formatVersion is not an integer: "@ + t))
        },
        VersionFieldView::Other(t) => Err(
            StoreErrorView::Malformed("formatVersion is not a number: "@ + t),
        ),
    }
}

/// Whether a stated version may be opened.
pub open spec fn admitted(stated: Result<u32, StoreErrorView>) -> Result<u32, StoreErrorView> {
    match stated {
        Err(e) => Err(e),
        Ok(found) => if found < CURRENT_FORMAT_VERSION {
            Err(StoreErrorView::LegacyProject { found, minimum: CURRENT_FORMAT_VERSION })
        } else if found > CURRENT_FORMAT_VERSION {
            Err(StoreErrorView::TooNew { found, supported: CURRENT_FORMAT_VERSION })
        } else {
            Ok(found)
        },
    }
}

/// The number a float's text writes, if it is whole and a `u32` holds it.
fn whole_u32(t: &str) -> (n: Option<u32>)
    ensures
        match n {
            Some(v) => whole(t@) == Some(v as nat),
            None => whole(t@) is None || whole(t@)->0 > u32::MAX,
        },
{
    let chars = text::chars_of(t);
    if chars.len() == 2 && chars[0] == '-' && chars[1] == '0' {
        assert(t@ =~= seq!['-', '0']);
        return Some(0);
    }
    if chars.len() == 0 {
        return None;
    }
    if chars[0] == '+' {
        assert(!text::is_digit(t@[0]));
        return None;
    }
    proof {
        assert(t@.skip(0) =~= t@);
    }
    text::parse_u32(t)
}

/// The format version a field states.
pub fn format_version_of(field: &VersionField) -> (version: Result<u32, StoreError>)
    ensures
        match version {
            Ok(v) => stated_version(field@) == Ok::<u32, StoreErrorView>(v),
            Err(e) => stated_version(field@) == Err::<u32, StoreErrorView>(e@),
        },
{
    let mut why = String::new();
    match field {
        VersionField::Absent => return Ok(1),
        VersionField::Integer(n) => {
            if *n <= 0xffff_ffff {
                return Ok(*n as u32);
            }
            why.append("formatVersion out of range: ");
            text::push_decimal(&mut why, *n);
            assert(why@ =~= "formatVersion out of range: "@ + text::decimal(*n as nat));
        },
        VersionField::Float(t) => {
            if let Some(n) = whole_u32(t.as_str()) {
                return Ok(n);
            }
            why.append("formatVersion is not an integer: ");
            why.append(t.as_str());
            assert(why@ =~= "formatVersion is not an integer: "@ + t@);
        },
        VersionField::Other(t) => {
            why.append("formatVersion is not a number: ");
            why.append(t.as_str());
            assert(why@ =~= "formatVersion is not a number: "@ + t@);
        },
    }
    Err(StoreError::Malformed(why))
}

/// Whether a project whose field reads so may be opened, and as which version.
pub fn admit_version(field: &VersionField) -> (version: Result<u32, StoreError>)
    ensures
        match version {
            Ok(v) => admitted(stated_version(field@)) == Ok::<u32, StoreErrorView>(v),
            Err(e) => admitted(stated_version(field@)) == Err::<u32, StoreErrorView>(e@),
        },
{
    match format_version_of(field) {
        Err(e) => Err(e),
        Ok(found) => {
            if found < CURRENT_FORMAT_VERSION {
                Err(StoreError::LegacyProject { found, minimum: CURRENT_FORMAT_VERSION })
            } else if found > CURRENT_FORMAT_VERSION {
                Err(StoreError::TooNew { found, supported: CURRENT_FORMAT_VERSION })
            } else {
                Ok(found)
            }
        },
    }
}

/// How a document's `formatVersion` field reads.
pub fn read_version_field(value: &serde_json::Value) -> (field: VersionField)
    ensures
        field@ == version_field(*value),
{
    match get_field(value, "formatVersion") {
        None => VersionField::Absent,
        Some(field) => {
            if let Some(n) = field.as_u64() {
                VersionField::Integer(n)
            } else if let Some(t) = float_text(field) {
                VersionField::Float(t)
            } else {
                VersionField::Other(document_text(field))
            }
        },
    }
}

/// Which version a document is opened as, or why it isn't, given whether its
/// root is an object and how its version reads.
pub open spec fn verdict(object: bool, field: VersionFieldView) -> Result<u32, StoreErrorView> {
    if object {
        admitted(stated_version(field))
    } else {
        Err(StoreErrorView::Malformed("project.json root is not an object"@))
    }
}

/// Which version a document is opened as, or why it isn't.
///
/// The root's shape is guarded before the version is looked at: a root that is
/// no object has no version either, and must not be taken for an old file.
pub fn admit_document(object: bool, field: &VersionField) -> (version: Result<u32, StoreError>)
    ensures
        match version {
            Ok(v) => verdict(object, field@) == Ok::<u32, StoreErrorView>(v),
            Err(e) => verdict(object, field@) == Err::<u32, StoreErrorView>(e@),
        },
{
    if object {
        admit_version(field)
    } else {
        Err(StoreError::Malformed("project.json root is not an object".to_owned()))
    }
}

/// Why a text cannot be opened as a project, if it cannot.
pub open spec fn refusal(text: Seq<char>) -> Option<StoreErrorView> {
    match json_in(text) {
        Err(message) => Some(StoreErrorView::Malformed(message)),
        Ok(value) => match verdict(json_is_object(value), version_field(value)) {
            Err(e) => Some(e),
            Ok(_) => None,
        },
    }
}

/// Reads the text of a `project.json` into a document of the current version.
///
/// The version that was admitted is written back as an integer, since it may
/// have arrived as `7.0`; everything else of the document is as it was read.
pub fn read_document(text: &str) -> (document: Result<serde_json::Value, StoreError>)
    ensures
        match document {
            Err(e) => refusal(text@) == Some(e@),
            Ok(value) => {
                &&& refusal(text@) is None
                &&& version_field(value) == VersionFieldView::Integer(
                    CURRENT_FORMAT_VERSION as u64,
                )
                &&& json_is_object(value)
                &&& forall|key: Seq<char>|
                    key != "formatVersion"@ ==> json_field(value, key) == json_field(
                        json_in(text@)->Ok_0,
                        key,
                    )
            },
        },
{
    let mut value = match parse_json(text) {
        Ok(value) => value,
        Err(message) => return Err(StoreError::Malformed(message)),
    };
    let field = read_version_field(&value);
    match admit_document(value.is_object(), &field) {
        Err(e) => Err(e),
        Ok(found) => {
            set_number_field(&mut value, "formatVersion", found);
            Ok(value)
        },
    }
}

/// Stamps a project with the version it is about to be written as.
pub fn stamp(project: &mut Project)
    ensures
        *final(project) == (Project {
            format_version: CURRENT_FORMAT_VERSION,
            ..*old(project)
        }),
{
    project.format_version = CURRENT_FORMAT_VERSION;
}

/// **One version is admitted**, however its writer spelled it: a field is let
/// through if and only if it states the current version, older ones are told
/// from newer ones, and what states no version at all is neither.
pub proof fn law_only_the_current_version_is_admitted(field: VersionFieldView)
    ensures
        match admitted(stated_version(field)) {
            Ok(v) => v == CURRENT_FORMAT_VERSION && stated_version(field) == Ok::<
                u32,
                StoreErrorView,
            >(v),
            Err(StoreErrorView::LegacyProject { found, minimum }) => found < minimum && minimum
                == CURRENT_FORMAT_VERSION && stated_version(field) == Ok::<u32, StoreErrorView>(
                found,
            ),
            Err(StoreErrorView::TooNew { found, supported }) => found > supported && supported
                == CURRENT_FORMAT_VERSION && stated_version(field) == Ok::<u32, StoreErrorView>(
                found,
            ),
            Err(StoreErrorView::Malformed(_)) => stated_version(field) is Err,
            Err(_) => false,
        },
{
}

/// **A version is what its field writes**: an integer, or a float that is
/// whole; without a field it is the first. What is out of range, or not whole,
/// or no number states none.
pub proof fn law_a_version_is_what_its_field_writes(n: u64, t: Seq<char>)
    ensures
        stated_version(VersionFieldView::Absent) == Ok::<u32, StoreErrorView>(1),
        n <= u32::MAX ==> stated_version(VersionFieldView::Integer(n)) == Ok::<
            u32,
            StoreErrorView,
        >(n as u32) && stated_version(VersionFieldView::Float(text::decimal(n as nat))) == Ok::<
            u32,
            StoreErrorView,
        >(n as u32),
        n > u32::MAX ==> stated_version(VersionFieldView::Integer(n)) is Err,
        (exists|i: int| 0 <= i < t.len() && !('0' <= #[trigger] t[i] <= '9')) && t != seq![
            '-',
            '0',
        ] ==> stated_version(VersionFieldView::Float(t)) is Err,
        stated_version(VersionFieldView::Other(t)) is Err,
{
    let written = text::decimal(n as nat);
    text::lemma_decimal_reads_back(n as nat);
    assert(text::is_digit(written[0]));
    assert(written[0] != '-');
    assert(written != seq!['-', '0']) by {
        assert(seq!['-', '0'][0] == '-');
    }
    if exists|i: int| 0 <= i < t.len() && !('0' <= #[trigger] t[i] <= '9') {
        let i = choose|i: int| 0 <= i < t.len() && !('0' <= #[trigger] t[i] <= '9');
        assert(!text::is_digit(t[i]));
    }
}

/// **Only an object of version 7 is opened.**
pub proof fn law_only_version_seven_is_opened(object: bool, field: VersionFieldView)
    ensures
        verdict(object, field) matches Ok(v) ==> v == 7 && object && stated_version(field) == Ok::<
            u32,
            StoreErrorView,
        >(7),
        object && stated_version(field) == Ok::<u32, StoreErrorView>(7) ==> verdict(object, field)
            == Ok::<u32, StoreErrorView>(7),
        !object ==> verdict(object, field) is Err && verdict(object, field)->Err_0 is Malformed,
        object ==> (stated_version(field) matches Ok(v) ==> (v < 7 ==> verdict(object, field)
            == Err::<u32, StoreErrorView>(
            StoreErrorView::LegacyProject { found: v, minimum: 7 },
        )) && (v > 7 ==> verdict(object, field) == Err::<u32, StoreErrorView>(
            StoreErrorView::TooNew { found: v, supported: 7 },
        ))),
{
}

/// **What is written is of version 7**, and stamping changes nothing else.
pub proof fn law_what_is_written_is_of_version_seven(project: &mut Project)
    requires
        call_ensures(stamp, (project,), ()),
    ensures
        final(project).format_version == 7,
        final(project).name == old(project).name,
        final(project).clips == old(project).clips,
        final(project).source_videos == old(project).source_videos,
        final(project).match_events == old(project).match_events,
        final(project).preferences == old(project).preferences,
        final(project).scoreboard == old(project).scoreboard,
{
}

} // verus!
