//! FlexLayout persistence (v3 schema): the default layout, the check made
//! before a layout is saved, and the choice made once the layout file was read.
//!
//! Reading, writing (temp file, then rename) and the v2 migration probe are
//! done by the caller, which hands the outcome of a read to
//! [`resolve_loaded_layout`].
use std::path::PathBuf;

use vstd::prelude::*;
use vstd::string::*;

verus! {

/// Errors during FlexLayout persistence operations.
#[derive(Debug, Clone)]
pub enum LayoutPersistenceError {
    /// Failed to read the layout file from disk.
    ReadError(String),
    /// Failed to parse JSON from disk.
    InvalidJson(String),
    /// Layout JSON is missing required fields.
    InvalidSchema(String),
    /// Failed to write the layout file to disk.
    WriteError(String),
    /// Failed to create app data directory.
    DirectoryError(String),
}

/// The message of an error: its kind, a colon, and its detail.
pub open spec fn error_message(e: LayoutPersistenceError) -> Seq<char> {
    match e {
        LayoutPersistenceError::ReadError(m) => "read error: "@ + m@,
        LayoutPersistenceError::InvalidJson(m) => "invalid json: "@ + m@,
        LayoutPersistenceError::InvalidSchema(m) => "invalid schema: "@ + m@,
        LayoutPersistenceError::WriteError(m) => "write error: "@ + m@,
        LayoutPersistenceError::DirectoryError(m) => "directory error: "@ + m@,
    }
}

impl LayoutPersistenceError {
    /// Human-readable message, e.g. `read error: <detail>`.
    pub fn message(&self) -> (r: String)
        ensures
            r@ == error_message(*self),
    {
        let (prefix, detail) = match self {
            LayoutPersistenceError::ReadError(m) => ("read error: ", m),
            LayoutPersistenceError::InvalidJson(m) => ("invalid json: ", m),
            LayoutPersistenceError::InvalidSchema(m) => ("invalid schema: ", m),
            LayoutPersistenceError::WriteError(m) => ("write error: ", m),
            LayoutPersistenceError::DirectoryError(m) => ("directory error: ", m),
        };
        crate::text::concat_str(prefix, detail.as_str())
    }
}

/// Default file name of the layout file.
pub const DEFAULT_LAYOUT_FILENAME: &'static str = "flexlayout_state.json";

/// Default v3 layout: the Layers panel docked in a left tab set, no floating
/// windows.
pub const DEFAULT_LAYOUT_JSON: &'static str = "{\n  \"root\": {\n    \"children\": [\n      {\n        \"children\": [\n          {\n            \"component\": \"layers\",\n            \"icon\": \"icon-layers\",\n            \"id\": \"tab-layers\",\n            \"name\": \"Layers\",\n            \"type\": \"tab\"\n          }\n        ],\n        \"id\": \"tabset-left\",\n        \"position\": \"left\",\n        \"selected\": 0,\n        \"type\": \"tabset\",\n        \"weight\": 20\n      }\n    ],\n    \"id\": \"root\",\n    \"sizes\": [\n      20,\n      80\n    ],\n    \"type\": \"border\"\n  },\n  \"version\": 3\n}";

/// FlexLayout persistence manager: where the layout file lives.
pub struct FlexLayoutPersistence {
    app_data_dir: PathBuf,
    /// File name (without directory) of the layout JSON file.
    filename: String,
}

impl FlexLayoutPersistence {
    /// The directory holding the layout file.
    pub closed spec fn data_dir(&self) -> PathBuf {
        self.app_data_dir
    }

    /// The name of the layout file.
    pub closed spec fn file_name(&self) -> Seq<char> {
        self.filename@
    }

    /// A manager for `app_data_dir` with the default file name
    /// `flexlayout_state.json`.
    pub fn new(app_data_dir: PathBuf) -> (r: Self)
        ensures
            r.data_dir() == app_data_dir,
            r.file_name() == DEFAULT_LAYOUT_FILENAME@,
    {
        FlexLayoutPersistence { app_data_dir, filename: String::from_str(DEFAULT_LAYOUT_FILENAME) }
    }

    /// A manager for `app_data_dir` with a custom file name
    /// (e.g. `flexlayout_left.json`).
    pub fn with_filename(app_data_dir: PathBuf, filename: &str) -> (r: Self)
        ensures
            r.data_dir() == app_data_dir,
            r.file_name() == filename@,
    {
        FlexLayoutPersistence { app_data_dir, filename: String::from_str(filename) }
    }

    /// The directory holding the layout file.
    pub fn app_data_dir(&self) -> (r: &PathBuf)
        ensures
            *r == self.data_dir(),
    {
        &self.app_data_dir
    }

    /// The name of the layout file.
    pub fn filename(&self) -> (r: &str)
        ensures
            r@ == self.file_name(),
    {
        self.filename.as_str()
    }

    /// Reset the layout to the default v3 layout (explicit "reset layout").
    pub fn reset_to_default(&self) -> (r: Result<String, LayoutPersistenceError>)
        ensures
            r matches Ok(s) && s@ == DEFAULT_LAYOUT_JSON@,
    {
        Ok(Self::default_layout_json())
    }

    /// The default v3 layout JSON.
    pub fn default_layout_json() -> (r: String)
        ensures
            r@ == DEFAULT_LAYOUT_JSON@,
    {
        String::from_str(DEFAULT_LAYOUT_JSON)
    }
}

/// What `serde_json` reports when `text` is parsed as a JSON value: `None`
/// when it parses, else the text of the error.
pub uninterp spec fn json_parse_error(text: Seq<char>) -> Option<Seq<char>>;

/// The top-level `version` of `text` parsed as a JSON value, when it is an
/// unsigned integer (`None` when the text does not parse).
pub uninterp spec fn json_version(text: Seq<char>) -> Option<u64>;

/// Whether `text` parsed as a JSON value has a top-level `root` key (`false`
/// when the text does not parse).
pub uninterp spec fn json_has_root(text: Seq<char>) -> bool;

/// The view of an optional string.
pub open spec fn opt_view(o: Option<String>) -> Option<Seq<char>> {
    match o {
        Some(s) => Some(s@),
        None => None,
    }
}

/// What the layout rules read of a JSON text.
pub struct JsonOutline {
    /// The parser's error text, when the text does not parse.
    pub parse_error: Option<String>,
    /// The top-level `version`, when it is an unsigned integer.
    pub version: Option<u64>,
    /// Whether there is a top-level `root` key.
    pub has_root: bool,
}

/// Calls `serde_json::from_str::<serde_json::Value>` on `text`; keeps the
/// error's text (`Display`) when it fails, else the value's top-level
/// `version` read with `Value::as_u64` and whether `Value::get("root")`
/// finds a key. Claimed: each part is the corresponding name of the text.
#[verifier::external_body]
pub(crate) fn inspect_json(text: &str) -> (r: JsonOutline)
    ensures
        opt_view(r.parse_error) == json_parse_error(text@),
        r.version == json_version(text@),
        r.has_root == json_has_root(text@),
{
    match serde_json::from_str::<serde_json::Value>(text) {
        Ok(v) => JsonOutline { parse_error: None, version: v["version"].as_u64(), has_root: v.get("root").is_some() },
        Err(e) => JsonOutline { parse_error: Some(e.to_string()), version: None, has_root: false },
    }
}

/// A stored layout is used only when it is a v3 layout: it parses as JSON,
/// its `version` is 3 and it has a `root`.
pub open spec fn is_v3_layout(text: Seq<char>) -> bool {
    json_parse_error(text) is None && json_version(text) == Some(3u64) && json_has_root(text)
}

/// Whether an outline read of a text describes a v3 layout.
pub fn outline_is_v3(o: &JsonOutline) -> (r: bool)
    ensures
        r == (o.parse_error is None && o.version == Some(3u64) && o.has_root),
{
    o.parse_error.is_none() && o.has_root && match o.version {
        Some(v) => v == 3,
        None => false,
    }
}

/// Outcome of the pre-save check, given what the JSON parser reported:
/// `Ok` when it parsed, else an `InvalidJson` error carrying the report.
pub fn json_check_outcome(parse_error: Option<String>) -> (r: Result<(), LayoutPersistenceError>)
    ensures
        match parse_error {
            None => r is Ok,
            Some(e) => r matches Err(LayoutPersistenceError::InvalidJson(m)) && m@
                == "invalid layout json: "@ + e@,
        },
{
    match parse_error {
        None => Ok(()),
        Some(e) => Err(
            LayoutPersistenceError::InvalidJson(
                crate::text::concat_str("invalid layout json: ", e.as_str()),
            ),
        ),
    }
}

/// Check made before a layout is saved: the text must parse as JSON.
pub fn validate_layout_json(layout_json: &str) -> (r: Result<(), LayoutPersistenceError>)
    ensures
        match json_parse_error(layout_json@) {
            None => r is Ok,
            Some(e) => r matches Err(LayoutPersistenceError::InvalidJson(m)) && m@
                == "invalid layout json: "@ + e,
        },
{
    json_check_outcome(inspect_json(layout_json).parse_error)
}

/// The stored layout when it is a v3 layout, else the default layout.
pub fn layout_or_default(contents: String, is_v3: bool) -> (r: String)
    ensures
        r@ == (if is_v3 {
            contents@
        } else {
            DEFAULT_LAYOUT_JSON@
        }),
{
    if is_v3 {
        contents
    } else {
        FlexLayoutPersistence::default_layout_json()
    }
}

/// Outcome of reading the layout file.
#[derive(Debug, Clone)]
pub enum LayoutFileRead {
    /// No layout file yet (first run).
    NotFound,
    /// The file could not be read; the I/O error's text.
    Failed(String),
    /// The file's contents.
    Contents(String),
}

/// The layout to use once the layout file was read, given whether an old
/// v2 panel state file sits next to it: the stored layout when it is a v3
/// layout; the default layout when there is no file, when it is not a v3
/// layout, or when it cannot be read while a v2 file is present (migration);
/// a read error only when the file exists, cannot be read, and there is no
/// v2 file.
pub fn resolve_loaded_layout(v2_detected: bool, read: LayoutFileRead) -> (r: Result<
    String,
    LayoutPersistenceError,
>)
    ensures
        match read {
            LayoutFileRead::NotFound => r matches Ok(s) && s@ == DEFAULT_LAYOUT_JSON@,
            LayoutFileRead::Failed(e) => if v2_detected {
                r matches Ok(s) && s@ == DEFAULT_LAYOUT_JSON@
            } else {
                r matches Err(LayoutPersistenceError::ReadError(m)) && m@
                    == "failed to read layout file: "@ + e@
            },
            LayoutFileRead::Contents(c) => r matches Ok(s) && s@ == (if is_v3_layout(c@) {
                c@
            } else {
                DEFAULT_LAYOUT_JSON@
            }),
        },
{
    match read {
        LayoutFileRead::NotFound => Ok(FlexLayoutPersistence::default_layout_json()),
        LayoutFileRead::Failed(e) => if v2_detected {
            Ok(FlexLayoutPersistence::default_layout_json())
        } else {
            Err(
                LayoutPersistenceError::ReadError(
                    crate::text::concat_str("failed to read layout file: ", e.as_str()),
                ),
            )
        },
        LayoutFileRead::Contents(c) => {
            let outline = inspect_json(c.as_str());
            let is_v3 = outline_is_v3(&outline);
            Ok(layout_or_default(c, is_v3))
        },
    }
}

} // verus!
