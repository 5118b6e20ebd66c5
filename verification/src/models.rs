//! Data shapes shared by the document store and the configuration
//! service.
//!
//! Timestamps are carried as milliseconds since the Unix epoch and the
//! window opacity as thousandths (an opacity of 1.0 is 1000), so that
//! every field is a plain value the verifier can reason about.

use vstd::prelude::*;

verus! {

/// A folder entry as listed to callers: a display name plus the path
/// identifier used to address the folder ("" for the virtual
/// "All Notes" entry, the folder's own name otherwise).
#[derive(Clone, Debug, PartialEq)]
pub struct FolderInfo {
    pub name: String,
    pub path: String,
}

/// Metadata of one note file: id (file name without the `.md`
/// extension), display title, timestamps in epoch milliseconds,
/// containing folder ("" for the notes root) and pin state.
#[derive(Clone, Debug, PartialEq)]
pub struct NoteInfo {
    pub id: String,
    pub title: String,
    pub modified: i64,
    pub created: i64,
    pub folder: String,
    pub pinned: bool,
}

/// Window position and size as persisted in the configuration.
/// Width and height are never persisted below the minimums enforced
/// by `crate::window::WindowManager::clamp_bounds`.
#[derive(Clone, Copy, Debug, PartialEq, Eq)]
pub struct WindowBounds {
    pub width: u32,
    pub height: u32,
    pub x: Option<i32>,
    pub y: Option<i32>,
}

impl Default for WindowBounds {
    /// The default main-window bounds: 1200 x 800, position unset.
    fn default() -> (r: WindowBounds)
        ensures
            r.width == 1200,
            r.height == 800,
            r.x is None,
            r.y is None,
    {
        WindowBounds { width: 1200, height: 800, x: None, y: None }
    }
}

/// Size and position of a display's work area.
#[derive(Clone, Copy, Debug, PartialEq, Eq)]
pub struct DisplayInfo {
    pub x: i32,
    pub y: i32,
    pub width: u32,
    pub height: u32,
}

/// The last opened note, as remembered in the configuration.
#[derive(Clone, Debug, PartialEq)]
pub struct LastNote {
    pub note_id: Option<String>,
    pub folder: Option<String>,
}

impl Default for LastNote {
    fn default() -> (r: LastNote)
        ensures
            r.note_id is None,
            r.folder is None,
    {
        LastNote { note_id: None, folder: None }
    }
}

/// The whole application configuration. Always fully populated:
/// loading fills absent or ill-typed fields with these defaults.
#[derive(Clone, Debug, PartialEq)]
pub struct Config {
    pub global_shortcut: String,
    pub clipboard_shortcut: String,
    pub quick_note_shortcut: String,
    pub window_bounds: WindowBounds,
    pub last_note_id: Option<String>,
    pub last_folder: Option<String>,
    pub pinned_notes: Vec<String>,
    pub minimal_mode_bounds: WindowBounds,
    /// Opacity in thousandths, kept within [300, 1000].
    pub window_opacity_milli: u32,
    pub auto_start_on_boot: bool,
}

impl Default for Config {
    fn default() -> (c: Config)
        ensures
            c@ == default_config_view(),
    {
        let c = Config {
            global_shortcut: "CommandOrControl+Shift+N".to_owned(),
            clipboard_shortcut: "CommandOrControl+Alt+V".to_owned(),
            quick_note_shortcut: "CommandOrControl+Alt+N".to_owned(),
            window_bounds: WindowBounds { width: 1200, height: 800, x: None, y: None },
            last_note_id: None,
            last_folder: None,
            pinned_notes: Vec::new(),
            minimal_mode_bounds: WindowBounds { width: 400, height: 300, x: None, y: None },
            window_opacity_milli: 1000,
            auto_start_on_boot: false,
        };
        proof {
            assert(c@ =~= default_config_view());
        }
        c
    }
}

/// The view of an optional owned string.
pub open spec fn opt_string_view(s: Option<String>) -> Option<Seq<char>> {
    match s {
        Some(x) => Some(x@),
        None => None,
    }
}

/// The abstract value of a configuration: every owned string by its
/// characters.
#[verifier::ext_equal]
pub struct ConfigView {
    pub global_shortcut: Seq<char>,
    pub clipboard_shortcut: Seq<char>,
    pub quick_note_shortcut: Seq<char>,
    pub window_bounds: WindowBounds,
    pub last_note_id: Option<Seq<char>>,
    pub last_folder: Option<Seq<char>>,
    pub pinned_notes: Seq<Seq<char>>,
    pub minimal_mode_bounds: WindowBounds,
    pub window_opacity_milli: u32,
    pub auto_start_on_boot: bool,
}

impl View for Config {
    type V = ConfigView;

    open spec fn view(&self) -> ConfigView {
        ConfigView {
            global_shortcut: self.global_shortcut@,
            clipboard_shortcut: self.clipboard_shortcut@,
            quick_note_shortcut: self.quick_note_shortcut@,
            window_bounds: self.window_bounds,
            last_note_id: opt_string_view(self.last_note_id),
            last_folder: opt_string_view(self.last_folder),
            pinned_notes: self.pinned_notes@.map_values(|x: String| x@),
            minimal_mode_bounds: self.minimal_mode_bounds,
            window_opacity_milli: self.window_opacity_milli,
            auto_start_on_boot: self.auto_start_on_boot,
        }
    }
}

/// The default configuration's abstract value: the documented
/// defaults of every field.
pub open spec fn default_config_view() -> ConfigView {
    ConfigView {
        global_shortcut: "CommandOrControl+Shift+N"@,
        clipboard_shortcut: "CommandOrControl+Alt+V"@,
        quick_note_shortcut: "CommandOrControl+Alt+N"@,
        window_bounds: WindowBounds { width: 1200, height: 800, x: None, y: None },
        last_note_id: None,
        last_folder: None,
        pinned_notes: Seq::empty(),
        minimal_mode_bounds: WindowBounds { width: 400, height: 300, x: None, y: None },
        window_opacity_milli: 1000,
        auto_start_on_boot: false,
    }
}

/// The uniform result envelope handed back to the command layer. The
/// opacity rides in thousandths, like everywhere in this crate.
#[derive(Clone, Debug, PartialEq)]
pub struct ApiResult {
    pub success: bool,
    pub error: Option<String>,
    pub content: Option<String>,
    pub note_id: Option<String>,
    pub folder: Option<String>,
    pub image_path: Option<String>,
    pub image_id: Option<String>,
    pub file_name: Option<String>,
    pub file_path: Option<String>,
    pub pinned: Option<bool>,
    pub opacity_milli: Option<u32>,
}

impl Default for ApiResult {
    fn default() -> (r: ApiResult)
        ensures
            !r.success,
            r.error is None,
            r.content is None,
            r.note_id is None,
            r.folder is None,
            r.image_path is None,
            r.image_id is None,
            r.file_name is None,
            r.file_path is None,
            r.pinned is None,
            r.opacity_milli is None,
    {
        ApiResult {
            success: false,
            error: None,
            content: None,
            note_id: None,
            folder: None,
            image_path: None,
            image_id: None,
            file_name: None,
            file_path: None,
            pinned: None,
            opacity_milli: None,
        }
    }
}

impl ApiResult {
    /// A bare success.
    pub fn success() -> (r: ApiResult)
        ensures
            r.success,
            r.error is None,
            r.content is None,
            r.note_id is None,
            r.folder is None,
            r.image_path is None,
            r.image_id is None,
            r.file_name is None,
            r.file_path is None,
            r.pinned is None,
            r.opacity_milli is None,
    {
        ApiResult { success: true, ..ApiResult::default() }
    }

    /// A failure carrying its message.
    pub fn error(message: String) -> (r: ApiResult)
        ensures
            !r.success,
            r.error matches Some(e) && e@ == message@,
            r.content is None,
            r.note_id is None,
            r.folder is None,
            r.image_path is None,
            r.image_id is None,
            r.file_name is None,
            r.file_path is None,
            r.pinned is None,
            r.opacity_milli is None,
    {
        ApiResult { success: false, error: Some(message), ..ApiResult::default() }
    }

    /// A success carrying content.
    pub fn with_content(content: String) -> (r: ApiResult)
        ensures
            r.success,
            r.error is None,
            r.content matches Some(c) && c@ == content@,
            r.note_id is None,
            r.folder is None,
            r.pinned is None,
    {
        ApiResult { success: true, content: Some(content), ..ApiResult::default() }
    }

    /// A success carrying a note id.
    pub fn with_note_id(note_id: String) -> (r: ApiResult)
        ensures
            r.success,
            r.error is None,
            r.content is None,
            r.note_id matches Some(n) && n@ == note_id@,
            r.folder is None,
            r.pinned is None,
    {
        ApiResult { success: true, note_id: Some(note_id), ..ApiResult::default() }
    }

    /// A success carrying a note id and its folder.
    pub fn with_note_id_and_folder(note_id: String, folder: Option<String>) -> (r: ApiResult)
        ensures
            r.success,
            r.error is None,
            r.content is None,
            r.note_id matches Some(n) && n@ == note_id@,
            opt_string_view(r.folder) == opt_string_view(folder),
            r.pinned is None,
    {
        ApiResult {
            success: true,
            note_id: Some(note_id),
            folder,
            ..ApiResult::default()
        }
    }
}

} // verus!
