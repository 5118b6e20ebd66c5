//! The directory-backed document store: layout of the data directory,
//! folder and note operations, pin bookkeeping, screenshots and
//! external file import.
//!
//! The store itself holds no open files; every operation that needs
//! the disk is split into a verified decision here and the plain read,
//! write or rename the surrounding program performs. Facts only the
//! disk knows (does the target exist, is it a directory) come in as
//! arguments; paths, names and contents go out, checked.

use vstd::prelude::*;

use base64::Engine;

use crate::models::{FolderInfo, NoteInfo};
use crate::paths::{joined_path, token_error_msg, validate_path};
use crate::strutil::{
    is_ascii_digit,
    is_prefix_of,
    is_suffix_of,
    concat2,
    concat3,
    is_blank,
    is_space_char,
    str_ends_with,
    str_eq,
    str_is_blank,
};

verus! {

/// The fixed layout under one base directory: notes and assets
/// directories, the configuration file and the note-order file.
#[derive(Clone, Debug, PartialEq)]
pub struct FileSystem {
    /// Base data directory for the application.
    pub base_dir: String,
    /// Directory for notes (`notes/`).
    pub notes_dir: String,
    /// Directory for screenshots and other assets (`assets/`).
    pub assets_dir: String,
    /// Path of the configuration file (`config.json`).
    pub config_file: String,
    /// Path of the note-order file (`note-order.json`).
    pub order_file: String,
}

/// Whether the store's paths are laid out under its base directory as
/// the fixed layout demands.
pub open spec fn store_wf(fs: FileSystem) -> bool {
    &&& fs.notes_dir@ == joined_path(fs.base_dir@, "notes"@)
    &&& fs.assets_dir@ == joined_path(fs.base_dir@, "assets"@)
    &&& fs.config_file@ == joined_path(fs.base_dir@, "config.json"@)
    &&& fs.order_file@ == joined_path(fs.base_dir@, "note-order.json"@)
}

impl FileSystem {
    /// Lays the fixed layout out under the given base directory.
    pub fn new_with_base(base_dir: &str) -> (r: Result<FileSystem, String>)
        ensures
            r matches Ok(fs) && fs.base_dir@ == base_dir@ && store_wf(fs),
    {
        proof {
            reveal_strlit("/");
        }
        let notes_dir = concat3(base_dir, "/", "notes");
        let assets_dir = concat3(base_dir, "/", "assets");
        let config_file = concat3(base_dir, "/", "config.json");
        let order_file = concat3(base_dir, "/", "note-order.json");
        proof {
            assert(notes_dir@ =~= joined_path(base_dir@, "notes"@));
            assert(assets_dir@ =~= joined_path(base_dir@, "assets"@));
            assert(config_file@ =~= joined_path(base_dir@, "config.json"@));
            assert(order_file@ =~= joined_path(base_dir@, "note-order.json"@));
        }
        Ok(
            FileSystem {
                base_dir: base_dir.to_owned(),
                notes_dir,
                assets_dir,
                config_file,
                order_file,
            },
        )
    }

    /// Validates a path relative to the notes directory.
    pub fn validate_notes_path(&self, relative_path: &str) -> (r: Result<String, String>)
        ensures
            token_error_msg(relative_path@) matches Some(m) ==> (r matches Err(e) && e@ == m),
            token_error_msg(relative_path@) is None ==> (r matches Ok(p) && p@ == joined_path(
                self.notes_dir@,
                relative_path@,
            )),
    {
        validate_path(self.notes_dir.as_str(), relative_path)
    }

    /// Validates a path relative to the assets directory.
    pub fn validate_assets_path(&self, relative_path: &str) -> (r: Result<String, String>)
        ensures
            token_error_msg(relative_path@) matches Some(m) ==> (r matches Err(e) && e@ == m),
            token_error_msg(relative_path@) is None ==> (r matches Ok(p) && p@ == joined_path(
                self.assets_dir@,
                relative_path@,
            )),
    {
        validate_path(self.assets_dir.as_str(), relative_path)
    }

    /// The directory a folder name addresses: the named subdirectory
    /// of the notes root, or the root itself for `None` or `""`.
    pub fn get_folder_path(&self, folder_name: Option<&str>) -> (r: String)
        ensures
            r@ == spec_folder_path(self.notes_dir@, view_opt_str(folder_name)),
    {
        proof {
            reveal_strlit("/");
        }
        match folder_name {
            Some(name) if name.unicode_len() > 0 => {
                let p = concat3(self.notes_dir.as_str(), "/", name);
                proof {
                    assert(p@ =~= joined_path(self.notes_dir@, name@));
                }
                p
            },
            _ => self.notes_dir.clone(),
        }
    }

    /// Whether a name is reserved: the virtual "All Notes" entry and
    /// the "Trash" name can never be created, renamed or deleted.
    pub fn is_protected_name(&self, name: &str) -> (r: bool)
        ensures
            r == is_protected(name@),
    {
        str_eq(name, "All Notes") || str_eq(name, "Trash")
    }
}

impl FileSystem {
    /// Decides a folder creation: rejects blank, reserved and unsafe
    /// names and a target that already exists (`exists` is the probed
    /// state of the target directory); otherwise hands back the
    /// directory to create.
    pub fn create_folder(&self, name: &str, exists: bool) -> (r: Result<String, String>)
        ensures
            create_folder_error(name@, exists) matches Some(m) ==> (r matches Err(e) && e@
                == m),
            create_folder_error(name@, exists) is None ==> (r matches Ok(p) && p@
                == joined_path(self.notes_dir@, name@)),
    {
        if str_is_blank(name) {
            return Err("Folder name cannot be empty or whitespace only".to_owned());
        }
        if self.is_protected_name(name) {
            return Err(concat3("'", name, "' is a protected folder name"));
        }
        let folder_path = self.validate_notes_path(name)?;
        if exists {
            return Err(concat3("Folder '", name, "' already exists"));
        }
        Ok(folder_path)
    }

    /// Decides a folder deletion: rejects blank and reserved names, a
    /// missing target and one that is no directory; otherwise hands
    /// back the directory to remove recursively, contents included.
    pub fn delete_folder(&self, name: &str, exists: bool, is_dir: bool) -> (r: Result<
        String,
        String,
    >)
        ensures
            delete_folder_error(name@, exists, is_dir) matches Some(m) ==> (r matches Err(e)
                && e@ == m),
            delete_folder_error(name@, exists, is_dir) is None ==> (r matches Ok(p) && p@
                == joined_path(self.notes_dir@, name@)),
    {
        if str_is_blank(name) {
            return Err("Folder name cannot be empty or whitespace only".to_owned());
        }
        if self.is_protected_name(name) {
            return Err(concat3("Cannot delete protected folder '", name, "'"));
        }
        let folder_path = self.validate_notes_path(name)?;
        if !exists {
            return Err(concat3("Folder '", name, "' does not exist"));
        }
        if !is_dir {
            return Err(concat3("'", name, "' is not a folder"));
        }
        Ok(folder_path)
    }

    /// Decides a folder rename: both names must be non-blank, not
    /// reserved and safe, the source must be an existing directory and
    /// the target must not exist; hands back source and target paths
    /// for one atomic rename.
    pub fn rename_folder(
        &self,
        old_name: &str,
        new_name: &str,
        old_exists: bool,
        old_is_dir: bool,
        new_exists: bool,
    ) -> (r: Result<(String, String), String>)
        ensures
            rename_folder_error(old_name@, new_name@, old_exists, old_is_dir, new_exists)
                matches Some(m) ==> (r matches Err(e) && e@ == m),
            rename_folder_error(old_name@, new_name@, old_exists, old_is_dir, new_exists)
                is None ==> (r matches Ok(p) && p.0@ == joined_path(self.notes_dir@, old_name@)
                && p.1@ == joined_path(self.notes_dir@, new_name@)),
    {
        if str_is_blank(old_name) || str_is_blank(new_name) {
            return Err("Folder name cannot be empty or whitespace only".to_owned());
        }
        if self.is_protected_name(old_name) {
            return Err(concat3("Cannot rename protected folder '", old_name, "'"));
        }
        if self.is_protected_name(new_name) {
            return Err(concat3("Cannot rename to protected name '", new_name, "'"));
        }
        let old_path = self.validate_notes_path(old_name)?;
        let new_path = self.validate_notes_path(new_name)?;
        if !old_exists {
            return Err(concat3("Folder '", old_name, "' does not exist"));
        }
        if !old_is_dir {
            return Err(concat3("'", old_name, "' is not a folder"));
        }
        if new_exists {
            return Err(concat3("Folder '", new_name, "' already exists"));
        }
        Ok((old_path, new_path))
    }

    /// Flips the pin state of `note_id` in the given pinned list: a
    /// pinned note loses its first entry, an unpinned one is appended.
    /// Returns the updated list to persist and the new pin state.
    pub fn toggle_pin_note(&self, pinned_notes: Vec<String>, note_id: &str) -> (r: (
        Vec<String>,
        bool,
    ))
        ensures
            ids_view(r.0@) == spec_toggle(ids_view(pinned_notes@), note_id@).0,
            r.1 == spec_toggle(ids_view(pinned_notes@), note_id@).1,
    {
        let ghost ids = ids_view(pinned_notes@);
        let mut list = pinned_notes;
        let n = list.len();
        let mut i: usize = 0;
        while i < n
            invariant
                n == list.len(),
                i <= n,
                list == pinned_notes,
                ids == ids_view(pinned_notes@),
                forall|j: int| 0 <= j < i ==> ids[j] != note_id@,
            decreases n - i,
        {
            if str_eq(list[i].as_str(), note_id) {
                proof {
                    assert(ids[i as int] == note_id@);
                    assert(ids.contains(note_id@));
                    lemma_remove_first_at(ids, note_id@, i as int);
                }
                list.remove(i);
                proof {
                    assert(ids_view(list@) =~= ids.remove(i as int));
                }
                return (list, false);
            }
            i = i + 1;
        }
        proof {
            assert(forall|j: int| 0 <= j < ids.len() ==> ids[j] != note_id@);
            assert(!ids.contains(note_id@));
        }
        list.push(note_id.to_owned());
        proof {
            assert(ids_view(list@) =~= ids.push(note_id@));
        }
        (list, true)
    }
}

/// What a note save hands to the disk: the folder to make sure of,
/// the file to write, and the bytes to write into it, verbatim.
#[derive(Debug)]
pub struct SaveNotePlan {
    /// The directory that must exist before the write.
    pub folder_path: String,
    /// The file to overwrite wholly.
    pub note_path: String,
    /// Whether the directory still has to be created.
    pub create_folder: bool,
    /// The exact content to write.
    pub content: String,
}

/// What a note rename hands to the disk.
#[derive(Debug)]
pub struct RenameNotePlan {
    /// The file to rename.
    pub old_path: String,
    /// Where it moves to.
    pub new_path: String,
    /// The id the note carries afterwards.
    pub new_id: String,
}

/// What a move between folders hands to the disk.
#[derive(Debug)]
pub struct MoveNotePlan {
    /// The file in the source folder.
    pub source_path: String,
    /// The file in the target folder.
    pub target_path: String,
    /// The target folder itself.
    pub target_dir: String,
    /// Whether the target folder still has to be created.
    pub create_target_dir: bool,
}

impl FileSystem {
    /// Decides a note read: checks the id and the folder name, then
    /// requires the file to exist (`note_exists` is the probed
    /// state); hands back the file to read.
    pub fn read_note(&self, note_id: &str, folder: Option<&str>, note_exists: bool) -> (r:
        Result<String, String>)
        ensures
            note_name_error(note_id@, view_opt_str(folder)) matches Some(m) ==> (r matches Err(
                e,
            ) && e@ == m),
            note_name_error(note_id@, view_opt_str(folder)) is None && !note_exists ==> (r
                matches Err(e) && e@ == missing_note_msg(note_id@)),
            note_name_error(note_id@, view_opt_str(folder)) is None && note_exists ==> (r
                matches Ok(p) && p@ == note_path(self.notes_dir@, view_opt_str(folder), note_id@)),
    {
        let file_name = self.checked_note_file(note_id, folder)?;
        let folder_path = self.get_folder_path(folder);
        let note_path = join_under(&folder_path, file_name.as_str());
        if !note_exists {
            return Err(concat3("Note '", note_id, "' does not exist"));
        }
        Ok(note_path)
    }

    /// Decides a note save: checks the id and the folder name; hands
    /// back the write to perform. The content rides along unchanged,
    /// so what the disk receives is exactly what the caller passed.
    pub fn save_note(
        &self,
        note_id: &str,
        content: &str,
        folder: Option<&str>,
        folder_exists: bool,
    ) -> (r: Result<SaveNotePlan, String>)
        ensures
            note_name_error(note_id@, view_opt_str(folder)) matches Some(m) ==> (r matches Err(
                e,
            ) && e@ == m),
            note_name_error(note_id@, view_opt_str(folder)) is None ==> (r matches Ok(plan)
                && plan.folder_path@ == spec_folder_path(self.notes_dir@, view_opt_str(folder))
                && plan.note_path@ == note_path(self.notes_dir@, view_opt_str(folder), note_id@)
                && plan.create_folder == !folder_exists && plan.content@ == content@),
    {
        let file_name = self.checked_note_file(note_id, folder)?;
        let folder_path = self.get_folder_path(folder);
        let note_path = join_under(&folder_path, file_name.as_str());
        Ok(
            SaveNotePlan {
                folder_path,
                note_path,
                create_folder: !folder_exists,
                content: content.to_owned(),
            },
        )
    }

    /// Decides a note deletion: checks the id and the folder name and
    /// requires the file to exist; hands back the file to remove.
    pub fn delete_note(&self, note_id: &str, folder: Option<&str>, note_exists: bool) -> (r:
        Result<String, String>)
        ensures
            note_name_error(note_id@, view_opt_str(folder)) matches Some(m) ==> (r matches Err(
                e,
            ) && e@ == m),
            note_name_error(note_id@, view_opt_str(folder)) is None && !note_exists ==> (r
                matches Err(e) && e@ == missing_note_msg(note_id@)),
            note_name_error(note_id@, view_opt_str(folder)) is None && note_exists ==> (r
                matches Ok(p) && p@ == note_path(self.notes_dir@, view_opt_str(folder), note_id@)),
    {
        let file_name = self.checked_note_file(note_id, folder)?;
        let folder_path = self.get_folder_path(folder);
        let note_path = join_under(&folder_path, file_name.as_str());
        if !note_exists {
            return Err(concat3("Note '", note_id, "' does not exist"));
        }
        Ok(note_path)
    }

    /// Decides a note rename within one folder: both ids and the
    /// folder name must be safe, the source must exist and the target
    /// must not; hands back the rename to perform.
    pub fn rename_note(
        &self,
        note_id: &str,
        new_name: &str,
        folder: Option<&str>,
        old_exists: bool,
        new_exists: bool,
    ) -> (r: Result<RenameNotePlan, String>)
        ensures
            rename_note_error(note_id@, new_name@, view_opt_str(folder), old_exists, new_exists)
                matches Some(m) ==> (r matches Err(e) && e@ == m),
            rename_note_error(note_id@, new_name@, view_opt_str(folder), old_exists, new_exists)
                is None ==> (r matches Ok(plan) && plan.old_path@ == note_path(
                self.notes_dir@,
                view_opt_str(folder),
                note_id@,
            ) && plan.new_path@ == note_path(self.notes_dir@, view_opt_str(folder), new_name@)
                && plan.new_id@ == new_name@),
    {
        let old_file = md_name(note_id);
        let new_file = md_name(new_name);
        self.validate_notes_path(old_file.as_str())?;
        self.validate_notes_path(new_file.as_str())?;
        if let Some(f) = folder {
            if f.unicode_len() > 0 {
                validate_path(self.notes_dir.as_str(), f)?;
            }
        }
        let folder_path = self.get_folder_path(folder);
        let old_path = join_under(&folder_path, old_file.as_str());
        let new_path = join_under(&folder_path, new_file.as_str());
        if !old_exists {
            return Err(concat3("Note '", note_id, "' does not exist"));
        }
        if new_exists {
            return Err(concat3("Note '", new_name, "' already exists"));
        }
        Ok(RenameNotePlan { old_path, new_path, new_id: new_name.to_owned() })
    }

    /// Decides a move between folders. `""` and `"All Notes"` stand
    /// for the notes root on either side. The source file must exist,
    /// the target file must not; the target folder is created when
    /// missing.
    pub fn move_note(
        &self,
        note_id: &str,
        from_folder: &str,
        to_folder: &str,
        source_exists: bool,
        target_dir_exists: bool,
        target_exists: bool,
    ) -> (r: Result<MoveNotePlan, String>)
        ensures
            move_note_error(
                note_id@,
                from_folder@,
                to_folder@,
                source_exists,
                target_exists,
            ) matches Some(m) ==> (r matches Err(e) && e@ == m),
            move_note_error(note_id@, from_folder@, to_folder@, source_exists, target_exists)
                is None ==> (r matches Ok(plan) && plan.source_path@ == joined_path(
                move_side_path(self.notes_dir@, from_folder@),
                md_file_name(note_id@),
            ) && plan.target_path@ == joined_path(
                move_side_path(self.notes_dir@, to_folder@),
                md_file_name(note_id@),
            ) && plan.target_dir@ == move_side_path(self.notes_dir@, to_folder@)
                && plan.create_target_dir == !target_dir_exists),
    {
        let file_name = md_name(note_id);
        self.validate_notes_path(file_name.as_str())?;
        let from_path = self.move_side(from_folder)?;
        let to_path = self.move_side(to_folder)?;
        let source_path = join_under(&from_path, file_name.as_str());
        let target_path = join_under(&to_path, file_name.as_str());
        if !source_exists {
            let mut msg = concat3("Note '", note_id, "' does not exist in folder '");
            let tail = concat2(from_folder, "'");
            let whole = concat2(msg.as_str(), tail.as_str());
            proof {
                assert(whole@ =~= "Note '"@ + note_id@ + "' does not exist in folder '"@
                    + from_folder@ + "'"@);
            }
            return Err(whole);
        }
        if target_exists {
            let msg = concat3("Note '", note_id, "' already exists in folder '");
            let tail = concat2(to_folder, "'");
            let whole = concat2(msg.as_str(), tail.as_str());
            proof {
                assert(whole@ =~= "Note '"@ + note_id@ + "' already exists in folder '"@
                    + to_folder@ + "'"@);
            }
            return Err(whole);
        }
        Ok(
            MoveNotePlan {
                source_path,
                target_path,
                target_dir: to_path,
                create_target_dir: !target_dir_exists,
            },
        )
    }

    /// One side of a move: the notes root for `""` or `"All Notes"`,
    /// the validated subdirectory otherwise. Public so the caller
    /// can probe exactly the directories the move will touch.
    pub fn move_side(&self, folder: &str) -> (r: Result<String, String>)
        ensures
            (folder@.len() == 0 || folder@ == "All Notes"@ || token_error_msg(folder@) is None)
                ==> (r matches Ok(p) && p@ == move_side_path(self.notes_dir@, folder@)),
            !(folder@.len() == 0 || folder@ == "All Notes"@) && token_error_msg(folder@)
                is Some ==> (r matches Err(e) && e@ == token_error_msg(folder@).unwrap()),
    {
        if folder.unicode_len() == 0 || str_eq(folder, "All Notes") {
            Ok(self.notes_dir.clone())
        } else {
            validate_path(self.notes_dir.as_str(), folder)?;
            Ok(join_under(&self.notes_dir, folder))
        }
    }

    /// Checks the `.md` file name of `note_id` and, when given, the
    /// folder name; hands back the file name.
    fn checked_note_file(&self, note_id: &str, folder: Option<&str>) -> (r: Result<
        String,
        String,
    >)
        ensures
            note_name_error(note_id@, view_opt_str(folder)) matches Some(m) ==> (r matches Err(
                e,
            ) && e@ == m),
            note_name_error(note_id@, view_opt_str(folder)) is None ==> (r matches Ok(n) && n@
                == md_file_name(note_id@)),
    {
        let file_name = md_name(note_id);
        self.validate_notes_path(file_name.as_str())?;
        if let Some(f) = folder {
            if f.unicode_len() > 0 {
                validate_path(self.notes_dir.as_str(), f)?;
            }
        }
        Ok(file_name)
    }
}

/// The file name of a note id.
pub open spec fn md_file_name(id: Seq<char>) -> Seq<char> {
    id + ".md"@
}

/// `id + ".md"` as a string.
fn md_name(id: &str) -> (r: String)
    ensures
        r@ == md_file_name(id@),
{
    concat2(id, ".md")
}

/// `dir + "/" + name` as a string.
fn join_under(dir: &String, name: &str) -> (r: String)
    ensures
        r@ == joined_path(dir@, name@),
{
    let p = concat3(dir.as_str(), "/", name);
    proof {
        reveal_strlit("/");
        assert(p@ =~= joined_path(dir@, name@));
    }
    p
}

/// Where a note lives: its folder's directory plus its file name.
pub open spec fn note_path(notes_dir: Seq<char>, folder: Option<Seq<char>>, id: Seq<
    char,
>) -> Seq<char> {
    joined_path(spec_folder_path(notes_dir, folder), md_file_name(id))
}

/// The message for a note that is not where it should be.
pub open spec fn missing_note_msg(id: Seq<char>) -> Seq<char> {
    "Note '"@ + id + "' does not exist"@
}

/// The name rejection an id-and-folder pair runs into, if any: first
/// the note's file name is checked, then a non-empty folder name.
pub open spec fn note_name_error(id: Seq<char>, folder: Option<Seq<char>>) -> Option<Seq<
    char,
>> {
    if token_error_msg(md_file_name(id)) is Some {
        token_error_msg(md_file_name(id))
    } else {
        folder_name_error(folder)
    }
}

/// The rejection an optional folder name runs into: a present,
/// non-empty name is checked for the three tokens; `None` and `""`
/// pass.
pub open spec fn folder_name_error(folder: Option<Seq<char>>) -> Option<Seq<char>> {
    match folder {
        Some(f) => if f.len() > 0 {
            token_error_msg(f)
        } else {
            None
        },
        None => None,
    }
}

/// The exact outcome of [`FileSystem::rename_note`].
pub open spec fn rename_note_error(
    id: Seq<char>,
    new_name: Seq<char>,
    folder: Option<Seq<char>>,
    old_exists: bool,
    new_exists: bool,
) -> Option<Seq<char>> {
    if token_error_msg(md_file_name(id)) is Some {
        token_error_msg(md_file_name(id))
    } else if token_error_msg(md_file_name(new_name)) is Some {
        token_error_msg(md_file_name(new_name))
    } else if folder_name_error(folder) is Some {
        folder_name_error(folder)
    } else if !old_exists {
        Some(missing_note_msg(id))
    } else if new_exists {
        Some("Note '"@ + new_name + "' already exists"@)
    } else {
        None
    }
}

/// One side of a move: the notes root for `""` or `"All Notes"`, the
/// named subdirectory otherwise.
pub open spec fn move_side_path(notes_dir: Seq<char>, folder: Seq<char>) -> Seq<char> {
    if folder.len() == 0 || folder == "All Notes"@ {
        notes_dir
    } else {
        joined_path(notes_dir, folder)
    }
}

/// The exact outcome of [`FileSystem::move_note`].
pub open spec fn move_note_error(
    id: Seq<char>,
    from_folder: Seq<char>,
    to_folder: Seq<char>,
    source_exists: bool,
    target_exists: bool,
) -> Option<Seq<char>> {
    if token_error_msg(md_file_name(id)) is Some {
        token_error_msg(md_file_name(id))
    } else if !(from_folder.len() == 0 || from_folder == "All Notes"@) && token_error_msg(
        from_folder,
    ) is Some {
        token_error_msg(from_folder)
    } else if !(to_folder.len() == 0 || to_folder == "All Notes"@) && token_error_msg(
        to_folder,
    ) is Some {
        token_error_msg(to_folder)
    } else if !source_exists {
        Some(
            "Note '"@ + id + "' does not exist in folder '"@ + from_folder + "'"@,
        )
    } else if target_exists {
        Some(
            "Note '"@ + id + "' already exists in folder '"@ + to_folder + "'"@,
        )
    } else {
        None
    }
}

/// The line with its leading `'#'` characters dropped.
pub open spec fn strip_hashes(s: Seq<char>) -> Seq<char>
    decreases s.len(),
{
    if s.len() > 0 && s[0] == '#' {
        strip_hashes(s.drop_first())
    } else {
        s
    }
}

/// The text with leading whitespace dropped.
pub open spec fn trim_front(s: Seq<char>) -> Seq<char>
    decreases s.len(),
{
    if s.len() > 0 && is_space_char(s[0]) {
        trim_front(s.drop_first())
    } else {
        s
    }
}

/// The text with trailing whitespace dropped.
pub open spec fn trim_back(s: Seq<char>) -> Seq<char>
    decreases s.len(),
{
    if s.len() > 0 && is_space_char(s.last()) {
        trim_back(s.drop_last())
    } else {
        s
    }
}

/// What one line contributes as a title: leading `'#'` characters
/// dropped first, then whitespace trimmed on both ends (which also
/// eats a carriage return left by a Windows line break).
pub open spec fn line_title(line: Seq<char>) -> Seq<char> {
    trim_back(trim_front(strip_hashes(line)))
}

/// The length of the first line of `s`: the characters before the
/// first newline, or all of `s` without one.
pub open spec fn spec_line_len(s: Seq<char>) -> int
    decreases s.len(),
{
    if s.len() == 0 {
        0
    } else if s[0] == '\n' {
        0
    } else {
        1 + spec_line_len(s.drop_first())
    }
}

/// The first line's length lies within the text.
pub proof fn lemma_line_len_bounds(s: Seq<char>)
    ensures
        0 <= spec_line_len(s) <= s.len(),
    decreases s.len(),
{
    if s.len() > 0 && s[0] != '\n' {
        lemma_line_len_bounds(s.drop_first());
    }
}

/// The title of the first line that yields one, scanning lines in
/// order; `None` when no line does.
pub open spec fn title_from(s: Seq<char>) -> Option<Seq<char>>
    decreases s.len(),
    via title_from_decreases
{
    let ll = spec_line_len(s);
    let t = line_title(s.take(ll));
    if t.len() > 0 {
        Some(t)
    } else if ll >= s.len() {
        None
    } else {
        title_from(s.skip(ll + 1))
    }
}

#[via_fn]
proof fn title_from_decreases(s: Seq<char>) {
    lemma_line_len_bounds(s);
}

/// A note's display title: the first line title the content yields,
/// the note's id otherwise.
pub open spec fn note_title(content: Seq<char>, id: Seq<char>) -> Seq<char> {
    match title_from(content) {
        Some(t) => t,
        None => id,
    }
}

/// A run of `'#'` characters followed by something else pins
/// `strip_hashes` down to a tail of the text.
proof fn lemma_strip_hashes_skip(s: Seq<char>, h: int)
    requires
        0 <= h <= s.len(),
        forall|j: int| 0 <= j < h ==> s[j] == '#',
        h < s.len() ==> s[h] != '#',
    ensures
        strip_hashes(s) == s.skip(h),
    decreases h,
{
    if h == 0 {
        assert(s.skip(0) =~= s);
    } else {
        assert(s[0] == '#');
        lemma_strip_hashes_skip(s.drop_first(), h - 1);
        assert(s.drop_first().skip(h - 1) =~= s.skip(h));
    }
}

/// A run of whitespace followed by something else pins `trim_front`
/// down to a tail of the text.
proof fn lemma_trim_front_skip(s: Seq<char>, h: int)
    requires
        0 <= h <= s.len(),
        forall|j: int| 0 <= j < h ==> is_space_char(#[trigger] s[j]),
        h < s.len() ==> !is_space_char(s[h]),
    ensures
        trim_front(s) == s.skip(h),
    decreases h,
{
    if h == 0 {
        assert(s.skip(0) =~= s);
    } else {
        assert(is_space_char(s[0]));
        lemma_trim_front_skip(s.drop_first(), h - 1);
        assert(s.drop_first().skip(h - 1) =~= s.skip(h));
    }
}

/// Trailing whitespace from position `k` on pins `trim_back` down to
/// a front of the text.
proof fn lemma_trim_back_take(s: Seq<char>, k: int)
    requires
        0 <= k <= s.len(),
        forall|j: int| k <= j < s.len() ==> is_space_char(#[trigger] s[j]),
        k > 0 ==> !is_space_char(s[k - 1]),
    ensures
        trim_back(s) == s.take(k),
    decreases s.len(),
{
    if k == s.len() {
        if s.len() == 0 || !is_space_char(s.last()) {
            assert(s.take(k) =~= s);
        } else {
            assert(!is_space_char(s[k - 1]));
            assert(false);
        }
    } else {
        assert(is_space_char(s.last()));
        lemma_trim_back_take(s.drop_last(), k);
        assert(s.drop_last().take(k) =~= s.take(k));
    }
}

/// No newline before position `k`, and one at `k` if within range,
/// pins the first line's length to `k`.
proof fn lemma_line_len_at(s: Seq<char>, k: int)
    requires
        0 <= k <= s.len(),
        forall|j: int| 0 <= j < k ==> s[j] != '\n',
        k < s.len() ==> s[k] == '\n',
    ensures
        spec_line_len(s) == k,
    decreases k,
{
    if k == 0 {
    } else {
        assert(s[0] != '\n');
        lemma_line_len_at(s.drop_first(), k - 1);
    }
}

/// The title one line yields, by [`line_title`].
fn line_title_exec(line: &str) -> (r: String)
    ensures
        r@ == line_title(line@),
{
    let n = line.unicode_len();
    let mut h: usize = 0;
    while h < n && line.get_char(h) == '#'
        invariant
            n == line@.len(),
            h <= n,
            forall|j: int| 0 <= j < h ==> line@[j] == '#',
        decreases n - h,
    {
        h = h + 1;
    }
    let mut a: usize = h;
    while a < n && is_space_exec(line.get_char(a))
        invariant
            n == line@.len(),
            h <= a <= n,
            forall|j: int| h <= j < a ==> is_space_char(#[trigger] line@[j]),
        decreases n - a,
    {
        a = a + 1;
    }
    let mut b: usize = n;
    while b > a && is_space_exec(line.get_char(b - 1))
        invariant
            n == line@.len(),
            a <= b <= n,
            forall|j: int| b <= j < n ==> is_space_char(#[trigger] line@[j]),
        decreases b,
    {
        b = b - 1;
    }
    let t = line.substring_char(a, b);
    proof {
        lemma_strip_hashes_skip(line@, h as int);
        lemma_trim_front_skip(line@.skip(h as int), (a - h) as int);
        assert(line@.skip(h as int).skip((a - h) as int) =~= line@.skip(a as int));
        lemma_trim_back_take(line@.skip(a as int), (b - a) as int);
        assert(line@.skip(a as int).take((b - a) as int) =~= line@.subrange(
            a as int,
            b as int,
        ));
    }
    t.to_owned()
}

/// Whitespace in the sense of [`is_space_char`].
fn is_space_exec(c: char) -> (r: bool)
    ensures
        r == is_space_char(c),
{
    c == ' ' || c == '\t' || c == '\n' || c == '\r' || c == '\u{b}' || c == '\u{c}'
}

/// Extracts a note's title from its content: the first line that,
/// after dropping leading `'#'` characters and trimming whitespace,
/// leaves something; `None` when no line does.
pub fn extract_note_title(content: &str) -> (r: Option<String>)
    ensures
        title_from(content@) matches Some(t) ==> (r matches Some(x) && x@ == t),
        title_from(content@) is None ==> r is None,
    decreases content@.len(),
{
    let n = content.unicode_len();
    let mut ll: usize = 0;
    while ll < n && content.get_char(ll) != '\n'
        invariant
            n == content@.len(),
            ll <= n,
            forall|j: int| 0 <= j < ll ==> content@[j] != '\n',
        decreases n - ll,
    {
        ll = ll + 1;
    }
    proof {
        lemma_line_len_at(content@, ll as int);
    }
    let line = content.substring_char(0, ll);
    proof {
        assert(line@ =~= content@.take(ll as int));
    }
    let t = line_title_exec(line);
    if t.as_str().unicode_len() > 0 {
        Some(t)
    } else if ll == n {
        None
    } else {
        let rest = content.substring_char(ll + 1, n);
        proof {
            assert(rest@ =~= content@.skip(ll + 1));
        }
        extract_note_title(rest)
    }
}

/// One entry of a directory scan, as the surrounding program reads
/// it: the entry's name and whether it is a directory.
#[derive(Debug)]
pub struct DirEntry {
    pub name: String,
    pub is_dir: bool,
}

/// One file of a notes scan, as the surrounding program reads it:
/// name and folder, the file's content, and its timestamps in epoch
/// milliseconds (`created` is `None` where the platform keeps none).
#[derive(Debug)]
pub struct NoteFileData {
    pub file_name: String,
    pub folder: String,
    pub content: String,
    pub modified: i64,
    pub created: Option<i64>,
}

/// The abstract value of one scanned file.
pub struct FileView {
    pub file_name: Seq<char>,
    pub folder: Seq<char>,
    pub content: Seq<char>,
    pub modified: int,
    pub created: Option<int>,
}

impl View for NoteFileData {
    type V = FileView;

    open spec fn view(&self) -> FileView {
        FileView {
            file_name: self.file_name@,
            folder: self.folder@,
            content: self.content@,
            modified: self.modified as int,
            created: match self.created {
                Some(c) => Some(c as int),
                None => None,
            },
        }
    }
}

/// The abstract value of one listed note.
pub struct NoteView {
    pub id: Seq<char>,
    pub title: Seq<char>,
    pub modified: int,
    pub created: int,
    pub folder: Seq<char>,
    pub pinned: bool,
}

impl View for NoteInfo {
    type V = NoteView;

    open spec fn view(&self) -> NoteView {
        NoteView {
            id: self.id@,
            title: self.title@,
            modified: self.modified as int,
            created: self.created as int,
            folder: self.folder@,
            pinned: self.pinned,
        }
    }
}

/// The abstract values of a list of notes.
pub open spec fn note_views(s: Seq<NoteInfo>) -> Seq<NoteView> {
    s.map_values(|n: NoteInfo| n@)
}

/// Whether a file name is a note's: something before a literal `.md`.
pub open spec fn is_md_name(name: Seq<char>) -> bool {
    name.len() > 3 && name.subrange(name.len() - 3, name.len() as int) == ".md"@
}

/// The note a scanned file yields: id from the file name, title from
/// the content with the id as fallback, the modified time standing in
/// for a missing created time, pin state from the pinned list.
pub open spec fn note_view_of(f: FileView, pinned: Seq<Seq<char>>) -> NoteView {
    let id = f.file_name.take(f.file_name.len() - 3);
    NoteView {
        id: id,
        title: note_title(f.content, id),
        modified: f.modified,
        created: match f.created {
            Some(c) => c,
            None => f.modified,
        },
        folder: f.folder,
        pinned: pinned.contains(id),
    }
}

/// The notes of a scan, in scan order: every `.md` file, turned into
/// its note.
pub open spec fn notes_model(files: Seq<FileView>, pinned: Seq<Seq<char>>) -> Seq<NoteView>
    decreases files.len(),
{
    if files.len() == 0 {
        Seq::empty()
    } else {
        let rest = notes_model(files.drop_last(), pinned);
        if is_md_name(files.last().file_name) {
            rest.push(note_view_of(files.last(), pinned))
        } else {
            rest
        }
    }
}

/// The listing order: pinned notes before unpinned ones; within each
/// group, newer (larger modified time) first.
pub open spec fn note_le(a: NoteView, b: NoteView) -> bool {
    if a.pinned != b.pinned {
        a.pinned
    } else {
        a.modified >= b.modified
    }
}

/// Whether a listing is in order.
pub open spec fn notes_sorted(s: Seq<NoteView>) -> bool {
    forall|i: int, j: int| 0 <= i < j < s.len() ==> note_le(s[i], s[j])
}

/// The listing order is total.
proof fn lemma_note_le_total(a: NoteView, b: NoteView)
    ensures
        note_le(a, b) || note_le(b, a),
{
}

/// The listing order is transitive.
proof fn lemma_note_le_trans(a: NoteView, b: NoteView, c: NoteView)
    ensures
        note_le(a, b) && note_le(b, c) ==> note_le(a, c),
{
}

/// Where one more note lands among already-ordered ones: after every
/// note the order puts at or before it, ahead of the rest — so notes
/// the order does not tell apart keep their arrival order.
pub open spec fn insert_sorted(s: Seq<NoteView>, x: NoteView) -> Seq<NoteView>
    decreases s.len(),
{
    if s.len() == 0 {
        seq![x]
    } else if note_le(s[0], x) {
        seq![s[0]] + insert_sorted(s.drop_first(), x)
    } else {
        seq![x] + s
    }
}

/// The listing order applied stably: the notes are placed one after
/// another, in the order they arrive.
pub open spec fn stable_sorted(s: Seq<NoteView>) -> Seq<NoteView>
    decreases s.len(),
{
    if s.len() == 0 {
        s
    } else {
        insert_sorted(stable_sorted(s.drop_last()), s.last())
    }
}

/// Inserting at the first position the order refuses is what
/// `insert_sorted` does.
proof fn lemma_insert_sorted_at(s: Seq<NoteView>, x: NoteView, pos: int)
    requires
        0 <= pos <= s.len(),
        forall|j: int| 0 <= j < pos ==> note_le(#[trigger] s[j], x),
        pos < s.len() ==> !note_le(s[pos], x),
    ensures
        insert_sorted(s, x) == s.insert(pos, x),
    decreases pos,
{
    if pos == 0 {
        if s.len() == 0 {
            assert(seq![x] =~= s.insert(0, x));
        } else {
            assert(!note_le(s[0], x));
            assert(seq![x] + s =~= s.insert(0, x));
        }
    } else {
        assert(note_le(s[0], x));
        lemma_insert_sorted_at(s.drop_first(), x, pos - 1);
        assert(seq![s[0]] + s.drop_first().insert(pos - 1, x) =~= s.insert(pos, x));
    }
}

/// The names of the directories among scanned entries, in scan
/// order.
pub open spec fn dir_names(es: Seq<DirEntry>) -> Seq<Seq<char>>
    decreases es.len(),
{
    if es.len() == 0 {
        Seq::empty()
    } else {
        let rest = dir_names(es.drop_last());
        if es.last().is_dir {
            rest.push(es.last().name@)
        } else {
            rest
        }
    }
}

/// The abstract values of scanned files.
pub open spec fn file_views(s: Seq<NoteFileData>) -> Seq<FileView> {
    s.map_values(|f: NoteFileData| f@)
}

/// Which directories a notes listing walks: every folder (the notes
/// root and each first-level subdirectory), or one named folder.
#[derive(Debug)]
pub enum NoteScan {
    /// Scan the notes root and every first-level subdirectory.
    AllFolders,
    /// Scan exactly this directory.
    SingleFolder(String),
}

/// Whether a folder filter means "no restriction".
pub open spec fn scan_all(folder: Option<Seq<char>>) -> bool {
    match folder {
        None => true,
        Some(f) => f.len() == 0 || f == "All Notes"@,
    }
}

/// The message for listing a folder that is not there.
pub open spec fn missing_folder_msg(name: Seq<char>) -> Seq<char> {
    "Folder '"@ + name + "' does not exist"@
}

impl FileSystem {
    /// Lists the folders of a scan of the notes root: the virtual
    /// "All Notes" entry first (path identifier `""`), then exactly
    /// the scanned first-level directories, in scan order, each with
    /// its own name as path identifier.
    pub fn list_folders(&self, entries: Vec<DirEntry>) -> (r: Vec<FolderInfo>)
        ensures
            r@.len() == 1 + dir_names(entries@).len(),
            r@[0].name@ == "All Notes"@,
            r@[0].path@ == Seq::<char>::empty(),
            forall|i: int|
                1 <= i < r@.len() ==> (#[trigger] r@[i]).name@ == dir_names(entries@)[i - 1]
                    && r@[i].path@ == r@[i].name@,
    {
        let mut folders: Vec<FolderInfo> = Vec::new();
        folders.push(FolderInfo { name: "All Notes".to_owned(), path: String::new() });
        let n = entries.len();
        let mut i: usize = 0;
        while i < n
            invariant
                n == entries@.len(),
                i <= n,
                folders@.len() == 1 + dir_names(entries@.take(i as int)).len(),
                folders@[0].name@ == "All Notes"@,
                folders@[0].path@ == Seq::<char>::empty(),
                forall|k: int|
                    1 <= k < folders@.len() ==> (#[trigger] folders@[k]).name@ == dir_names(
                        entries@.take(i as int),
                    )[k - 1] && folders@[k].path@ == folders@[k].name@,
            decreases n - i,
        {
            proof {
                assert(entries@.take(i + 1).drop_last() =~= entries@.take(i as int));
                assert(entries@.take(i + 1).last() == entries@[i as int]);
            }
            if entries[i].is_dir {
                let name = entries[i].name.clone();
                let path = entries[i].name.clone();
                folders.push(FolderInfo { name, path });
            }
            i = i + 1;
        }
        proof {
            assert(entries@.take(n as int) =~= entries@);
        }
        folders
    }

    /// Decides which directories a notes listing walks. `None`, `""`
    /// and `"All Notes"` mean every folder; any other name means that
    /// folder alone, which must exist (`folder_exists` is its probed
    /// state).
    pub fn plan_note_scan(&self, folder: Option<&str>, folder_exists: bool) -> (r: Result<
        NoteScan,
        String,
    >)
        ensures
            scan_all(view_opt_str(folder)) ==> (r matches Ok(p) && p is AllFolders),
            !scan_all(view_opt_str(folder)) && !folder_exists ==> (r matches Err(e) && e@
                == missing_folder_msg(view_opt_str(folder).unwrap())),
            !scan_all(view_opt_str(folder)) && folder_exists ==> (r matches Ok(p) && p matches
                NoteScan::SingleFolder(d) && d@ == joined_path(
                self.notes_dir@,
                view_opt_str(folder).unwrap(),
            )),
    {
        match folder {
            Some(name) if name.unicode_len() > 0 && !str_eq(name, "All Notes") => {
                if !folder_exists {
                    return Err(concat3("Folder '", name, "' does not exist"));
                }
                let dir = join_under(&self.notes_dir, name);
                Ok(NoteScan::SingleFolder(dir))
            },
            _ => Ok(NoteScan::AllFolders),
        }
    }

    /// Turns a scan's files into the notes listing: every `.md` file
    /// becomes a note (id from the file name, title from the content,
    /// pin state from the pinned list), and the result is exactly the
    /// scan's notes under the stable listing order: pinned notes
    /// first, newer before older within each group, and notes the
    /// order does not tell apart in scan order.
    pub fn list_notes(&self, files: Vec<NoteFileData>, pinned_notes: &Vec<String>) -> (r: Vec<
        NoteInfo,
    >)
        ensures
            note_views(r@) == stable_sorted(
                notes_model(file_views(files@), ids_view(pinned_notes@)),
            ),
            notes_sorted(note_views(r@)),
    {
        let ghost pids = ids_view(pinned_notes@);
        let ghost whole = notes_model(file_views(files@), pids);
        let mut rest = files;
        let mut acc: Vec<NoteInfo> = Vec::new();
        proof {
            assert(notes_model(file_views(rest@), pids) + note_views(acc@) =~= whole);
        }
        while rest.len() > 0
            invariant
                pids == ids_view(pinned_notes@),
                whole == notes_model(file_views(files@), pids),
                notes_model(file_views(rest@), pids) + note_views(acc@) == whole,
            decreases rest.len(),
        {
            let ghost old_rest = rest@;
            let ghost old_acc = acc@;
            let f = match rest.pop() {
                Some(f) => f,
                None => {
                    proof {
                        assert(false);
                    }
                    continue ;
                },
            };
            proof {
                assert(file_views(old_rest) =~= file_views(rest@).push(f@));
                assert(file_views(old_rest).drop_last() =~= file_views(rest@));
                assert(file_views(old_rest).last() == f@);
                reveal_strlit(".md");
            }
            let name_len = f.file_name.as_str().unicode_len();
            if name_len > 3 && str_ends_with(f.file_name.as_str(), ".md") {
                proof {
                    assert(f.file_name@.subrange(
                        f.file_name@.len() - 3,
                        f.file_name@.len() as int,
                    ) == ".md"@);
                    assert(is_md_name(f@.file_name));
                }
                let note = build_note(f, pinned_notes);
                // the scan walks files forward while this loop takes
                // them from the back, so the note goes to the front:
                // the unsorted listing keeps the scan order
                acc.insert(0, note);
                proof {
                    assert(note_views(acc@) =~= seq![note@] + note_views(old_acc));
                    assert(notes_model(file_views(old_rest), pids) == notes_model(
                        file_views(rest@),
                        pids,
                    ).push(note_view_of(f@, pids)));
                    assert(notes_model(file_views(rest@), pids) + note_views(acc@)
                        =~= notes_model(file_views(old_rest), pids) + note_views(old_acc));
                }
            } else {
                proof {
                    assert(!is_md_name(f@.file_name)) by {
                        if is_md_name(f@.file_name) {
                            assert(f.file_name@.len() > 3);
                            assert(is_suffix_of(".md"@, f.file_name@));
                        }
                    }
                    assert(notes_model(file_views(old_rest), pids) == notes_model(
                        file_views(rest@),
                        pids,
                    ));
                }
            }
        }
        proof {
            assert(file_views(rest@) =~= Seq::<FileView>::empty());
            assert(notes_model(file_views(rest@), pids) + note_views(acc@) =~= note_views(
                acc@,
            ));
            assert(note_views(acc@) == whole);
        }
        sort_notes(acc)
    }
}

/// The note one scanned `.md` file yields.
fn build_note(f: NoteFileData, pinned: &Vec<String>) -> (r: NoteInfo)
    requires
        is_md_name(f@.file_name),
    ensures
        r@ == note_view_of(f@, ids_view(pinned@)),
{
    let name_len = f.file_name.as_str().unicode_len();
    let id_slice = f.file_name.as_str().substring_char(0, name_len - 3);
    proof {
        assert(id_slice@ =~= f.file_name@.take(f.file_name@.len() - 3));
    }
    let id = id_slice.to_owned();
    let title = match extract_note_title(f.content.as_str()) {
        Some(t) => t,
        None => id.clone(),
    };
    let pinned_flag = contains_id(pinned, id.as_str());
    let created = match f.created {
        Some(c) => c,
        None => f.modified,
    };
    NoteInfo {
        id,
        title,
        modified: f.modified,
        created,
        folder: f.folder,
        pinned: pinned_flag,
    }
}

/// Whether an id occurs in a pinned list.
pub fn contains_id(list: &Vec<String>, id: &str) -> (r: bool)
    ensures
        r == ids_view(list@).contains(id@),
{
    let n = list.len();
    let mut i: usize = 0;
    while i < n
        invariant
            n == list@.len(),
            i <= n,
            forall|j: int| 0 <= j < i ==> ids_view(list@)[j] != id@,
        decreases n - i,
    {
        if str_eq(list[i].as_str(), id) {
            proof {
                assert(ids_view(list@)[i as int] == id@);
            }
            return true;
        }
        i = i + 1;
    }
    proof {
        if ids_view(list@).contains(id@) {
            let k = choose|k: int|
                0 <= k < ids_view(list@).len() && ids_view(list@)[k] == id@;
            assert(false);
        }
    }
    false
}

/// Orders two notes by the listing order.
fn note_le_exec(a: &NoteInfo, b: &NoteInfo) -> (r: bool)
    ensures
        r == note_le(a@, b@),
{
    if a.pinned != b.pinned {
        a.pinned
    } else {
        a.modified >= b.modified
    }
}

/// Sorts notes by the listing order, stably: the result is exactly
/// [`stable_sorted`] of the given notes.
fn sort_notes(notes: Vec<NoteInfo>) -> (r: Vec<NoteInfo>)
    ensures
        note_views(r@) == stable_sorted(note_views(notes@)),
        notes_sorted(note_views(r@)),
{
    let mut rest = notes;
    let mut out: Vec<NoteInfo> = Vec::new();
    let ghost mut done: int = 0;
    proof {
        assert(rest@ =~= notes@.skip(0));
        assert(note_views(notes@.take(0)) =~= Seq::<NoteView>::empty());
        assert(note_views(out@) =~= stable_sorted(note_views(notes@.take(0))));
    }
    while rest.len() > 0
        invariant
            0 <= done <= notes@.len(),
            rest@ == notes@.skip(done),
            notes_sorted(note_views(out@)),
            note_views(out@) == stable_sorted(note_views(notes@.take(done))),
        decreases rest.len(),
    {
        let ghost old_rest = rest@;
        let ghost old_out = out@;
        // taking from the front keeps the incoming order among notes
        // the ordering does not tell apart, so ties stay stable
        let x = rest.remove(0);
        proof {
            assert(x == notes@[done]);
            assert(rest@ =~= notes@.skip(done + 1));
        }
        let mut pos: usize = 0;
        while pos < out.len() && note_le_exec(&out[pos], &x)
            invariant
                pos <= out@.len(),
                out@ == old_out,
                forall|j: int| 0 <= j < pos ==> note_le(note_views(out@)[j], x@),
            decreases out@.len() - pos,
        {
            pos = pos + 1;
        }
        proof {
            if pos < out@.len() {
                lemma_note_le_total(note_views(out@)[pos as int], x@);
            }
            assert forall|j: int| pos <= j < out@.len() implies note_le(
                x@,
                note_views(out@)[j],
            ) by {
                if j > pos {
                    lemma_note_le_trans(x@, note_views(out@)[pos as int], note_views(out@)[j]);
                }
            }
            lemma_insert_sorted_at(note_views(old_out), x@, pos as int);
        }
        out.insert(pos, x);
        proof {
            assert(note_views(out@) =~= note_views(old_out).insert(pos as int, x@));
            let nv = note_views(out@);
            assert(notes_sorted(nv)) by {
                assert forall|i: int, j: int| 0 <= i < j < nv.len() implies note_le(
                    nv[i],
                    nv[j],
                ) by {
                    assert(forall|k: int|
                        0 <= k < pos ==> nv[k] == note_views(old_out)[k]);
                    assert(forall|k: int|
                        pos < k < nv.len() ==> nv[k] == note_views(old_out)[k - 1]);
                    assert(nv[pos as int] == x@);
                }
            }
            assert(note_views(notes@.take(done + 1)).drop_last() =~= note_views(
                notes@.take(done),
            ));
            assert(note_views(notes@.take(done + 1)).last() == x@);
            assert(note_views(out@) == stable_sorted(note_views(notes@.take(done + 1))));
            done = done + 1;
        }
    }
    proof {
        assert(notes@.take(done) =~= notes@);
    }
    out
}

/// The disk after a recursive folder removal:/// The disk after a recursive folder removal: every path at or under
/// the folder is gone, everything else is untouched.
pub open spec fn disk_after_delete_folder(
    disk: Map<Seq<char>, Seq<char>>,
    folder_path: Seq<char>,
) -> Map<Seq<char>, Seq<char>> {
    Map::new(
        |p: Seq<char>| disk.contains_key(p) && !crate::paths::within_base(p, folder_path),
        |p: Seq<char>| disk[p],
    )
}

/// Deleting a folder removes every note it contained: whatever id a
/// file under the folder carried, the file is gone afterwards, and
/// files outside the folder keep their content.
pub proof fn lemma_delete_folder_removes_contents(
    disk: Map<Seq<char>, Seq<char>>,
    folder_path: Seq<char>,
    id: Seq<char>,
    other: Seq<char>,
)
    requires
        !crate::paths::within_base(other, folder_path),
        disk.contains_key(other),
    ensures
        !disk_after_delete_folder(disk, folder_path).contains_key(
            joined_path(folder_path, md_file_name(id)),
        ),
        disk_after_delete_folder(disk, folder_path)[other] == disk[other],
{
    let inside = joined_path(folder_path, md_file_name(id));
    assert(crate::paths::within_base(inside, folder_path)) by {
        assert(inside.subrange(0, folder_path.len() as int + 1) =~= folder_path + seq!['/']);
    }
}

/// A folder that a successful deletion removed can never be listed
/// again: a deletable name is neither the virtual root nor empty, so
/// a listing of it, once the directory is gone, fails with the
/// missing-folder error.
pub proof fn lemma_deleted_folder_listing_fails(name: Seq<char>)
    requires
        delete_folder_error(name, true, true) is None,
    ensures
        !scan_all(Some(name)),
{
    assert(!is_blank(name));
    assert(name.len() > 0);
    assert(!is_protected(name));
}

/// A lowercase hexadecimal digit.
pub open spec fn is_lower_hex(c: char) -> bool {
    48 <= c as u32 <= 57 || 97 <= c as u32 <= 102
}

/// The shape of a printed version-4 UUID: five lowercase-hex groups
/// of 8, 4, 4, 4 and 12 digits joined by hyphens, the version nibble
/// `4`, and a variant nibble among `8`, `9`, `a`, `b`.
pub open spec fn is_uuid_v4_text(u: Seq<char>) -> bool {
    &&& u.len() == 36
    &&& u[8] == '-' && u[13] == '-' && u[18] == '-' && u[23] == '-'
    &&& forall|i: int|
        0 <= i < 36 && i != 8 && i != 13 && i != 18 && i != 23 ==> is_lower_hex(
            #[trigger] u[i],
        )
    &&& u[14] == '4'
    &&& (u[19] == '8' || u[19] == '9' || u[19] == 'a' || u[19] == 'b')
}

/// The shape of a generated note id: `"note-"` followed by a printed
/// version-4 UUID.
pub open spec fn is_new_note_id(id: Seq<char>) -> bool {
    &&& id.len() == 41
    &&& id.subrange(0, 5) == "note-"@
    &&& is_uuid_v4_text(id.skip(5))
}

/// Relies on `uuid::Uuid::new_v4` and its hyphenated `Display` form:
/// a fresh version-4 UUID prints as the 8-4-4-4-12 lowercase-hex
/// groups with the version nibble `4` and a variant nibble among
/// `8`, `9`, `a`, `b`.
#[verifier::external_body]
fn new_uuid_string() -> (r: String)
    ensures
        is_uuid_v4_text(r@),
{
    uuid::Uuid::new_v4().to_string()
}

/// Relies on `chrono::Utc::now` formatted with `%Y%m%d%H%M%S%3f`:
/// for any present-day clock reading, exactly seventeen decimal
/// digits, year down to the millisecond.
#[verifier::external_body]
fn utc_timestamp_millis() -> (r: String)
    ensures
        r@.len() == 17,
        forall|i: int| 0 <= i < r@.len() ==> is_ascii_digit(#[trigger] r@[i]),
{
    chrono::Utc::now().format("%Y%m%d%H%M%S%3f").to_string()
}

/// Relies on `chrono::Utc::now` formatted with `%Y%m%d%H%M%S`: for
/// any present-day clock reading, exactly fourteen decimal digits.
#[verifier::external_body]
fn utc_timestamp_seconds() -> (r: String)
    ensures
        r@.len() == 14,
        forall|i: int| 0 <= i < r@.len() ==> is_ascii_digit(#[trigger] r@[i]),
{
    chrono::Utc::now().format("%Y%m%d%H%M%S").to_string()
}

/// What the standard base64 alphabet decodes `s` to, if anything:
/// the result of `base64::engine::general_purpose::STANDARD`'s
/// decode, which depends on the input alone.
pub uninterp spec fn b64_decode_of(s: Seq<char>) -> Option<Seq<u8>>;

/// Relies on base64's standard-alphabet decode: success and the
/// decoded bytes depend on the input alone, and the empty input
/// decodes to no bytes.
#[verifier::external_body]
fn b64_decode(s: &str) -> (r: Result<Vec<u8>, String>)
    ensures
        (r is Ok) == (b64_decode_of(s@) is Some),
        r matches Ok(v) ==> v@ == b64_decode_of(s@).unwrap(),
{
    match base64::engine::general_purpose::STANDARD.decode(s) {
        Ok(v) => Ok(v),
        Err(e) => Err(e.to_string()),
    }
}

/// What a note creation hands to the disk: the fresh id, the folder
/// to make sure of, the file to create and its fixed first content.
#[derive(Debug)]
pub struct CreateNotePlan {
    /// The generated note id.
    pub note_id: String,
    /// The directory the note lands in.
    pub folder_path: String,
    /// The file to create.
    pub note_path: String,
    /// Whether the directory still has to be created.
    pub create_folder: bool,
    /// The default content of a fresh note.
    pub content: String,
}

/// What a screenshot save hands to the disk: the image id, the file
/// to write and the decoded bytes.
#[derive(Debug)]
pub struct ScreenshotPlan {
    /// The generated image id.
    pub image_id: String,
    /// The file to write.
    pub file_path: String,
    /// The decoded image bytes.
    pub data: Vec<u8>,
    /// Whether the assets directory still has to be created.
    pub create_assets_dir: bool,
}

/// The characters of `s` before its first comma (all of `s` without
/// one).
pub open spec fn before_comma(s: Seq<char>) -> int
    decreases s.len(),
{
    if s.len() == 0 {
        0
    } else if s[0] == ',' {
        0
    } else {
        1 + before_comma(s.drop_first())
    }
}

/// The base64 payload of a screenshot argument: everything after the
/// first comma when there is one (a `data:...;base64,` prefix), the
/// whole text otherwise.
pub open spec fn stripped_payload(s: Seq<char>) -> Seq<char> {
    let k = before_comma(s);
    if k < s.len() {
        s.skip(k + 1)
    } else {
        s
    }
}

/// No comma before `k`, and one at `k` if within range, pins
/// [`before_comma`] to `k`.
proof fn lemma_before_comma_at(s: Seq<char>, k: int)
    requires
        0 <= k <= s.len(),
        forall|j: int| 0 <= j < k ==> s[j] != ',',
        k < s.len() ==> s[k] == ',',
    ensures
        before_comma(s) == k,
    decreases k,
{
    if k > 0 {
        assert(s[0] != ',');
        lemma_before_comma_at(s.drop_first(), k - 1);
    }
}

/// The shape of a generated image id: `"screenshot-"` followed by a
/// seventeen-digit timestamp.
pub open spec fn is_image_id(id: Seq<char>) -> bool {
    &&& id.len() == 28
    &&& id.subrange(0, 11) == "screenshot-"@
    &&& forall|i: int| 11 <= i < id.len() ==> is_ascii_digit(#[trigger] id[i])
}

impl FileSystem {
    /// Decides a note creation: generates a fresh `note-<UUID>` id,
    /// checks the folder name and hands back the file to create with
    /// the default content.
    pub fn create_note(&self, folder: Option<&str>, folder_exists: bool) -> (r: Result<
        CreateNotePlan,
        String,
    >)
        ensures
            folder_name_error(view_opt_str(folder)) matches Some(m) ==> (r matches Err(e) && e@
                == m),
            folder_name_error(view_opt_str(folder)) is None ==> (r matches Ok(plan)
                && is_new_note_id(plan.note_id@) && plan.folder_path@ == spec_folder_path(
                self.notes_dir@,
                view_opt_str(folder),
            ) && plan.note_path@ == note_path(
                self.notes_dir@,
                view_opt_str(folder),
                plan.note_id@,
            ) && plan.create_folder == !folder_exists && plan.content@ == "# New Note\n\n"@),
    {
        let uuid = new_uuid_string();
        let note_id = concat2("note-", uuid.as_str());
        proof {
            reveal_strlit("note-");
            assert(note_id@.subrange(0, 5) =~= "note-"@);
            assert(note_id@.skip(5) =~= uuid@);
        }
        let file_name = md_name(note_id.as_str());
        if let Some(f) = folder {
            if f.unicode_len() > 0 {
                validate_path(self.notes_dir.as_str(), f)?;
            }
        }
        let folder_path = self.get_folder_path(folder);
        let note_path = join_under(&folder_path, file_name.as_str());
        Ok(
            CreateNotePlan {
                note_id,
                folder_path,
                note_path,
                create_folder: !folder_exists,
                content: "# New Note\n\n".to_owned(),
            },
        )
    }

    /// Decides a screenshot save: strips an optional `data:...;base64,`
    /// prefix up to the first comma, decodes the base64 payload,
    /// rejects an empty decoded image, and names the file after a
    /// millisecond timestamp under the assets directory.
    pub fn save_screenshot(&self, base64_data: &str, assets_dir_exists: bool) -> (r: Result<
        ScreenshotPlan,
        String,
    >)
        ensures
            b64_decode_of(stripped_payload(base64_data@)) is None ==> (r matches Err(e)
                && is_prefix_of("Failed to decode base64 image data: "@, e@)),
            b64_decode_of(stripped_payload(base64_data@)) is Some && b64_decode_of(
                stripped_payload(base64_data@),
            ).unwrap().len() == 0 ==> (r matches Err(e) && e@ == "Image data is empty"@),
            b64_decode_of(stripped_payload(base64_data@)) is Some && b64_decode_of(
                stripped_payload(base64_data@),
            ).unwrap().len() > 0 ==> (r matches Ok(plan) && plan.data@ == b64_decode_of(
                stripped_payload(base64_data@),
            ).unwrap() && is_image_id(plan.image_id@) && plan.file_path@ == joined_path(
                self.assets_dir@,
                plan.image_id@ + ".png"@,
            ) && plan.create_assets_dir == !assets_dir_exists),
    {
        let n = base64_data.unicode_len();
        let mut k: usize = 0;
        while k < n && base64_data.get_char(k) != ','
            invariant
                n == base64_data@.len(),
                k <= n,
                forall|j: int| 0 <= j < k ==> base64_data@[j] != ',',
            decreases n - k,
        {
            k = k + 1;
        }
        proof {
            lemma_before_comma_at(base64_data@, k as int);
        }
        let payload = if k < n {
            base64_data.substring_char(k + 1, n)
        } else {
            base64_data
        };
        proof {
            assert(payload@ =~= stripped_payload(base64_data@));
        }
        let data = match b64_decode(payload) {
            Ok(d) => d,
            Err(e) => {
                let msg = concat2("Failed to decode base64 image data: ", e.as_str());
                proof {
                    assert(msg@.subrange(
                        0,
                        "Failed to decode base64 image data: "@.len() as int,
                    ) =~= "Failed to decode base64 image data: "@);
                }
                return Err(msg);
            },
        };
        if data.len() == 0 {
            return Err("Image data is empty".to_owned());
        }
        let timestamp = utc_timestamp_millis();
        let image_id = concat2("screenshot-", timestamp.as_str());
        proof {
            reveal_strlit("screenshot-");
            assert(image_id@.subrange(0, 11) =~= "screenshot-"@);
            assert(forall|i: int|
                11 <= i < image_id@.len() ==> is_ascii_digit(#[trigger] image_id@[i]));
        }
        let file_name = concat2(image_id.as_str(), ".png");
        let file_path = join_under(&self.assets_dir, file_name.as_str());
        Ok(
            ScreenshotPlan {
                image_id,
                file_path,
                data,
                create_assets_dir: !assets_dir_exists,
            },
        )
    }

    /// Decides an external markdown import, the one deliberate escape
    /// from the confinement boundary: the path's final component must
    /// be a name with a literal `.md` extension, and the target must
    /// be an existing regular file (`exists` and `is_file` are the
    /// probed states). Hands back the file's name; the caller reads
    /// the content and canonicalizes the path.
    pub fn read_external_file(&self, file_path: &str, exists: bool, is_file: bool) -> (r:
        Result<String, String>)
        ensures
            read_external_error(file_path@, exists, is_file) matches Some(m) ==> (r matches Err(
                e,
            ) && e@ == m),
            read_external_error(file_path@, exists, is_file) is None ==> (r matches Ok(n) && n@
                == last_component(file_path@)),
    {
        let n = file_path.unicode_len();
        let mut k: usize = n;
        while k > 0 && !(file_path.get_char(k - 1) == '/')
            invariant
                n == file_path@.len(),
                k <= n,
                forall|j: int| k <= j < n ==> file_path@[j] != '/',
            decreases k,
        {
            k = k - 1;
        }
        proof {
            lemma_last_component_from(file_path@, k as int);
        }
        let name = file_path.substring_char(k, n);
        proof {
            assert(name@ =~= file_path@.skip(k as int));
            reveal_strlit(".md");
        }
        let name_len = name.unicode_len();
        if !(name_len > 3 && str_ends_with(name, ".md")) {
            proof {
                if external_md_ok(file_path@) {
                    assert(last_component(file_path@).subrange(
                        name@.len() - 3,
                        name@.len() as int,
                    ) == ".md"@);
                    assert(is_suffix_of(".md"@, name@));
                }
            }
            return Err("File must have .md extension".to_owned());
        }
        proof {
            assert(external_md_ok(file_path@)) by {
                assert(is_suffix_of(".md"@, name@));
                assert(name@.subrange(name@.len() - 3, name@.len() as int) == ".md"@);
            }
        }
        if !exists {
            return Err(concat2("File does not exist: ", file_path));
        }
        if !is_file {
            return Err(concat2("Path is not a file: ", file_path));
        }
        Ok(name.to_owned())
    }
}

/// The final component of a path: everything after the last
/// separator, or the whole path without one.
pub open spec fn last_component(s: Seq<char>) -> Seq<char>
    decreases s.len(),
{
    if s.len() == 0 {
        s
    } else if s.last() == '/' {
        Seq::empty()
    } else {
        last_component(s.drop_last()).push(s.last())
    }
}

/// No separator at or after `k`, and one just before if `k` is
/// positive, pins the final component to the tail from `k`.
proof fn lemma_last_component_from(s: Seq<char>, k: int)
    requires
        0 <= k <= s.len(),
        forall|j: int| k <= j < s.len() ==> s[j] != '/',
        k > 0 ==> s[k - 1] == '/',
    ensures
        last_component(s) == s.skip(k),
    decreases s.len(),
{
    if k == s.len() {
        if s.len() == 0 {
            assert(s.skip(0) =~= s);
        } else {
            assert(s.last() == '/');
            assert(s.skip(k) =~= Seq::<char>::empty());
        }
    } else {
        assert(s.last() != '/');
        lemma_last_component_from(s.drop_last(), k);
        assert(s.drop_last().skip(k).push(s.last()) =~= s.skip(k));
    }
}

/// Whether a path's final component carries a literal `.md`
/// extension after a non-empty stem.
pub open spec fn external_md_ok(path: Seq<char>) -> bool {
    let name = last_component(path);
    name.len() > 3 && name.subrange(name.len() - 3, name.len() as int) == ".md"@
}

/// The exact outcome of [`FileSystem::read_external_file`].
pub open spec fn read_external_error(path: Seq<char>, exists: bool, is_file: bool) -> Option<
    Seq<char>,
> {
    if !external_md_ok(path) {
        Some("File must have .md extension"@)
    } else if !exists {
        Some("File does not exist: "@ + path)
    } else if !is_file {
        Some("Path is not a file: "@ + path)
    } else {
        None
    }
}

/// The shape of a quick-note id: `"quick-"` followed by a
/// fourteen-digit timestamp.
pub open spec fn is_quick_note_id(id: Seq<char>) -> bool {
    &&& id.len() == 20
    &&& id.subrange(0, 6) == "quick-"@
    &&& forall|i: int| 6 <= i < id.len() ==> is_ascii_digit(#[trigger] id[i])
}

/// Decides a quick-note save: blank content is rejected; anything
/// else becomes a note named after a second-resolution timestamp,
/// with a fixed title line above the content.
pub fn save_quick_note(content: &str) -> (r: Result<(String, String), String>)
    ensures
        is_blank(content@) ==> (r matches Err(e) && e@ == "Content cannot be empty"@),
        !is_blank(content@) ==> (r matches Ok(p) && is_quick_note_id(p.0@) && p.1@
            == "# Quick Note\n\n"@ + content@),
{
    if str_is_blank(content) {
        return Err("Content cannot be empty".to_owned());
    }
    let timestamp = utc_timestamp_seconds();
    let note_id = concat2("quick-", timestamp.as_str());
    proof {
        reveal_strlit("quick-");
        assert(note_id@.subrange(0, 6) =~= "quick-"@);
        assert(forall|i: int|
            6 <= i < note_id@.len() ==> is_ascii_digit(#[trigger] note_id@[i]));
    }
    let formatted = concat2("# Quick Note\n\n", content);
    Ok((note_id, formatted))
}

/// What a clipboard capture saves: nothing for blank clipboard text,
/// otherwise the text under a fixed title line.
pub fn clipboard_note_content(clipboard: &str) -> (r: Option<String>)
    ensures
        is_blank(clipboard@) ==> r is None,
        !is_blank(clipboard@) ==> (r matches Some(s) && s@ == "# Clipboard Note\n\n"@
            + clipboard@),
{
    if str_is_blank(clipboard) {
        return None;
    }
    Some(concat2("# Clipboard Note\n\n", clipboard))
}

impl FileSystem {
    /// The absolute path of the assets directory.
    pub fn get_assets_path(&self) -> (r: String)
        ensures
            r@ == self.assets_dir@,
    {
        self.assets_dir.clone()
    }
}

/// The disk as this layer models it: file paths to file contents.
/// Writing a note replaces the content under its path wholly.
pub open spec fn disk_after_save(
    disk: Map<Seq<char>, Seq<char>>,
    path: Seq<char>,
    content: Seq<char>,
) -> Map<Seq<char>, Seq<char>> {
    disk.insert(path, content)
}

/// The disk after a move: the target carries what the source held,
/// and the source is gone.
pub open spec fn disk_after_move(
    disk: Map<Seq<char>, Seq<char>>,
    source: Seq<char>,
    target: Seq<char>,
) -> Map<Seq<char>, Seq<char>> {
    disk.insert(target, disk[source]).remove(source)
}

/// Saving a note and then reading the same id in the same folder
/// returns exactly the saved content, for every content: the save
/// plan writes the content verbatim at the note's path, and a read
/// of the same id and folder addresses the same path.
pub proof fn lemma_save_then_read(
    disk: Map<Seq<char>, Seq<char>>,
    notes_dir: Seq<char>,
    folder: Option<Seq<char>>,
    id: Seq<char>,
    content: Seq<char>,
)
    ensures
        disk_after_save(disk, note_path(notes_dir, folder, id), content)[note_path(
            notes_dir,
            folder,
            id,
        )] == content,
        disk_after_save(disk, note_path(notes_dir, folder, id), content).contains_key(
            note_path(notes_dir, folder, id),
        ),
{
}

/// Two different folder sides address different files for the same
/// note id.
proof fn lemma_distinct_sides_distinct_paths(a: Seq<char>, b: Seq<char>, name: Seq<char>)
    requires
        a != b,
    ensures
        joined_path(a, name) != joined_path(b, name),
{
    if joined_path(a, name) == joined_path(b, name) {
        assert(joined_path(a, name).len() == a.len() + 1 + name.len());
        assert(joined_path(b, name).len() == b.len() + 1 + name.len());
        assert(a.len() == b.len());
        assert(a =~= b) by {
            assert(forall|i: int|
                0 <= i < a.len() ==> a[i] == joined_path(a, name)[i] && b[i] == joined_path(
                    b,
                    name,
                )[i]);
        }
    }
}

/// A move between two different folders preserves the note's bytes
/// exactly, removes it from the source folder and makes it readable
/// in the target folder; the move plan creates the target folder
/// when it is absent.
pub proof fn lemma_move_between_folders(
    disk: Map<Seq<char>, Seq<char>>,
    notes_dir: Seq<char>,
    id: Seq<char>,
    from_folder: Seq<char>,
    to_folder: Seq<char>,
)
    requires
        move_side_path(notes_dir, from_folder) != move_side_path(notes_dir, to_folder),
        disk.contains_key(
            joined_path(move_side_path(notes_dir, from_folder), md_file_name(id)),
        ),
    ensures
        ({
            let source = joined_path(move_side_path(notes_dir, from_folder), md_file_name(id));
            let target = joined_path(move_side_path(notes_dir, to_folder), md_file_name(id));
            &&& disk_after_move(disk, source, target)[target] == disk[source]
            &&& disk_after_move(disk, source, target).contains_key(target)
            &&& !disk_after_move(disk, source, target).contains_key(source)
        }),
{
    let source = joined_path(move_side_path(notes_dir, from_folder), md_file_name(id));
    let target = joined_path(move_side_path(notes_dir, to_folder), md_file_name(id));
    lemma_distinct_sides_distinct_paths(
        move_side_path(notes_dir, from_folder),
        move_side_path(notes_dir, to_folder),
        md_file_name(id),
    );
    assert(source != target);
}

/// The views of the ids in a pinned list.
pub open spec fn ids_view(s: Seq<String>) -> Seq<Seq<char>> {
    s.map_values(|x: String| x@)
}

/// The list with its first occurrence of `id` removed (unchanged when
/// `id` does not occur).
pub open spec fn remove_first(ids: Seq<Seq<char>>, id: Seq<char>) -> Seq<Seq<char>>
    decreases ids.len(),
{
    if ids.len() == 0 {
        ids
    } else if ids[0] == id {
        ids.drop_first()
    } else {
        seq![ids[0]] + remove_first(ids.drop_first(), id)
    }
}

/// What one pin toggle does: a present id is removed (now unpinned),
/// an absent one appended (now pinned).
pub open spec fn spec_toggle(ids: Seq<Seq<char>>, id: Seq<char>) -> (Seq<Seq<char>>, bool) {
    if ids.contains(id) {
        (remove_first(ids, id), false)
    } else {
        (ids.push(id), true)
    }
}

/// Removing the first occurrence at a known position is removing that
/// position.
proof fn lemma_remove_first_at(ids: Seq<Seq<char>>, id: Seq<char>, pos: int)
    requires
        0 <= pos < ids.len(),
        ids[pos] == id,
        forall|j: int| 0 <= j < pos ==> ids[j] != id,
    ensures
        remove_first(ids, id) == ids.remove(pos),
    decreases pos,
{
    if pos == 0 {
        assert(ids.drop_first() =~= ids.remove(0));
    } else {
        assert(ids[0] != id);
        assert(ids.drop_first()[pos - 1] == id);
        lemma_remove_first_at(ids.drop_first(), id, pos - 1);
        assert(seq![ids[0]] + ids.drop_first().remove(pos - 1) =~= ids.remove(pos));
    }
}

/// In a duplicate-free list, removing the first occurrence removes
/// the only one.
proof fn lemma_remove_first_absent_after(ids: Seq<Seq<char>>, id: Seq<char>)
    requires
        ids.no_duplicates(),
        ids.contains(id),
    ensures
        !remove_first(ids, id).contains(id),
    decreases ids.len(),
{
    if ids[0] == id {
        if remove_first(ids, id).contains(id) {
            let k = choose|k: int|
                0 <= k < ids.drop_first().len() && ids.drop_first()[k] == id;
            assert(ids[k + 1] == id);
            assert(false);
        }
    } else {
        let w = choose|w: int| 0 <= w < ids.len() && ids[w] == id;
        assert(ids.drop_first()[w - 1] == id);
        assert(ids.drop_first().contains(id));
        assert(ids.drop_first().no_duplicates()) by {
            assert(forall|x: int, y: int|
                0 <= x < y < ids.drop_first().len() ==> ids.drop_first()[x]
                    != ids.drop_first()[y]);
        }
        lemma_remove_first_absent_after(ids.drop_first(), id);
        if remove_first(ids, id).contains(id) {
            let k = choose|k: int|
                0 <= k < remove_first(ids, id).len() && remove_first(ids, id)[k] == id;
            if k == 0 {
                assert(ids[0] == id);
            } else {
                assert(remove_first(ids.drop_first(), id)[k - 1] == id);
                assert(remove_first(ids.drop_first(), id).contains(id));
            }
            assert(false);
        }
    }
}

/// Appending a fresh id and removing it again restores the list.
proof fn lemma_remove_first_of_push(ids: Seq<Seq<char>>, id: Seq<char>)
    requires
        !ids.contains(id),
    ensures
        remove_first(ids.push(id), id) == ids,
    decreases ids.len(),
{
    let p = ids.push(id);
    if ids.len() == 0 {
        assert(p[0] == id);
        assert(p.drop_first() =~= ids);
    } else {
        assert(ids[0] != id);
        assert(p[0] == ids[0]);
        assert(p.drop_first() =~= ids.drop_first().push(id));
        assert(!ids.drop_first().contains(id)) by {
            if ids.drop_first().contains(id) {
                let k = choose|k: int|
                    0 <= k < ids.drop_first().len() && ids.drop_first()[k] == id;
                assert(ids[k + 1] == id);
            }
        }
        lemma_remove_first_of_push(ids.drop_first(), id);
        assert(remove_first(p, id) == seq![p[0]] + remove_first(p.drop_first(), id));
        assert(remove_first(p.drop_first(), id) == remove_first(ids.drop_first().push(id), id));
        assert(seq![ids[0]] + ids.drop_first() =~= ids);
    }
}

/// Toggling a note's pin twice in sequence returns the negated
/// initial state first and the initial state second, and leaves
/// membership in the persisted list exactly as it started. Stated for
/// lists free of duplicate ids, which is all the store ever writes:
/// an id is appended only when absent.
pub proof fn lemma_pin_toggle_twice(ids: Seq<Seq<char>>, id: Seq<char>)
    requires
        ids.no_duplicates(),
    ensures
        ({
            let (once, first) = spec_toggle(ids, id);
            let (twice, second) = spec_toggle(once, id);
            &&& first == !ids.contains(id)
            &&& second == ids.contains(id)
            &&& twice.contains(id) == ids.contains(id)
        }),
{
    if ids.contains(id) {
        lemma_remove_first_absent_after(ids, id);
        let once = remove_first(ids, id);
        assert(once.push(id).contains(id)) by {
            assert(once.push(id)[once.len() as int] == id);
        }
    } else {
        let once = ids.push(id);
        assert(once.contains(id)) by {
            assert(once[ids.len() as int] == id);
        }
        lemma_remove_first_of_push(ids, id);
    }
}

/// Whatever leaves the first-occurrence removal was in the list.
proof fn lemma_remove_first_subset(ids: Seq<Seq<char>>, id: Seq<char>, x: Seq<char>)
    requires
        remove_first(ids, id).contains(x),
    ensures
        ids.contains(x),
    decreases ids.len(),
{
    if ids.len() == 0 {
    } else if ids[0] == id {
        let k = choose|k: int|
            0 <= k < ids.drop_first().len() && ids.drop_first()[k] == x;
        assert(ids[k + 1] == x);
    } else {
        let r = seq![ids[0]] + remove_first(ids.drop_first(), id);
        let k = choose|k: int| 0 <= k < r.len() && r[k] == x;
        if k == 0 {
            assert(ids[0] == x);
        } else {
            assert(remove_first(ids.drop_first(), id).contains(x));
            lemma_remove_first_subset(ids.drop_first(), id, x);
            let w = choose|w: int|
                0 <= w < ids.drop_first().len() && ids.drop_first()[w] == x;
            assert(ids[w + 1] == x);
        }
    }
}

/// Removing a first occurrence never introduces a duplicate.
proof fn lemma_remove_first_no_dup(ids: Seq<Seq<char>>, id: Seq<char>)
    requires
        ids.no_duplicates(),
    ensures
        remove_first(ids, id).no_duplicates(),
    decreases ids.len(),
{
    if ids.len() == 0 {
    } else if ids[0] == id {
        assert(ids.drop_first().no_duplicates()) by {
            assert(forall|x: int, y: int|
                0 <= x < y < ids.drop_first().len() ==> ids.drop_first()[x]
                    != ids.drop_first()[y]);
        }
    } else {
        assert(ids.drop_first().no_duplicates()) by {
            assert(forall|x: int, y: int|
                0 <= x < y < ids.drop_first().len() ==> ids.drop_first()[x]
                    != ids.drop_first()[y]);
        }
        lemma_remove_first_no_dup(ids.drop_first(), id);
        let rest = remove_first(ids.drop_first(), id);
        let r = seq![ids[0]] + rest;
        assert(r.no_duplicates()) by {
            assert forall|x: int, y: int| 0 <= x < y < r.len() implies r[x] != r[y] by {
                if x == 0 {
                    assert(r[y] == rest[y - 1]);
                    if ids[0] == rest[y - 1] {
                        assert(rest.contains(ids[0]));
                        lemma_remove_first_subset(ids.drop_first(), id, ids[0]);
                        let w = choose|w: int|
                            0 <= w < ids.drop_first().len() && ids.drop_first()[w] == ids[0];
                        assert(ids[w + 1] == ids[0]);
                    }
                } else {
                    assert(r[x] == rest[x - 1] && r[y] == rest[y - 1]);
                }
            }
        }
    }
}

/// A pin toggle keeps the pinned list free of duplicates, so the
/// round-trip law's premise is an invariant of the store: a fresh id
/// is appended only when absent, and removal only removes.
pub proof fn lemma_toggle_keeps_ids_unique(ids: Seq<Seq<char>>, id: Seq<char>)
    requires
        ids.no_duplicates(),
    ensures
        spec_toggle(ids, id).0.no_duplicates(),
{
    if ids.contains(id) {
        lemma_remove_first_no_dup(ids, id);
    } else {
        let p = ids.push(id);
        assert(p.no_duplicates()) by {
            assert forall|x: int, y: int| 0 <= x < y < p.len() implies p[x] != p[y] by {
                if y == ids.len() {
                    if ids[x] == id {
                        assert(ids.contains(id));
                    }
                } else {
                    assert(p[x] == ids[x] && p[y] == ids[y]);
                }
            }
        }
    }
}

/// The exact outcome of [`FileSystem::create_folder`]: the rejection
/// message, or `None` when the creation may proceed.
pub open spec fn create_folder_error(name: Seq<char>, exists: bool) -> Option<Seq<char>> {
    if is_blank(name) {
        Some("Folder name cannot be empty or whitespace only"@)
    } else if is_protected(name) {
        Some("'"@ + name + "' is a protected folder name"@)
    } else if token_error_msg(name) is Some {
        token_error_msg(name)
    } else if exists {
        Some("Folder '"@ + name + "' already exists"@)
    } else {
        None
    }
}

/// The exact outcome of [`FileSystem::delete_folder`].
pub open spec fn delete_folder_error(name: Seq<char>, exists: bool, is_dir: bool) -> Option<
    Seq<char>,
> {
    if is_blank(name) {
        Some("Folder name cannot be empty or whitespace only"@)
    } else if is_protected(name) {
        Some("Cannot delete protected folder '"@ + name + "'"@)
    } else if token_error_msg(name) is Some {
        token_error_msg(name)
    } else if !exists {
        Some("Folder '"@ + name + "' does not exist"@)
    } else if !is_dir {
        Some("'"@ + name + "' is not a folder"@)
    } else {
        None
    }
}

/// The exact outcome of [`FileSystem::rename_folder`].
pub open spec fn rename_folder_error(
    old_name: Seq<char>,
    new_name: Seq<char>,
    old_exists: bool,
    old_is_dir: bool,
    new_exists: bool,
) -> Option<Seq<char>> {
    if is_blank(old_name) || is_blank(new_name) {
        Some("Folder name cannot be empty or whitespace only"@)
    } else if is_protected(old_name) {
        Some("Cannot rename protected folder '"@ + old_name + "'"@)
    } else if is_protected(new_name) {
        Some("Cannot rename to protected name '"@ + new_name + "'"@)
    } else if token_error_msg(old_name) is Some {
        token_error_msg(old_name)
    } else if token_error_msg(new_name) is Some {
        token_error_msg(new_name)
    } else if !old_exists {
        Some("Folder '"@ + old_name + "' does not exist"@)
    } else if !old_is_dir {
        Some("'"@ + old_name + "' is not a folder"@)
    } else if new_exists {
        Some("Folder '"@ + new_name + "' already exists"@)
    } else {
        None
    }
}

/// The view of an optional borrowed name.
pub open spec fn view_opt_str(s: Option<&str>) -> Option<Seq<char>> {
    match s {
        Some(x) => Some(x@),
        None => None,
    }
}

/// Where a folder name points under the notes root.
pub open spec fn spec_folder_path(notes_dir: Seq<char>, folder: Option<Seq<char>>) -> Seq<
    char,
> {
    match folder {
        Some(name) => if name.len() > 0 {
            joined_path(notes_dir, name)
        } else {
            notes_dir
        },
        None => notes_dir,
    }
}

/// Whether a folder name is reserved.
pub open spec fn is_protected(name: Seq<char>) -> bool {
    name == "All Notes"@ || name == "Trash"@
}

} // verus!
