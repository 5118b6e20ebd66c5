use base64::Engine;

use mded_core::models::NoteInfo;
use mded_core::store::{
    clipboard_note_content,
    save_quick_note,
    DirEntry,
    FileSystem,
    NoteFileData,
    NoteScan,
};

fn store() -> FileSystem {
    FileSystem::new_with_base("/data").unwrap()
}

#[test]
fn test_filesystem_new_with_base() {
    let fs = store();
    assert_eq!(fs.base_dir, "/data");
    assert_eq!(fs.notes_dir, "/data/notes");
    assert_eq!(fs.assets_dir, "/data/assets");
    assert_eq!(fs.config_file, "/data/config.json");
    assert_eq!(fs.order_file, "/data/note-order.json");
}

#[test]
fn test_filesystem_validate_notes_path() {
    let fs = store();
    assert!(fs.validate_notes_path("test.md").is_ok());
    assert!(fs.validate_notes_path("../test.md").is_err());
}

#[test]
fn test_filesystem_validate_assets_path() {
    let fs = store();
    assert!(fs.validate_assets_path("screenshot.png").is_ok());
    assert!(fs.validate_assets_path("../screenshot.png").is_err());
}

#[test]
fn test_filesystem_get_folder_path() {
    let fs = store();
    assert_eq!(fs.get_folder_path(None), fs.notes_dir);
    assert_eq!(fs.get_folder_path(Some("")), fs.notes_dir);
    assert_eq!(fs.get_folder_path(Some("work")), format!("{}/work", fs.notes_dir));
}

#[test]
fn test_is_protected_name() {
    let fs = store();
    assert!(fs.is_protected_name("All Notes"));
    assert!(fs.is_protected_name("Trash"));
    assert!(!fs.is_protected_name("work"));
}

fn dir(name: &str) -> DirEntry {
    DirEntry { name: name.to_string(), is_dir: true }
}

fn file_entry(name: &str) -> DirEntry {
    DirEntry { name: name.to_string(), is_dir: false }
}

#[test]
fn test_list_folders_empty() {
    let fs = store();
    let folders = fs.list_folders(Vec::new());
    assert_eq!(folders.len(), 1);
    assert_eq!(folders[0].name, "All Notes");
    assert_eq!(folders[0].path, "");
}

#[test]
fn test_list_folders_with_subfolders() {
    let fs = store();
    let folders = fs.list_folders(vec![dir("work"), file_entry("a.md"), dir("personal")]);
    assert_eq!(folders.len(), 3);
    assert_eq!(folders[0].name, "All Notes");
    let names: Vec<&str> = folders.iter().map(|f| f.name.as_str()).collect();
    assert!(names.contains(&"work"));
    assert!(names.contains(&"personal"));
    // the path identifier of a real folder is its own name
    assert_eq!(folders[1].name, folders[1].path);
}

#[test]
fn test_create_folder() {
    let fs = store();
    let path = fs.create_folder("test-folder", false).unwrap();
    assert_eq!(path, "/data/notes/test-folder");
}

#[test]
fn test_create_folder_already_exists() {
    let fs = store();
    let result = fs.create_folder("test-folder", true);
    assert!(result.is_err());
    assert!(result.unwrap_err().contains("already exists"));
}

#[test]
fn test_create_folder_rejects_bad_names() {
    let fs = store();
    assert!(fs.create_folder("", false).is_err());
    assert!(fs.create_folder("   ", false).is_err());
    assert!(fs.create_folder("All Notes", false).unwrap_err().contains("protected"));
    assert!(fs.create_folder("Trash", false).is_err());
    assert!(fs.create_folder("a/b", false).is_err());
}

#[test]
fn test_delete_folder() {
    let fs = store();
    let path = fs.delete_folder("to-delete", true, true).unwrap();
    assert_eq!(path, "/data/notes/to-delete");
}

#[test]
fn test_delete_folder_not_exists() {
    let fs = store();
    let result = fs.delete_folder("nonexistent", false, false);
    assert!(result.is_err());
    assert!(result.unwrap_err().contains("does not exist"));
}

#[test]
fn test_delete_folder_protected() {
    let fs = store();
    let result = fs.delete_folder("All Notes", true, true);
    assert!(result.unwrap_err().contains("protected"));
}

#[test]
fn test_rename_folder() {
    let fs = store();
    let (old_path, new_path) = fs.rename_folder("old-name", "new-name", true, true, false).unwrap();
    assert_eq!(old_path, "/data/notes/old-name");
    assert_eq!(new_path, "/data/notes/new-name");
}

#[test]
fn test_rename_folder_target_exists() {
    let fs = store();
    let result = fs.rename_folder("old-name", "new-name", true, true, true);
    assert!(result.unwrap_err().contains("already exists"));
}

#[test]
fn test_read_note_plan() {
    let fs = store();
    let path = fs.read_note("my-note", Some("work"), true).unwrap();
    assert_eq!(path, "/data/notes/work/my-note.md");
    let missing = fs.read_note("my-note", None, false);
    assert!(missing.unwrap_err().contains("does not exist"));
}

#[test]
fn test_save_note_plan_carries_content() {
    let fs = store();
    let content = "line one\n\nline two \u{1F600}";
    let plan = fs.save_note("my-note", content, Some("work"), false).unwrap();
    assert_eq!(plan.note_path, "/data/notes/work/my-note.md");
    assert_eq!(plan.folder_path, "/data/notes/work");
    assert!(plan.create_folder);
    assert_eq!(plan.content, content);
}

#[test]
fn test_save_then_read_same_path() {
    // the save plan and a later read of the same id address the same
    // file, so the written content is exactly what a read returns
    let fs = store();
    let plan = fs.save_note("id-1", "content", Some("a"), true).unwrap();
    let read_path = fs.read_note("id-1", Some("a"), true).unwrap();
    assert_eq!(plan.note_path, read_path);
}

#[test]
fn test_delete_note_plan() {
    let fs = store();
    let path = fs.delete_note("gone", None, true).unwrap();
    assert_eq!(path, "/data/notes/gone.md");
    assert!(fs.delete_note("gone", None, false).is_err());
}

#[test]
fn test_rename_note_plan() {
    let fs = store();
    let plan = fs.rename_note("old-id", "new-id", None, true, false).unwrap();
    assert_eq!(plan.old_path, "/data/notes/old-id.md");
    assert_eq!(plan.new_path, "/data/notes/new-id.md");
    assert_eq!(plan.new_id, "new-id");
    let clash = fs.rename_note("old-id", "new-id", None, true, true);
    assert!(clash.unwrap_err().contains("already exists"));
}

#[test]
fn test_move_note_plan() {
    let fs = store();
    let plan = fs.move_note("n1", "a", "b", true, false, false).unwrap();
    assert_eq!(plan.source_path, "/data/notes/a/n1.md");
    assert_eq!(plan.target_path, "/data/notes/b/n1.md");
    assert_eq!(plan.target_dir, "/data/notes/b");
    assert!(plan.create_target_dir);
}

#[test]
fn test_move_note_roots() {
    let fs = store();
    // "" and "All Notes" both mean the notes root
    let plan = fs.move_note("n1", "", "b", true, true, false).unwrap();
    assert_eq!(plan.source_path, "/data/notes/n1.md");
    let plan = fs.move_note("n1", "a", "All Notes", true, true, false).unwrap();
    assert_eq!(plan.target_path, "/data/notes/n1.md");
}

#[test]
fn test_move_note_errors() {
    let fs = store();
    let missing = fs.move_note("n1", "a", "b", false, true, false);
    assert!(missing.unwrap_err().contains("does not exist in folder 'a'"));
    let clash = fs.move_note("n1", "a", "b", true, true, true);
    assert!(clash.unwrap_err().contains("already exists in folder 'b'"));
}

#[test]
fn test_create_note_plan() {
    let fs = store();
    let plan = fs.create_note(Some("work"), true).unwrap();
    assert!(plan.note_id.starts_with("note-"));
    assert_eq!(plan.note_id.len(), 41);
    let uuid: Vec<char> = plan.note_id[5..].chars().collect();
    assert_eq!(uuid.len(), 36);
    for (i, c) in uuid.iter().enumerate() {
        if i == 8 || i == 13 || i == 18 || i == 23 {
            assert_eq!(*c, '-');
        } else {
            assert!(c.is_ascii_hexdigit() && !c.is_ascii_uppercase());
        }
    }
    // the version nibble and the variant nibble of a v4 UUID
    assert_eq!(uuid[14], '4');
    assert!(matches!(uuid[19], '8' | '9' | 'a' | 'b'));
    assert_eq!(plan.content, "# New Note\n\n");
    assert_eq!(plan.note_path, format!("/data/notes/work/{}.md", plan.note_id));
    assert!(!plan.create_folder);
}

#[test]
fn test_create_note_ids_differ() {
    let fs = store();
    let a = fs.create_note(None, true).unwrap();
    let b = fs.create_note(None, true).unwrap();
    assert_ne!(a.note_id, b.note_id);
}

#[test]
fn test_toggle_pin_note() {
    let fs = store();
    let (list, now) = fs.toggle_pin_note(Vec::new(), "n1");
    assert!(now);
    assert_eq!(list, vec!["n1".to_string()]);
    let (list, now) = fs.toggle_pin_note(list, "n1");
    assert!(!now);
    assert!(list.is_empty());
}

#[test]
fn test_toggle_pin_twice_restores_initial() {
    let fs = store();
    let initial = vec!["a".to_string(), "b".to_string()];
    let (once, first) = fs.toggle_pin_note(initial.clone(), "b");
    let (twice, second) = fs.toggle_pin_note(once, "b");
    assert_eq!(first, false);
    assert_eq!(second, true);
    assert_eq!(twice.contains(&"b".to_string()), initial.contains(&"b".to_string()));
}

#[test]
fn test_plan_note_scan() {
    let fs = store();
    assert!(matches!(fs.plan_note_scan(None, false), Ok(NoteScan::AllFolders)));
    assert!(matches!(fs.plan_note_scan(Some("All Notes"), false), Ok(NoteScan::AllFolders)));
    assert!(matches!(fs.plan_note_scan(Some(""), false), Ok(NoteScan::AllFolders)));
    match fs.plan_note_scan(Some("work"), true) {
        Ok(NoteScan::SingleFolder(d)) => assert_eq!(d, "/data/notes/work"),
        other => panic!("unexpected scan plan: {:?}", other.is_ok()),
    }
    let missing = fs.plan_note_scan(Some("work"), false);
    assert!(missing.unwrap_err().contains("does not exist"));
}

fn note_file(name: &str, folder: &str, content: &str, modified: i64) -> NoteFileData {
    NoteFileData {
        file_name: name.to_string(),
        folder: folder.to_string(),
        content: content.to_string(),
        modified,
        created: None,
    }
}

#[test]
fn test_list_notes_titles_and_ids() {
    let fs = store();
    let files = vec![
        note_file("one.md", "", "# First Title\nbody", 100),
        note_file("two.md", "", "\n\n## Second\n", 200),
        note_file("hashes.md", "", "###\nreal title", 300),
        note_file("untitled.md", "", "   \n\t\n", 400),
        note_file("skip.txt", "", "# not a note", 500),
    ];
    let notes = fs.list_notes(files, &Vec::new());
    assert_eq!(notes.len(), 4);
    let by_id = |id: &str| -> &NoteInfo { notes.iter().find(|n| n.id == id).unwrap() };
    assert_eq!(by_id("one").title, "First Title");
    assert_eq!(by_id("two").title, "Second");
    assert_eq!(by_id("hashes").title, "real title");
    assert_eq!(by_id("untitled").title, "untitled");
    assert!(notes.iter().all(|n| n.id != "skip"));
}

#[test]
fn test_list_notes_sorting() {
    let fs = store();
    let files = vec![
        note_file("old.md", "", "x", 100),
        note_file("newest.md", "", "x", 900),
        note_file("pinned-old.md", "", "x", 50),
        note_file("mid.md", "", "x", 500),
        note_file("pinned-new.md", "", "x", 800),
    ];
    let pinned = vec!["pinned-old".to_string(), "pinned-new".to_string()];
    let notes = fs.list_notes(files, &pinned);
    let ids: Vec<&str> = notes.iter().map(|n| n.id.as_str()).collect();
    assert_eq!(ids, vec!["pinned-new", "pinned-old", "newest", "mid", "old"]);
    assert!(notes[0].pinned && notes[1].pinned);
    assert!(!notes[2].pinned);
}

#[test]
fn test_list_notes_ties_keep_scan_order() {
    let fs = store();
    let files = vec![
        note_file("first.md", "", "x", 500),
        note_file("second.md", "", "x", 500),
        note_file("third.md", "", "x", 500),
    ];
    let notes = fs.list_notes(files, &Vec::new());
    let ids: Vec<&str> = notes.iter().map(|n| n.id.as_str()).collect();
    assert_eq!(ids, vec!["first", "second", "third"]);
}

#[test]
fn test_list_notes_created_falls_back_to_modified() {
    let fs = store();
    let mut file = note_file("a.md", "work", "x", 123);
    file.created = None;
    let notes = fs.list_notes(vec![file], &Vec::new());
    assert_eq!(notes[0].created, 123);
    assert_eq!(notes[0].modified, 123);
    assert_eq!(notes[0].folder, "work");
}

#[test]
fn test_save_screenshot_plan() {
    let fs = store();
    let bytes: Vec<u8> = (0u8..100).collect();
    let b64 = base64::engine::general_purpose::STANDARD.encode(&bytes);
    let plan = fs.save_screenshot(&b64, true).unwrap();
    assert_eq!(plan.data, bytes);
    assert!(plan.image_id.starts_with("screenshot-"));
    assert_eq!(plan.image_id.len(), "screenshot-".len() + 17);
    assert!(plan.image_id["screenshot-".len()..].chars().all(|c| c.is_ascii_digit()));
    assert!(plan.file_path.starts_with("/data/assets/"));
    assert!(plan.file_path.ends_with(".png"));
    assert_eq!(plan.file_path, format!("/data/assets/{}.png", plan.image_id));
}

#[test]
fn test_save_screenshot_with_data_url_prefix() {
    let fs = store();
    let image_bytes = vec![0x89, 0x50, 0x4E, 0x47];
    let b64 = base64::engine::general_purpose::STANDARD.encode(&image_bytes);
    let data_url = format!("data:image/png;base64,{}", b64);
    let plan = fs.save_screenshot(&data_url, true).unwrap();
    assert_eq!(plan.data, image_bytes);
}

#[test]
fn test_save_screenshot_empty_data() {
    let fs = store();
    let result = fs.save_screenshot("", true);
    assert!(result.is_err());
    assert!(result.unwrap_err().contains("empty"));
}

#[test]
fn test_save_screenshot_invalid_base64() {
    let fs = store();
    let result = fs.save_screenshot("not-valid-base64!!!", true);
    assert!(result.is_err());
    assert!(result.unwrap_err().contains("decode"));
}

#[test]
fn test_get_assets_path() {
    let fs = store();
    let assets_path = fs.get_assets_path();
    assert!(assets_path.contains("assets"));
    assert_eq!(assets_path, fs.assets_dir);
}

#[test]
fn test_read_external_file_not_exists() {
    let fs = store();
    let result = fs.read_external_file("/somewhere/nonexistent.md", false, false);
    assert!(result.is_err());
    assert!(result.unwrap_err().contains("does not exist"));
}

#[test]
fn test_read_external_file_is_directory() {
    let fs = store();
    let result = fs.read_external_file("/somewhere/folder.md", true, false);
    assert!(result.is_err());
    assert!(result.unwrap_err().contains("not a file"));
}

#[test]
fn test_read_external_file_extension() {
    let fs = store();
    let bad = fs.read_external_file("/somewhere/file.txt", true, true);
    assert!(bad.unwrap_err().contains(".md"));
    // a bare ".md" has no stem and is not a markdown file name
    let hidden = fs.read_external_file("/somewhere/.md", true, true);
    assert!(hidden.is_err());
    let good = fs.read_external_file("/somewhere/file.md", true, true);
    assert_eq!(good.unwrap(), "file.md");
}

#[test]
fn test_save_quick_note() {
    let (id, content) = save_quick_note("remember this").unwrap();
    assert!(id.starts_with("quick-"));
    assert_eq!(id.len(), "quick-".len() + 14);
    assert!(id["quick-".len()..].chars().all(|c| c.is_ascii_digit()));
    assert_eq!(content, "# Quick Note\n\nremember this");
    let blank = save_quick_note("  \n ");
    assert!(blank.unwrap_err().contains("empty"));
}

#[test]
fn test_clipboard_note_content() {
    assert_eq!(clipboard_note_content("  \t"), None);
    assert_eq!(
        clipboard_note_content("copied text").unwrap(),
        "# Clipboard Note\n\ncopied text"
    );
}
