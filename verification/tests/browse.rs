use kaidadb::browse::{
    browse_entries, child_prefix, clamp_index, delete_confirm_mode, delete_dir_report, down_index,
    filter_items, keys_under, last_index, local_entries, mkdir_marker, new_dir_prefix, next_index,
    parent_prefix, path_display, path_entries, scroll_offset, plan_marked_upload, plan_rename, relative_upload_key,
    rename_replied, rename_report, rename_submitted, rename_target, RenameAction, RenameDialog, RenameReply, toggle_panel, up_index, upload_start_report, FileEntry, InputMode, Panel,
    BrowseEntry, RenamePlan, TextInput, UploadEvent, UploadProgress,
};
use kaidadb::keymap::{key_command, mode_after, Command, Key, KeyContext, LineEdit};

fn items(keys: &[(&str, u64)]) -> Vec<(String, u64)> {
    keys.iter().map(|(k, s)| (k.to_string(), *s)).collect()
}

fn strings(keys: &[&str]) -> Vec<String> {
    keys.iter().map(|k| k.to_string()).collect()
}

fn file(name: &str, is_dir: bool, size: u64) -> FileEntry {
    FileEntry { name: name.into(), path: format!("/home/u/{name}"), is_dir, size }
}

#[test]
fn list_navigation_stays_in_bounds() {
    assert_eq!(next_index(0, 3), 1);
    assert_eq!(next_index(2, 3), 2);
    assert_eq!(next_index(5, 0), 5);
    assert_eq!(up_index(0, 1), 0);
    assert_eq!(up_index(30, 20), 10);
    assert_eq!(down_index(3, 20, 10), 9);
    assert_eq!(down_index(3, 2, 10), 5);
    assert_eq!(last_index(0, 4), 3);
    assert_eq!(last_index(2, 0), 2);
    assert_eq!(clamp_index(7, 3), 2);
    assert_eq!(clamp_index(1, 3), 1);
    assert_eq!(clamp_index(4, 0), 0);
    assert_eq!(toggle_panel(Panel::List), Panel::Detail);
    assert_eq!(toggle_panel(Panel::Detail), Panel::List);
}

#[test]
fn prefixes_go_down_and_up() {
    assert_eq!(child_prefix("", "tv"), "tv/");
    assert_eq!(child_prefix("tv/", "show"), "tv/show/");
    assert_eq!(parent_prefix("tv/show/"), "tv/");
    assert_eq!(parent_prefix("tv/"), "");
    assert_eq!(parent_prefix("tv//"), "");
    assert_eq!(parent_prefix(""), "");
    assert_eq!(parent_prefix(&child_prefix("a/b/", "c")), "a/b/");
}

#[test]
fn line_editing_by_characters() {
    let mut t = TextInput::from_text("héllo");
    assert_eq!(t.byte_cursor(), 6);
    t.move_left();
    t.move_left();
    assert_eq!(t.byte_cursor(), 4);
    t.insert_char('X');
    assert_eq!(t.text(), "hélXlo");
    t.backspace();
    assert_eq!(t.text(), "héllo");
    t.home();
    t.delete();
    assert_eq!(t.text(), "éllo");
    t.move_right();
    assert_eq!(t.byte_cursor(), 2);
    t.end();
    t.backspace();
    assert_eq!(t.text(), "éll");
    t.clear();
    assert_eq!(t.text(), "");
    t.backspace();
    assert_eq!(t.text(), "");
    let mut n = TextInput::new();
    n.insert_char('a');
    assert_eq!(n.text(), "a");
}

#[test]
fn upload_progress_reports() {
    let mut p = UploadProgress::new(2);
    let (done, msg) = p.apply(UploadEvent::Started { key: "a.mp4".into(), total_bytes: 10 });
    assert!(!done);
    assert_eq!(msg.unwrap(), "Uploading 1/2: a.mp4");
    p.apply(UploadEvent::ChunkSent { bytes_sent: 4 });
    assert_eq!(p.bytes_sent, 4);
    p.apply(UploadEvent::FileCompleted);
    assert_eq!((p.successes, p.bytes_sent), (1, 10));
    p.apply(UploadEvent::Started { key: "b.mp4".into(), total_bytes: 3 });
    p.apply(UploadEvent::FileFailed { key: "b.mp4".into(), error: "refused".into() });
    assert_eq!(p.errors, vec!["b.mp4: refused".to_string()]);
    let (done, msg) = p.apply(UploadEvent::Finished);
    assert!(done);
    assert_eq!(msg.unwrap(), "Uploaded 1/2 files (1 errors)");

    let mut all = UploadProgress::new(1);
    all.apply(UploadEvent::Started { key: "x".into(), total_bytes: 1 });
    all.apply(UploadEvent::FileCompleted);
    assert_eq!(all.finish_status(), "Uploaded 1 files");

    let mut cut = UploadProgress::new(3);
    cut.apply(UploadEvent::Started { key: "x".into(), total_bytes: 1 });
    cut.apply(UploadEvent::FileCompleted);
    assert_eq!(cut.finish_status(), "Upload cancelled (1/3 completed, 0 errors)");
}

#[test]
fn listing_one_level_of_the_key_space() {
    let it = items(&[
        ("tv/show/e1.mp4", 10),
        ("tv/show/e2.mp4", 20),
        ("tv/Zeta.mp4", 5),
        ("tv/alpha.mp4", 6),
        ("tv/.hidden/x", 1),
        ("tv/.kaidadb_dir", 0),
        ("movies/m.mp4", 3),
    ]);
    let e = browse_entries(&it, "tv/", false);
    let names: Vec<(&str, bool, usize, u64)> =
        e.iter().map(|b| (b.name.as_str(), b.is_dir, b.item_count, b.size)).collect();
    assert_eq!(
        names,
        vec![("show", true, 2, 0), ("alpha.mp4", false, 0, 6), ("Zeta.mp4", false, 0, 5)]
    );
    assert_eq!(e[1].full_key.as_deref(), Some("tv/alpha.mp4"));

    let shown = browse_entries(&it, "tv/", true);
    let names: Vec<&str> = shown.iter().map(|b| b.name.as_str()).collect();
    assert_eq!(names, vec![".hidden", "show", ".kaidadb_dir", "alpha.mp4", "Zeta.mp4"]);

    let top = browse_entries(&it, "", false);
    let names: Vec<(&str, usize)> = top.iter().map(|b| (b.name.as_str(), b.item_count)).collect();
    assert_eq!(names, vec![("movies", 1), ("tv", 6)]);
}

#[test]
fn the_path_tree_lists_directories_then_files() {
    let keys = strings(&["a/b/c", "a/b/d", "a/x.mp4", "a/B.mp4", "z"]);
    let e = path_entries(&keys, "a/");
    let names: Vec<(&str, bool, usize)> =
        e.iter().map(|p| (p.name.as_str(), p.is_dir, p.item_count)).collect();
    assert_eq!(names, vec![("b", true, 2), ("B.mp4", false, 0), ("x.mp4", false, 0)]);
    assert_eq!(path_entries(&keys, "").len(), 2);
}

#[test]
fn search_matches_key_or_content_type_ignoring_case() {
    let it: Vec<(String, String)> = vec![
        ("Movies/Alien.MP4".into(), "video/mp4".into()),
        ("music/song.mp3".into(), "audio/mpeg".into()),
        ("notes.txt".into(), "text/plain".into()),
    ];
    assert_eq!(filter_items(&it, "alien"), vec![0]);
    assert_eq!(filter_items(&it, "AUDIO"), vec![1]);
    assert_eq!(filter_items(&it, "mp"), vec![0, 1]);
    assert_eq!(filter_items(&it, ""), vec![0, 1, 2]);
    assert!(filter_items(&it, "zzz").is_empty());
}

#[test]
fn planning_renames() {
    let keys = strings(&["tv/a.mp4", "tv/sub/b.mp4", "tvx/c.mp4", "movies/d.mp4"]);
    assert!(matches!(plan_rename("   ", "tv", true, &keys), RenamePlan::EmptyKey));
    assert!(matches!(plan_rename(" tv ", "tv", true, &keys), RenamePlan::Unchanged));
    match plan_rename("shows ", "tv", true, &keys) {
        RenamePlan::Moves(m) => assert_eq!(
            m,
            vec![
                ("tv/a.mp4".to_string(), "shows/a.mp4".to_string()),
                ("tv/sub/b.mp4".to_string(), "shows/sub/b.mp4".to_string()),
            ]
        ),
        _ => panic!("expected moves"),
    }
    match plan_rename("empty2", "empty", true, &keys) {
        RenamePlan::NothingUnder(p) => assert_eq!(p, "empty/"),
        _ => panic!("expected nothing under"),
    }
    match plan_rename("new.mp4", "movies/d.mp4", false, &keys) {
        RenamePlan::Moves(m) => {
            assert_eq!(m, vec![("movies/d.mp4".to_string(), "new.mp4".to_string())])
        }
        _ => panic!("expected one move"),
    }
    assert_eq!(rename_report("tv", "shows", 2, 0), "Renamed directory 'tv' -> 'shows' (2 items)");
    assert_eq!(rename_report("tv", "shows", 1, 1), "Renamed 1 items, 1 failed ('tv' -> 'shows')");
}

#[test]
fn the_local_file_browser_lists_directories_first() {
    let read = vec![
        file("zeta.txt", false, 1),
        file("Docs", true, 0),
        file(".cache", true, 0),
        file("alpha.txt", false, 2),
        file("bin", true, 0),
        file(".profile", false, 3),
    ];
    let names = |v: Vec<FileEntry>| v.into_iter().map(|e| e.name).collect::<Vec<_>>();
    assert_eq!(names(local_entries(&read, false)), vec!["bin", "Docs", "alpha.txt", "zeta.txt"]);
    assert_eq!(
        names(local_entries(&read, true)),
        vec![".cache", "bin", "Docs", ".profile", "alpha.txt", "zeta.txt"]
    );
    let listed = local_entries(&read, false);
    assert_eq!(listed[2].path, "/home/u/alpha.txt");
    assert_eq!(listed[2].size, 2);
}

#[test]
fn deleting_a_directory_of_keys() {
    let keys = strings(&["tv/a", "tv/b/c", "tvx/d", "e"]);
    assert_eq!(keys_under(&keys, "tv/"), strings(&["tv/a", "tv/b/c"]));
    assert!(keys_under(&keys, "none/").is_empty());
    assert_eq!(delete_dir_report("tv/", None), "Directory 'tv/' is already empty");
    assert_eq!(
        delete_dir_report("tv/", Some((2, 3, 1))),
        "Force-deleted 'tv/' (2/3 deleted, 1 errors)"
    );
    assert_eq!(delete_confirm_mode(true, false), Some(InputMode::DeleteDirConfirm));
    assert_eq!(delete_confirm_mode(false, true), Some(InputMode::DeleteConfirm));
    assert_eq!(delete_confirm_mode(false, false), None);
}

#[test]
fn creating_directories() {
    assert_eq!(mkdir_marker("tv/", "  "), None);
    assert_eq!(
        mkdir_marker("tv/", " new "),
        Some(("tv/new/.kaidadb_dir".to_string(), "tv/new".to_string()))
    );
    assert_eq!(new_dir_prefix("a/", " b "), Some("a/b/".to_string()));
    assert_eq!(new_dir_prefix("a/", ""), None);
}

#[test]
fn planning_uploads() {
    assert_eq!(relative_upload_key("media/", "dir\\sub\\f.mp4"), "media/dir/sub/f.mp4");
    assert_eq!(relative_upload_key("", "f.mp4"), "f.mp4");
    let names = strings(&["a.mp4", "", "b.mp4", "a.mp4", "a.mp4"]);
    let (plan, dups) = plan_marked_upload(&names, "up/");
    assert_eq!(
        plan,
        vec![
            (0, "up/a.mp4".to_string()),
            (2, "up/b.mp4".to_string()),
            (3, "up/a.mp4".to_string()),
            (4, "up/a.mp4".to_string()),
        ]
    );
    assert_eq!(dups, 2);
    assert_eq!(upload_start_report(4, 0), "Starting upload of 4 files...");
    assert_eq!(
        upload_start_report(4, 2),
        "Starting upload of 4 files (warning: 2 duplicate filenames \u{2014} later uploads will overwrite earlier ones)"
    );
}

fn ctx() -> KeyContext {
    KeyContext { at_top: true, control: false, selected_dir: false, selected_file: false, can_store: false }
}

#[test]
fn key_bindings_per_mode() {
    let c = ctx();
    assert_eq!(key_command(InputMode::Normal, Key::Char('q'), c), Command::Quit);
    assert_eq!(
        key_command(InputMode::Normal, Key::Char('q'), KeyContext { at_top: false, ..c }),
        Command::BrowseUp
    );
    assert_eq!(key_command(InputMode::Normal, Key::Char('c'), c), Command::Nothing);
    assert_eq!(
        key_command(InputMode::Normal, Key::Char('c'), KeyContext { control: true, ..c }),
        Command::Quit
    );
    assert_eq!(key_command(InputMode::Normal, Key::Char('j'), c), Command::Next);
    assert_eq!(key_command(InputMode::Normal, Key::Enter, c), Command::ViewDetail);
    assert_eq!(key_command(InputMode::Search, Key::Char('q'), c), Command::SearchPush('q'));
    assert_eq!(key_command(InputMode::Search, Key::Enter, c), Command::RunSearch);
    assert_eq!(key_command(InputMode::PathBrowser, Key::Enter, c), Command::Nothing);
    assert_eq!(
        key_command(InputMode::PathBrowser, Key::Enter, KeyContext { selected_dir: true, ..c }),
        Command::PathEnter
    );
    assert_eq!(
        key_command(InputMode::NewDirInput, Key::Char('x'), c),
        Command::Edit(LineEdit::Insert('x'))
    );
    assert_eq!(key_command(InputMode::NewDirInput, Key::Home, c), Command::Nothing);
    assert_eq!(key_command(InputMode::StoreKey, Key::Home, c), Command::Edit(LineEdit::Home));
    assert_eq!(key_command(InputMode::StoreKey, Key::Enter, c), Command::Nothing);
    assert_eq!(
        key_command(InputMode::StoreKey, Key::Enter, KeyContext { can_store: true, ..c }),
        Command::StoreFile
    );
    assert_eq!(key_command(InputMode::FileBrowser, Key::PageDown, c), Command::BrowserPageDown(20));
    assert_eq!(key_command(InputMode::FileBrowser, Key::Enter, c), Command::BrowserEnter);
    assert_eq!(
        key_command(InputMode::FileBrowser, Key::Enter, KeyContext { selected_file: true, ..c }),
        Command::ChooseFile
    );
    assert_eq!(key_command(InputMode::DeleteConfirm, Key::Char('Y'), c), Command::RunDelete);
    assert_eq!(key_command(InputMode::DeleteConfirm, Key::Char('n'), c), Command::ToNormal);
    assert_eq!(key_command(InputMode::Detail, Key::Backspace, c), Command::ToNormal);
    assert_eq!(key_command(InputMode::Detail, Key::Char('d'), c), Command::ConfirmDelete);
    assert_eq!(key_command(InputMode::Uploading, Key::Esc, c), Command::Nothing);
    assert_eq!(mode_after(Command::RunSearch), Some(InputMode::Normal));
    assert_eq!(mode_after(Command::ChooseFile), Some(InputMode::StoreKey));
    assert_eq!(mode_after(Command::Next), None);
}

#[test]
fn scrolling_keeps_the_selection_in_view() {
    assert_eq!(scroll_offset(3, 5, 10), 3);
    assert_eq!(scroll_offset(7, 5, 10), 5);
    assert_eq!(scroll_offset(15, 5, 10), 6);
    assert_eq!(scroll_offset(0, 0, 1), 0);
    assert_eq!(scroll_offset(4, 0, 1), 4);
    assert_eq!(path_display(""), "/");
    assert_eq!(path_display("tv/"), "/tv/");
}

#[test]
fn rename_starts_from_the_selection() {
    let dir = BrowseEntry { name: "show".into(), is_dir: true, full_key: None, item_count: 2, size: 0 };
    let obj = BrowseEntry {
        name: "a.mp4".into(),
        is_dir: false,
        full_key: Some("tv/a.mp4".into()),
        item_count: 0,
        size: 9,
    };
    assert_eq!(rename_target("tv/", Some(&dir)), Some(("tv/show".to_string(), true)));
    assert_eq!(rename_target("tv/", Some(&obj)), Some(("tv/a.mp4".to_string(), false)));
    assert_eq!(rename_target("tv/", None), None);
}

fn dialog(input: &str, current: &str, is_dir: bool) -> RenameDialog {
    RenameDialog {
        mode: InputMode::RenameInput,
        input: input.into(),
        cursor: input.len(),
        current: current.into(),
        is_dir,
        status: "ready".into(),
    }
}

#[test]
fn renaming_a_directory_sends_its_moves_then_resets_the_dialog() {
    let keys = strings(&["a/x", "a/y/z", "ab/w"]);
    let (d, act) = rename_submitted(dialog("b", "a", true), &keys);
    match act {
        RenameAction::Send(m) => assert_eq!(
            m,
            vec![
                ("a/x".to_string(), "b/x".to_string()),
                ("a/y/z".to_string(), "b/y/z".to_string()),
            ]
        ),
        RenameAction::Nothing => panic!("expected moves"),
    }
    assert_eq!(d.mode, InputMode::RenameInput);
    let (d, refresh) = rename_replied(d, RenameReply::Dir { moved: 2, failed: 0 });
    assert!(refresh);
    assert_eq!(d.status, "Renamed directory 'a' -> 'b' (2 items)");
    assert_eq!(d.mode, InputMode::Normal);
    assert_eq!((d.input.as_str(), d.cursor, d.current.as_str(), d.is_dir), ("", 0, "", false));
}

#[test]
fn rename_dialog_messages() {
    let keys = strings(&["a/x"]);
    let (d, act) = rename_submitted(dialog("  ", "a", true), &keys);
    assert!(matches!(act, RenameAction::Nothing));
    assert_eq!((d.status.as_str(), d.mode), ("Key cannot be empty", InputMode::RenameInput));
    let (d, _) = rename_submitted(dialog("a", "a", true), &keys);
    assert_eq!((d.status.as_str(), d.mode), ("Name unchanged", InputMode::Normal));
    assert_eq!(d.input, "a");
    let (d, _) = rename_submitted(dialog("c", "q", true), &keys);
    assert_eq!((d.status.as_str(), d.mode), ("No items found under 'q/'", InputMode::Normal));
    let (d, act) = rename_submitted(dialog(" b.mp4", "a.mp4", false), &keys);
    assert!(matches!(act, RenameAction::Send(ref m) if m == &vec![("a.mp4".to_string(), "b.mp4".to_string())]));
    let (ok, refresh) = rename_replied(dialog(" b.mp4", "a.mp4", false), RenameReply::One(None));
    assert_eq!((ok.status.as_str(), refresh), ("Renamed 'a.mp4' -> 'b.mp4'", true));
    let (bad, refresh) = rename_replied(d, RenameReply::One(Some("gone".into())));
    assert_eq!((bad.status.as_str(), refresh), ("Rename failed: gone", false));
    let (off, refresh) = rename_replied(dialog("b", "a", false), RenameReply::NotConnected);
    assert_eq!((off.status.as_str(), refresh), ("ready", false));
    let (off, refresh) = rename_replied(dialog("b", "a", true), RenameReply::NotConnected);
    assert_eq!((off.status.as_str(), refresh), ("Renamed directory 'a' -> 'b' (0 items)", true));
    assert_eq!(off.mode, InputMode::Normal);
}
