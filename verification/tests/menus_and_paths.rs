use blurred::input::{is_copy_shortcut, is_toggle_visibility_shortcut};
use blurred::menu::{format_recent_menu_label, sanitize_menu_label, MenuCommand, MenuItemKind};
use blurred::paths::{file_and_folder_names, paths_match};
use blurred::state::{AppState, SavedState, StateAction};

#[test]
fn paths_compare_by_components() {
    assert!(paths_match(&b"/tmp/a".to_vec(), &b"/tmp/a".to_vec()));
    assert!(paths_match(&b"/tmp/a".to_vec(), &b"/tmp//a/".to_vec()));
    assert!(paths_match(&b"/tmp/./a".to_vec(), &b"/tmp/a".to_vec()));
    assert!(paths_match(&b"./a".to_vec(), &b"./a/.".to_vec()));
    assert!(!paths_match(&b"./a".to_vec(), &b"a".to_vec()));
    assert!(!paths_match(&b"/a".to_vec(), &b"a".to_vec()));
    assert!(!paths_match(&b"/tmp/a/..".to_vec(), &b"/tmp".to_vec()));
}

#[test]
fn file_and_folder_names_of_paths() {
    let (file, folder) = file_and_folder_names(&b"/tmp/notes/a.txt".to_vec());
    assert_eq!(file, Some(b"a.txt".to_vec()));
    assert_eq!(folder, Some(b"notes".to_vec()));
    let (file, folder) = file_and_folder_names(&b"/".to_vec());
    assert_eq!(file, None);
    assert_eq!(folder, None);
    let (file, folder) = file_and_folder_names(&b"a.txt".to_vec());
    assert_eq!(file, Some(b"a.txt".to_vec()));
    assert_eq!(folder, None);
}

#[test]
fn recent_labels() {
    assert_eq!(format_recent_menu_label(0, &b"/tmp/one.txt".to_vec()), "1. one.txt (tmp)");
    assert_eq!(format_recent_menu_label(9, &b"/x/c/d.txt".to_vec()), "10. d.txt (c)");
    assert_eq!(format_recent_menu_label(0, &b"notes.txt".to_vec()), "1. notes.txt");
    assert_eq!(format_recent_menu_label(2, &b"/".to_vec()), "3. Untitled");
    assert_eq!(format_recent_menu_label(0, &b"/tmp/a&b.txt".to_vec()), "1. a&&b.txt (tmp)");
    assert_eq!(format_recent_menu_label(0, &b"/a\\b/c.txt".to_vec()), "1. c.txt (a b)");
    // names that are not UTF-8 are shown as on a system that cannot read them
    assert_eq!(format_recent_menu_label(0, &b"/tmp/caf\xe9.txt".to_vec()), "1. Untitled (tmp)");
    assert_eq!(format_recent_menu_label(1, &b"/d\xff/a.txt".to_vec()), "2. a.txt");
}

#[test]
fn labels_are_sanitized() {
    assert_eq!(sanitize_menu_label("a/b"), "a / b");
    assert_eq!(sanitize_menu_label("x&y"), "x&&y");
    assert_eq!(sanitize_menu_label("p\\q"), "p q");
    assert_eq!(sanitize_menu_label("plain"), "plain");
}

#[test]
fn menu_of_a_fresh_state() {
    let state = AppState::from_settings(SavedState::default());
    let entries = state.menu_entries();
    let labels: Vec<&str> = entries.iter().map(|e| e.label.as_str()).collect();
    assert_eq!(
        labels,
        vec![
            "&File/Open...\t",
            "&File/Open Recent/(Empty)",
            "&File/Reload\t",
            "&File/Quit\t",
            "&Options/Always Visible\t",
            "&Options/Auto Show\t",
            "&Options/Settings...\t",
            "&View/Show\t",
            "&View/Hide\t",
        ]
    );
    assert_eq!(entries[0].ctrl_key, Some('o'));
    assert_eq!(entries[1].kind, MenuItemKind::Inactive);
    assert_eq!(entries[1].command, MenuCommand::Nothing);
    assert_eq!(entries[4].kind, MenuItemKind::Toggle { checked: false });
    assert_eq!(entries[5].kind, MenuItemKind::Toggle { checked: true });
}

#[test]
fn menu_lists_recent_files_newest_first() {
    let mut state = AppState::from_settings(SavedState::default());
    state.apply(StateAction::FileLoaded { path: b"/tmp/one.txt".to_vec() }, 0);
    state.apply(StateAction::FileLoaded { path: b"/home/me/two.txt".to_vec() }, 0);
    state.apply(StateAction::SetAlwaysVisible(true), 0);
    let entries = state.menu_entries();
    assert_eq!(entries.len(), 10);
    assert_eq!(entries[1].label, "&File/Open Recent/1. two.txt (me)");
    assert_eq!(entries[1].command, MenuCommand::OpenRecent(0));
    assert_eq!(entries[2].label, "&File/Open Recent/2. one.txt (tmp)");
    assert_eq!(entries[2].command, MenuCommand::OpenRecent(1));
    assert_eq!(entries[5].kind, MenuItemKind::Toggle { checked: true });
}

#[test]
fn shortcuts() {
    assert!(is_copy_shortcut(true, false, 'c' as i32));
    assert!(is_copy_shortcut(false, true, 'C' as i32));
    assert!(!is_copy_shortcut(false, false, 'c' as i32));
    assert!(!is_copy_shortcut(true, false, 'v' as i32));
    assert!(is_toggle_visibility_shortcut(false, false, false, ' ' as i32));
    assert!(!is_toggle_visibility_shortcut(true, false, false, ' ' as i32));
    assert!(!is_toggle_visibility_shortcut(false, false, true, ' ' as i32));
    assert!(!is_toggle_visibility_shortcut(false, false, false, 'a' as i32));
}
