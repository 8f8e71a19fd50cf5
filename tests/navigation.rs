use narwhal::config::{BookmarkDir, Config, FileType, SortType, ThemeType};
use narwhal::icons::IconCache;
use narwhal::sorting::FileEntry;
use narwhal::state::{Effect, Key, KeyEvent, Message, Modifiers, Narwhal, WindowEvent};
use narwhal::text::{last_segment_exec, parent_path_exec, path_segments_exec};
use narwhal::view::{clip_file_name, cursor_target_exec, visible_indices_exec, Direction};

fn config(sort: &str) -> Config {
    Config {
        sort_mode: sort.to_string(),
        show_hidden: false,
        bookmarks: vec![],
        icn_theme: "hicolor".to_string(),
        icn_size: 32,
    }
}

fn entries(names: &[&str]) -> Vec<FileEntry> {
    names
        .iter()
        .map(|n| FileEntry::new(n.to_string(), format!("/home/u/{}", n), FileType::File))
        .collect()
}

fn session(names: &[&str]) -> Narwhal {
    Narwhal::new(&config("Alphabetical"), IconCache::new(), "/home/u".to_string(), entries(names), ThemeType::Light, "/u.svg".to_string())
}

fn no_mods() -> Modifiers {
    Modifiers { shift: false, control: false, alt: false, logo: false }
}

fn shift() -> Modifiers {
    Modifiers { shift: true, control: false, alt: false, logo: false }
}

fn press(key: Key, modifiers: Modifiers) -> Message {
    Message::KeyboardUpdate(KeyEvent::KeyPressed { key, modifiers })
}

#[test]
fn cursor_down_wraps_within_short_last_row() {
    let v: Vec<usize> = (0..7).collect();
    assert_eq!(cursor_target_exec(&v, Some(5), 3, Direction::Down), Some(2));
    assert_eq!(cursor_target_exec(&v, Some(2), 3, Direction::Down), Some(5));
    assert_eq!(cursor_target_exec(&v, Some(0), 3, Direction::Up), Some(6));
    assert_eq!(cursor_target_exec(&v, Some(2), 3, Direction::Up), Some(5));
    assert_eq!(cursor_target_exec(&v, Some(0), 3, Direction::Left), Some(6));
    assert_eq!(cursor_target_exec(&v, Some(6), 3, Direction::Right), Some(0));
    assert_eq!(cursor_target_exec(&v, None, 3, Direction::Left), Some(6));
    assert_eq!(cursor_target_exec(&v, None, 3, Direction::Up), Some(0));
    assert_eq!(cursor_target_exec(&vec![], None, 3, Direction::Down), None);
}

#[test]
fn cursor_down_in_a_session_grid() {
    let mut n = session(&["a", "b", "c", "d", "e", "f", "g"]);
    let e = n.update(Message::WindowUpdate(WindowEvent::Resized { width: 120 + 3 * 84, height: 3 * 104 }));
    assert!(matches!(e, Effect::Redraw));
    assert_eq!((n.desired_cols, n.desired_rows), (3, 3));
    assert!(matches!(n.update(Message::FileClicked(5)), Effect::Redraw));
    assert_eq!(n.last_clicked_file, Some(5));
    n.update(press(Key::Down, no_mods()));
    assert_eq!(n.last_clicked_file, Some(2));
}

#[test]
fn resize_clamps_to_one_cell() {
    let mut n = session(&["a"]);
    n.update(Message::WindowUpdate(WindowEvent::Resized { width: 150, height: 50 }));
    assert_eq!((n.desired_cols, n.desired_rows), (1, 1));
    let e = n.update(Message::WindowUpdate(WindowEvent::Resized { width: 150, height: 50 }));
    assert!(matches!(e, Effect::Nothing));
}

#[test]
fn hiding_files_clears_a_hidden_selection() {
    let mut n = session(&[".cfg", "a", "b"]);
    n.update(Message::HiddenChanged);
    assert!(n.show_hidden);
    n.update(Message::FileClicked(0));
    assert_eq!(n.last_clicked_file, Some(0));
    n.update(Message::HiddenChanged);
    assert_eq!(n.last_clicked_file, None);
    assert_eq!(n.visible(), vec![1, 2]);
    n.update(press(Key::Right, no_mods()));
    assert_eq!(n.last_clicked_file, Some(1));
}

#[test]
fn grid_cap_limits_visible_entries() {
    let e = entries(&["a", ".b", "c", "d"]);
    assert_eq!(visible_indices_exec(&e, false, 2), vec![0, 2]);
    assert_eq!(visible_indices_exec(&e, true, 10), vec![0, 1, 2, 3]);
    assert_eq!(visible_indices_exec(&e, false, 0), Vec::<usize>::new());
}

#[test]
fn clicking_twice_asks_for_activation() {
    let mut n = session(&["a", "b"]);
    assert!(matches!(n.update(Message::FileClicked(1)), Effect::Redraw));
    match n.update(Message::FileClicked(1)) {
        Effect::Inspect { index, path, is_link } => {
            assert_eq!(index, 1);
            assert_eq!(path, "/home/u/b");
            assert!(!is_link);
        }
        _ => panic!("expected an activation"),
    }
    match n.activate(1, "inode/directory", None) {
        Effect::Reload => {}
        _ => panic!("expected a reload"),
    }
    assert_eq!(n.current_path, "/home/u/b");
    assert_eq!(n.last_clicked_file, None);
}

#[test]
fn activating_a_link_to_a_directory_makes_it_absolute() {
    let mut n = session(&["a"]);
    n.activate(0, "inode/directory", Some("srv/data".to_string()));
    assert_eq!(n.current_path, "/home/u/srv/data");
    n.activate(0, "inode/directory", Some("/srv/data".to_string()));
    assert_eq!(n.current_path, "/srv/data");
    match n.activate(0, "text/plain", None) {
        Effect::Open { path } => assert_eq!(path, "/home/u/a"),
        _ => panic!("expected an open"),
    }
}

#[test]
fn delete_needs_two_presses_on_the_same_selection() {
    let mut n = session(&["a", "b"]);
    n.update(Message::FileClicked(0));
    assert!(matches!(n.update(Message::DeleteClicked), Effect::Nothing));
    assert!(n.deletion_confirmation);
    match n.update(Message::DeleteClicked) {
        Effect::Remove { path, recursive } => {
            assert_eq!(path, "/home/u/a");
            assert!(!recursive);
        }
        _ => panic!("expected a deletion"),
    }
    assert!(!n.deletion_confirmation);
}

#[test]
fn navigation_between_deletes_disarms() {
    let mut n = session(&["a", "b"]);
    n.update(Message::FileClicked(0));
    n.update(press(Key::Minus, shift()));
    assert!(n.deletion_confirmation);
    n.update(press(Key::Right, no_mods()));
    assert!(!n.deletion_confirmation);
    assert!(matches!(n.update(press(Key::Minus, shift())), Effect::Nothing));
    assert!(n.deletion_confirmation);
}

#[test]
fn delete_without_selection_disarms() {
    let mut n = session(&["a"]);
    assert!(matches!(n.update(Message::DeleteClicked), Effect::Nothing));
    assert!(!n.deletion_confirmation);
}

#[test]
fn bookmark_toggle_adds_then_removes() {
    let mut n = session(&["a"]);
    n.update(Message::BookmarkCurrent);
    assert_eq!(n.bookmarked_dirs.len(), 1);
    assert_eq!(n.bookmarked_dirs[0].name, "u");
    assert_eq!(n.bookmarked_dirs[0].path, "/home/u");
    n.update(press(Key::B, shift()));
    assert_eq!(n.bookmarked_dirs.len(), 0);
}

#[test]
fn bookmark_keys_open_bookmarks() {
    let mut cfg = config("Folders");
    cfg.bookmarks = vec![
        BookmarkDir { name: "tmp".to_string(), path: "/tmp".to_string() },
        BookmarkDir { name: "dup".to_string(), path: "/tmp".to_string() },
        BookmarkDir { name: "etc".to_string(), path: "/etc".to_string() },
    ];
    let mut n = Narwhal::new(&cfg, IconCache::new(), "/home/u".to_string(), entries(&["a"]), ThemeType::Dark, "/u.svg".to_string());
    assert_eq!(n.bookmarked_dirs.len(), 2);
    assert!(matches!(n.update(press(Key::Num(2), no_mods())), Effect::Reload));
    assert_eq!(n.current_path, "/etc");
    assert!(matches!(n.update(press(Key::Num(3), no_mods())), Effect::Nothing));
    assert!(matches!(n.update(Message::BookmarkClicked(0)), Effect::Reload));
    assert_eq!(n.current_path, "/tmp");
}

#[test]
fn config_round_trip() {
    let mut n = session(&["a"]);
    n.update(Message::BookmarkCurrent);
    n.update(Message::HiddenChanged);
    n.update(Message::SortChanged);
    let cfg = n.config();
    assert_eq!(cfg.sort_mode, "Reverse");
    assert!(cfg.show_hidden);
    let back = Narwhal::new(&cfg, IconCache::new(), "/".to_string(), vec![], ThemeType::Light, "/u.svg".to_string());
    assert_eq!(back.sort_type, SortType::Reverse);
    assert!(back.show_hidden);
    assert_eq!(back.bookmarked_dirs.len(), 1);
    assert_eq!(back.bookmarked_dirs[0].path, "/home/u");
}

#[test]
fn sort_key_cycles_and_clears_selection() {
    let mut n = session(&["b", "a", "c"]);
    n.update(Message::FileClicked(0));
    n.update(press(Key::S, no_mods()));
    assert_eq!(n.sort_type, SortType::Reverse);
    assert_eq!(n.files[0].name, "c");
    assert_eq!(n.last_clicked_file, None);
    n.update(press(Key::S, shift()));
    assert_eq!(n.sort_type, SortType::Alphabetical);
    assert_eq!(n.files[0].name, "a");
}

#[test]
fn move_and_copy_are_staged() {
    let mut n = session(&["a"]);
    n.update(Message::FileClicked(0));
    assert!(matches!(n.update(Message::MvClicked), Effect::Nothing));
    assert_eq!(n.mv_target, Some("/home/u/a".to_string()));
    n.update(Message::GoBack(1));
    assert_eq!(n.current_path, "/home");
    match n.update(Message::MvClicked) {
        Effect::Move { from, to } => {
            assert_eq!(from, "/home/u/a");
            assert_eq!(to, "/home");
        }
        _ => panic!("expected a move"),
    }
    assert_eq!(n.mv_target, None);
    assert!(matches!(n.update(Message::CpClicked), Effect::Nothing));
    assert_eq!(n.cp_target, None);
}

#[test]
fn create_file_and_folder() {
    let mut n = session(&["a"]);
    match n.update(Message::MkFile) {
        Effect::Touch { path } => assert_eq!(path, "/home/u/NewFile"),
        _ => panic!("expected a touch"),
    }
    match n.update(press(Key::N, shift())) {
        Effect::MakeDir { path } => assert_eq!(path, "/home/u/NewFolder"),
        _ => panic!("expected a mkdir"),
    }
}

#[test]
fn rename_commits_only_a_typed_name() {
    let mut n = session(&["a"]);
    n.update(Message::FileClicked(0));
    assert!(matches!(n.update(Message::RenameToggle), Effect::FocusRename));
    assert_eq!(n.type_mode, Some(String::new()));
    assert!(matches!(n.update(press(Key::Left, no_mods())), Effect::Nothing));
    assert!(matches!(n.update(press(Key::Enter, no_mods())), Effect::Nothing));
    assert_eq!(n.type_mode, None);
    n.update(press(Key::R, no_mods()));
    n.update(Message::RenameUpdate("b.txt".to_string()));
    match n.update(press(Key::Enter, no_mods())) {
        Effect::Rename { from, to } => {
            assert_eq!(from, "/home/u/a");
            assert_eq!(to, "/home/u/b.txt");
        }
        _ => panic!("expected a rename"),
    }
    n.update(Message::RenameToggle);
    assert!(matches!(n.update(press(Key::Escape, no_mods())), Effect::Nothing));
    assert_eq!(n.type_mode, None);
}

#[test]
fn go_back_pops_segments() {
    assert_eq!(parent_path_exec("/a/b"), "/a");
    assert_eq!(parent_path_exec("/a"), "/");
    assert_eq!(parent_path_exec("/"), "/");
    assert_eq!(parent_path_exec("/a/b/"), "/a");
    assert_eq!(parent_path_exec("a"), "");
    let mut n = session(&["a"]);
    assert!(matches!(n.update(Message::GoBack(5)), Effect::Reload));
    assert_eq!(n.current_path, "/");
    assert!(matches!(n.update(Message::GoBack(0)), Effect::Nothing));
}

#[test]
fn last_segments() {
    assert_eq!(last_segment_exec("/home/u"), "u");
    assert_eq!(last_segment_exec("/"), "");
    assert_eq!(last_segment_exec("plain"), "plain");
}

#[test]
fn names_are_clipped() {
    assert_eq!(clip_file_name("short".to_string()), "short");
    assert_eq!(clip_file_name("exactly10c".to_string()), "exactly10c");
    assert_eq!(clip_file_name("a_rather_long_name".to_string()), "a_rather_l...");
}

#[test]
fn regeneration_caches_resolved_keys() {
    let mut n = session(&["a", "b", ".h"]);
    let needed = n.paths_needing_mime();
    assert_eq!(needed, vec!["/home/u/a".to_string(), "/home/u/b".to_string()]);
    let answers = vec![("/home/u/a".to_string(), "inode/directory".to_string()), ("/home/u/b".to_string(), "inode/directory".to_string())];
    n.regen_ui_files(answers);
    assert_eq!(n.ui_files.len(), 2);
    assert_eq!(n.files[0].name, ".h");
    assert_eq!(n.ui_files[0].original_index, 1);
    assert_eq!(n.ui_files[1].original_index, 2);
    assert_eq!(n.ui_files[1].name, "b");
    assert!(!n.ui_files[0].selected);
    assert_eq!(n.icon_cache.get("/home/u/a"), Some("folder".to_string()));
    assert!(n.paths_needing_mime().is_empty());
    n.regen_ui_files(vec![]);
    assert_eq!(n.ui_files.len(), 2);
    assert_eq!(n.cache_file().contents.len(), 2);
}

#[test]
fn modifiers_show_key_hints() {
    let mut n = session(&["a"]);
    n.update(Message::KeyboardUpdate(KeyEvent::ModifiersChanged(Modifiers { shift: false, control: true, alt: false, logo: false })));
    assert!(n.show_keybinds);
    assert!(matches!(n.update(Message::WindowUpdate(WindowEvent::CloseRequested)), Effect::Shutdown));
    n.update(Message::ToggleMenu);
    assert!(!n.show_file_options);
}

#[test]
fn path_bar_segments() {
    assert_eq!(path_segments_exec("/home/u"), vec!["home".to_string(), "u".to_string()]);
    assert_eq!(path_segments_exec("/"), vec![String::new()]);
    assert_eq!(path_segments_exec("a/b"), vec!["a".to_string(), "b".to_string()]);
    assert!(path_segments_exec("").is_empty());
}

#[test]
fn narrow_window_gets_one_column() {
    let mut n = session(&["a"]);
    n.update(Message::WindowUpdate(WindowEvent::Resized { width: 100, height: 500 }));
    assert_eq!((n.desired_cols, n.desired_rows), (1, 4));
}

#[test]
fn keys_that_do_nothing_keep_the_delete_armed() {
    let mut n = session(&["a", "b"]);
    n.update(Message::FileClicked(0));
    n.update(Message::DeleteClicked);
    assert!(n.deletion_confirmation);
    assert!(matches!(n.update(press(Key::Num(4), no_mods())), Effect::Nothing));
    assert!(n.deletion_confirmation);
    n.update(Message::KeyboardUpdate(KeyEvent::ModifiersChanged(shift())));
    assert!(n.deletion_confirmation);
    match n.update(Message::DeleteClicked) {
        Effect::Remove { path, .. } => assert_eq!(path, "/home/u/a"),
        _ => panic!("expected a deletion"),
    }
}

#[test]
fn rename_mode_disables_commands() {
    let mut n = session(&["a", "b"]);
    n.update(Message::FileClicked(0));
    n.update(Message::DeleteClicked);
    n.update(press(Key::R, no_mods()));
    assert!(n.deletion_confirmation);
    assert!(matches!(n.update(press(Key::Other, no_mods())), Effect::Nothing));
    assert!(n.deletion_confirmation);
    for m in [Message::SortChanged, Message::HiddenChanged, Message::DeleteClicked, Message::MvClicked, Message::MkFile, Message::GoBack(1), Message::FileClicked(1)] {
        assert!(matches!(n.update(m), Effect::Nothing));
    }
    assert_eq!(n.sort_type, SortType::Alphabetical);
    assert!(!n.show_hidden);
    assert_eq!(n.mv_target, None);
    assert_eq!(n.current_path, "/home/u");
    assert_eq!(n.last_clicked_file, Some(0));
    assert!(n.deletion_confirmation);
}
