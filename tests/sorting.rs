use narwhal::config::{FileType, SortType};
use narwhal::sorting::{folder_cmp, get_file_type, sort_file_by_type, FileEntry};

fn entry(name: &str, kind: FileType) -> FileEntry {
    FileEntry::new(name.to_string(), format!("/home/u/{}", name), kind)
}

fn sample() -> Vec<FileEntry> {
    vec![
        entry("notes.txt", FileType::File),
        entry("Music", FileType::Folder),
        entry("alpha", FileType::Folder),
        entry("link", FileType::Link),
        entry("Zeta.md", FileType::File),
    ]
}

fn names(v: &[FileEntry]) -> Vec<String> {
    v.iter().map(|e| e.name.clone()).collect()
}

#[test]
fn sort_alphabetical_orders_by_name() {
    let mut v = sample();
    sort_file_by_type(&mut v, SortType::Alphabetical);
    assert_eq!(names(&v), vec!["Music", "Zeta.md", "alpha", "link", "notes.txt"]);
}

#[test]
fn sort_reverse_orders_by_name_descending() {
    let mut v = sample();
    sort_file_by_type(&mut v, SortType::Reverse);
    assert_eq!(names(&v), vec!["notes.txt", "link", "alpha", "Zeta.md", "Music"]);
}

#[test]
fn sort_folders_first_groups_links_with_files() {
    let mut v = sample();
    sort_file_by_type(&mut v, SortType::Folders);
    assert_eq!(names(&v), vec!["Music", "alpha", "Zeta.md", "link", "notes.txt"]);
}

#[test]
fn sort_files_first_puts_folders_last() {
    let mut v = sample();
    sort_file_by_type(&mut v, SortType::Files);
    assert_eq!(names(&v), vec!["Zeta.md", "link", "notes.txt", "Music", "alpha"]);
}

#[test]
fn sorting_twice_changes_nothing() {
    for order in [SortType::Alphabetical, SortType::Reverse, SortType::Folders, SortType::Files] {
        let mut once = sample();
        sort_file_by_type(&mut once, order);
        let mut twice = sample();
        sort_file_by_type(&mut twice, order);
        sort_file_by_type(&mut twice, order);
        assert_eq!(names(&once), names(&twice));
    }
}

#[test]
fn comparator_is_total_on_samples() {
    let v = sample();
    for order in [SortType::Alphabetical, SortType::Reverse, SortType::Folders, SortType::Files] {
        for a in &v {
            for b in &v {
                assert!(folder_cmp(a, b, order) || folder_cmp(b, a, order));
            }
        }
    }
}

#[test]
fn sort_of_empty_listing_is_empty() {
    let mut v: Vec<FileEntry> = vec![];
    sort_file_by_type(&mut v, SortType::Folders);
    assert!(v.is_empty());
}

#[test]
fn file_type_from_metadata_flags() {
    assert_eq!(get_file_type(true, false, false), FileType::Folder);
    assert_eq!(get_file_type(false, true, false), FileType::File);
    assert_eq!(get_file_type(false, false, true), FileType::Link);
    assert_eq!(get_file_type(false, false, false), FileType::File);
}

#[test]
fn sorting_ignores_the_read_order() {
    for order in [SortType::Alphabetical, SortType::Reverse, SortType::Folders, SortType::Files] {
        let mut a = sample();
        let mut b = sample();
        b.reverse();
        b.swap(0, 2);
        sort_file_by_type(&mut a, order);
        sort_file_by_type(&mut b, order);
        assert_eq!(names(&a), names(&b));
    }
}
