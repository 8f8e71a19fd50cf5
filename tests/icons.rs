use narwhal::icons::{
    choose_icon_key, choose_icon_path, clean_bad_mime, get_file_icon, normalize_mime_exec,
    IconCache,
};

#[test]
fn mime_is_normalized() {
    assert_eq!(normalize_mime_exec("text/plain"), "text-plain");
    assert_eq!(normalize_mime_exec("inode/directory"), "inode-directory");
    assert_eq!(normalize_mime_exec(""), "");
}

#[test]
fn fallback_keys() {
    assert_eq!(clean_bad_mime("application-pdf".to_string()), "application-x-executable");
    assert_eq!(clean_bad_mime("text-x-rust".to_string()), "text-x-generic");
    assert_eq!(clean_bad_mime("inode-directory".to_string()), "folder");
    assert_eq!(clean_bad_mime("image".to_string()), "image-x-generic");
}

#[test]
fn key_choice_follows_the_lookups() {
    assert_eq!(choose_icon_key("inode/directory", true, true), "folder");
    assert_eq!(choose_icon_key("text/plain", true, false), "text-plain");
    assert_eq!(choose_icon_key("application/pdf", false, true), "application-x-executable");
    assert_eq!(choose_icon_key("audio/ogg", false, true), "audio-x-generic");
    assert_eq!(choose_icon_key("audio/ogg", false, false), "text-x-generic");
}

#[test]
fn icon_path_choice() {
    assert_eq!(choose_icon_path(Some("/a.svg".to_string()), Some("/b.svg".to_string()), "/u.svg"), "/a.svg");
    assert_eq!(choose_icon_path(None, Some("/b.svg".to_string()), "/u.svg"), "/b.svg");
    assert_eq!(choose_icon_path(None, None, "/u.svg"), "/u.svg");
}

#[test]
fn cache_insert_get_and_entries() {
    let mut c = IconCache::new();
    assert_eq!(c.len(), 0);
    c.insert("/a".to_string(), "text-plain".to_string());
    c.insert("/b".to_string(), "folder".to_string());
    c.insert("/a".to_string(), "image-png".to_string());
    assert_eq!(c.len(), 2);
    assert_eq!(c.get("/a"), Some("image-png".to_string()));
    assert!(c.contains("/b"));
    assert_eq!(c.get("/c"), None);
    let mut e = c.entries();
    e.sort();
    assert_eq!(e, vec![("/a".to_string(), "image-png".to_string()), ("/b".to_string(), "folder".to_string())]);
}

#[test]
fn cache_merge_prefers_the_batch() {
    let mut c = IconCache::from_entries(vec![("/a".to_string(), "x".to_string())]);
    c.merge(vec![("/a".to_string(), "y".to_string()), ("/b".to_string(), "z".to_string()), ("/b".to_string(), "w".to_string())]);
    assert_eq!(c.get("/a"), Some("y".to_string()));
    assert_eq!(c.get("/b"), Some("w".to_string()));
    assert_eq!(c.len(), 2);
}

#[test]
fn uncached_path_records_its_key() {
    let c = IconCache::new();
    let (delta, _icon) = get_file_icon(&c, "/home/u/d", Some("inode/directory".to_string()), "hicolor", 32, "/u.svg");
    assert_eq!(delta, Some(("/home/u/d".to_string(), "folder".to_string())));
    let (none, icon) = get_file_icon(&c, "/home/u/d", None, "hicolor", 32, "/u.svg");
    assert_eq!(none, None);
    assert_eq!(icon, "/u.svg");
}

#[test]
fn cached_path_records_nothing() {
    let mut c = IconCache::new();
    c.insert("/home/u/d".to_string(), "folder".to_string());
    let (delta, icon) = get_file_icon(&c, "/home/u/d", Some("text/plain".to_string()), "hicolor", 32, "/unknown");
    assert_eq!(delta, None);
    assert!(icon == "/unknown" || icon.ends_with(".png") || icon.ends_with(".svg") || icon.ends_with(".xmp"));
}
