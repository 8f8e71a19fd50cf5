use narwhal::config::{
    col_from_string, config_or_default, cycle_sort, Config, decode_sort, default_theme_colors, encode_sort, get_cache_home,
    get_config_home, get_set_theme, get_theme_file, theme_from_name, CuttlefishCfg, Rgb, SortType,
    ThemeFile, ThemeType,
};

#[test]
fn sort_tags_round_trip() {
    for t in [SortType::Alphabetical, SortType::Reverse, SortType::Folders, SortType::Files] {
        assert_eq!(decode_sort(encode_sort(t)), t);
    }
    assert_eq!(encode_sort(SortType::Reverse), "Reverse");
}

#[test]
fn unknown_sort_tag_means_folders() {
    assert_eq!(decode_sort("Folder".to_string()), SortType::Folders);
    assert_eq!(decode_sort(String::new()), SortType::Folders);
}

#[test]
fn sort_cycle_forward_four_times_is_identity() {
    for t in [SortType::Alphabetical, SortType::Reverse, SortType::Folders, SortType::Files] {
        let mut u = t;
        for _ in 0..4 {
            u = cycle_sort(u, false);
        }
        assert_eq!(u, t);
        assert_eq!(cycle_sort(cycle_sort(t, false), true), t);
    }
    assert_eq!(cycle_sort(SortType::Alphabetical, false), SortType::Reverse);
    assert_eq!(cycle_sort(SortType::Alphabetical, true), SortType::Files);
}

#[test]
fn theme_names() {
    assert_eq!(theme_from_name("dark"), ThemeType::Dark);
    assert_eq!(theme_from_name("custom"), ThemeType::Custom);
    assert_eq!(theme_from_name("Dark"), ThemeType::Light);
    assert_eq!(get_set_theme(None), ThemeType::Light);
    assert_eq!(get_set_theme(Some(CuttlefishCfg { theme: "dark".to_string() })), ThemeType::Dark);
}

#[test]
fn xdg_directories() {
    assert_eq!(get_cache_home(Some("/c".to_string()), Some("/h".to_string())), Some("/c".to_string()));
    assert_eq!(get_cache_home(None, Some("/h".to_string())), Some("/h/.cache".to_string()));
    assert_eq!(get_config_home(None, Some("/h".to_string())), Some("/h/.config".to_string()));
    assert_eq!(get_config_home(None, None), None);
}

#[test]
fn colours_from_hex() {
    assert_eq!(col_from_string("E0F5ff"), Some(Rgb { r: 0xE0, g: 0xF5, b: 0xFF }));
    assert_eq!(col_from_string("00193600"), Some(Rgb { r: 0x00, g: 0x19, b: 0x36 }));
    assert_eq!(col_from_string("12345"), None);
    assert_eq!(col_from_string("12345g"), None);
}

fn theme_file(bg1: &str) -> ThemeFile {
    ThemeFile {
        bg_color1: bg1.to_string(),
        bg_color2: "111111".to_string(),
        bg_color3: "222222".to_string(),
        txt_color: "333333".to_string(),
        red: "ff0000".to_string(),
        orange: "zzzzzz".to_string(),
        yellow: "ffff00".to_string(),
        green: "00ff00".to_string(),
        blue: "0000ff".to_string(),
        purple: "800080".to_string(),
        pink: "ffc0cb".to_string(),
    }
}

#[test]
fn theme_file_colours() {
    let c = get_theme_file(Some(theme_file("abcdef"))).unwrap();
    assert_eq!(c.background, Rgb { r: 0xAB, g: 0xCD, b: 0xEF });
    assert_eq!(c.primary, Rgb { r: 0, g: 0, b: 0xFF });
    assert_eq!(c.sidebar_bg, Rgb { r: 0x11, g: 0x11, b: 0x11 });
    assert_eq!(c.secondary_text, Rgb { r: 0x33, g: 0x33, b: 0x33 });
    assert_eq!(get_theme_file(Some(theme_file("nothex"))), None);
    assert_eq!(get_theme_file(None), Some(default_theme_colors()));
}

#[test]
fn config_defaults_and_icon_size_bound() {
    let d = config_or_default(None);
    assert_eq!(d.sort_mode, "Folders");
    assert!(!d.show_hidden);
    assert!(d.bookmarks.is_empty());
    assert_eq!(d.icn_theme, "Adwaita");
    assert_eq!(d.icn_size, 32);
    let c = Config { sort_mode: "Files".to_string(), show_hidden: true, bookmarks: vec![], icn_theme: "Papirus".to_string(), icn_size: 40000 };
    let r = config_or_default(Some(c));
    assert_eq!(r.sort_mode, "Files");
    assert!(r.show_hidden);
    assert_eq!(r.icn_theme, "Papirus");
    assert_eq!(r.icn_size, 32);
    let c = Config { sort_mode: "Files".to_string(), show_hidden: true, bookmarks: vec![], icn_theme: "Papirus".to_string(), icn_size: 48 };
    assert_eq!(config_or_default(Some(c)).icn_size, 48);
}

#[test]
fn theme_file_accents() {
    let c = get_theme_file(Some(theme_file("abcdef"))).unwrap();
    assert_eq!(c.success, Rgb { r: 0, g: 0xFF, b: 0 });
    assert_eq!(c.danger, Rgb { r: 0xFF, g: 0, b: 0 });
    assert_eq!(c.text, Rgb { r: 0x33, g: 0x33, b: 0x33 });
}
