//! The persisted settings: sort mode tags, bookmarks, the config record, the
//! theme choice and the colours of a theme file.

use vstd::prelude::*;
use vstd::string::*;
use crate::text::same_text;
use crate::icons::MAX_ICON_SIZE;

verus! {

/// The four orders of the directory listing, a ring in this order.
#[derive(Clone, Copy, PartialEq, Eq, Structural, Debug)]
pub enum SortType {
    Alphabetical,
    Reverse,
    Folders,
    Files,
}

/// What kind of filesystem entry a child of a directory is.
#[derive(Clone, Copy, PartialEq, Eq, Structural, Debug)]
pub enum FileType {
    Folder,
    File,
    Link,
}

/// Which of the three colour themes the user chose.
#[derive(Clone, Copy, PartialEq, Eq, Structural, Debug)]
pub enum ThemeType {
    Light,
    Dark,
    Custom,
}

/// A bookmarked directory: the name shown in the sidebar and its path.
pub struct BookmarkDir {
    pub name: String,
    pub path: String,
}

/// The persisted settings.
pub struct Config {
    pub sort_mode: String,
    pub show_hidden: bool,
    pub bookmarks: Vec<BookmarkDir>,
    pub icn_theme: String,
    pub icn_size: u16,
}

/// The persisted theme choice of the desktop suite.
pub struct CuttlefishCfg {
    pub theme: String,
}

/// The tag under which a sort order is persisted.
pub open spec fn sort_tag(t: SortType) -> Seq<char> {
    match t {
        SortType::Alphabetical => "Alphabetical"@,
        SortType::Reverse => "Reverse"@,
        SortType::Folders => "Folders"@,
        SortType::Files => "Files"@,
    }
}

/// The sort order a persisted tag stands for; an unknown tag means `Folders`.
pub open spec fn sort_of_tag(s: Seq<char>) -> SortType {
    if s == "Alphabetical"@ {
        SortType::Alphabetical
    } else if s == "Reverse"@ {
        SortType::Reverse
    } else if s == "Files"@ {
        SortType::Files
    } else {
        SortType::Folders
    }
}

/// The next order of the ring.
pub open spec fn next_sort(t: SortType) -> SortType {
    match t {
        SortType::Alphabetical => SortType::Reverse,
        SortType::Reverse => SortType::Folders,
        SortType::Folders => SortType::Files,
        SortType::Files => SortType::Alphabetical,
    }
}

/// The previous order of the ring.
pub open spec fn prev_sort(t: SortType) -> SortType {
    match t {
        SortType::Alphabetical => SortType::Files,
        SortType::Reverse => SortType::Alphabetical,
        SortType::Folders => SortType::Reverse,
        SortType::Files => SortType::Folders,
    }
}

/// Converts a sort order to its persisted tag.
pub fn encode_sort(sort_type: SortType) -> (r: String)
    ensures
        r@ == sort_tag(sort_type),
{
    match sort_type {
        SortType::Alphabetical => String::from_str("Alphabetical"),
        SortType::Reverse => String::from_str("Reverse"),
        SortType::Folders => String::from_str("Folders"),
        SortType::Files => String::from_str("Files"),
    }
}

/// Converts a persisted tag to its sort order.
pub fn decode_sort(sort_type: String) -> (r: SortType)
    ensures
        r == sort_of_tag(sort_type@),
{
    let test = sort_type.as_str();
    if same_text(test, "Alphabetical") {
        SortType::Alphabetical
    } else if same_text(test, "Reverse") {
        SortType::Reverse
    } else if same_text(test, "Files") {
        SortType::Files
    } else {
        SortType::Folders
    }
}

/// Steps the ring forwards, or backwards when `reverse`.
pub fn cycle_sort(t: SortType, reverse: bool) -> (r: SortType)
    ensures
        r == (if reverse { prev_sort(t) } else { next_sort(t) }),
{
    if reverse {
        match t {
            SortType::Alphabetical => SortType::Files,
            SortType::Reverse => SortType::Alphabetical,
            SortType::Folders => SortType::Reverse,
            SortType::Files => SortType::Folders,
        }
    } else {
        match t {
            SortType::Alphabetical => SortType::Reverse,
            SortType::Reverse => SortType::Folders,
            SortType::Folders => SortType::Files,
            SortType::Files => SortType::Alphabetical,
        }
    }
}

/// Decoding the tag of an order gives that order back.
pub proof fn lemma_sort_tag_round_trip(t: SortType)
    ensures
        sort_of_tag(sort_tag(t)) == t,
{
    reveal_strlit("Alphabetical");
    reveal_strlit("Reverse");
    reveal_strlit("Folders");
    reveal_strlit("Files");
    assert("Reverse"@ != "Alphabetical"@) by {
        assert("Reverse"@.len() != "Alphabetical"@.len());
    }
    assert("Folders"@ != "Alphabetical"@) by {
        assert("Folders"@.len() != "Alphabetical"@.len());
    }
    assert("Files"@ != "Alphabetical"@) by {
        assert("Files"@.len() != "Alphabetical"@.len());
    }
    assert("Folders"@ != "Reverse"@) by {
        assert("Folders"@[0] != "Reverse"@[0]);
    }
    assert("Files"@ != "Reverse"@) by {
        assert("Files"@.len() != "Reverse"@.len());
    }
    assert("Folders"@ != "Files"@) by {
        assert("Folders"@.len() != "Files"@.len());
    }
}

/// Stepping the ring forwards four times comes back to the start, and a step
/// forwards followed by a step backwards changes nothing.
pub proof fn lemma_sort_cycle_closure(t: SortType)
    ensures
        next_sort(next_sort(next_sort(next_sort(t)))) == t,
        prev_sort(next_sort(t)) == t,
        next_sort(prev_sort(t)) == t,
{
}

/// The theme that a persisted theme name selects.
pub open spec fn theme_of_name(s: Seq<char>) -> ThemeType {
    if s == "dark"@ {
        ThemeType::Dark
    } else if s == "custom"@ {
        ThemeType::Custom
    } else {
        ThemeType::Light
    }
}

/// Chooses the theme from the persisted theme name.
pub fn theme_from_name(name: &str) -> (r: ThemeType)
    ensures
        r == theme_of_name(name@),
{
    if same_text(name, "dark") {
        ThemeType::Dark
    } else if same_text(name, "custom") {
        ThemeType::Custom
    } else {
        ThemeType::Light
    }
}

/// The theme in force: the persisted choice when there is one, else `Light`.
pub fn get_set_theme(cfg: Option<CuttlefishCfg>) -> (r: ThemeType)
    ensures
        r == (match cfg {
            Some(c) => theme_of_name(c.theme@),
            None => ThemeType::Light,
        }),
{
    match cfg {
        Some(c) => theme_from_name(c.theme.as_str()),
        None => ThemeType::Light,
    }
}

/// A directory of the XDG layout: the variable when it is set, else the
/// given subdirectory of the home directory; nothing without either.
pub open spec fn xdg_dir(var: Option<Seq<char>>, home: Option<Seq<char>>, sub: Seq<char>) -> Option<
    Seq<char>,
> {
    match var {
        Some(v) => Some(v),
        None => match home {
            Some(h) => Some(h + sub),
            None => None,
        },
    }
}

fn xdg_dir_exec(var: Option<String>, home: Option<String>, sub: &str) -> (r: Option<String>)
    ensures
        r matches Some(s) ==> xdg_dir(var.deep_view(), home.deep_view(), sub@)
            == Some(s@),
        r is None ==> xdg_dir(var.deep_view(), home.deep_view(), sub@) is None,
{
    match var {
        Some(v) => Some(v),
        None => match home {
            Some(h) => Some(h.concat(sub)),
            None => None,
        },
    }
}

/// The cache directory: `XDG_CACHE_HOME`, else `$HOME/.cache`.
pub fn get_cache_home(xdg_cache_home: Option<String>, home: Option<String>) -> (r: Option<String>)
    ensures
        r matches Some(s) ==> xdg_dir(
            xdg_cache_home.deep_view(),
            home.deep_view(),
            "/.cache"@,
        ) == Some(s@),
        r is None ==> xdg_cache_home is None && home is None,
{
    xdg_dir_exec(xdg_cache_home, home, "/.cache")
}

/// The config directory: `XDG_CONFIG_HOME`, else `$HOME/.config`.
pub fn get_config_home(xdg_config_home: Option<String>, home: Option<String>) -> (r: Option<String>)
    ensures
        r matches Some(s) ==> xdg_dir(
            xdg_config_home.deep_view(),
            home.deep_view(),
            "/.config"@,
        ) == Some(s@),
        r is None ==> xdg_config_home is None && home is None,
{
    xdg_dir_exec(xdg_config_home, home, "/.config")
}

/// The persisted icon cache: (absolute path, icon key) pairs.
pub struct CacheFile {
    pub contents: Vec<(String, String)>,
}

/// The colours of a theme file, as six hexadecimal digits each.
pub struct ThemeFile {
    pub bg_color1: String,
    pub bg_color2: String,
    pub bg_color3: String,
    pub txt_color: String,
    pub red: String,
    pub orange: String,
    pub yellow: String,
    pub green: String,
    pub blue: String,
    pub purple: String,
    pub pink: String,
}

/// A colour by its red, green and blue bytes.
#[derive(Clone, Copy, PartialEq, Eq, Structural, Debug)]
pub struct Rgb {
    pub r: u8,
    pub g: u8,
    pub b: u8,
}

/// The colours the interface draws with.
#[derive(Clone, Copy, PartialEq, Eq, Structural, Debug)]
pub struct ThemeColors {
    pub background: Rgb,
    pub text: Rgb,
    pub primary: Rgb,
    pub success: Rgb,
    pub danger: Rgb,
    pub sidebar_text: Rgb,
    pub sidebar_bg: Rgb,
    pub secondary_text: Rgb,
    pub secondary_bg: Rgb,
}

/// The value of a hexadecimal digit, or -1.
pub open spec fn hex_digit(c: char) -> int {
    if '0' <= c && c <= '9' {
        c as int - '0' as int
    } else if 'a' <= c && c <= 'f' {
        c as int - 'a' as int + 10
    } else if 'A' <= c && c <= 'F' {
        c as int - 'A' as int + 10
    } else {
        -1
    }
}

/// The byte written by two hexadecimal digits at `i` of `s`.
pub open spec fn hex_byte(s: Seq<char>, i: int) -> int {
    16 * hex_digit(s[i]) + hex_digit(s[i + 1])
}

/// Whether `s` begins with six hexadecimal digits.
pub open spec fn is_colour(s: Seq<char>) -> bool {
    s.len() >= 6 && forall|i: int| 0 <= i < 6 ==> hex_digit(#[trigger] s[i]) >= 0
}

/// The colour written by the first six hexadecimal digits of `s`.
pub open spec fn colour_of(s: Seq<char>) -> Rgb {
    Rgb { r: hex_byte(s, 0) as u8, g: hex_byte(s, 2) as u8, b: hex_byte(s, 4) as u8 }
}

fn hex_digit_exec(c: char) -> (r: Option<u8>)
    ensures
        match r {
            Some(v) => v == hex_digit(c) && 0 <= hex_digit(c) < 16,
            None => hex_digit(c) == -1,
        },
{
    if '0' <= c && c <= '9' {
        Some(((c as u32) - ('0' as u32)) as u8)
    } else if 'a' <= c && c <= 'f' {
        Some(((c as u32) - ('a' as u32) + 10) as u8)
    } else if 'A' <= c && c <= 'F' {
        Some(((c as u32) - ('A' as u32) + 10) as u8)
    } else {
        None
    }
}

/// Reads a colour from its first six hexadecimal digits, two per byte;
/// `None` when there are not six.
pub fn col_from_string(string: &str) -> (r: Option<Rgb>)
    ensures
        r is Some <==> is_colour(string@),
        r matches Some(c) ==> c == colour_of(string@),
{
    if string.unicode_len() < 6 {
        return None;
    }
    let mut digits: Vec<u8> = Vec::new();
    let mut i: usize = 0;
    while i < 6
        invariant
            string@.len() >= 6,
            i <= 6,
            digits@.len() == i,
            forall|k: int|
                #![trigger string@[k]]
                #![trigger digits@[k]]
                0 <= k < i ==> hex_digit(string@[k]) >= 0 && digits@[k] == hex_digit(string@[k]) && digits@[k] < 16,
        decreases 6 - i,
    {
        match hex_digit_exec(string.get_char(i)) {
            Some(d) => digits.push(d),
            None => {
                return None;
            },
        }
        i = i + 1;
    }
    let r = digits[0] * 16 + digits[1];
    let g = digits[2] * 16 + digits[3];
    let b = digits[4] * 16 + digits[5];
    Some(Rgb { r, g, b })
}

/// The colours a theme file gives: the first background, the text colour
/// and the blue, green and red accents for the window; the text colour on
/// the second and third backgrounds for the sidebar and the secondary
/// buttons. `None` when one of them is not a colour.
pub fn theme_colors(file: &ThemeFile) -> (r: Option<ThemeColors>)
    ensures
        r is Some <==> is_colour(file.bg_color1@) && is_colour(file.txt_color@) && is_colour(file.blue@)
            && is_colour(file.green@) && is_colour(file.red@) && is_colour(file.bg_color2@) && is_colour(
            file.bg_color3@,
        ),
        r matches Some(c) ==> c == (ThemeColors {
            background: colour_of(file.bg_color1@),
            text: colour_of(file.txt_color@),
            primary: colour_of(file.blue@),
            success: colour_of(file.green@),
            danger: colour_of(file.red@),
            sidebar_text: colour_of(file.txt_color@),
            sidebar_bg: colour_of(file.bg_color2@),
            secondary_text: colour_of(file.txt_color@),
            secondary_bg: colour_of(file.bg_color3@),
        }),
{
    let background = col_from_string(file.bg_color1.as_str());
    let text = col_from_string(file.txt_color.as_str());
    let primary = col_from_string(file.blue.as_str());
    let success = col_from_string(file.green.as_str());
    let danger = col_from_string(file.red.as_str());
    let sidebar_bg = col_from_string(file.bg_color2.as_str());
    let secondary_bg = col_from_string(file.bg_color3.as_str());
    match (background, text, primary, success, danger, sidebar_bg, secondary_bg) {
        (Some(bg), Some(t), Some(p), Some(s), Some(d), Some(b2), Some(b3)) => Some(
            ThemeColors {
                background: bg,
                text: t,
                primary: p,
                success: s,
                danger: d,
                sidebar_text: t,
                sidebar_bg: b2,
                secondary_text: t,
                secondary_bg: b3,
            },
        ),
        _ => None,
    }
}

/// The colours used when there is no theme file.
pub fn default_theme_colors() -> (r: ThemeColors)
    ensures
        r.background == (Rgb { r: 0xE0, g: 0xF5, b: 0xFF }),
        r.text == (Rgb { r: 0x00, g: 0x19, b: 0x36 }),
        r.primary == (Rgb { r: 0x00, g: 0xF1, b: 0xD6 }),
        r.success == (Rgb { r: 0xFF, g: 0x4C, b: 0x00 }),
        r.danger == (Rgb { r: 0xFF, g: 0x4C, b: 0x00 }),
        r.sidebar_text == (Rgb { r: 0x00, g: 0x19, b: 0x36 }),
        r.sidebar_bg == (Rgb { r: 0xD2, g: 0xF0, b: 0xFF }),
        r.secondary_text == (Rgb { r: 0x00, g: 0x20, b: 0x46 }),
        r.secondary_bg == (Rgb { r: 0xC6, g: 0xEC, b: 0xFF }),
{
    ThemeColors {
        background: Rgb { r: 0xE0, g: 0xF5, b: 0xFF },
        text: Rgb { r: 0x00, g: 0x19, b: 0x36 },
        primary: Rgb { r: 0x00, g: 0xF1, b: 0xD6 },
        success: Rgb { r: 0xFF, g: 0x4C, b: 0x00 },
        danger: Rgb { r: 0xFF, g: 0x4C, b: 0x00 },
        sidebar_text: Rgb { r: 0x00, g: 0x19, b: 0x36 },
        sidebar_bg: Rgb { r: 0xD2, g: 0xF0, b: 0xFF },
        secondary_text: Rgb { r: 0x00, g: 0x20, b: 0x46 },
        secondary_bg: Rgb { r: 0xC6, g: 0xEC, b: 0xFF },
    }
}

/// The custom theme's colours: those of the theme file when there is one,
/// else the defaults. `None` when the file holds something that is not a
/// colour.
pub fn get_theme_file(file: Option<ThemeFile>) -> (r: Option<ThemeColors>)
    ensures
        file is None ==> r == Some(default_theme_spec()),
        file matches Some(f) ==> (r is Some <==> is_colour(f.bg_color1@) && is_colour(f.txt_color@) && is_colour(
            f.blue@,
        ) && is_colour(f.green@) && is_colour(f.red@) && is_colour(f.bg_color2@) && is_colour(f.bg_color3@)),
        file matches Some(f) ==> (r matches Some(c) ==> c == (ThemeColors {
            background: colour_of(f.bg_color1@),
            text: colour_of(f.txt_color@),
            primary: colour_of(f.blue@),
            success: colour_of(f.green@),
            danger: colour_of(f.red@),
            sidebar_text: colour_of(f.txt_color@),
            sidebar_bg: colour_of(f.bg_color2@),
            secondary_text: colour_of(f.txt_color@),
            secondary_bg: colour_of(f.bg_color3@),
        })),
{
    match file {
        Some(f) => theme_colors(&f),
        None => Some(default_theme_colors()),
    }
}

pub open spec fn default_theme_spec() -> ThemeColors {
    ThemeColors {
        background: Rgb { r: 0xE0, g: 0xF5, b: 0xFF },
        text: Rgb { r: 0x00, g: 0x19, b: 0x36 },
        primary: Rgb { r: 0x00, g: 0xF1, b: 0xD6 },
        success: Rgb { r: 0xFF, g: 0x4C, b: 0x00 },
        danger: Rgb { r: 0xFF, g: 0x4C, b: 0x00 },
        sidebar_text: Rgb { r: 0x00, g: 0x19, b: 0x36 },
        sidebar_bg: Rgb { r: 0xD2, g: 0xF0, b: 0xFF },
        secondary_text: Rgb { r: 0x00, g: 0x20, b: 0x46 },
        secondary_bg: Rgb { r: 0xC6, g: 0xEC, b: 0xFF },
    }
}

/// The settings in force: those read from the config file, with an icon
/// size the theme lookup cannot take replaced by 32; without a readable
/// file, the defaults: `Folders`, hidden files not shown, no bookmarks, the
/// `Adwaita` icon theme at size 32.
pub fn config_or_default(parsed: Option<Config>) -> (r: Config)
    ensures
        r.icn_size <= MAX_ICON_SIZE,
        parsed matches Some(c) ==> r.sort_mode == c.sort_mode && r.show_hidden == c.show_hidden
            && r.bookmarks == c.bookmarks && r.icn_theme == c.icn_theme && r.icn_size == (if c.icn_size
            <= MAX_ICON_SIZE {
            c.icn_size
        } else {
            32
        }),
        parsed is None ==> r.sort_mode@ == "Folders"@ && !r.show_hidden && r.bookmarks@.len() == 0
            && r.icn_theme@ == "Adwaita"@ && r.icn_size == 32,
{
    match parsed {
        Some(c) => {
            let size = if c.icn_size <= MAX_ICON_SIZE {
                c.icn_size
            } else {
                32
            };
            Config {
                sort_mode: c.sort_mode,
                show_hidden: c.show_hidden,
                bookmarks: c.bookmarks,
                icn_theme: c.icn_theme,
                icn_size: size,
            }
        },
        None => Config {
            sort_mode: String::from_str("Folders"),
            show_hidden: false,
            bookmarks: Vec::new(),
            icn_theme: String::from_str("Adwaita"),
            icn_size: 32,
        },
    }
}

} // verus!
