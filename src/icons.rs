//! Icon resolution: MIME keys, the fallback chain of the icon theme lookup,
//! and the persistent cache from paths to resolved keys.

use vstd::prelude::*;
use vstd::string::*;
use vstd::hash_map::StringHashMap;
use crate::text::same_text;

verus! {

/// A MIME type with each `/` replaced by `-`, the form icon themes use.
pub open spec fn normalize_mime(m: Seq<char>) -> Seq<char> {
    m.map_values(|c: char| if c == '/' { '-' } else { c })
}

/// The part of `s` before its first `-`, or all of `s`.
pub open spec fn category_of(s: Seq<char>) -> Seq<char>
    decreases s.len(),
{
    if s.len() == 0 {
        s
    } else if s[0] == '-' {
        Seq::empty()
    } else {
        seq![s[0]] + category_of(s.drop_first())
    }
}

/// The generic key that stands in for a key the theme does not have.
pub open spec fn fallback_key(m: Seq<char>) -> Seq<char> {
    if category_of(m) == "application"@ {
        "application-x-executable"@
    } else if m == "inode-directory"@ {
        "folder"@
    } else {
        category_of(m) + "-x-generic"@
    }
}

/// The key a MIME type resolves to, given whether the theme had the
/// normalized key and whether it had the fallback key.
pub open spec fn key_choice(mime: Seq<char>, primary_found: bool, fallback_found: bool) -> Seq<char> {
    let n = normalize_mime(mime);
    if n == "inode-directory"@ {
        "folder"@
    } else if primary_found {
        n
    } else if fallback_found {
        fallback_key(n)
    } else {
        "text-x-generic"@
    }
}

/// The icon file shown for a key, given what the theme lookups of the key and
/// of its fallback found.
pub open spec fn icon_choice(
    first: Option<Seq<char>>,
    second: Option<Seq<char>>,
    unknown: Seq<char>,
) -> Seq<char> {
    match first {
        Some(p) => p,
        None => match second {
            Some(p) => p,
            None => unknown,
        },
    }
}

/// Whether a path names an icon file: it ends in `.png`, `.svg` or `.xmp`.
pub open spec fn has_icon_ext(p: Seq<char>) -> bool {
    p.len() >= 4 && {
        let e = p.subrange(p.len() - 4, p.len() as int);
        e == ".png"@ || e == ".svg"@ || e == ".xmp"@
    }
}

/// An icon shown for a file: an icon file of the theme, or the bundled
/// unknown-file icon.
pub open spec fn icon_ok(icon: Seq<char>, unknown: Seq<char>) -> bool {
    icon == unknown || has_icon_ext(icon)
}

/// The largest icon size the theme lookup takes; it computes with sizes as
/// 16-bit signed integers.
pub const MAX_ICON_SIZE: u16 = 32767;

/// Replaces each `/` of a MIME type by `-`.
pub fn normalize_mime_exec(mime: &str) -> (r: String)
    ensures
        r@ == normalize_mime(mime@),
{
    let n = mime.unicode_len();
    let mut out = String::new();
    let mut start: usize = 0;
    let mut i: usize = 0;
    while i < n
        invariant
            n == mime@.len(),
            start <= i <= n,
            out@ == normalize_mime(mime@.subrange(0, start as int)),
            forall|k: int| start <= k < i ==> mime@[k] != '/',
        decreases n - i,
    {
        if mime.get_char(i) == '/' {
            let piece = mime.substring_char(start, i);
            let ghost before = out@;
            out.append(piece);
            out.append("-");
            proof {
                reveal_strlit("-");
                assert(normalize_mime(mime@.subrange(0, i + 1)) =~= before + piece@ + "-"@);
            }
            start = i + 1;
        }
        i = i + 1;
    }
    let piece = mime.substring_char(start, n);
    let ghost before = out@;
    out.append(piece);
    assert(normalize_mime(mime@.subrange(0, n as int)) =~= before + piece@);
    assert(mime@.subrange(0, n as int) =~= mime@);
    out
}

fn category_exec(s: &str) -> (r: String)
    ensures
        r@ == category_of(s@),
{
    let n = s.unicode_len();
    let mut i: usize = 0;
    assert(s@.subrange(0, n as int) =~= s@);
    assert(s@.subrange(0, 0) + category_of(s@) =~= category_of(s@));
    while i < n && s.get_char(i) != '-'
        invariant
            i <= n,
            n == s@.len(),
            category_of(s@) == s@.subrange(0, i as int) + category_of(s@.subrange(i as int, n as int)),
        decreases n - i,
    {
        proof {
            let t = s@.subrange(i as int, n as int);
            assert(t.drop_first() =~= s@.subrange(i + 1, n as int));
            assert(s@.subrange(0, i + 1) =~= s@.subrange(0, i as int) + seq![t[0]]);
        }
        i = i + 1;
    }
    let r = s.substring_char(0, i);
    proof {
        let t = s@.subrange(i as int, n as int);
        if i < n {
            assert(t[0] == '-');
        }
        assert(s@.subrange(0, i as int) + category_of(t) =~= r@);
    }
    String::from_str(r)
}

/// The generic key that stands in for a key the icon theme does not have: an
/// application becomes an executable, any other category its generic icon.
pub fn clean_bad_mime(mime: String) -> (r: String)
    ensures
        r@ == fallback_key(mime@),
{
    let category = category_exec(mime.as_str());
    if same_text(category.as_str(), "application") {
        String::from_str("application-x-executable")
    } else if same_text(mime.as_str(), "inode-directory") {
        String::from_str("folder")
    } else {
        category.concat("-x-generic")
    }
}

/// Relies on `freedesktop_icons::lookup(..).with_cache().with_size(..).with_theme(..).find()`
/// to search the installed icon themes for an icon file. Whether it finds
/// one depends on the files installed; every path it returns is built as
/// `<dir>/<name>.png`, `.svg` or `.xmp`. The lookup computes with the size
/// as an `i16`, so larger sizes are left out.
#[verifier::external_body]
fn find_icon(name: &str, theme: &str, size: u16) -> (r: Option<String>)
    requires
        size <= MAX_ICON_SIZE,
    ensures
        r matches Some(p) ==> has_icon_ext(p@),
{
    let found = freedesktop_icons::lookup(name).with_cache().with_size(size).with_theme(theme).find();
    match found {
        Some(p) => Some(p.to_string_lossy().to_string()),
        None => None,
    }
}

/// Picks the key for a MIME type from the results of the two theme lookups.
pub fn choose_icon_key(mime: &str, primary_found: bool, fallback_found: bool) -> (r: String)
    ensures
        r@ == key_choice(mime@, primary_found, fallback_found),
{
    let n = normalize_mime_exec(mime);
    if same_text(n.as_str(), "inode-directory") {
        String::from_str("folder")
    } else if primary_found {
        n
    } else if fallback_found {
        clean_bad_mime(n)
    } else {
        String::from_str("text-x-generic")
    }
}

/// Picks the icon file from the results of the two theme lookups.
pub fn choose_icon_path(first: Option<String>, second: Option<String>, unknown: &str) -> (r: String)
    ensures
        r@ == icon_choice(first.deep_view(), second.deep_view(), unknown@),
{
    match first {
        Some(p) => p,
        None => match second {
            Some(p) => p,
            None => String::from_str(unknown),
        },
    }
}

/// Resolves the icon key of a file from its MIME type: `folder` for a
/// directory, else the normalized MIME type when the theme has it, else its
/// fallback when the theme has that, else `text-x-generic`.
pub fn cacheless_get_file_icon(mime: &str, theme: &str, size: u16) -> (r: String)
    requires
        size <= MAX_ICON_SIZE,
    ensures
        exists|p: bool, f: bool| r@ == key_choice(mime@, p, f),
{
    let n = normalize_mime_exec(mime);
    if same_text(n.as_str(), "inode-directory") {
        return choose_icon_key(mime, false, false);
    }
    let primary = find_icon(n.as_str(), theme, size);
    if primary.is_some() {
        return choose_icon_key(mime, true, false);
    }
    let fb = clean_bad_mime(n);
    let fallback = find_icon(fb.as_str(), theme, size);
    choose_icon_key(mime, false, fallback.is_some())
}

/// Finds the icon file of a key: the key itself, else its fallback, else the
/// bundled icon for unknown files.
pub fn icon_path_for_key(key: &str, theme: &str, size: u16, unknown: &str) -> (r: String)
    requires
        size <= MAX_ICON_SIZE,
    ensures
        icon_ok(r@, unknown@),
{
    let first = find_icon(key, theme, size);
    if first.is_some() {
        return choose_icon_path(first, None, unknown);
    }
    let fb = clean_bad_mime(String::from_str(key));
    let second = find_icon(fb.as_str(), theme, size);
    choose_icon_path(None, second, unknown)
}

/// The map that a list of (path, key) pairs describes; a later pair wins.
pub open spec fn pairs_map(s: Seq<(String, String)>) -> Map<Seq<char>, Seq<char>>
    decreases s.len(),
{
    if s.len() == 0 {
        Map::empty()
    } else {
        pairs_map(s.drop_last()).insert(s.last().0@, s.last().1@)
    }
}

/// The persistent cache from absolute paths to resolved icon keys.
pub struct IconCache {
    map: StringHashMap<String>,
    keys: Vec<String>,
}

impl View for IconCache {
    type V = Map<Seq<char>, Seq<char>>;

    closed spec fn view(&self) -> Map<Seq<char>, Seq<char>> {
        self.map@.map_values(|v: String| v@)
    }
}

impl IconCache {
    /// The key list names each path of the map once.
    pub closed spec fn wf(&self) -> bool {
        &&& forall|i: int| 0 <= i < self.keys@.len() ==> self.map@.contains_key(#[trigger] self.keys@[i]@)
        &&& forall|k: Seq<char>| #[trigger] self.map@.contains_key(k) ==> exists|i: int|
            0 <= i < self.keys@.len() && #[trigger] self.keys@[i]@ == k
        &&& forall|i: int, j: int|
            0 <= i < j < self.keys@.len() ==> #[trigger] self.keys@[i]@ != #[trigger] self.keys@[j]@
    }

    pub fn new() -> (r: IconCache)
        ensures
            r.wf(),
            r@ == Map::<Seq<char>, Seq<char>>::empty(),
    {
        let r = IconCache { map: StringHashMap::new(), keys: Vec::new() };
        assert(r@ =~= Map::<Seq<char>, Seq<char>>::empty());
        r
    }

    /// The cached key of a path.
    pub fn get(&self, path: &str) -> (r: Option<String>)
        ensures
            match r {
                Some(k) => self@.contains_key(path@) && self@[path@] == k@,
                None => !self@.contains_key(path@),
            },
    {
        match self.map.get(path) {
            Some(k) => Some(k.clone()),
            None => None,
        }
    }

    pub fn contains(&self, path: &str) -> (r: bool)
        ensures
            r == self@.contains_key(path@),
    {
        self.map.contains_key(path)
    }

    pub fn len(&self) -> (r: usize)
        requires
            self.wf(),
        ensures
            r == self@.len(),
    {
        proof {
            self.lemma_len();
        }
        self.keys.len()
    }

    proof fn lemma_len(&self)
        requires
            self.wf(),
        ensures
            self.keys@.len() == self@.len(),
            self@.dom().finite(),
    {
        let ks = self.keys@.map_values(|k: String| k@);
        assert(ks.no_duplicates()) by {
            assert forall|i: int, j: int| 0 <= i < ks.len() && 0 <= j < ks.len() && i != j implies ks[i] != ks[j] by {
                if i < j {
                    assert(self.keys@[i]@ != self.keys@[j]@);
                } else {
                    assert(self.keys@[j]@ != self.keys@[i]@);
                }
            }
        }
        assert(ks.to_set() =~= self@.dom()) by {
            assert forall|k: Seq<char>| self@.dom().contains(k) implies ks.to_set().contains(k) by {
                assert(self.map@.contains_key(k));
                let i = choose|i: int| 0 <= i < self.keys@.len() && #[trigger] self.keys@[i]@ == k;
                assert(ks[i] == k);
            }
            assert forall|k: Seq<char>| ks.to_set().contains(k) implies self@.dom().contains(k) by {
                let i = choose|i: int| 0 <= i < ks.len() && ks[i] == k;
                assert(self.map@.contains_key(self.keys@[i]@));
            }
        }
        ks.unique_seq_to_set();
    }

    /// Records the key of a path, replacing an earlier one.
    pub fn insert(&mut self, path: String, key: String)
        requires
            old(self).wf(),
        ensures
            final(self).wf(),
            final(self)@ == old(self)@.insert(path@, key@),
    {
        if !self.map.contains_key(path.as_str()) {
            let p2 = path.clone();
            self.keys.push(p2);
        }
        self.map.insert(path, key);
        proof {
            let s = *self;
            let o = *old(self);
            assert forall|k: Seq<char>| #[trigger] s.map@.contains_key(k) implies exists|i: int|
                0 <= i < s.keys@.len() && #[trigger] s.keys@[i]@ == k by {
                if k != path@ {
                    assert(o.map@.contains_key(k));
                    let i = choose|i: int| 0 <= i < o.keys@.len() && #[trigger] o.keys@[i]@ == k;
                    assert(s.keys@[i]@ == k);
                } else if o.map@.contains_key(k) {
                    let i = choose|i: int| 0 <= i < o.keys@.len() && #[trigger] o.keys@[i]@ == k;
                    assert(s.keys@[i]@ == k);
                } else {
                    assert(s.keys@[s.keys@.len() - 1]@ == k);
                }
            }
            assert forall|i: int, j: int| 0 <= i < j < s.keys@.len() implies #[trigger] s.keys@[i]@
                != #[trigger] s.keys@[j]@ by {
                if j == o.keys@.len() {
                    assert(o.map@.contains_key(o.keys@[i]@));
                }
            }
            assert(s@ =~= o@.insert(path@, key@));
        }
    }

    /// Adds a list of (path, key) pairs, a later pair winning over an
    /// earlier one and over what the cache held.
    pub fn merge(&mut self, delta: Vec<(String, String)>)
        requires
            old(self).wf(),
        ensures
            final(self).wf(),
            final(self)@ == old(self)@.union_prefer_right(pairs_map(delta@)),
    {
        let mut delta = delta;
        let ghost d = delta@;
        let ghost start = self@;
        let mut rest: Vec<(String, String)> = Vec::new();
        // Take pairs from the back, then insert them from the front.
        while delta.len() > 0
            invariant
                delta@ + rest@.reverse() == d,
            decreases delta@.len(),
        {
            let p = delta.pop().unwrap();
            proof {
                assert(delta@ + (rest@.push(p)).reverse() =~= d) by {
                    assert(rest@.push(p).reverse() =~= seq![p] + rest@.reverse());
                }
            }
            rest.push(p);
        }
        assert(rest@.reverse() =~= d);
        assert(pairs_map(d.take(0)) =~= Map::<Seq<char>, Seq<char>>::empty());
        assert(start.union_prefer_right(Map::<Seq<char>, Seq<char>>::empty()) =~= start);
        let mut k: usize = 0;
        let n = rest.len();
        while rest.len() > 0
            invariant
                self.wf(),
                k + rest@.len() == n,
                n == d.len(),
                rest@.reverse() == d.skip(k as int),
                self@ == start.union_prefer_right(pairs_map(d.take(k as int))),
            decreases rest@.len(),
        {
            let ghost before = rest@;
            let p = rest.pop().unwrap();
            proof {
                assert(before == rest@.push(p));
                assert(before.reverse() =~= seq![p] + rest@.reverse());
                assert(d.skip(k as int)[0] == p);
                assert(d.skip(k + 1) =~= d.skip(k as int).drop_first());
                assert((seq![p] + rest@.reverse()).drop_first() =~= rest@.reverse());
                assert(rest@.reverse() =~= d.skip(k + 1));
                assert(d.take(k + 1).drop_last() =~= d.take(k as int));
                assert(d.take(k + 1).last() == p);
            }
            self.insert(p.0, p.1);
            proof {
                assert(self@ =~= start.union_prefer_right(pairs_map(d.take(k + 1))));
            }
            k = k + 1;
        }
        assert(d.take(k as int) =~= d);
    }

    /// Every (path, key) pair of the cache, each path once.
    pub fn entries(&self) -> (r: Vec<(String, String)>)
        requires
            self.wf(),
        ensures
            r@.len() == self@.len(),
            forall|i: int| 0 <= i < r@.len() ==> self@.contains_key(#[trigger] r@[i].0@) && self@[r@[i].0@]
                == r@[i].1@,
            forall|p: Seq<char>| #[trigger] self@.contains_key(p) ==> exists|i: int|
                0 <= i < r@.len() && #[trigger] r@[i].0@ == p,
    {
        proof {
            self.lemma_len();
        }
        let mut r: Vec<(String, String)> = Vec::new();
        let mut i: usize = 0;
        while i < self.keys.len()
            invariant
                self.wf(),
                i <= self.keys@.len(),
                r@.len() == i,
                forall|j: int| 0 <= j < i ==> #[trigger] r@[j].0@ == self.keys@[j]@ && self@[r@[j].0@]
                    == r@[j].1@,
            decreases self.keys@.len() - i,
        {
            let k = self.keys[i].clone();
            assert(self.map@.contains_key(self.keys@[i as int]@));
            let v = self.get(k.as_str()).unwrap();
            r.push((k, v));
            i = i + 1;
        }
        proof {
            assert forall|p: Seq<char>| #[trigger] self@.contains_key(p) implies exists|i: int|
                0 <= i < r@.len() && #[trigger] r@[i].0@ == p by {
                assert(self.map@.contains_key(p));
                let j = choose|j: int| 0 <= j < self.keys@.len() && #[trigger] self.keys@[j]@ == p;
                assert(r@[j].0@ == p);
            }
            assert forall|j: int| 0 <= j < r@.len() implies self@.contains_key(#[trigger] r@[j].0@) by {
                assert(self.map@.contains_key(self.keys@[j]@));
            }
        }
        r
    }

    /// A cache holding the given pairs, a later pair winning.
    pub fn from_entries(pairs: Vec<(String, String)>) -> (r: IconCache)
        ensures
            r.wf(),
            r@ == pairs_map(pairs@),
    {
        let mut c = IconCache::new();
        c.merge(pairs);
        assert(Map::<Seq<char>, Seq<char>>::empty().union_prefer_right(pairs_map(pairs@)) =~= pairs_map(pairs@));
        c
    }
}

/// Resolves the icon file of a path. A cached path has its key looked up in
/// the theme (the key, then its fallback, then the unknown-file icon) and
/// adds nothing to the cache. An uncached path resolves its key from its MIME
/// type, which the caller supplies, returns the (path, key) pair to record,
/// and looks up the icon of that key; without a MIME type it gets the
/// unknown-file icon and records nothing.
pub fn get_file_icon(
    cache: &IconCache,
    path: &str,
    mime: Option<String>,
    theme: &str,
    size: u16,
    unknown: &str,
) -> (r: (Option<(String, String)>, String))
    requires
        size <= MAX_ICON_SIZE,
    ensures
        icon_ok(r.1@, unknown@),
        cache@.contains_key(path@) ==> r.0 is None,
        !cache@.contains_key(path@) && mime is None ==> r.0 is None && r.1@ == unknown@,
        !cache@.contains_key(path@) && mime is Some ==> (r.0 matches Some(d) && d.0@ == path@
            && exists|p: bool, f: bool| d.1@ == key_choice(mime->0@, p, f)),
{
    match cache.get(path) {
        Some(key) => (None, icon_path_for_key(key.as_str(), theme, size, unknown)),
        None => match mime {
            Some(m) => {
                let key = cacheless_get_file_icon(m.as_str(), theme, size);
                let icon = icon_path_for_key(key.as_str(), theme, size, unknown);
                (Some((String::from_str(path), key)), icon)
            },
            None => (None, String::from_str(unknown)),
        },
    }
}

} // verus!
