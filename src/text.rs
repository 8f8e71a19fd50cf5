//! Character-level helpers on strings: ordering, equality and path pieces.

use vstd::prelude::*;
use vstd::string::*;

verus! {

/// Lexicographic order on character sequences; `str`'s own order, since UTF-8
/// keeps the order of code points.
pub open spec fn text_le(a: Seq<char>, b: Seq<char>) -> bool
    decreases a.len(),
{
    if a.len() == 0 {
        true
    } else if b.len() == 0 {
        false
    } else if a[0] != b[0] {
        a[0] < b[0]
    } else {
        text_le(a.drop_first(), b.drop_first())
    }
}

pub proof fn lemma_text_le_total(a: Seq<char>, b: Seq<char>)
    ensures
        text_le(a, b) || text_le(b, a),
    decreases a.len(),
{
    if a.len() > 0 && b.len() > 0 && a[0] == b[0] {
        lemma_text_le_total(a.drop_first(), b.drop_first());
    }
}

pub proof fn lemma_text_le_antisymmetric(a: Seq<char>, b: Seq<char>)
    requires
        text_le(a, b),
        text_le(b, a),
    ensures
        a == b,
    decreases a.len(),
{
    if a.len() > 0 && b.len() > 0 {
        if a[0] == b[0] {
            lemma_text_le_antisymmetric(a.drop_first(), b.drop_first());
            assert(a =~= seq![a[0]] + a.drop_first());
            assert(b =~= seq![b[0]] + b.drop_first());
        }
    } else {
        assert(a =~= b);
    }
}

pub proof fn lemma_text_le_transitive(a: Seq<char>, b: Seq<char>, c: Seq<char>)
    requires
        text_le(a, b),
        text_le(b, c),
    ensures
        text_le(a, c),
    decreases a.len(),
{
    if a.len() > 0 && b.len() > 0 && c.len() > 0 && a[0] == b[0] && b[0] == c[0] {
        lemma_text_le_transitive(a.drop_first(), b.drop_first(), c.drop_first());
    }
}

/// Compares two strings in `str`'s order.
pub fn text_le_exec(a: &str, b: &str) -> (r: bool)
    ensures
        r == text_le(a@, b@),
{
    let la = a.unicode_len();
    let lb = b.unicode_len();
    let mut i: usize = 0;
    assert(a@.subrange(0, la as int) =~= a@);
    assert(b@.subrange(0, lb as int) =~= b@);
    while i < la && i < lb
        invariant
            i <= la,
            i <= lb,
            la == a@.len(),
            lb == b@.len(),
            text_le(a@, b@) == text_le(a@.subrange(i as int, la as int), b@.subrange(i as int, lb as int)),
        decreases la - i,
    {
        let ca = a.get_char(i);
        let cb = b.get_char(i);
        if ca != cb {
            return ca < cb;
        }
        assert(a@.subrange(i as int, la as int).drop_first() =~= a@.subrange(i + 1, la as int));
        assert(b@.subrange(i as int, lb as int).drop_first() =~= b@.subrange(i + 1, lb as int));
        i = i + 1;
    }
    i == la
}

/// Tells whether two strings hold the same characters.
pub fn same_text(a: &str, b: &str) -> (r: bool)
    ensures
        r == (a@ == b@),
{
    let la = a.unicode_len();
    let lb = b.unicode_len();
    if la != lb {
        return false;
    }
    let mut i: usize = 0;
    while i < la
        invariant
            i <= la,
            la == a@.len(),
            lb == b@.len(),
            la == lb,
            forall|k: int| 0 <= k < i ==> a@[k] == b@[k],
        decreases la - i,
    {
        if a.get_char(i) != b.get_char(i) {
            return false;
        }
        i = i + 1;
    }
    assert(a@ =~= b@);
    true
}

/// A path without its trailing slashes; the root keeps its one slash.
pub open spec fn trim_trailing_slashes(p: Seq<char>) -> Seq<char>
    decreases p.len(),
{
    if p.len() > 1 && p.last() == '/' {
        trim_trailing_slashes(p.drop_last())
    } else {
        p
    }
}

/// The position of the last `/` of `p`, or -1.
pub open spec fn last_slash(p: Seq<char>) -> int
    decreases p.len(),
{
    if p.len() == 0 {
        -1
    } else if p.last() == '/' {
        p.len() - 1
    } else {
        last_slash(p.drop_last())
    }
}

/// The path one segment up: `/a/b` gives `/a`, `/a` gives `/`, the root stays
/// the root and a bare name gives the empty path.
pub open spec fn parent_path(p: Seq<char>) -> Seq<char> {
    let t = trim_trailing_slashes(p);
    let k = last_slash(t);
    if k < 0 {
        Seq::empty()
    } else if k == 0 {
        t.take(1)
    } else {
        trim_trailing_slashes(t.take(k))
    }
}

/// What follows the last `/` of a path, or the whole path without one.
pub open spec fn last_segment(p: Seq<char>) -> Seq<char> {
    p.skip(last_slash(p) + 1)
}

/// The absolute form of the target of the link at `link`: an absolute
/// target as it is, a relative one resolved against the link's directory.
pub open spec fn resolve_link(link: Seq<char>, target: Seq<char>) -> Seq<char> {
    if target.len() > 0 && target[0] == '/' {
        target
    } else {
        let d = parent_path(link);
        if d.len() > 0 && d.last() == '/' {
            d + target
        } else {
            join_path(d, target)
        }
    }
}

/// The path of the child `name` of directory `dir`.
pub open spec fn join_path(dir: Seq<char>, name: Seq<char>) -> Seq<char> {
    dir + "/"@ + name
}

proof fn lemma_last_slash(p: Seq<char>)
    ensures
        -1 <= last_slash(p) < p.len(),
        last_slash(p) >= 0 ==> p[last_slash(p)] == '/',
        forall|j: int| last_slash(p) < j < p.len() ==> p[j] != '/',
    decreases p.len(),
{
    if p.len() > 0 && p.last() != '/' {
        lemma_last_slash(p.drop_last());
        assert forall|j: int| last_slash(p) < j < p.len() implies p[j] != '/' by {
            if j < p.len() - 1 {
                assert(p[j] == p.drop_last()[j]);
            }
        }
    }
}

fn trim_trailing_slashes_exec(p: &str) -> (r: String)
    ensures
        r@ == trim_trailing_slashes(p@),
{
    let mut n = p.unicode_len();
    assert(p@.take(n as int) =~= p@);
    while n > 1 && p.get_char(n - 1) == '/'
        invariant
            n <= p@.len(),
            trim_trailing_slashes(p@) == trim_trailing_slashes(p@.take(n as int)),
        decreases n,
    {
        assert(p@.take(n as int).drop_last() =~= p@.take(n - 1));
        n = n - 1;
    }
    proof {
        if n == p@.len() {
            assert(p@.take(n as int) =~= p@);
        }
    }
    String::from_str(p.substring_char(0, n))
}

fn last_slash_exec(p: &str) -> (r: Option<usize>)
    ensures
        match r {
            Some(k) => k == last_slash(p@),
            None => last_slash(p@) == -1,
        },
{
    let mut n = p.unicode_len();
    assert(p@.take(n as int) =~= p@);
    while n > 0 && p.get_char(n - 1) != '/'
        invariant
            n <= p@.len(),
            last_slash(p@) == last_slash(p@.take(n as int)),
        decreases n,
    {
        assert(p@.take(n as int).drop_last() =~= p@.take(n - 1));
        n = n - 1;
    }
    if n == 0 {
        None
    } else {
        Some(n - 1)
    }
}

/// Pops one segment off a path.
pub fn parent_path_exec(p: &str) -> (r: String)
    ensures
        r@ == parent_path(p@),
{
    let t = trim_trailing_slashes_exec(p);
    proof {
        lemma_trim_len(p@);
    }
    let k = last_slash_exec(t.as_str());
    proof {
        lemma_last_slash(t@);
    }
    if k.is_none() {
        return String::new();
    }
    let k = k.unwrap();
    if k == 0 {
        let r = String::from_str(t.as_str().substring_char(0, 1));
        assert(r@ =~= t@.take(1));
        r
    } else {
        let piece = t.as_str().substring_char(0, k);
        assert(piece@ =~= t@.take(k as int));
        trim_trailing_slashes_exec(piece)
    }
}

proof fn lemma_trim_len(p: Seq<char>)
    ensures
        trim_trailing_slashes(p).len() <= p.len(),
    decreases p.len(),
{
    if p.len() > 1 && p.last() == '/' {
        lemma_trim_len(p.drop_last());
    }
}

/// The last segment of a path.
pub fn last_segment_exec(p: &str) -> (r: String)
    ensures
        r@ == last_segment(p@),
{
    let k = last_slash_exec(p);
    proof {
        lemma_last_slash(p@);
    }
    let n = p.unicode_len();
    let start: usize = match k {
        Some(k) => k + 1,
        None => 0,
    };
    let r = String::from_str(p.substring_char(start, n));
    assert(r@ =~= last_segment(p@));
    r
}

/// Resolves the target of the link at `link` to an absolute path.
pub fn resolve_link_exec(link: &str, target: String) -> (r: String)
    ensures
        r@ == resolve_link(link@, target@),
{
    if target.as_str().unicode_len() > 0 && target.as_str().get_char(0) == '/' {
        target
    } else {
        let d = parent_path_exec(link);
        let n = d.as_str().unicode_len();
        if n > 0 && d.as_str().get_char(n - 1) == '/' {
            d.concat(target.as_str())
        } else {
            join_path_exec(d.as_str(), target.as_str())
        }
    }
}

/// Joins a directory and a child name with a `/`.
pub fn join_path_exec(dir: &str, name: &str) -> (r: String)
    ensures
        r@ == join_path(dir@, name@),
{
    String::from_str(dir).concat("/").concat(name)
}

/// The segments of a path, as the path bar shows them: each `/` opens a new
/// segment and every other character extends the current one; characters
/// before the first `/` form a segment of their own.
pub open spec fn path_segments(p: Seq<char>) -> Seq<Seq<char>>
    decreases p.len(),
{
    if p.len() == 0 {
        Seq::empty()
    } else {
        let r = path_segments(p.drop_last());
        let c = p.last();
        if c == '/' {
            r.push(Seq::empty())
        } else if r.len() == 0 {
            seq![seq![c]]
        } else {
            r.update(r.len() - 1, r.last().push(c))
        }
    }
}

pub open spec fn strings_view(v: Seq<String>) -> Seq<Seq<char>> {
    v.map_values(|s: String| s@)
}

/// Splits a path into the segments of the path bar.
pub fn path_segments_exec(p: &str) -> (r: Vec<String>)
    ensures
        strings_view(r@) == path_segments(p@),
{
    let n = p.unicode_len();
    let mut out: Vec<String> = Vec::new();
    let mut cur = String::new();
    let mut started = false;
    let mut i: usize = 0;
    assert(p@.take(0) =~= Seq::<char>::empty());
    while i < n
        invariant
            n == p@.len(),
            i <= n,
            path_segments(p@.take(i as int)) == if started {
                strings_view(out@).push(cur@)
            } else {
                strings_view(out@)
            },
            !started ==> out@.len() == 0,
        decreases n - i,
    {
        let c = p.get_char(i);
        let piece = p.substring_char(i, i + 1);
        proof {
            assert(p@.take(i + 1).drop_last() =~= p@.take(i as int));
            assert(p@.take(i + 1).last() == c);
            assert(piece@ =~= seq![c]);
        }
        let ghost before_out = strings_view(out@);
        let ghost before_cur = cur@;
        if c == '/' {
            if started {
                let done = cur;
                out.push(done);
                assert(strings_view(out@) =~= before_out.push(before_cur));
            }
            cur = String::new();
            started = true;
            assert(strings_view(out@).push(cur@) =~= path_segments(p@.take(i + 1)));
        } else {
            if started {
                cur.append(piece);
                assert(cur@ =~= before_cur.push(c));
                let ghost r = before_out.push(before_cur);
                assert(r.last() == before_cur);
                assert(r.update(r.len() - 1, before_cur.push(c)) =~= before_out.push(cur@));
                assert(strings_view(out@).push(cur@) =~= path_segments(p@.take(i + 1)));
            } else {
                cur = String::from_str(piece);
                started = true;
                assert(strings_view(out@).push(cur@) =~= path_segments(p@.take(i + 1)));
            }
        }
        i = i + 1;
    }
    if started {
        let ghost before_out = strings_view(out@);
        let ghost last = cur@;
        out.push(cur);
        assert(strings_view(out@) =~= before_out.push(last));
    }
    assert(p@.take(n as int) =~= p@);
    out
}

} // verus!
