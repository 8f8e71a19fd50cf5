//! The view projector: which entries fill the bounded icon grid, and how
//! the cursor moves over them.

use vstd::prelude::*;
use vstd::string::*;
use crate::sorting::FileEntry;

verus! {

/// One cell of the grid: the entry's name, its index in the full listing,
/// whether it is selected, and its icon file.
pub struct UIFile {
    pub name: String,
    pub original_index: usize,
    pub selected: bool,
    pub icon: String,
}

/// A direction of the cursor.
#[derive(Clone, Copy, PartialEq, Eq, Structural, Debug)]
pub enum Direction {
    Left,
    Right,
    Up,
    Down,
}

/// A name that starts with a dot is hidden.
pub open spec fn is_hidden(name: Seq<char>) -> bool {
    name.len() > 0 && name[0] == '.'
}

pub open spec fn passes(e: FileEntry, show_hidden: bool) -> bool {
    show_hidden || !is_hidden(e.name@)
}

/// The indices of the first `n` entries that pass the hidden-file filter.
pub open spec fn filtered(entries: Seq<FileEntry>, show_hidden: bool, n: int) -> Seq<usize>
    decreases n,
{
    if n <= 0 {
        Seq::empty()
    } else if passes(entries[n - 1], show_hidden) {
        filtered(entries, show_hidden, n - 1).push((n - 1) as usize)
    } else {
        filtered(entries, show_hidden, n - 1)
    }
}

/// The indices of the entries shown: those that pass the filter, in order,
/// at most `cap` of them.
pub open spec fn visible_indices(entries: Seq<FileEntry>, show_hidden: bool, cap: int) -> Seq<usize> {
    let f = filtered(entries, show_hidden, entries.len() as int);
    if f.len() <= cap {
        f
    } else {
        f.take(cap)
    }
}

/// The first position of `x` in `v`, or -1.
pub open spec fn find_pos(v: Seq<usize>, x: usize) -> int
    decreases v.len(),
{
    if v.len() == 0 {
        -1
    } else if v[0] == x {
        0
    } else {
        let r = find_pos(v.drop_first(), x);
        if r < 0 {
            -1
        } else {
            r + 1
        }
    }
}

/// Where the cursor lands, given the shown indices, the selected entry and the
/// number of columns. Left and right wrap around the ends; down wraps to the
/// top of its column; up from the first row lands on the lowest cell of the
/// same column. Without a selection, left starts from the last cell and the
/// other directions from the first.
pub open spec fn cursor_target(v: Seq<usize>, sel: Option<usize>, cols: int, dir: Direction) -> Option<
    usize,
> {
    if v.len() == 0 {
        None
    } else {
        let p = match sel {
            Some(x) => find_pos(v, x),
            None => -1,
        };
        let len = v.len() as int;
        let t: int = match dir {
            Direction::Left => if p > 0 {
                p - 1
            } else {
                len - 1
            },
            Direction::Right => if p >= 0 && p < len - 1 {
                p + 1
            } else {
                0
            },
            Direction::Down => if p < 0 {
                0
            } else if p + cols < len {
                p + cols
            } else {
                p % cols
            },
            Direction::Up => if p < 0 {
                0
            } else if p >= cols {
                p - cols
            } else {
                p + cols * ((len - 1 - p) / cols)
            },
        };
        Some(v[t])
    }
}

pub proof fn lemma_find_pos(v: Seq<usize>, x: usize)
    ensures
        -1 <= find_pos(v, x) < v.len(),
        find_pos(v, x) >= 0 ==> v[find_pos(v, x)] == x,
        forall|j: int| 0 <= j < v.len() && (find_pos(v, x) < 0 || j < find_pos(v, x)) ==> v[j] != x,
    decreases v.len(),
{
    if v.len() > 0 && v[0] != x {
        lemma_find_pos(v.drop_first(), x);
        assert forall|j: int| 0 <= j < v.len() && (find_pos(v, x) < 0 || j < find_pos(v, x)) implies v[j] != x by {
            if j > 0 {
                assert(v[j] == v.drop_first()[j - 1]);
            }
        }
    }
}

proof fn lemma_find_pos_at(v: Seq<usize>, x: usize, i: int)
    requires
        -1 <= i < v.len(),
        i >= 0 ==> v[i] == x,
        forall|j: int| 0 <= j < v.len() && (i < 0 || j < i) ==> v[j] != x,
    ensures
        find_pos(v, x) == i,
{
    lemma_find_pos(v, x);
    if find_pos(v, x) >= 0 && i >= 0 {
        if find_pos(v, x) < i {
        } else if find_pos(v, x) > i {
        }
    }
}

pub proof fn lemma_filtered(entries: Seq<FileEntry>, show_hidden: bool, n: int)
    requires
        0 <= n <= entries.len(),
        entries.len() <= usize::MAX,
    ensures
        filtered(entries, show_hidden, n).len() <= n,
        forall|i: int| 0 <= i < filtered(entries, show_hidden, n).len() ==> (#[trigger] filtered(entries, show_hidden, n)[i]) < n,
        forall|i: int| 0 <= i < filtered(entries, show_hidden, n).len() ==> passes(entries[#[trigger] filtered(entries, show_hidden, n)[i] as int], show_hidden),
        forall|i: int, j: int| 0 <= i < j < filtered(entries, show_hidden, n).len() ==> (#[trigger] filtered(entries, show_hidden, n)[i]) < (#[trigger] filtered(entries, show_hidden, n)[j]),
        forall|k: int| 0 <= k < n && passes(entries[k], show_hidden) ==> filtered(entries, show_hidden, n).contains(k as usize),
    decreases n,
{
    if n > 0 {
        lemma_filtered(entries, show_hidden, n - 1);
        let f = filtered(entries, show_hidden, n - 1);
        let g = filtered(entries, show_hidden, n);
        if passes(entries[n - 1], show_hidden) {
            assert(g == f.push((n - 1) as usize));
            assert forall|i: int| 0 <= i < f.len() implies g[i] == f[i] by {}
            assert(g[f.len() as int] == (n - 1) as usize);
        }
        assert forall|k: int| 0 <= k < n && passes(entries[k], show_hidden) implies g.contains(k as usize) by {
            if k < n - 1 {
                let i = choose|i: int| 0 <= i < f.len() && f[i] == k as usize;
                if passes(entries[n - 1], show_hidden) {
                    assert(g[i] == k as usize);
                }
            } else {
                assert(g[f.len() as int] == k as usize);
            }
        }
    }
}

/// The indices of the entries shown in a grid of `cap` cells.
pub fn visible_indices_exec(entries: &Vec<FileEntry>, show_hidden: bool, cap: u64) -> (r: Vec<usize>)
    ensures
        r@ == visible_indices(entries@, show_hidden, cap as int),
{
    let mut out: Vec<usize> = Vec::new();
    let mut i: usize = 0;
    let n = entries.len();
    while i < n && (out.len() as u64) < cap
        invariant
            n == entries@.len(),
            i <= n,
            out@ == filtered(entries@, show_hidden, i as int),
            out@.len() <= cap,
            out@.len() <= i,
        decreases n - i,
    {
        proof {
            lemma_filtered(entries@, show_hidden, i as int);
        }
        let name = entries[i].name.as_str();
        let hidden = name.unicode_len() > 0 && name.get_char(0) == '.';
        if show_hidden || !hidden {
            out.push(i);
        }
        i = i + 1;
    }
    proof {
        lemma_filtered_prefix(entries@, show_hidden, i as int, n as int);
        let f = filtered(entries@, show_hidden, n as int);
        if i < n {
            assert(out@.len() == cap);
            assert(f.take(cap as int) =~= out@);
        }
    }
    out
}

/// The filtered indices of a shorter prefix begin those of a longer one.
pub proof fn lemma_filtered_prefix(entries: Seq<FileEntry>, show_hidden: bool, m: int, n: int)
    requires
        0 <= m <= n <= entries.len(),
    ensures
        filtered(entries, show_hidden, m).len() <= filtered(entries, show_hidden, n).len(),
        filtered(entries, show_hidden, n).take(filtered(entries, show_hidden, m).len() as int)
            == filtered(entries, show_hidden, m),
    decreases n - m,
{
    if m < n {
        lemma_filtered_prefix(entries, show_hidden, m, n - 1);
        let a = filtered(entries, show_hidden, n - 1);
        let b = filtered(entries, show_hidden, n);
        let c = filtered(entries, show_hidden, m);
        assert(b.take(c.len() as int) =~= a.take(c.len() as int));
    } else {
        assert(filtered(entries, show_hidden, n).take(filtered(entries, show_hidden, n).len() as int)
            =~= filtered(entries, show_hidden, n));
    }
}

/// The position of `x` in `v`, or -1.
pub fn find_pos_exec(v: &Vec<usize>, x: usize) -> (r: Option<usize>)
    ensures
        match r {
            Some(i) => i == find_pos(v@, x),
            None => find_pos(v@, x) == -1,
        },
{
    let mut i: usize = 0;
    while i < v.len()
        invariant
            i <= v@.len(),
            forall|j: int| 0 <= j < i ==> v@[j] != x,
        decreases v@.len() - i,
    {
        if v[i] == x {
            proof {
                lemma_find_pos_at(v@, x, i as int);
            }
            return Some(i);
        }
        i = i + 1;
    }
    proof {
        lemma_find_pos_at(v@, x, -1);
    }
    None
}

/// Moves the cursor over the shown indices `v` in a grid of `cols` columns.
pub fn cursor_target_exec(v: &Vec<usize>, sel: Option<usize>, cols: u32, dir: Direction) -> (r: Option<usize>)
    requires
        cols >= 1,
    ensures
        r == cursor_target(v@, sel, cols as int, dir),
        r matches Some(t) ==> v@.contains(t),
{
    let len = v.len();
    if len == 0 {
        return None;
    }
    let found: Option<usize> = match sel {
        Some(x) => find_pos_exec(v, x),
        None => None,
    };
    proof {
        if sel is Some {
            lemma_find_pos(v@, sel->0);
        }
    }
    let c = cols as usize;
    let t: usize = match found {
        None => match dir {
            Direction::Left => len - 1,
            _ => 0,
        },
        Some(q) => match dir {
            Direction::Left => if q > 0 {
                q - 1
            } else {
                len - 1
            },
            Direction::Right => if q < len - 1 {
                q + 1
            } else {
                0
            },
            Direction::Down => if c < len && q < len - c {
                q + c
            } else {
                proof {
                    assert((q as int) % (c as int) <= q) by (nonlinear_arith)
                        requires
                            q >= 0,
                            c >= 1,
                    ;
                }
                q % c
            },
            Direction::Up => if q >= c {
                q - c
            } else {
                let k = (len - 1 - q) / c;
                proof {
                    let ghost d: int = (len - 1 - q) as int;
                    let ghost ci: int = c as int;
                    let ghost ki: int = k as int;
                    assert(ci * ki <= d) by (nonlinear_arith)
                        requires
                            ki == d / ci,
                            ci >= 1,
                            d >= 0,
                    ;
                }
                q + c * k
            },
        },
    };
    let r = v[t];
    assert(v@.contains(r));
    Some(r)
}

/// A name as the grid shows it: ten characters and an ellipsis when longer.
pub open spec fn clipped(name: Seq<char>) -> Seq<char> {
    if name.len() > 10 {
        name.take(10) + "..."@
    } else {
        name
    }
}

/// Shortens a name for display.
pub fn clip_file_name(name: String) -> (r: String)
    ensures
        r@ == clipped(name@),
{
    if name.as_str().unicode_len() > 10 {
        let head = name.as_str().substring_char(0, 10);
        let r = String::from_str(head).concat("...");
        assert(head@ =~= name@.take(10));
        r
    } else {
        name
    }
}

} // verus!
