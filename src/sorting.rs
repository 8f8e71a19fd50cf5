//! The directory snapshot and its sort engine.

use vstd::prelude::*;
use crate::config::{FileType, SortType};
use crate::text::{
    text_le, text_le_exec, lemma_text_le_total, lemma_text_le_transitive, lemma_text_le_antisymmetric,
};

verus! {

/// One child of the current directory.
pub struct FileEntry {
    pub name: String,
    pub path: String,
    pub kind: FileType,
}

impl FileEntry {
    pub fn new(name: String, path: String, kind: FileType) -> (r: FileEntry)
        ensures
            r.name@ == name@,
            r.path@ == path@,
            r.kind == kind,
    {
        FileEntry { name, path, kind }
    }
}

/// Maps what the filesystem reports of an entry to its kind; an entry that is
/// none of the three counts as a file.
pub fn get_file_type(is_dir: bool, is_file: bool, is_symlink: bool) -> (r: FileType)
    ensures
        r == (if is_dir {
            FileType::Folder
        } else if is_file {
            FileType::File
        } else if is_symlink {
            FileType::Link
        } else {
            FileType::File
        }),
{
    if is_dir {
        FileType::Folder
    } else if is_file {
        FileType::File
    } else if is_symlink {
        FileType::Link
    } else {
        FileType::File
    }
}

pub open spec fn is_folder(e: FileEntry) -> bool {
    e.kind == FileType::Folder
}

/// Whether `a` may stand before `b` under the order `o`. The two grouping
/// orders put folders on one side and files and links together on the other.
pub open spec fn entry_le(o: SortType, a: FileEntry, b: FileEntry) -> bool {
    match o {
        SortType::Alphabetical => text_le(a.name@, b.name@),
        SortType::Reverse => text_le(b.name@, a.name@),
        SortType::Folders => if is_folder(a) != is_folder(b) {
            is_folder(a)
        } else {
            text_le(a.name@, b.name@)
        },
        SortType::Files => if is_folder(a) != is_folder(b) {
            is_folder(b)
        } else {
            text_le(a.name@, b.name@)
        },
    }
}

pub open spec fn sorted_by(o: SortType, s: Seq<FileEntry>) -> bool {
    forall|i: int, j: int| 0 <= i < j < s.len() ==> entry_le(o, #[trigger] s[i], #[trigger] s[j])
}

/// Where `e` goes in `r`: after the longest prefix of entries that may stand
/// before it.
pub open spec fn insert_pos(o: SortType, r: Seq<FileEntry>, e: FileEntry) -> int
    decreases r.len(),
{
    if r.len() == 0 {
        0
    } else if !entry_le(o, r[0], e) {
        0
    } else {
        1 + insert_pos(o, r.drop_first(), e)
    }
}

pub open spec fn insert_sorted(o: SortType, r: Seq<FileEntry>, e: FileEntry) -> Seq<FileEntry> {
    r.insert(insert_pos(o, r, e), e)
}

/// The listing in order `o`: each entry in turn inserted after those that may
/// stand before it, so that entries that tie keep their order.
pub open spec fn sort_spec(o: SortType, s: Seq<FileEntry>) -> Seq<FileEntry>
    decreases s.len(),
{
    if s.len() == 0 {
        s
    } else {
        insert_sorted(o, sort_spec(o, s.drop_last()), s.last())
    }
}

pub proof fn lemma_insert_pos_bounds(o: SortType, r: Seq<FileEntry>, e: FileEntry)
    ensures
        0 <= insert_pos(o, r, e) <= r.len(),
        forall|k: int| 0 <= k < insert_pos(o, r, e) ==> entry_le(o, #[trigger] r[k], e),
        insert_pos(o, r, e) < r.len() ==> !entry_le(o, r[insert_pos(o, r, e)], e),
    decreases r.len(),
{
    if r.len() > 0 && entry_le(o, r[0], e) {
        lemma_insert_pos_bounds(o, r.drop_first(), e);
        assert forall|k: int| 0 <= k < insert_pos(o, r, e) implies entry_le(o, #[trigger] r[k], e) by {
            if k > 0 {
                assert(r[k] == r.drop_first()[k - 1]);
            }
        }
    }
}

/// An index that has only entries before it that may stand before `e`, and
/// one after it that may not, is where `e` goes.
pub proof fn lemma_insert_pos_at(o: SortType, r: Seq<FileEntry>, e: FileEntry, j: int)
    requires
        0 <= j <= r.len(),
        forall|k: int| 0 <= k < j ==> entry_le(o, #[trigger] r[k], e),
        j < r.len() ==> !entry_le(o, r[j], e),
    ensures
        insert_pos(o, r, e) == j,
    decreases r.len(),
{
    if r.len() > 0 && j > 0 {
        assert(entry_le(o, r[0], e));
        assert forall|k: int| 0 <= k < j - 1 implies entry_le(o, #[trigger] r.drop_first()[k], e) by {
            assert(r.drop_first()[k] == r[k + 1]);
        }
        lemma_insert_pos_at(o, r.drop_first(), e, j - 1);
    }
}

/// The order `o` leaves no pair of entries incomparable.
pub proof fn lemma_entry_le_total(o: SortType, a: FileEntry, b: FileEntry)
    ensures
        entry_le(o, a, b) || entry_le(o, b, a),
{
    lemma_text_le_total(a.name@, b.name@);
}

/// The order `o` is transitive.
pub proof fn lemma_entry_le_transitive(o: SortType, a: FileEntry, b: FileEntry, c: FileEntry)
    requires
        entry_le(o, a, b),
        entry_le(o, b, c),
    ensures
        entry_le(o, a, c),
{
    if o == SortType::Reverse {
        lemma_text_le_transitive(c.name@, b.name@, a.name@);
    } else if o == SortType::Alphabetical {
        lemma_text_le_transitive(a.name@, b.name@, c.name@);
    } else if is_folder(a) == is_folder(b) && is_folder(b) == is_folder(c) {
        lemma_text_le_transitive(a.name@, b.name@, c.name@);
    }
}

pub proof fn lemma_insert_sorted(o: SortType, r: Seq<FileEntry>, e: FileEntry)
    requires
        sorted_by(o, r),
    ensures
        sorted_by(o, insert_sorted(o, r, e)),
        insert_sorted(o, r, e).to_multiset() == r.to_multiset().insert(e),
        insert_sorted(o, r, e).len() == r.len() + 1,
{
    lemma_insert_pos_bounds(o, r, e);
    let p = insert_pos(o, r, e);
    let t = insert_sorted(o, r, e);
    assert forall|i: int, j: int| 0 <= i < j < t.len() implies entry_le(o, #[trigger] t[i], #[trigger] t[j]) by {
        if j < p {
        } else if j == p {
            assert(t[i] == r[i]);
        } else if i == p {
            assert(t[j] == r[j - 1]);
            assert(!entry_le(o, r[p], e));
            lemma_entry_le_total(o, r[p], e);
            if j - 1 > p {
                lemma_entry_le_transitive(o, e, r[p], r[j - 1]);
            }
        } else if i < p {
            assert(t[i] == r[i]);
            assert(t[j] == r[j - 1]);
        } else {
            assert(t[i] == r[i - 1]);
            assert(t[j] == r[j - 1]);
        }
    }
    vstd::seq_lib::to_multiset_insert(r, p, e);
}

/// Sorting yields an ordered permutation of its input.
pub proof fn lemma_sort_spec_sorted(o: SortType, s: Seq<FileEntry>)
    ensures
        sorted_by(o, sort_spec(o, s)),
        sort_spec(o, s).to_multiset() == s.to_multiset(),
        sort_spec(o, s).len() == s.len(),
    decreases s.len(),
{
    if s.len() > 0 {
        lemma_sort_spec_sorted(o, s.drop_last());
        lemma_insert_sorted(o, sort_spec(o, s.drop_last()), s.last());
        assert(s =~= s.drop_last().push(s.last()));
        vstd::seq_lib::to_multiset_build(s.drop_last(), s.last());
    }
}

/// A listing already in order `o` is left as it is.
pub proof fn lemma_sort_spec_of_sorted(o: SortType, s: Seq<FileEntry>)
    requires
        sorted_by(o, s),
    ensures
        sort_spec(o, s) == s,
    decreases s.len(),
{
    if s.len() > 0 {
        let d = s.drop_last();
        assert(sorted_by(o, d)) by {
            assert forall|i: int, j: int| 0 <= i < j < d.len() implies entry_le(o, #[trigger] d[i], #[trigger] d[j]) by {
                assert(d[i] == s[i] && d[j] == s[j]);
            }
        }
        lemma_sort_spec_of_sorted(o, d);
        assert forall|k: int| 0 <= k < d.len() implies entry_le(o, #[trigger] d[k], s.last()) by {
            assert(d[k] == s[k]);
        }
        lemma_insert_pos_at(o, d, s.last(), d.len() as int);
        assert(d.insert(d.len() as int, s.last()) =~= s);
    }
}

/// Sorting is total and idempotent: every two entries are comparable, the
/// result is an ordered permutation of the input, and sorting it again
/// changes nothing.
pub proof fn lemma_sort_total_idempotent(o: SortType, s: Seq<FileEntry>, a: FileEntry, b: FileEntry)
    ensures
        entry_le(o, a, b) || entry_le(o, b, a),
        sorted_by(o, sort_spec(o, s)),
        sort_spec(o, s).to_multiset() == s.to_multiset(),
        sort_spec(o, sort_spec(o, s)) == sort_spec(o, s),
{
    lemma_entry_le_total(o, a, b);
    lemma_sort_spec_sorted(o, s);
    lemma_sort_spec_of_sorted(o, sort_spec(o, s));
}

/// No two entries of the listing share a name, as in one directory.
pub open spec fn names_distinct(s: Seq<FileEntry>) -> bool {
    forall|i: int, j: int| 0 <= i < j < s.len() ==> (#[trigger] s[i]).name@ != (#[trigger] s[j]).name@
}

proof fn lemma_le_both_ways(o: SortType, a: FileEntry, b: FileEntry)
    requires
        entry_le(o, a, b),
        entry_le(o, b, a),
    ensures
        a.name@ == b.name@,
{
    if o == SortType::Reverse {
        lemma_text_le_antisymmetric(b.name@, a.name@);
    } else {
        lemma_text_le_antisymmetric(a.name@, b.name@);
    }
}

/// A permutation of a listing with distinct names has distinct names.
proof fn lemma_perm_names_distinct(s: Seq<FileEntry>, r: Seq<FileEntry>)
    requires
        names_distinct(s),
        r.to_multiset() == s.to_multiset(),
    ensures
        names_distinct(r),
{
    broadcast use vstd::seq_lib::group_to_multiset_ensures;

    assert(s.no_duplicates()) by {
        assert forall|i: int, j: int| 0 <= i < s.len() && 0 <= j < s.len() && i != j implies s[i] != s[j] by {
            if i < j {
                assert(s[i].name@ != s[j].name@);
            } else {
                assert(s[j].name@ != s[i].name@);
            }
        }
    }
    s.lemma_multiset_has_no_duplicates();
    r.lemma_multiset_has_no_duplicates_conv();
    assert forall|i: int, j: int| 0 <= i < j < r.len() implies (#[trigger] r[i]).name@ != (#[trigger] r[j]).name@ by {
        assert(r.contains(r[i]));
        assert(r.contains(r[j]));
        assert(r.to_multiset().count(r[i]) > 0);
        assert(r.to_multiset().count(r[j]) > 0);
        assert(s.contains(r[i]));
        assert(s.contains(r[j]));
        let p = choose|p: int| 0 <= p < s.len() && s[p] == r[i];
        let q = choose|q: int| 0 <= q < s.len() && s[q] == r[j];
        assert(r[i] != r[j]);
        if p < q {
            assert(s[p].name@ != s[q].name@);
        } else if q < p {
            assert(s[q].name@ != s[p].name@);
        }
    }
}

/// Two ordered permutations of each other, with distinct names, are equal.
proof fn lemma_sorted_unique(o: SortType, r1: Seq<FileEntry>, r2: Seq<FileEntry>)
    requires
        sorted_by(o, r1),
        sorted_by(o, r2),
        r1.to_multiset() == r2.to_multiset(),
        names_distinct(r1),
    ensures
        r1 == r2,
    decreases r1.len(),
{
    broadcast use vstd::seq_lib::group_to_multiset_ensures;

    vstd::seq_lib::to_multiset_len(r1);
    vstd::seq_lib::to_multiset_len(r2);
    if r1.len() == 0 {
        assert(r2.len() == 0);
        assert(r1 =~= r2);
    } else {
        assert(r2.len() == r1.len());
        let a = r1[0];
        let b = r2[0];
        assert(r2.contains(b));
        assert(r2.to_multiset().count(b) > 0);
        assert(r1.contains(b));
        let k = choose|k: int| 0 <= k < r1.len() && r1[k] == b;
        assert(r1.contains(a));
        assert(r1.to_multiset().count(a) > 0);
        assert(r2.contains(a));
        let m = choose|m: int| 0 <= m < r2.len() && r2[m] == a;
        if k > 0 {
            assert(entry_le(o, r1[0], r1[k]));
            if m > 0 {
                assert(entry_le(o, r2[0], r2[m]));
            }
            lemma_le_both_ways(o, a, b);
            assert(r1[0].name@ != r1[k].name@);
        }
        assert(a == b);
        let d1 = r1.drop_first();
        let d2 = r2.drop_first();
        vstd::seq_lib::to_multiset_remove(r1, 0);
        vstd::seq_lib::to_multiset_remove(r2, 0);
        assert(r1.remove(0) =~= d1);
        assert(r2.remove(0) =~= d2);
        assert(sorted_by(o, d1)) by {
            assert forall|i: int, j: int| 0 <= i < j < d1.len() implies entry_le(o, #[trigger] d1[i], #[trigger] d1[j]) by {
                assert(d1[i] == r1[i + 1] && d1[j] == r1[j + 1]);
            }
        }
        assert(sorted_by(o, d2)) by {
            assert forall|i: int, j: int| 0 <= i < j < d2.len() implies entry_le(o, #[trigger] d2[i], #[trigger] d2[j]) by {
                assert(d2[i] == r2[i + 1] && d2[j] == r2[j + 1]);
            }
        }
        assert(names_distinct(d1)) by {
            assert forall|i: int, j: int| 0 <= i < j < d1.len() implies (#[trigger] d1[i]).name@ != (#[trigger] d1[j]).name@ by {
                assert(d1[i] == r1[i + 1] && d1[j] == r1[j + 1]);
            }
        }
        lemma_sorted_unique(o, d1, d2);
        assert(r1 =~= r2) by {
            assert forall|i: int| 0 <= i < r1.len() implies r1[i] == r2[i] by {
                if i > 0 {
                    assert(r1[i] == d1[i - 1] && r2[i] == d2[i - 1]);
                }
            }
        }
    }
}

/// The sorted listing does not depend on the order in which the entries
/// were read: two orderings of the same entries, with distinct names, sort
/// to the same listing.
pub proof fn lemma_sort_independent_of_input_order(o: SortType, s1: Seq<FileEntry>, s2: Seq<FileEntry>)
    requires
        s1.to_multiset() == s2.to_multiset(),
        names_distinct(s1),
    ensures
        sort_spec(o, s1) == sort_spec(o, s2),
{
    lemma_sort_spec_sorted(o, s1);
    lemma_sort_spec_sorted(o, s2);
    lemma_perm_names_distinct(s1, sort_spec(o, s1));
    lemma_sorted_unique(o, sort_spec(o, s1), sort_spec(o, s2));
}

/// Compares two entries under the order `o`.
pub fn folder_cmp(a: &FileEntry, b: &FileEntry, o: SortType) -> (r: bool)
    ensures
        r == entry_le(o, *a, *b),
{
    let fa = match a.kind {
        FileType::Folder => true,
        _ => false,
    };
    let fb = match b.kind {
        FileType::Folder => true,
        _ => false,
    };
    match o {
        SortType::Alphabetical => text_le_exec(a.name.as_str(), b.name.as_str()),
        SortType::Reverse => text_le_exec(b.name.as_str(), a.name.as_str()),
        SortType::Folders => if fa != fb {
            fa
        } else {
            text_le_exec(a.name.as_str(), b.name.as_str())
        },
        SortType::Files => if fa != fb {
            fb
        } else {
            text_le_exec(a.name.as_str(), b.name.as_str())
        },
    }
}

/// Sorts the listing in place in order `sort_type`.
pub fn sort_file_by_type(input: &mut Vec<FileEntry>, sort_type: SortType)
    ensures
        final(input)@ == sort_spec(sort_type, old(input)@),
{
    let ghost orig = old(input)@;
    let mut out: Vec<FileEntry> = Vec::new();
    let mut k: usize = 0;
    let _n = input.len();
    assert(orig.skip(0) =~= orig);
    assert(orig.take(0) =~= Seq::<FileEntry>::empty());
    while input.len() > 0
        invariant
            k + input@.len() == orig.len(),
            orig.len() <= usize::MAX,
            input@ == orig.skip(k as int),
            out@ == sort_spec(sort_type, orig.take(k as int)),
        decreases input@.len(),
    {
        let e = input.remove(0);
        proof {
            lemma_sort_spec_sorted(sort_type, orig.take(k as int));
            lemma_insert_pos_bounds(sort_type, out@, e);
        }
        let mut j: usize = 0;
        while j < out.len() && folder_cmp(&out[j], &e, sort_type)
            invariant
                j <= out@.len(),
                j <= insert_pos(sort_type, out@, e),
                0 <= insert_pos(sort_type, out@, e) <= out@.len(),
                forall|m: int| 0 <= m < insert_pos(sort_type, out@, e) ==> entry_le(sort_type, #[trigger] out@[m], e),
                insert_pos(sort_type, out@, e) < out@.len() ==> !entry_le(sort_type, out@[insert_pos(sort_type, out@, e)], e),
            decreases out@.len() - j,
        {
            j = j + 1;
        }
        assert(j == insert_pos(sort_type, out@, e));
        out.insert(j, e);
        proof {
            assert(orig.take(k + 1).drop_last() =~= orig.take(k as int));
            assert(orig.take(k + 1).last() == e);
        }
        k = k + 1;
        assert(input@ =~= orig.skip(k as int));
    }
    assert(orig.take(k as int) =~= orig);
    *input = out;
}

} // verus!
