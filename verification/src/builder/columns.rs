//! Column structure of `pdftotext -layout` output: columns are separated by
//! runs of three or more spaces.
use vstd::prelude::*;

use crate::text::{
    byte_offset, find, is_digit, occurs_at, string_of_range, to_chars, trim_range, trim_range_exec,
    utf8_len,
};

verus! {

/// Minimum consecutive spaces that separate two columns.
pub const COLUMN_GAP_SPACES: usize = 3;

/// The end of the run of spaces (U+0020) that starts at `i`.
pub open spec fn space_run_end(s: Seq<char>, i: int) -> int
    decreases s.len() - i,
{
    if 0 <= i < s.len() && s[i] == ' ' {
        space_run_end(s, i + 1)
    } else {
        i
    }
}

/// A column gap starts at `i`: a maximal run of at least three spaces.
pub open spec fn gap_at(s: Seq<char>, i: int) -> bool {
    &&& 0 <= i < s.len()
    &&& s[i] == ' '
    &&& (i == 0 || s[i - 1] != ' ')
    &&& space_run_end(s, i) - i >= COLUMN_GAP_SPACES
}

/// The first column gap at or after `i`.
pub open spec fn next_gap(s: Seq<char>, i: int) -> Option<int>
    decreases s.len() - i,
{
    if i < 0 || i >= s.len() {
        None
    } else if gap_at(s, i) {
        Some(i)
    } else {
        next_gap(s, i + 1)
    }
}

/// Where the first column gap of `s` starts.
pub open spec fn column_gap(s: Seq<char>) -> Option<int> {
    next_gap(s, 0)
}

pub proof fn lemma_space_run_end(s: Seq<char>, i: int)
    requires
        0 <= i <= s.len(),
    ensures
        i <= space_run_end(s, i) <= s.len(),
        forall|k: int| i <= k < space_run_end(s, i) ==> #[trigger] s[k] == ' ',
        space_run_end(s, i) < s.len() ==> s[space_run_end(s, i)] != ' ',
    decreases s.len() - i,
{
    if 0 <= i < s.len() && s[i] == ' ' {
        lemma_space_run_end(s, i + 1);
    }
}

pub proof fn lemma_space_run_end_inner(s: Seq<char>, i: int, k: int)
    requires
        0 <= i <= k <= space_run_end(s, i),
        space_run_end(s, i) <= s.len(),
    ensures
        space_run_end(s, k) == space_run_end(s, i),
    decreases k - i,
{
    if i < k {
        lemma_space_run_end(s, i);
        assert(s[i] == ' ');
        lemma_space_run_end_inner(s, i + 1, k);
    }
}

pub proof fn lemma_next_gap_skip(s: Seq<char>, a: int, b: int)
    requires
        0 <= a <= b,
        forall|j: int| a <= j < b ==> !gap_at(s, j),
    ensures
        next_gap(s, a) == next_gap(s, b),
    decreases b - a,
{
    if a < b {
        lemma_next_gap_skip(s, a + 1, b);
    }
}

pub proof fn lemma_next_gap_props(s: Seq<char>, i: int)
    requires
        0 <= i,
    ensures
        next_gap(s, i) matches Some(g) ==> i <= g && gap_at(s, g),
    decreases s.len() - i,
{
    if 0 <= i < s.len() && !gap_at(s, i) {
        lemma_next_gap_props(s, i + 1);
    }
}

pub fn space_run_end_exec(s: &[char], i: usize) -> (r: usize)
    requires
        i <= s@.len(),
    ensures
        r == space_run_end(s@, i as int),
        i <= r <= s@.len(),
{
    proof {
        lemma_space_run_end(s@, i as int);
    }
    let mut k = i;
    while k < s.len() && s[k] == ' '
        invariant
            i <= k <= s@.len(),
            space_run_end(s@, k as int) == space_run_end(s@, i as int),
        decreases s@.len() - k,
    {
        k = k + 1;
    }
    k
}

/// The first column gap at or after `from`.
pub fn next_gap_exec(s: &[char], from: usize) -> (r: Option<usize>)
    ensures
        match next_gap(s@, from as int) {
            Some(g) => r == Some(g as usize),
            None => r is None,
        },
{
    let n = s.len();
    if from >= n {
        return None;
    }
    let mut i = from;
    if i > 0 && s[i - 1] == ' ' && s[i] == ' ' {
        let e = space_run_end_exec(s, i);
        proof {
            lemma_space_run_end(s@, i as int);
            assert forall|j: int| from <= j < e implies !gap_at(s@, j) by {
                if j > from {
                    assert(s@[j - 1] == ' ');
                }
            }
            lemma_next_gap_skip(s@, from as int, e as int);
        }
        i = e;
    }
    while i < n
        invariant
            from <= i <= n,
            n == s@.len(),
            next_gap(s@, i as int) == next_gap(s@, from as int),
            i == 0 || i >= n || s@[i - 1] != ' ' || s@[i as int] != ' ',
        decreases n - i,
    {
        if s[i] != ' ' {
            proof {
                lemma_next_gap_skip(s@, i as int, i + 1);
            }
            i = i + 1;
        } else {
            let e = space_run_end_exec(s, i);
            proof {
                lemma_space_run_end(s@, i as int);
            }
            if e - i >= COLUMN_GAP_SPACES {
                proof {
                    assert(gap_at(s@, i as int));
                }
                return Some(i);
            }
            proof {
                assert forall|j: int| i <= j < e implies !gap_at(s@, j) by {
                    if j > i {
                        assert(s@[j - 1] == ' ');
                    } else {
                        assert(!gap_at(s@, i as int));
                    }
                }
                lemma_next_gap_skip(s@, i as int, e as int);
            }
            i = e;
        }
    }
    None
}

/// Finds where the first column gap (3+ consecutive spaces) starts, as a byte
/// offset.
pub fn find_column_gap(s: &str) -> (r: Option<usize>)
    ensures
        match column_gap(s@) {
            Some(g) => r == Some(utf8_len(s@.subrange(0, g)) as usize),
            None => r is None,
        },
{
    let cs = to_chars(s);
    match next_gap_exec(cs.as_slice(), 0) {
        Some(g) => {
            proof {
                lemma_next_gap_props(s@, 0);
            }
            Some(byte_offset(s, cs.as_slice(), g))
        },
        None => None,
    }
}

/// Keeps a trimmed range only when it is not empty.
pub open spec fn keep_range(r: (int, int)) -> Seq<(int, int)> {
    if r.0 < r.1 {
        seq![r]
    } else {
        Seq::empty()
    }
}

/// The non-empty trimmed columns of `s[start..]`, as ranges.
pub open spec fn columns_from(s: Seq<char>, start: int) -> Seq<(int, int)>
    decreases s.len() - start,
{
    if start < 0 || start > s.len() {
        Seq::empty()
    } else {
        match next_gap(s, start) {
            None => keep_range(trim_range(s, start, s.len() as int)),
            Some(g) => {
                let e = space_run_end(s, g);
                if g < start || e <= start || e > s.len() {
                    Seq::empty()
                } else {
                    keep_range(trim_range(s, start, g)) + columns_from(s, e)
                }
            },
        }
    }
}

/// The non-empty trimmed columns of `s`.
pub open spec fn columns(s: Seq<char>) -> Seq<Seq<char>> {
    columns_from(s, 0).map_values(|r: (int, int)| s.subrange(r.0, r.1))
}

/// Splits `s` into its columns, returned as ranges.
pub fn column_ranges(s: &[char]) -> (r: Vec<(usize, usize)>)
    ensures
        r@.len() == columns_from(s@, 0).len(),
        forall|k: int|
            0 <= k < r@.len() ==> (#[trigger] r@[k]).0 == columns_from(s@, 0)[k].0 && r@[k].1
                == columns_from(s@, 0)[k].1,
        forall|k: int| 0 <= k < r@.len() ==> (#[trigger] r@[k]).0 < r@[k].1 <= s@.len(),
{
    let n = s.len();
    let mut r: Vec<(usize, usize)> = Vec::new();
    let ghost mut done: Seq<(int, int)> = Seq::empty();
    let mut start: usize = 0;
    loop
        invariant
            start <= n,
            n == s@.len(),
            r@.len() == done.len(),
            forall|k: int|
                0 <= k < r@.len() ==> (#[trigger] r@[k]).0 == done[k].0 && r@[k].1 == done[k].1,
            forall|k: int| 0 <= k < r@.len() ==> (#[trigger] r@[k]).0 < r@[k].1 <= s@.len(),
            done + columns_from(s@, start as int) == columns_from(s@, 0),
        ensures
            start == n,
        decreases n - start,
    {
        match next_gap_exec(s, start) {
            None => {
                let (a, b) = trim_range_exec(s, start, n);
                if a < b {
                    r.push((a, b));
                }
                proof {
                    let piece = keep_range(trim_range(s@, start as int, n as int));
                    assert(done + columns_from(s@, start as int) == done + piece);
                    done = done + piece;
                    assert(columns_from(s@, n as int) =~= Seq::<(int, int)>::empty());
                    assert(done + columns_from(s@, n as int) =~= done);
                }
                start = n;
                break;
            },
            Some(g) => {
                proof {
                    lemma_next_gap_props(s@, start as int);
                }
                let e = space_run_end_exec(s, g);
                let (a, b) = trim_range_exec(s, start, g);
                if a < b {
                    r.push((a, b));
                }
                proof {
                    lemma_space_run_end(s@, g as int);
                    let piece = keep_range(trim_range(s@, start as int, g as int));
                    assert(columns_from(s@, start as int) == piece + columns_from(s@, e as int));
                    assert(done + columns_from(s@, start as int) =~= (done + piece) + columns_from(
                        s@,
                        e as int,
                    ));
                    done = done + piece;
                }
                start = e;
            },
        }
    }
    proof {
        assert(columns_from(s@, n as int) =~= Seq::<(int, int)>::empty());
        assert(done + columns_from(s@, start as int) =~= done);
    }
    r
}

proof fn lemma_next_gap_first(s: Seq<char>, i: int)
    requires
        0 <= i,
    ensures
        next_gap(s, i) matches Some(g) ==> forall|k: int| i <= k < g ==> !gap_at(s, k),
        next_gap(s, i) is None ==> forall|k: int| i <= k ==> !gap_at(s, k),
    decreases s.len() - i,
{
    if 0 <= i < s.len() && !gap_at(s, i) {
        lemma_next_gap_first(s, i + 1);
    }
}

proof fn lemma_no_gap_none(p: Seq<char>, i: int)
    requires
        0 <= i,
        forall|k: int| i <= k ==> !gap_at(p, k),
    ensures
        next_gap(p, i) is None,
    decreases p.len() - i,
{
    if 0 <= i < p.len() {
        lemma_no_gap_none(p, i + 1);
    }
}

proof fn lemma_space_run_end_sub(s: Seq<char>, a: int, b: int, j: int)
    requires
        0 <= a <= b <= s.len(),
        0 <= j <= b - a,
        space_run_end(s.subrange(a, b), j) < b - a,
    ensures
        space_run_end(s, a + j) == a + space_run_end(s.subrange(a, b), j),
    decreases b - a - j,
{
    let p = s.subrange(a, b);
    if j < p.len() && p[j] == ' ' {
        lemma_space_run_end_sub(s, a, b, j + 1);
    }
}

/// The column ranges of `s[start..]` lie inside `s`, start and end on
/// non-whitespace, and hold no column gap of `s`.
proof fn lemma_columns_from_clean(s: Seq<char>, start: int)
    requires
        0 <= start <= s.len(),
    ensures
        forall|k: int|
            0 <= k < columns_from(s, start).len() ==> {
                let r = #[trigger] columns_from(s, start)[k];
                &&& start <= r.0 < r.1 <= s.len()
                &&& !crate::text::is_ws(s[r.0])
                &&& !crate::text::is_ws(s[r.1 - 1])
                &&& forall|i: int| r.0 <= i < r.1 ==> !gap_at(s, i)
            },
    decreases s.len() - start,
{
    lemma_next_gap_first(s, start);
    match next_gap(s, start) {
        None => {
            let tr = trim_range(s, start, s.len() as int);
            crate::text::lemma_skip_ws_bounds(s, start, s.len() as int);
            crate::text::lemma_back_ws_bounds(s, tr.0, s.len() as int);
        },
        Some(g) => {
            lemma_next_gap_props(s, start);
            let e = space_run_end(s, g);
            lemma_space_run_end(s, g);
            if !(g < start || e <= start || e > s.len()) {
                let tr = trim_range(s, start, g);
                crate::text::lemma_skip_ws_bounds(s, start, g);
                crate::text::lemma_back_ws_bounds(s, tr.0, g);
                lemma_columns_from_clean(s, e);
                let head = keep_range(tr);
                let rest = columns_from(s, e);
                assert(columns_from(s, start) == head + rest);
                assert forall|k: int| 0 <= k < columns_from(s, start).len() implies {
                    let r = #[trigger] columns_from(s, start)[k];
                    &&& start <= r.0 < r.1 <= s.len()
                    &&& !crate::text::is_ws(s[r.0])
                    &&& !crate::text::is_ws(s[r.1 - 1])
                    &&& forall|i: int| r.0 <= i < r.1 ==> !gap_at(s, i)
                } by {
                    if k >= head.len() {
                        assert(columns_from(s, start)[k] == rest[k - head.len()]);
                    }
                }
            }
        },
    }
}

/// Every column is non-empty, has no leading or trailing whitespace, and holds
/// no column gap of its own.
pub proof fn lemma_columns_clean(s: Seq<char>)
    ensures
        forall|k: int|
            0 <= k < columns(s).len() ==> {
                let c = #[trigger] columns(s)[k];
                &&& c.len() > 0
                &&& crate::text::trim(c) == c
                &&& column_gap(c) is None
            },
{
    lemma_columns_from_clean(s, 0);
    assert forall|k: int| 0 <= k < columns(s).len() implies {
        let c = #[trigger] columns(s)[k];
        &&& c.len() > 0
        &&& crate::text::trim(c) == c
        &&& column_gap(c) is None
    } by {
        let r = columns_from(s, 0)[k];
        let c = s.subrange(r.0, r.1);
        assert(columns(s)[k] == c);
        let n = c.len() as int;
        assert(c[0] == s[r.0]);
        assert(c[n - 1] == s[r.1 - 1]);
        assert(crate::text::skip_ws(c, 0, n) == 0);
        assert(crate::text::back_ws(c, 0, n) == n);
        assert(c.subrange(0, n) =~= c);
        assert forall|j: int| 0 <= j implies !gap_at(c, j) by {
            if gap_at(c, j) {
                assert(c[j] == ' ');
                assert(j != 0);
                assert(c[j - 1] != ' ');
                lemma_space_run_end(c, j);
                if space_run_end(c, j) == n {
                    assert(c[n - 1] == ' ');
                    assert(!crate::text::is_ws(c[n - 1]));
                }
                lemma_space_run_end_sub(s, r.0, r.1, j);
                assert(s[r.0 + j] == c[j]);
                assert(s[r.0 + j - 1] == c[j - 1]);
                assert(gap_at(s, r.0 + j));
            }
        }
        lemma_no_gap_none(c, 0);
    }
}

/// The characters of `s` that are not whitespace, in order.
pub open spec fn solid_chars(s: Seq<char>) -> Seq<char> {
    s.filter(|c: char| !crate::text::is_ws(c))
}

proof fn lemma_solid_cat(a: Seq<char>, b: Seq<char>)
    ensures
        solid_chars(a + b) == solid_chars(a) + solid_chars(b),
{
    Seq::filter_distributes_over_add(a, b, |c: char| !crate::text::is_ws(c));
}

proof fn lemma_solid_blank(a: Seq<char>)
    requires
        forall|k: int| 0 <= k < a.len() ==> crate::text::is_ws(#[trigger] a[k]),
    ensures
        solid_chars(a) == Seq::<char>::empty(),
{
    let pred = |c: char| !crate::text::is_ws(c);
    assert(a.all(|x: char| !pred(x)));
    a.lemma_all_neg_filter_empty(pred);
    assert(solid_chars(a) =~= Seq::<char>::empty());
}

/// Trimming keeps the characters that are not whitespace.
proof fn lemma_solid_trim(s: Seq<char>, lo: int, hi: int)
    requires
        0 <= lo <= hi <= s.len(),
    ensures
        solid_chars(s.subrange(lo, hi)) == solid_chars(
            s.subrange(trim_range(s, lo, hi).0, trim_range(s, lo, hi).1),
        ),
{
    let a = trim_range(s, lo, hi).0;
    let b = trim_range(s, lo, hi).1;
    crate::text::lemma_skip_ws_bounds(s, lo, hi);
    crate::text::lemma_back_ws_bounds(s, a, hi);
    assert(s.subrange(lo, hi) =~= s.subrange(lo, a) + s.subrange(a, b) + s.subrange(b, hi));
    lemma_solid_cat(s.subrange(lo, a) + s.subrange(a, b), s.subrange(b, hi));
    lemma_solid_cat(s.subrange(lo, a), s.subrange(a, b));
    lemma_solid_blank(s.subrange(lo, a));
    lemma_solid_blank(s.subrange(b, hi));
    assert(solid_chars(s.subrange(a, b)) + Seq::<char>::empty() =~= solid_chars(s.subrange(a, b)));
    assert(Seq::<char>::empty() + solid_chars(s.subrange(a, b)) =~= solid_chars(s.subrange(a, b)));
}

/// The column texts of `s[start..]`.
pub open spec fn column_texts(s: Seq<char>, start: int) -> Seq<Seq<char>> {
    columns_from(s, start).map_values(|r: (int, int)| s.subrange(r.0, r.1))
}

proof fn lemma_columns_from_solid(s: Seq<char>, start: int)
    requires
        0 <= start <= s.len(),
    ensures
        solid_chars(column_texts(s, start).flatten()) == solid_chars(
            s.subrange(start, s.len() as int),
        ),
    decreases s.len() - start,
{
    let n = s.len() as int;
    lemma_next_gap_first(s, start);
    match next_gap(s, start) {
        None => {
            let tr = trim_range(s, start, n);
            lemma_solid_trim(s, start, n);
            crate::text::lemma_skip_ws_bounds(s, start, n);
            crate::text::lemma_back_ws_bounds(s, tr.0, n);
            if tr.0 < tr.1 {
                assert(column_texts(s, start) =~= seq![s.subrange(tr.0, tr.1)]);
                column_texts(s, start).lemma_flatten_one_element();
            } else {
                assert(column_texts(s, start) =~= Seq::<Seq<char>>::empty());
                assert(s.subrange(tr.0, tr.1) =~= Seq::<char>::empty());
                lemma_solid_blank(Seq::<char>::empty());
            }
        },
        Some(g) => {
            lemma_next_gap_props(s, start);
            let e = space_run_end(s, g);
            lemma_space_run_end(s, g);
            let tr = trim_range(s, start, g);
            crate::text::lemma_skip_ws_bounds(s, start, g);
            crate::text::lemma_back_ws_bounds(s, tr.0, g);
            lemma_columns_from_solid(s, e);
            let head = keep_range(tr);
            let rest = columns_from(s, e);
            assert(columns_from(s, start) == head + rest);
            let f = |r: (int, int)| s.subrange(r.0, r.1);
            assert(column_texts(s, start) =~= head.map_values(f) + column_texts(s, e));
            vstd::seq_lib::lemma_flatten_concat(head.map_values(f), column_texts(s, e));
            let hs = s.subrange(tr.0, tr.1);
            if tr.0 < tr.1 {
                assert(head.map_values(f) =~= seq![hs]);
                head.map_values(f).lemma_flatten_one_element();
            } else {
                assert(head.map_values(f) =~= Seq::<Seq<char>>::empty());
                assert(hs =~= Seq::<char>::empty());
                assert(head.map_values(f).flatten() =~= hs);
            }
            lemma_solid_cat(hs, column_texts(s, e).flatten());
            lemma_solid_trim(s, start, g);
            assert(s.subrange(start, n) =~= s.subrange(start, g) + s.subrange(g, e) + s.subrange(e, n));
            lemma_solid_cat(s.subrange(start, g) + s.subrange(g, e), s.subrange(e, n));
            lemma_solid_cat(s.subrange(start, g), s.subrange(g, e));
            assert forall|k: int| 0 <= k < s.subrange(g, e).len() implies crate::text::is_ws(
                #[trigger] s.subrange(g, e)[k],
            ) by {
                assert(s[g + k] == ' ');
            }
            lemma_solid_blank(s.subrange(g, e));
            assert(solid_chars(s.subrange(start, g)) + Seq::<char>::empty() =~= solid_chars(
                s.subrange(start, g),
            ));
        },
    }
}

/// Splitting on column gaps keeps every character that is not whitespace, in
/// order: the columns, put back together, hold the same non-whitespace
/// characters as the text.
pub proof fn lemma_columns_keep_text(s: Seq<char>)
    ensures
        solid_chars(columns(s).flatten()) == solid_chars(s),
{
    lemma_columns_from_solid(s, 0);
    assert(columns(s) == column_texts(s, 0));
    assert(s.subrange(0, s.len() as int) =~= s);
}

/// Text with no column gap is a single column: the trimmed text, or nothing
/// when the text is blank.
pub proof fn lemma_single_column(s: Seq<char>)
    requires
        column_gap(s) is None,
    ensures
        columns(s) == (if crate::text::trim(s).len() == 0 {
            Seq::<Seq<char>>::empty()
        } else {
            seq![crate::text::trim(s)]
        }),
{
    let tr = trim_range(s, 0, s.len() as int);
    crate::text::lemma_skip_ws_bounds(s, 0, s.len() as int);
    crate::text::lemma_back_ws_bounds(s, tr.0, s.len() as int);
    assert(columns_from(s, 0) == keep_range(tr));
    if tr.0 < tr.1 {
        assert(columns(s) =~= seq![crate::text::trim(s)]);
    } else {
        assert(columns(s) =~= Seq::<Seq<char>>::empty());
    }
}

/// Three spaces.
pub open spec fn three_spaces() -> Seq<char> {
    seq![' ', ' ', ' ']
}

proof fn lemma_run_reaches(s: Seq<char>, r: int, m: int)
    requires
        0 <= r <= m <= s.len(),
        forall|k: int| r <= k < m ==> #[trigger] s[k] == ' ',
    ensures
        space_run_end(s, r) >= m,
    decreases m - r,
{
    if r < m {
        assert(s[r] == ' ');
        lemma_run_reaches(s, r + 1, m);
        assert(space_run_end(s, r) == space_run_end(s, r + 1));
    } else {
        lemma_space_run_end(s, r);
    }
}

/// The start of the run of spaces that ends just before `j`.
spec fn run_start(s: Seq<char>, j: int) -> int
    decreases j,
{
    if j > 0 && j <= s.len() && s[j - 1] == ' ' {
        run_start(s, j - 1)
    } else {
        j
    }
}

proof fn lemma_run_start(s: Seq<char>, j: int)
    requires
        0 <= j <= s.len(),
    ensures
        0 <= run_start(s, j) <= j,
        run_start(s, j) > 0 ==> s[run_start(s, j) - 1] != ' ',
        forall|k: int| run_start(s, j) <= k < j ==> #[trigger] s[k] == ' ',
    decreases j,
{
    if j > 0 && s[j - 1] == ' ' {
        lemma_run_start(s, j - 1);
    }
}

/// Three spaces at `j` lie in a column gap that starts at or before `j`.
proof fn lemma_three_spaces_in_gap(s: Seq<char>, j: int)
    requires
        occurs_at(s, j, three_spaces()),
    ensures
        gap_at(s, run_start(s, j)),
        run_start(s, j) <= j,
{
    assert(s.subrange(j, j + 3) == three_spaces());
    assert(s[j] == ' ' && s[j + 1] == ' ' && s[j + 2] == ' ') by {
        assert(s.subrange(j, j + 3)[0] == s[j]);
        assert(s.subrange(j, j + 3)[1] == s[j + 1]);
        assert(s.subrange(j, j + 3)[2] == s[j + 2]);
    }
    lemma_run_start(s, j);
    let r = run_start(s, j);
    assert forall|k: int| r <= k < j + 3 implies #[trigger] s[k] == ' ' by {
        if k >= j {
            assert(k == j || k == j + 1 || k == j + 2);
        }
    }
    lemma_run_reaches(s, r, j + 3);
}

/// A column gap starts with three spaces.
proof fn lemma_gap_three_spaces(s: Seq<char>, g: int)
    requires
        gap_at(s, g),
    ensures
        occurs_at(s, g, three_spaces()),
{
    lemma_space_run_end(s, g);
    assert(s.subrange(g, g + 3) =~= three_spaces()) by {
        assert(s[g] == ' ' && s[g + 1] == ' ' && s[g + 2] == ' ');
    }
}

/// The first column gap is where three spaces first occur.
pub proof fn lemma_column_gap_is_first_three_spaces(s: Seq<char>)
    ensures
        column_gap(s) == find(s, three_spaces()),
{
    lemma_next_gap_first(s, 0);
    lemma_next_gap_props(s, 0);
    crate::text::lemma_find_from_props(s, three_spaces(), 0);
    match column_gap(s) {
        Some(g) => {
            lemma_gap_three_spaces(s, g);
            match find(s, three_spaces()) {
                Some(p) => {
                    if p < g {
                        lemma_three_spaces_in_gap(s, p);
                    }
                },
                None => {},
            }
        },
        None => {
            match find(s, three_spaces()) {
                Some(p) => {
                    lemma_three_spaces_in_gap(s, p);
                },
                None => {},
            }
        },
    }
}

/// Splits text on 3+ consecutive spaces, returning the non-empty trimmed parts.
pub fn split_on_column_gap(text: &str) -> (parts: Vec<String>)
    ensures
        parts@.len() == columns(text@).len(),
        forall|k: int| 0 <= k < parts@.len() ==> (#[trigger] parts@[k])@ == columns(text@)[k],
{
    let cs = to_chars(text);
    let ranges = column_ranges(cs.as_slice());
    let mut parts: Vec<String> = Vec::new();
    let mut k: usize = 0;
    while k < ranges.len()
        invariant
            k <= ranges@.len(),
            cs@ == text@,
            ranges@.len() == columns_from(cs@, 0).len(),
            forall|j: int|
                0 <= j < ranges@.len() ==> (#[trigger] ranges@[j]).0 == columns_from(cs@, 0)[j].0
                    && ranges@[j].1 == columns_from(cs@, 0)[j].1,
            forall|j: int| 0 <= j < ranges@.len() ==> (#[trigger] ranges@[j]).0 < ranges@[j].1 <= cs@.len(),
            parts@.len() == k,
            forall|j: int| 0 <= j < k ==> (#[trigger] parts@[j])@ == columns(text@)[j],
        decreases ranges@.len() - k,
    {
        let (a, b) = ranges[k];
        let p = string_of_range(cs.as_slice(), a, b);
        parts.push(p);
        k = k + 1;
    }
    parts
}

/// `s` has the `XX.XX.XX` kecamatan code shape.
pub open spec fn kecamatan_code_shape(s: Seq<char>) -> bool {
    &&& s.len() == 8
    &&& s[2] == '.'
    &&& s[5] == '.'
    &&& is_digit(s[0]) && is_digit(s[1]) && is_digit(s[3])
    &&& is_digit(s[4]) && is_digit(s[6]) && is_digit(s[7])
}

pub fn kecamatan_code_shape_exec(s: &[char]) -> (b: bool)
    ensures
        b == kecamatan_code_shape(s@),
{
    s.len() == 8 && s[2] == '.' && s[5] == '.' && crate::text::char_is_digit(s[0])
        && crate::text::char_is_digit(s[1]) && crate::text::char_is_digit(s[3])
        && crate::text::char_is_digit(s[4]) && crate::text::char_is_digit(s[6])
        && crate::text::char_is_digit(s[7])
}

/// Checks whether a string matches the `XX.XX.XX` kecamatan code pattern.
pub fn is_kecamatan_code(s: &str) -> (b: bool)
    ensures
        b == kecamatan_code_shape(s@),
{
    let cs = to_chars(s);
    kecamatan_code_shape_exec(cs.as_slice())
}

} // verus!
