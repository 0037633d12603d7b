//! Village lines: the village name, its annotation text and note metadata.
use vstd::prelude::*;

use crate::builder::columns::{column_gap, next_gap_exec};
use crate::builder::district::opt_view;
use crate::builder::notes::{
    find_note_boundary, note_boundary_unicode, NoteMatch,
};
use crate::text::{
    char_is_digit, char_is_ws, copy_range, is_digit, is_ws, join, join_chars, lower, lower_chars,
    newline_from, newline_from_exec, push_all, skip_ws, skip_ws_exec, string_of_chars, to_chars,
    trim, trim_range, trim_range_exec, utf8_len, utf8_len_range, views, words_exec, words_from,
    byte_offset, chars_within, chars_within_exec, is_ascii_text, is_ascii_upper, is_byte_boundary,
};
use crate::unicode::{
    char_is_numeric, char_is_uppercase, char_to_uppercase, str_to_lowercase, unicode_is_numeric,
    unicode_is_uppercase, unicode_lower, unicode_upper,
};

verus! {

/// Maximum number of words in an extracted village name.
pub const MAX_NAME_WORDS: usize = 5;

/// Minimum leading whitespace (in bytes) of a continuation line of annotation text.
pub const KETERANGAN_CONTINUATION_INDENT: usize = 20;

/// Minimum length (in characters) of the last word for a trailing period to be dropped.
pub const MIN_WORD_LEN_FOR_PERIOD_STRIP: usize = 4;

/// Longest name text taken after the row number of a village line.
pub const NAME_CAPTURE_MAX: usize = 120;

// ---------------------------------------------------------------------------
// Continuation lines
// ---------------------------------------------------------------------------
/// A continuation line of annotation text: indented by at least 20 bytes of
/// whitespace, not a page break, not starting with a digit; its trimmed content.
pub open spec fn continuation(line: Seq<char>) -> Option<Seq<char>> {
    let te = crate::text::back_ws(line, 0, line.len() as int);
    let lead = skip_ws(line, 0, line.len() as int);
    let cs = skip_ws(line, 0, te);
    if te == 0 {
        None
    } else if line[0] == '\x0c' {
        None
    } else if utf8_len(line.subrange(0, lead)) < KETERANGAN_CONTINUATION_INDENT {
        None
    } else if cs >= te {
        None
    } else if is_digit(line[cs]) {
        None
    } else {
        Some(line.subrange(cs, te))
    }
}

pub fn continuation_chars(line: &[char]) -> (r: Option<Vec<char>>)
    ensures
        match continuation(line@) {
            Some(c) => r matches Some(x) && x@ == c,
            None => r is None,
        },
{
    let n = line.len();
    let te = crate::text::back_ws_exec(line, 0, n);
    if te == 0 {
        return None;
    }
    if line[0] == '\x0c' {
        return None;
    }
    let lead = skip_ws_exec(line, 0, n);
    let lead_bytes = utf8_len_range(line, 0, lead, KETERANGAN_CONTINUATION_INDENT);
    if lead_bytes < KETERANGAN_CONTINUATION_INDENT {
        return None;
    }
    let cs = skip_ws_exec(line, 0, te);
    if cs >= te {
        return None;
    }
    if char_is_digit(line[cs]) {
        return None;
    }
    Some(copy_range(line, cs, te))
}

/// Detects a continuation line of annotation text and returns its content.
pub fn is_keterangan_continuation(line: &str) -> (r: Option<String>)
    ensures
        match continuation(line@) {
            Some(c) => r matches Some(x) && x@ == c,
            None => r is None,
        },
{
    let cs = to_chars(line);
    match continuation_chars(cs.as_slice()) {
        Some(x) => Some(string_of_chars(x.as_slice())),
        None => None,
    }
}

// ---------------------------------------------------------------------------
// The name after the code
// ---------------------------------------------------------------------------
/// The end of the run of ASCII digits that starts at `i`.
pub open spec fn digit_end(s: Seq<char>, i: int) -> int
    decreases s.len() - i,
{
    if 0 <= i < s.len() && is_digit(s[i]) {
        digit_end(s, i + 1)
    } else {
        i
    }
}

pub proof fn lemma_digit_end(s: Seq<char>, i: int)
    requires
        0 <= i <= s.len(),
    ensures
        i <= digit_end(s, i) <= s.len(),
        forall|k: int| i <= k < digit_end(s, i) ==> is_digit(#[trigger] s[k]),
        digit_end(s, i) < s.len() ==> !is_digit(s[digit_end(s, i)]),
    decreases s.len() - i,
{
    if 0 <= i < s.len() && is_digit(s[i]) {
        lemma_digit_end(s, i + 1);
    }
}

pub fn digit_end_exec(s: &[char], i: usize) -> (r: usize)
    requires
        i <= s@.len(),
    ensures
        r as int == digit_end(s@, i as int),
        i <= r <= s@.len(),
{
    proof {
        lemma_digit_end(s@, i as int);
    }
    let mut k = i;
    while k < s.len() && char_is_digit(s[k])
        invariant
            i <= k <= s@.len(),
            digit_end(s@, k as int) == digit_end(s@, i as int),
        decreases s@.len() - k,
    {
        k = k + 1;
    }
    k
}

/// At `p` starts whitespace, then one to three digits (the row number), then whitespace.
pub open spec fn row_number_at(s: Seq<char>, p: int) -> bool {
    &&& 0 <= p < s.len()
    &&& is_ws(s[p])
    &&& {
        let a = skip_ws(s, p, s.len() as int);
        let e = digit_end(s, a);
        &&& 1 <= e - a <= 3
        &&& e < s.len()
        &&& is_ws(s[e])
    }
}

/// The first position at or after `p` where a row number starts.
pub open spec fn first_row_number(s: Seq<char>, p: int) -> Option<int>
    decreases s.len() - p,
{
    if p < 0 || p >= s.len() {
        None
    } else if row_number_at(s, p) {
        Some(p)
    } else {
        first_row_number(s, p + 1)
    }
}

/// The name text after the row number: it starts at the first non-whitespace
/// character and runs for at most 120 characters, up to a line feed. `None` when
/// no row number is found or nothing but whitespace follows it.
pub open spec fn name_capture(s: Seq<char>) -> Option<Seq<char>> {
    match first_row_number(s, 0) {
        Some(p) => {
            let a = skip_ws(s, p, s.len() as int);
            let e = digit_end(s, a);
            let b = skip_ws(s, e, s.len() as int);
            let nl = newline_from(s, b);
            if b < s.len() {
                Some(
                    s.subrange(
                        b,
                        if b + NAME_CAPTURE_MAX < nl {
                            b + NAME_CAPTURE_MAX
                        } else {
                            nl
                        },
                    ),
                )
            } else {
                None
            }
        },
        None => None,
    }
}

fn row_number_at_exec(s: &[char], p: usize) -> (b: bool)
    requires
        p < s@.len(),
    ensures
        b == row_number_at(s@, p as int),
{
    if !char_is_ws(s[p]) {
        return false;
    }
    let a = skip_ws_exec(s, p, s.len());
    let e = digit_end_exec(s, a);
    e - a >= 1 && e - a <= 3 && e < s.len() && char_is_ws(s[e])
}

/// The name text after the row number, as a range.
pub fn name_capture_range(s: &[char]) -> (r: Option<(usize, usize)>)
    ensures
        match name_capture(s@) {
            Some(c) => r matches Some(x) && x.0 <= x.1 <= s@.len() && s@.subrange(
                x.0 as int,
                x.1 as int,
            ) == c,
            None => r is None,
        },
{
    let n = s.len();
    let mut p: usize = 0;
    while p < n
        invariant
            p <= n,
            n == s@.len(),
            first_row_number(s@, p as int) == first_row_number(s@, 0),
        decreases n - p,
    {
        if row_number_at_exec(s, p) {
            let a = skip_ws_exec(s, p, n);
            let e = digit_end_exec(s, a);
            let b = skip_ws_exec(s, e, n);
            if b < n {
                let nl = newline_from_exec(s, b);
                let end = if NAME_CAPTURE_MAX < nl - b {
                    b + NAME_CAPTURE_MAX
                } else {
                    nl
                };
                return Some((b, end));
            } else {
                return None;
            }
        }
        p = p + 1;
    }
    None
}

/// Which cut to apply: the note keyword position or the column gap, whichever
/// comes first; the cleaned name and the annotation text after it.
pub open spec fn resolve(raw: Seq<char>, note_pos: Option<int>, gap_pos: Option<int>) -> Option<
    (Seq<char>, Option<Seq<char>>),
> {
    match gap_pos {
        Some(gp) => {
            let keyword_first = match note_pos {
                Some(kp) => kp < gp,
                None => false,
            };
            if keyword_first {
                let kp = note_pos->0;
                let c = trim(raw.subrange(0, kp));
                if c.len() == 0 {
                    None
                } else {
                    Some((c, Some(trim(raw.subrange(kp, raw.len() as int)))))
                }
            } else {
                let c = trim(raw.subrange(0, gp));
                let tail = trim(raw.subrange(gp, raw.len() as int));
                if c.len() == 0 {
                    None
                } else {
                    Some(
                        (
                            c,
                            if tail.len() == 0 {
                                None
                            } else {
                                Some(tail)
                            },
                        ),
                    )
                }
            }
        },
        None => match note_pos {
            Some(kp) => {
                let c = trim(raw.subrange(0, kp));
                if c.len() == 0 {
                    None
                } else {
                    Some((c, Some(trim(raw.subrange(kp, raw.len() as int)))))
                }
            },
            None => Some((raw, None)),
        },
    }
}

fn trimmed_copy(s: &[char], lo: usize, hi: usize) -> (r: Vec<char>)
    requires
        lo <= hi <= s@.len(),
    ensures
        r@ == trim(s@.subrange(lo as int, hi as int)),
{
    proof {
        crate::builder::district::lemma_trim_sub(s@, lo as int, hi as int);
    }
    let (a, b) = trim_range_exec(s, lo, hi);
    copy_range(s, a, b)
}

/// Resolves the cleaned name and optional annotation text by choosing the cutoff
/// between a column gap and a note keyword, whichever comes first.
pub fn resolve_name_and_keterangan(
    raw: &[char],
    note_pos: Option<usize>,
    gap_pos: Option<usize>,
) -> (r: Option<(Vec<char>, Option<Vec<char>>)>)
    requires
        note_pos matches Some(p) ==> p <= raw@.len(),
        gap_pos matches Some(g) ==> g <= raw@.len(),
    ensures
        match resolve(
            raw@,
            match note_pos {
                Some(p) => Some(p as int),
                None => None,
            },
            match gap_pos {
                Some(g) => Some(g as int),
                None => None,
            },
        ) {
            Some(x) => r matches Some(y) && y.0@ == x.0 && opt_vec_view(y.1) == x.1,
            None => r is None,
        },
{
    let n = raw.len();
    match gap_pos {
        Some(gp) => {
            let keyword_first = match note_pos {
                Some(kp) => kp < gp,
                None => false,
            };
            if keyword_first {
                let kp = match note_pos {
                    Some(k) => k,
                    None => 0,
                };
                let c = trimmed_copy(raw, 0, kp);
                if c.len() == 0 {
                    return None;
                }
                Some((c, Some(trimmed_copy(raw, kp, n))))
            } else {
                let c = trimmed_copy(raw, 0, gp);
                if c.len() == 0 {
                    return None;
                }
                let tail = trimmed_copy(raw, gp, n);
                if tail.len() == 0 {
                    Some((c, None))
                } else {
                    Some((c, Some(tail)))
                }
            }
        },
        None => match note_pos {
            Some(kp) => {
                let c = trimmed_copy(raw, 0, kp);
                if c.len() == 0 {
                    return None;
                }
                Some((c, Some(trimmed_copy(raw, kp, n))))
            },
            None => {
                let all = copy_range(raw, 0, n);
                proof {
                    assert(raw@.subrange(0, n as int) =~= raw@);
                }
                Some((all, None))
            },
        },
    }
}

pub open spec fn opt_vec_view(o: Option<Vec<char>>) -> Option<Seq<char>> {
    match o {
        Some(v) => Some(v@),
        None => None,
    }
}

// ---------------------------------------------------------------------------
// Cleaning the name
// ---------------------------------------------------------------------------
/// The words of `s`.
pub open spec fn words(s: Seq<char>) -> Seq<Seq<char>> {
    words_from(s, 0, s.len() as int).map_values(|r: (int, int)| s.subrange(r.0, r.1))
}

/// The first `n` words of `s`, joined by single spaces.
pub open spec fn first_words(s: Seq<char>, n: int) -> Seq<char> {
    let w = words(s);
    join(
        if w.len() > n {
            w.take(n)
        } else {
            w
        },
        seq![' '],
    )
}

pub proof fn lemma_words_from_bounds(s: Seq<char>, i: int, hi: int)
    requires
        0 <= i <= hi <= s.len(),
    ensures
        forall|k: int|
            0 <= k < words_from(s, i, hi).len() ==> i <= (#[trigger] words_from(s, i, hi)[k]).0
                <= words_from(s, i, hi)[k].1 <= hi,
    decreases hi - i,
{
    let a = skip_ws(s, i, hi);
    crate::text::lemma_skip_ws_bounds(s, i, hi);
    if i < hi && a < hi {
        let b = crate::text::word_end(s, a, hi);
        crate::text::lemma_word_end_bounds(s, a, hi);
        if b > i && b <= hi {
            lemma_words_from_bounds(s, b, hi);
            let w = words_from(s, i, hi);
            assert forall|k: int| 0 <= k < w.len() implies i <= (#[trigger] w[k]).0 <= w[k].1
                <= hi by {
                if k > 0 {
                    assert(w[k] == words_from(s, b, hi)[k - 1]);
                }
            }
        }
    }
}

/// The first `n` words of `s`, joined by single spaces.
pub fn first_words_chars(s: &[char], n: usize) -> (r: Vec<char>)
    ensures
        r@ == first_words(s@, n as int),
{
    let ranges = words_exec(s, 0, s.len());
    proof {
        lemma_words_from_bounds(s@, 0, s@.len() as int);
    }
    let ghost ws = words(s@);
    let mut parts: Vec<Vec<char>> = Vec::new();
    let mut i: usize = 0;
    let lim = if ranges.len() > n {
        n
    } else {
        ranges.len()
    };
    while i < lim
        invariant
            i <= lim <= ranges@.len(),
            ws == words(s@),
            ranges@.len() == words_from(s@, 0, s@.len() as int).len(),
            forall|k: int|
                0 <= k < ranges@.len() ==> (#[trigger] ranges@[k]).0 == words_from(
                    s@,
                    0,
                    s@.len() as int,
                )[k].0 && ranges@[k].1 == words_from(s@, 0, s@.len() as int)[k].1,
            forall|k: int|
                0 <= k < words_from(s@, 0, s@.len() as int).len() ==> 0 <= (
                #[trigger] words_from(s@, 0, s@.len() as int)[k]).0 <= words_from(
                    s@,
                    0,
                    s@.len() as int,
                )[k].1 <= s@.len(),
            parts@.len() == i,
            forall|k: int| 0 <= k < i ==> (#[trigger] parts@[k])@ == ws[k],
        decreases lim - i,
    {
        let (a, b) = ranges[i];
        parts.push(copy_range(s, a, b));
        i = i + 1;
    }
    let sep: Vec<char> = vec![' '];
    proof {
        assert(sep@ =~= seq![' ']);
        let w = words(s@);
        let chosen = if w.len() > n as int {
            w.take(n as int)
        } else {
            w
        };
        assert(views(parts@) =~= chosen);
    }
    join_chars(parts.as_slice(), sep.as_slice())
}

/// The words of `s` (`str::split_whitespace`).
pub fn word_list(s: &[char]) -> (r: Vec<Vec<char>>)
    ensures
        views(r@) == words(s@),
{
    let ranges = words_exec(s, 0, s.len());
    proof {
        lemma_words_from_bounds(s@, 0, s@.len() as int);
    }
    let ghost ws = words(s@);
    let mut parts: Vec<Vec<char>> = Vec::new();
    let mut i: usize = 0;
    while i < ranges.len()
        invariant
            i <= ranges@.len(),
            ws == words(s@),
            ranges@.len() == words_from(s@, 0, s@.len() as int).len(),
            forall|k: int|
                0 <= k < ranges@.len() ==> (#[trigger] ranges@[k]).0 == words_from(
                    s@,
                    0,
                    s@.len() as int,
                )[k].0 && ranges@[k].1 == words_from(s@, 0, s@.len() as int)[k].1,
            forall|k: int|
                0 <= k < words_from(s@, 0, s@.len() as int).len() ==> 0 <= (
                #[trigger] words_from(s@, 0, s@.len() as int)[k]).0 <= words_from(
                    s@,
                    0,
                    s@.len() as int,
                )[k].1 <= s@.len(),
            parts@.len() == i,
            forall|k: int| 0 <= k < i ==> (#[trigger] parts@[k])@ == ws[k],
        decreases ranges@.len() - i,
    {
        let (a, b) = ranges[i];
        parts.push(copy_range(s, a, b));
        i = i + 1;
    }
    proof {
        assert(views(parts@) =~= words(s@));
    }
    parts
}

/// A word: nonempty, with no whitespace.
pub open spec fn solid(w: Seq<char>) -> bool {
    w.len() > 0 && forall|j: int| 0 <= j < w.len() ==> !is_ws(#[trigger] w[j])
}

/// Words joined by single spaces split back into the same words.
proof fn lemma_words_of_join(parts: Seq<Seq<char>>)
    requires
        forall|k: int| 0 <= k < parts.len() ==> solid(#[trigger] parts[k]),
    ensures
        words(join(parts, seq![' '])) == parts,
    decreases parts.len(),
{
    let sep = seq![' '];
    let t = join(parts, sep);
    if parts.len() == 0 {
        assert(words(t) =~= parts);
    } else {
        let p0 = parts[0];
        let l0 = p0.len() as int;
        assert(solid(p0));
        if parts.len() == 1 {
            assert(t == p0);
        } else {
            crate::text::lemma_join_front(parts, sep);
            assert(t == p0 + sep + join(parts.drop_first(), sep));
        }
        let hi = t.len() as int;
        assert forall|k: int| 0 <= k < l0 implies t[k] == p0[k] by {}
        assert(!is_ws(t[0]));
        crate::text::lemma_word_end_bounds(t, 0, hi);
        let b = crate::text::word_end(t, 0, hi);
        if b < l0 {
            assert(!is_ws(t[b]));
        }
        if parts.len() > 1 {
            assert(t[l0] == ' ');
            if b > l0 {
                assert(!is_ws(t[l0]));
            }
        }
        assert(b == l0);
        assert(skip_ws(t, 0, hi) == 0);
        assert(words_from(t, 0, hi) == seq![(0int, l0)] + words_from(t, l0, hi));
        if parts.len() == 1 {
            assert(words_from(t, l0, hi) =~= Seq::<(int, int)>::empty());
            assert(words_from(t, 0, hi) =~= seq![(0int, l0)]);
            assert(t.subrange(0, l0) =~= p0);
            assert(words(t)[0] == p0);
            assert(words(t) =~= parts);
        } else {
            let rest = parts.drop_first();
            let j = join(rest, sep);
            let x = p0 + sep;
            assert(t =~= x + j);
            crate::text::lemma_words_from_skip(t, l0, hi);
            crate::text::lemma_words_from_cat(x, j, 0);
            assert forall|k: int| 0 <= k < rest.len() implies solid(#[trigger] rest[k]) by {
                assert(rest[k] == parts[k + 1]);
            }
            lemma_words_of_join(rest);
            lemma_words_from_bounds(j, 0, j.len() as int);
            let wj = words_from(j, 0, j.len() as int);
            let wt = words_from(t, 0, hi);
            assert(wt =~= seq![(0int, l0)] + crate::text::shifted(wj, l0 + 1));
            assert(words(j) == rest);
            assert forall|k: int| 0 <= k < parts.len() implies #[trigger] words(t)[k] == parts[k] by {
                if k == 0 {
                    assert(t.subrange(0, l0) =~= p0);
                } else {
                    let r = wj[k - 1];
                    assert(words(j)[k - 1] == j.subrange(r.0, r.1));
                    assert(t.subrange(r.0 + l0 + 1, r.1 + l0 + 1) =~= j.subrange(r.0, r.1));
                }
            }
            assert(wj.len() == words(j).len());
            assert(crate::text::shifted(wj, l0 + 1).len() == wj.len());
            assert(wt.len() == 1 + wj.len());
            assert(words(t).len() == wt.len());
            assert(words(t).len() == parts.len());
            assert(words(t) =~= parts);
        }
    }
}

/// Cutting a text to its first `n` words keeps exactly those words: the result
/// splits into the first `n` words of the text (all of them when there are
/// fewer), so it has at most `n` words.
pub proof fn lemma_first_words_are_the_first(s: Seq<char>, n: int)
    requires
        n >= 0,
    ensures
        words(first_words(s, n)) == (if words(s).len() > n {
            words(s).take(n)
        } else {
            words(s)
        }),
        words(first_words(s, n)).len() <= n,
{
    let w = words(s);
    let hi = s.len() as int;
    crate::text::lemma_words_from_solid(s, 0, hi);
    let r = words_from(s, 0, hi);
    assert forall|k: int| 0 <= k < w.len() implies solid(#[trigger] w[k]) by {
        assert(w[k] == s.subrange(r[k].0, r[k].1));
        assert forall|j: int| 0 <= j < w[k].len() implies !is_ws(#[trigger] w[k][j]) by {
            assert(w[k][j] == s[r[k].0 + j]);
        }
    }
    let chosen = if w.len() > n {
        w.take(n)
    } else {
        w
    };
    assert forall|k: int| 0 <= k < chosen.len() implies solid(#[trigger] chosen[k]) by {
        assert(chosen[k] == w[k]);
    }
    lemma_words_of_join(chosen);
}

/// `strip_trailing_period`: a final `.` is dropped when the word before it is at
/// least four characters long (so abbreviations like "Sei." keep theirs).
pub open spec fn period_stripped(s: Seq<char>) -> Seq<char> {
    if s.len() > 0 && s.last() == '.' {
        let before = s.drop_last();
        let ws = words(before);
        let lw = if ws.len() > 0 {
            ws.last()
        } else {
            Seq::empty()
        };
        if lw.len() >= MIN_WORD_LEN_FOR_PERIOD_STRIP {
            before
        } else {
            s
        }
    } else {
        s
    }
}

fn period_stripped_chars(s: &[char]) -> (r: Vec<char>)
    ensures
        r@ == period_stripped(s@),
{
    let n = s.len();
    if n > 0 && s[n - 1] == '.' {
        let before = copy_range(s, 0, n - 1);
        proof {
            assert(before@ =~= s@.drop_last());
        }
        let ranges = words_exec(before.as_slice(), 0, before.len());
        proof {
            lemma_words_from_bounds(before@, 0, before@.len() as int);
        }
        let lw_len = if ranges.len() > 0 {
            let (a, b) = ranges[ranges.len() - 1];
            b - a
        } else {
            0
        };
        if lw_len >= MIN_WORD_LEN_FOR_PERIOD_STRIP {
            return before;
        }
    }
    copy_range_all(s)
}

fn copy_range_all(s: &[char]) -> (r: Vec<char>)
    ensures
        r@ == s@,
{
    let r = copy_range(s, 0, s.len());
    proof {
        assert(s@.subrange(0, s@.len() as int) =~= s@);
    }
    r
}

/// Removes a trailing period when the word before it is at least four characters long.
pub fn strip_trailing_period(name: &mut String)
    ensures
        final(name)@ == period_stripped(old(name)@),
{
    let cs = to_chars(name.as_str());
    let r = period_stripped_chars(cs.as_slice());
    *name = string_of_chars(r.as_slice());
}

/// The piece of the capitalized text for position `i`: the uppercase mapping of
/// a character that starts a space-separated word, the character otherwise.
pub open spec fn cap_piece(s: Seq<char>, i: int) -> Seq<char> {
    if s[i] != ' ' && (i == 0 || s[i - 1] == ' ') {
        unicode_upper(s[i])
    } else {
        seq![s[i]]
    }
}

/// The capitalized form of `s[..n]`.
pub open spec fn cap_prefix(s: Seq<char>, n: int) -> Seq<char>
    decreases n,
{
    if n <= 0 {
        Seq::empty()
    } else {
        cap_prefix(s, n - 1) + cap_piece(s, n - 1)
    }
}

/// `capitalize_all_lowercase`: a text with no uppercase character gets the first
/// character of each space-separated word uppercased; other texts are unchanged.
pub open spec fn capitalized(s: Seq<char>) -> Seq<char> {
    if s.len() == 0 || exists|i: int| 0 <= i < s.len() && unicode_is_uppercase(#[trigger] s[i]) {
        s
    } else {
        cap_prefix(s, s.len() as int)
    }
}

/// ASCII uppercasing of one character.
pub open spec fn ascii_upper_char(c: char) -> char {
    if 'a' <= c && c <= 'z' {
        ((c as u32) - 32) as char
    } else {
        c
    }
}

/// The character at `i` of the capitalized ASCII text: a word's first character
/// in uppercase, any other character unchanged.
pub open spec fn ascii_cap_char(s: Seq<char>, i: int) -> char {
    if s[i] != ' ' && (i == 0 || s[i - 1] == ' ') {
        ascii_upper_char(s[i])
    } else {
        s[i]
    }
}

/// `capitalize_all_lowercase` on ASCII text: a text with no uppercase letter gets
/// the first letter of each space-separated word uppercased; other texts are
/// unchanged.
pub open spec fn ascii_capitalized(s: Seq<char>) -> Seq<char> {
    if s.len() == 0 || exists|i: int| 0 <= i < s.len() && is_ascii_upper(#[trigger] s[i]) {
        s
    } else {
        Seq::new(s.len(), |i: int| ascii_cap_char(s, i))
    }
}

/// Capitalizing ASCII text gives ASCII text, and capitalizing it again changes
/// nothing.
pub proof fn lemma_capitalize_ascii_idempotent(s: Seq<char>)
    requires
        is_ascii_text(s),
    ensures
        is_ascii_text(ascii_capitalized(s)),
        ascii_capitalized(ascii_capitalized(s)) == ascii_capitalized(s),
{
    let t = ascii_capitalized(s);
    if !(s.len() == 0 || exists|i: int| 0 <= i < s.len() && is_ascii_upper(#[trigger] s[i])) {
        assert forall|i: int| 0 <= i < t.len() implies (#[trigger] t[i] as u32) < 0x80 by {
            assert(t[i] == ascii_cap_char(s, i));
            assert((s[i] as u32) < 0x80);
        }
        if !(exists|i: int| 0 <= i < t.len() && is_ascii_upper(#[trigger] t[i])) {
            assert forall|i: int| 0 <= i < s.len() implies #[trigger] t[i] == s[i] by {
                assert(t[i] == ascii_cap_char(s, i));
                if 'a' <= s[i] && s[i] <= 'z' && s[i] != ' ' && (i == 0 || s[i - 1] == ' ') {
                    assert(is_ascii_upper(t[i]));
                }
            }
            assert(t =~= s);
        }
    }
}

fn capitalized_chars(s: &[char]) -> (r: Vec<char>)
    ensures
        r@ == capitalized(s@),
        is_ascii_text(s@) ==> r@ == ascii_capitalized(s@),
{
    let n = s.len();
    if n == 0 {
        return Vec::new();
    }
    let mut i: usize = 0;
    while i < n
        invariant
            i <= n,
            n == s@.len(),
            forall|j: int| 0 <= j < i ==> !unicode_is_uppercase(#[trigger] s@[j]),
            is_ascii_text(s@) ==> forall|j: int| 0 <= j < i ==> !is_ascii_upper(#[trigger] s@[j]),
        decreases n - i,
    {
        if char_is_uppercase(s[i]) {
            proof {
                if is_ascii_text(s@) {
                    assert((s@[i as int] as u32) < 0x80);
                    assert(is_ascii_upper(s@[i as int]));
                }
            }
            return copy_range_all(s);
        }
        proof {
            if is_ascii_text(s@) {
                assert((s@[i as int] as u32) < 0x80);
            }
        }
        i = i + 1;
    }
    let mut out: Vec<char> = Vec::new();
    let mut i: usize = 0;
    while i < n
        invariant
            i <= n,
            n == s@.len(),
            out@ == cap_prefix(s@, i as int),
            is_ascii_text(s@) ==> out@ =~= Seq::new(i as nat, |k: int| ascii_cap_char(s@, k)),
        decreases n - i,
    {
        let c = s[i];
        proof {
            if is_ascii_text(s@) {
                assert((s@[i as int] as u32) < 0x80);
            }
        }
        if c != ' ' && (i == 0 || s[i - 1] == ' ') {
            let up = char_to_uppercase(c);
            push_all(&mut out, up.as_slice());
        } else {
            out.push(c);
            proof {
                assert(seq![c] =~= Seq::<char>::empty().push(c));
            }
        }
        i = i + 1;
    }
    out
}

/// Capitalizes each word of a name written entirely without uppercase letters.
/// On ASCII text the result is [`ascii_capitalized`].
pub fn capitalize_all_lowercase(name: &mut String)
    ensures
        final(name)@ == capitalized(old(name)@),
        is_ascii_text(old(name)@) ==> final(name)@ == ascii_capitalized(old(name)@),
{
    let cs = to_chars(name.as_str());
    let r = capitalized_chars(cs.as_slice());
    *name = string_of_chars(r.as_slice());
}

// ---------------------------------------------------------------------------
// The whole village name
// ---------------------------------------------------------------------------
/// Result of extracting a village name, with metadata.
pub struct ExtractedName {
    /// The cleaned village name.
    pub name: String,
    /// The raw text before note stripping and truncation (if different from name).
    pub raw_name: Option<String>,
    /// The note keyword that was detected, if any.
    pub note_keyword: Option<String>,
    /// The byte offset in the raw text where the note boundary was found.
    pub note_boundary: Option<usize>,
    /// The annotation text that follows the name.
    pub keterangan: Option<String>,
}

/// The model of an extracted name.
pub struct NameModel {
    pub name: Seq<char>,
    pub raw_name: Option<Seq<char>>,
    pub note_keyword: Option<Seq<char>>,
    pub note_boundary: Option<int>,
    pub keterangan: Option<Seq<char>>,
}

impl View for ExtractedName {
    type V = NameModel;

    open spec fn view(&self) -> NameModel {
        NameModel {
            name: self.name@,
            raw_name: opt_view(self.raw_name),
            note_keyword: opt_view(self.note_keyword),
            note_boundary: match self.note_boundary {
                Some(p) => Some(p as int),
                None => None,
            },
            keterangan: opt_view(self.keterangan),
        }
    }
}

/// The note boundary of a raw name, as the name extraction finds it: the text is
/// lowercased (Unicode), its note boundary is searched (which lowercases it once
/// more), and the position is the byte offset in that lowercased text, with the
/// keyword.
pub open spec fn raw_note(raw: Seq<char>) -> Option<(int, Seq<char>)> {
    let t1 = unicode_lower(raw);
    match note_boundary_unicode(t1) {
        Some(n) => Some((utf8_len(unicode_lower(t1).subrange(0, n.0)) as int, n.1)),
        None => None,
    }
}

/// The note boundary of a raw name as a character index of the raw name, when
/// its byte offset falls on a character boundary there.
pub open spec fn raw_note_pos(raw: Seq<char>) -> Option<int> {
    match raw_note(raw) {
        Some(n) => if is_byte_boundary(raw, n.0) {
            Some(chars_within(raw, n.0))
        } else {
            None
        },
        None => None,
    }
}

/// The raw name is cut at its note boundary only where that falls on a
/// character boundary (the cut panics otherwise): the boundary is one, or a
/// column gap comes first.
pub open spec fn raw_note_ok(raw: Seq<char>) -> bool {
    match raw_note(raw) {
        Some(n) => is_byte_boundary(raw, n.0) || (column_gap(raw) matches Some(g) && n.0 >= utf8_len(
            raw.subrange(0, g),
        )),
        None => true,
    }
}

/// The name extraction does not cut the raw name inside a character.
pub open spec fn name_ok(after_code: Seq<char>) -> bool {
    match name_capture(after_code) {
        None => true,
        Some(cap) => {
            let raw = trim(cap);
            raw.len() == 0 || unicode_is_numeric(raw[0]) || raw_note_ok(raw)
        },
    }
}

/// The village name extracted from the text after a village code: the raw text
/// after the row number is cut at the earlier of a note keyword and a column
/// gap, cut to five words, loses a trailing period after a long word and is
/// capitalized when written all in lowercase. `None` when no name is found or
/// the raw text starts with a numeric character.
pub open spec fn extracted_name(after_code: Seq<char>) -> Option<NameModel> {
    match name_capture(after_code) {
        None => None,
        Some(cap) => {
            let raw = trim(cap);
            if raw.len() == 0 || unicode_is_numeric(raw[0]) {
                None
            } else {
                let note = raw_note(raw);
                let note_pos = raw_note_pos(raw);
                match resolve(raw, note_pos, column_gap(raw)) {
                    None => None,
                    Some(res) => {
                        let t0 = first_words(res.0, MAX_NAME_WORDS as int);
                        if t0.len() == 0 {
                            None
                        } else {
                            let t = capitalized(period_stripped(t0));
                            Some(
                                NameModel {
                                    name: t,
                                    raw_name: if t != raw {
                                        Some(raw)
                                    } else {
                                        None
                                    },
                                    note_keyword: match note {
                                        Some(n) => Some(n.1),
                                        None => None,
                                    },
                                    note_boundary: match note {
                                        Some(n) => Some(n.0),
                                        None => None,
                                    },
                                    keterangan: res.1,
                                },
                            )
                        }
                    },
                }
            }
        },
    }
}

/// Extracts a village name from the text after the village code, stripping notes.
pub fn extract_village_name(after_code: &str) -> (r: Option<ExtractedName>)
    requires
        name_ok(after_code@),
    ensures
        match extracted_name(after_code@) {
            Some(m) => r matches Some(e) && e@ == m,
            None => r is None,
        },
{
    let s = to_chars(after_code);
    match extract_village_name_chars(s.as_slice()) {
        Some(r) => r,
        None => {
            proof {
                assert(false);
            }
            None
        },
    }
}

/// [`extract_village_name`] on any text: `None` where the name would be cut
/// inside a character.
pub fn try_extract_village_name(after_code: &str) -> (r: Option<Option<ExtractedName>>)
    ensures
        r is Some <==> name_ok(after_code@),
        r matches Some(x) ==> match extracted_name(after_code@) {
            Some(m) => x matches Some(e) && e@ == m,
            None => x is None,
        },
{
    let s = to_chars(after_code);
    match extract_village_name_chars(s.as_slice()) {
        Some(_) => Some(extract_village_name(after_code)),
        None => None,
    }
}

/// The village name of the text after a village code; `None` where the name
/// would be cut inside a character.
pub fn extract_village_name_chars(s: &[char]) -> (r: Option<Option<ExtractedName>>)
    ensures
        r is Some <==> name_ok(s@),
        r matches Some(x) ==> match extracted_name(s@) {
            Some(m) => x matches Some(e) && e@ == m,
            None => x is None,
        },
{
    let (ca, cb) = match name_capture_range(s) {
        Some(x) => x,
        None => {
            return Some(None);
        },
    };
    let raw = trimmed_copy(s, ca, cb);
    if raw.len() == 0 || char_is_numeric(raw[0]) {
        return Some(None);
    }
    let raw_s = string_of_chars(raw.as_slice());
    let rl = str_to_lowercase(raw_s.as_str());
    let note_match = find_note_boundary(rl.as_str());
    let gap_pos = next_gap_exec(raw.as_slice(), 0);
    proof {
        crate::builder::columns::lemma_next_gap_props(raw@, 0);
    }
    let gap_bytes = match gap_pos {
        Some(g) => Some(byte_offset(raw_s.as_str(), raw.as_slice(), g)),
        None => None,
    };
    let note_pos = match &note_match {
        Some(m) => {
            let c = chars_within_exec(raw.as_slice(), m.pos);
            let cb2 = byte_offset(raw_s.as_str(), raw.as_slice(), c);
            if cb2 == m.pos {
                Some(c)
            } else {
                let after_gap = match gap_bytes {
                    Some(gb) => m.pos >= gb,
                    None => false,
                };
                if !after_gap {
                    return None;
                }
                None
            }
        },
        None => None,
    };
    let (cleaned, keterangan) = match resolve_name_and_keterangan(
        raw.as_slice(),
        note_pos,
        gap_pos,
    ) {
        Some(x) => x,
        None => {
            return Some(None);
        },
    };
    let t0 = first_words_chars(cleaned.as_slice(), MAX_NAME_WORDS);
    if t0.len() == 0 {
        return Some(None);
    }
    let t1 = period_stripped_chars(t0.as_slice());
    let t = capitalized_chars(t1.as_slice());
    let same = vec_eq(t.as_slice(), raw.as_slice());
    let raw_name = if same {
        None
    } else {
        Some(string_of_chars(raw.as_slice()))
    };
    let (note_keyword, note_boundary) = match note_match {
        Some(m) => {
            let kw = to_chars(m.keyword);
            (Some(string_of_chars(kw.as_slice())), Some(m.pos))
        },
        None => (None, None),
    };
    let ket = match keterangan {
        Some(k) => Some(string_of_chars(k.as_slice())),
        None => None,
    };
    Some(
        Some(
            ExtractedName {
                name: string_of_chars(t.as_slice()),
                raw_name,
                note_keyword,
                note_boundary,
                keterangan: ket,
            },
        ),
    )
}


/// Whether two character sequences are equal.
pub fn vec_eq(a: &[char], b: &[char]) -> (r: bool)
    ensures
        r == (a@ == b@),
{
    if a.len() != b.len() {
        return false;
    }
    let mut i: usize = 0;
    while i < a.len()
        invariant
            i <= a@.len(),
            a@.len() == b@.len(),
            forall|j: int| 0 <= j < i ==> a@[j] == b@[j],
        decreases a@.len() - i,
    {
        if a[i] != b[i] {
            return false;
        }
        i = i + 1;
    }
    proof {
        assert(a@ =~= b@);
    }
    true
}

} // verus!
