//! Character-level text primitives shared by the parsers.
//!
//! Text is handled as a sequence of `char`s. Positions and ranges are char
//! indices into that sequence; on ASCII text they coincide with byte offsets.
use vstd::prelude::*;
use vstd::std_specs::iter::IteratorSpec;

verus! {

// ---------------------------------------------------------------------------
// Character classes
// ---------------------------------------------------------------------------
/// Unicode `White_Space`, the class that `char::is_whitespace`, `str::trim`
/// and `str::split_whitespace` use.
pub open spec fn is_ws(c: char) -> bool {
    let u = c as u32;
    (0x09 <= u && u <= 0x0d) || u == 0x20 || u == 0x85 || u == 0xa0 || u == 0x1680 || (0x2000
        <= u && u <= 0x200a) || u == 0x2028 || u == 0x2029 || u == 0x202f || u == 0x205f || u
        == 0x3000
}

/// `char::is_ascii_whitespace`: space, tab, line feed, form feed, carriage return.
pub open spec fn is_ascii_ws(c: char) -> bool {
    c == ' ' || c == '\t' || c == '\n' || c == '\x0c' || c == '\r'
}

pub open spec fn is_digit(c: char) -> bool {
    '0' <= c && c <= '9'
}

pub open spec fn is_ascii_alpha(c: char) -> bool {
    ('a' <= c && c <= 'z') || ('A' <= c && c <= 'Z')
}

pub open spec fn is_ascii_alnum(c: char) -> bool {
    is_digit(c) || is_ascii_alpha(c)
}

pub open spec fn is_ascii_lower(c: char) -> bool {
    'a' <= c && c <= 'z'
}

pub open spec fn is_ascii_upper(c: char) -> bool {
    'A' <= c && c <= 'Z'
}

/// Every character of `s` is ASCII.
pub open spec fn is_ascii_text(s: Seq<char>) -> bool {
    forall|i: int| 0 <= i < s.len() ==> (#[trigger] s[i] as u32) < 0x80
}

/// ASCII case folding keeps ASCII text ASCII and of the same length.
pub proof fn lemma_lower_ascii(s: Seq<char>)
    requires
        is_ascii_text(s),
    ensures
        is_ascii_text(lower(s)),
        lower(s).len() == s.len(),
{
    assert forall|i: int| 0 <= i < lower(s).len() implies (#[trigger] lower(s)[i] as u32) < 0x80 by {
        assert((s[i] as u32) < 0x80);
    }
}

/// ASCII case folding of one character.
pub open spec fn lower_char(c: char) -> char {
    if is_ascii_upper(c) {
        ((c as u32) + 32) as char
    } else {
        c
    }
}

/// ASCII case folding of a whole text.
pub open spec fn lower(s: Seq<char>) -> Seq<char> {
    s.map_values(|c: char| lower_char(c))
}

pub proof fn lemma_lower_char_idem(c: char)
    ensures
        lower_char(lower_char(c)) == lower_char(c),
        is_ascii_alnum(lower_char(c)) == is_ascii_alnum(c),
        is_digit(lower_char(c)) == is_digit(c),
{
}

pub proof fn lemma_lower_idem(s: Seq<char>)
    ensures
        lower(lower(s)) == lower(s),
{
    assert forall|i: int| 0 <= i < s.len() implies lower(lower(s))[i] == lower(s)[i] by {
        lemma_lower_char_idem(s[i]);
    }
    assert(lower(lower(s)) =~= lower(s));
}

pub fn char_is_ws(c: char) -> (b: bool)
    ensures
        b == is_ws(c),
{
    let u = c as u32;
    (0x09 <= u && u <= 0x0d) || u == 0x20 || u == 0x85 || u == 0xa0 || u == 0x1680 || (0x2000
        <= u && u <= 0x200a) || u == 0x2028 || u == 0x2029 || u == 0x202f || u == 0x205f || u
        == 0x3000
}

pub fn char_is_ascii_ws(c: char) -> (b: bool)
    ensures
        b == is_ascii_ws(c),
{
    c == ' ' || c == '\t' || c == '\n' || c == '\x0c' || c == '\r'
}

pub fn char_is_digit(c: char) -> (b: bool)
    ensures
        b == is_digit(c),
{
    '0' <= c && c <= '9'
}

pub fn char_is_ascii_alnum(c: char) -> (b: bool)
    ensures
        b == is_ascii_alnum(c),
{
    ('0' <= c && c <= '9') || ('a' <= c && c <= 'z') || ('A' <= c && c <= 'Z')
}

pub fn char_is_ascii_lower(c: char) -> (b: bool)
    ensures
        b == is_ascii_lower(c),
{
    'a' <= c && c <= 'z'
}

pub fn char_lower(c: char) -> (r: char)
    ensures
        r == lower_char(c),
{
    if 'A' <= c && c <= 'Z' {
        let b: u8 = (c as u32 + 32) as u8;
        b as char
    } else {
        c
    }
}

// ---------------------------------------------------------------------------
// Building strings
// ---------------------------------------------------------------------------
/// Appends one character to a `String` (std `String::push`).
#[verifier::external_body]
pub(crate) fn push_char(s: &mut String, c: char)
    ensures
        final(s)@ == old(s)@.push(c),
{
    s.push(c);
}

/// The characters of a string slice, in order.
pub fn to_chars(s: &str) -> (out: Vec<char>)
    ensures
        out@ == s@,
{
    let mut out: Vec<char> = Vec::new();
    for c in iter: s.chars()
        invariant
            out@.len() == iter.index(),
            forall|i: int| 0 <= i < out@.len() ==> out@[i] == iter.seq()[i],
    {
        out.push(c);
    }
    proof {
        broadcast use vstd::string::group_string_axioms;

        assert(out@ =~= s@);
    }
    out
}

/// Appends `s[a..b]` to `out`.
pub fn append_range(out: &mut String, s: &[char], a: usize, b: usize)
    requires
        a <= b <= s@.len(),
    ensures
        final(out)@ == old(out)@ + s@.subrange(a as int, b as int),
{
    let mut i = a;
    while i < b
        invariant
            a <= i <= b <= s@.len(),
            out@ == old(out)@ + s@.subrange(a as int, i as int),
        decreases b - i,
    {
        push_char(out, s[i]);
        proof {
            assert(s@.subrange(a as int, i + 1) =~= s@.subrange(a as int, i as int).push(s@[i as int]));
        }
        i = i + 1;
    }
}

/// A new `String` holding `s[a..b]`.
pub fn string_of_range(s: &[char], a: usize, b: usize) -> (r: String)
    requires
        a <= b <= s@.len(),
    ensures
        r@ == s@.subrange(a as int, b as int),
{
    let mut r = String::new();
    append_range(&mut r, s, a, b);
    r
}

/// A new `String` holding all of `s`.
pub fn string_of_chars(s: &[char]) -> (r: String)
    ensures
        r@ == s@,
{
    let r = string_of_range(s, 0, s.len());
    proof {
        assert(s@.subrange(0, s@.len() as int) =~= s@);
    }
    r
}

/// A new vector holding `s[a..b]`.
pub fn copy_range(s: &[char], a: usize, b: usize) -> (r: Vec<char>)
    requires
        a <= b <= s@.len(),
    ensures
        r@ == s@.subrange(a as int, b as int),
{
    let mut r: Vec<char> = Vec::new();
    let mut i = a;
    while i < b
        invariant
            a <= i <= b <= s@.len(),
            r@ == s@.subrange(a as int, i as int),
        decreases b - i,
    {
        r.push(s[i]);
        proof {
            assert(s@.subrange(a as int, i + 1) =~= s@.subrange(a as int, i as int).push(s@[i as int]));
        }
        i = i + 1;
    }
    r
}

/// ASCII case folding of `s`.
pub fn lower_chars(s: &[char]) -> (r: Vec<char>)
    ensures
        r@ == lower(s@),
{
    let mut r: Vec<char> = Vec::new();
    let mut i: usize = 0;
    while i < s.len()
        invariant
            i <= s@.len(),
            r@ == lower(s@.subrange(0, i as int)),
        decreases s@.len() - i,
    {
        let c = char_lower(s[i]);
        r.push(c);
        proof {
            assert(lower(s@.subrange(0, i + 1)) =~= lower(s@.subrange(0, i as int)).push(
                lower_char(s@[i as int]),
            ));
        }
        i = i + 1;
    }
    proof {
        assert(s@.subrange(0, s@.len() as int) =~= s@);
    }
    r
}

// ---------------------------------------------------------------------------
// Trimming
// ---------------------------------------------------------------------------
/// The first index at or after `i` (and below `hi`) that does not hold whitespace; `hi` if none.
pub open spec fn skip_ws(s: Seq<char>, i: int, hi: int) -> int
    decreases hi - i,
{
    if i < hi && is_ws(s[i]) {
        skip_ws(s, i + 1, hi)
    } else {
        i
    }
}

/// The end of `s[lo..j]` once trailing whitespace is removed.
pub open spec fn back_ws(s: Seq<char>, lo: int, j: int) -> int
    decreases j - lo,
{
    if lo < j && is_ws(s[j - 1]) {
        back_ws(s, lo, j - 1)
    } else {
        j
    }
}

pub proof fn lemma_skip_ws_bounds(s: Seq<char>, i: int, hi: int)
    requires
        i <= hi,
    ensures
        i <= skip_ws(s, i, hi) <= hi,
        forall|k: int| i <= k < skip_ws(s, i, hi) ==> is_ws(#[trigger] s[k]),
        skip_ws(s, i, hi) < hi ==> !is_ws(s[skip_ws(s, i, hi)]),
    decreases hi - i,
{
    if i < hi && is_ws(s[i]) {
        lemma_skip_ws_bounds(s, i + 1, hi);
    }
}

pub proof fn lemma_back_ws_bounds(s: Seq<char>, lo: int, j: int)
    requires
        lo <= j,
    ensures
        lo <= back_ws(s, lo, j) <= j,
        forall|k: int| back_ws(s, lo, j) <= k < j ==> is_ws(#[trigger] s[k]),
        back_ws(s, lo, j) > lo ==> !is_ws(s[back_ws(s, lo, j) - 1]),
    decreases j - lo,
{
    if lo < j && is_ws(s[j - 1]) {
        lemma_back_ws_bounds(s, lo, j - 1);
    }
}

pub fn skip_ws_exec(s: &[char], i: usize, hi: usize) -> (r: usize)
    requires
        i <= hi <= s@.len(),
    ensures
        r == skip_ws(s@, i as int, hi as int),
        i <= r <= hi,
{
    proof {
        lemma_skip_ws_bounds(s@, i as int, hi as int);
    }
    let mut k = i;
    while k < hi && char_is_ws(s[k])
        invariant
            i <= k <= hi <= s@.len(),
            skip_ws(s@, k as int, hi as int) == skip_ws(s@, i as int, hi as int),
        decreases hi - k,
    {
        k = k + 1;
    }
    k
}

pub fn back_ws_exec(s: &[char], lo: usize, j: usize) -> (r: usize)
    requires
        lo <= j <= s@.len(),
    ensures
        r == back_ws(s@, lo as int, j as int),
        lo <= r <= j,
{
    proof {
        lemma_back_ws_bounds(s@, lo as int, j as int);
    }
    let mut k = j;
    while k > lo && char_is_ws(s[k - 1])
        invariant
            lo <= k <= j <= s@.len(),
            back_ws(s@, lo as int, k as int) == back_ws(s@, lo as int, j as int),
        decreases k - lo,
    {
        k = k - 1;
    }
    k
}

/// `str::trim` on `s[lo..hi]`, as a range `(a, b)`.
pub open spec fn trim_range(s: Seq<char>, lo: int, hi: int) -> (int, int) {
    let a = skip_ws(s, lo, hi);
    (a, back_ws(s, a, hi))
}

/// `str::trim`: the text without leading and trailing whitespace.
pub open spec fn trim(s: Seq<char>) -> Seq<char> {
    let r = trim_range(s, 0, s.len() as int);
    s.subrange(r.0, r.1)
}

/// `str::trim_end`.
pub open spec fn trim_end(s: Seq<char>) -> Seq<char> {
    s.subrange(0, back_ws(s, 0, s.len() as int))
}

/// `str::trim_start`.
pub open spec fn trim_start(s: Seq<char>) -> Seq<char> {
    s.subrange(skip_ws(s, 0, s.len() as int), s.len() as int)
}

pub fn trim_range_exec(s: &[char], lo: usize, hi: usize) -> (r: (usize, usize))
    requires
        lo <= hi <= s@.len(),
    ensures
        r.0 == trim_range(s@, lo as int, hi as int).0,
        r.1 == trim_range(s@, lo as int, hi as int).1,
        lo <= r.0 <= r.1 <= hi,
{
    let a = skip_ws_exec(s, lo, hi);
    let b = back_ws_exec(s, a, hi);
    (a, b)
}

// ---------------------------------------------------------------------------
// Searching
// ---------------------------------------------------------------------------
/// `pat` occurs in `s` at index `i`.
pub open spec fn occurs_at(s: Seq<char>, i: int, pat: Seq<char>) -> bool {
    0 <= i && i + pat.len() <= s.len() && s.subrange(i, i + pat.len()) == pat
}

/// The first index at or after `i` where `pat` occurs in `s` (`str::find` from `i`).
pub open spec fn find_from(s: Seq<char>, pat: Seq<char>, i: int) -> Option<int>
    decreases s.len() + 1 - i,
{
    if i < 0 || i > s.len() || i + pat.len() > s.len() {
        None
    } else if occurs_at(s, i, pat) {
        Some(i)
    } else {
        find_from(s, pat, i + 1)
    }
}

/// `str::find`.
pub open spec fn find(s: Seq<char>, pat: Seq<char>) -> Option<int> {
    find_from(s, pat, 0)
}

/// `str::contains`.
pub open spec fn contains(s: Seq<char>, pat: Seq<char>) -> bool {
    find(s, pat) is Some
}

pub proof fn lemma_find_from_props(s: Seq<char>, pat: Seq<char>, i: int)
    requires
        0 <= i,
    ensures
        find_from(s, pat, i) matches Some(p) ==> i <= p && occurs_at(s, p, pat) && forall|
            k: int,
        | i <= k < p ==> !occurs_at(s, k, pat),
        find_from(s, pat, i) is None ==> forall|k: int| i <= k ==> !occurs_at(s, k, pat),
    decreases s.len() + 1 - i,
{
    if i > s.len() || i + pat.len() > s.len() {
    } else if occurs_at(s, i, pat) {
    } else {
        lemma_find_from_props(s, pat, i + 1);
    }
}

/// Whether `pat` occurs in `s` at index `i`.
pub fn occurs_at_exec(s: &[char], i: usize, pat: &[char]) -> (b: bool)
    ensures
        b == occurs_at(s@, i as int, pat@),
{
    if i > s.len() || pat.len() > s.len() - i {
        return false;
    }
    let n = s.len();
    let mut k: usize = 0;
    while k < pat.len()
        invariant
            n == s@.len(),
            i + pat@.len() <= s@.len(),
            k <= pat@.len(),
            forall|j: int| 0 <= j < k ==> s@[i + j] == pat@[j],
        decreases pat@.len() - k,
    {
        assert(i + k < s@.len());
        if s[i + k] != pat[k] {
            proof {
                assert(s@.subrange(i as int, i + pat@.len())[k as int] != pat@[k as int]);
            }
            return false;
        }
        k = k + 1;
    }
    proof {
        assert(s@.subrange(i as int, i + pat@.len()) =~= pat@);
    }
    true
}

/// `str::find` starting at index `from`.
pub fn find_from_exec(s: &[char], pat: &[char], from: usize) -> (r: Option<usize>)
    ensures
        match r {
            Some(p) => find_from(s@, pat@, from as int) == Some(p as int),
            None => find_from(s@, pat@, from as int) is None,
        },
{
    let mut i = from;
    loop
        invariant
            from <= i,
            find_from(s@, pat@, i as int) == find_from(s@, pat@, from as int),
        decreases s@.len() + 1 - i,
    {
        if i > s.len() || pat.len() > s.len() - i {
            return None;
        }
        if occurs_at_exec(s, i, pat) {
            return Some(i);
        }
        if i >= s.len() {
            proof {
                if pat@.len() == 0 {
                    assert(s@.subrange(i as int, i as int) =~= pat@);
                }
            }
            return None;
        }
        i = i + 1;
    }
}

// ---------------------------------------------------------------------------
// Words
// ---------------------------------------------------------------------------
/// The first index at or after `i` (below `hi`) that holds whitespace; `hi` if none.
pub open spec fn word_end(s: Seq<char>, i: int, hi: int) -> int
    decreases hi - i,
{
    if i < hi && !is_ws(s[i]) {
        word_end(s, i + 1, hi)
    } else {
        i
    }
}

pub proof fn lemma_word_end_bounds(s: Seq<char>, i: int, hi: int)
    requires
        i <= hi,
    ensures
        i <= word_end(s, i, hi) <= hi,
        forall|k: int| i <= k < word_end(s, i, hi) ==> !is_ws(#[trigger] s[k]),
        word_end(s, i, hi) < hi ==> is_ws(s[word_end(s, i, hi)]),
    decreases hi - i,
{
    if i < hi && !is_ws(s[i]) {
        lemma_word_end_bounds(s, i + 1, hi);
    }
}

/// The words of `s[i..hi]` (`str::split_whitespace`), as ranges.
pub open spec fn words_from(s: Seq<char>, i: int, hi: int) -> Seq<(int, int)>
    decreases hi - i,
{
    let a = skip_ws(s, i, hi);
    if i >= hi || a >= hi {
        Seq::empty()
    } else {
        let b = word_end(s, a, hi);
        if b <= i || b > hi {
            Seq::empty()
        } else {
            seq![(a, b)] + words_from(s, b, hi)
        }
    }
}

/// Word ranges moved right by `d`.
pub open spec fn shifted(r: Seq<(int, int)>, d: int) -> Seq<(int, int)> {
    r.map_values(|p: (int, int)| (p.0 + d, p.1 + d))
}

proof fn lemma_skip_ws_cat(x: Seq<char>, y: Seq<char>, i: int)
    requires
        0 <= i <= y.len(),
    ensures
        skip_ws(x + y, x.len() + i, (x + y).len() as int) == x.len() + skip_ws(y, i, y.len() as int),
    decreases y.len() - i,
{
    if i < y.len() {
        assert((x + y)[x.len() + i] == y[i]);
        if is_ws(y[i]) {
            lemma_skip_ws_cat(x, y, i + 1);
        }
    }
}

proof fn lemma_word_end_cat(x: Seq<char>, y: Seq<char>, i: int)
    requires
        0 <= i <= y.len(),
    ensures
        word_end(x + y, x.len() + i, (x + y).len() as int) == x.len() + word_end(
            y,
            i,
            y.len() as int,
        ),
    decreases y.len() - i,
{
    if i < y.len() {
        assert((x + y)[x.len() + i] == y[i]);
        if !is_ws(y[i]) {
            lemma_word_end_cat(x, y, i + 1);
        }
    }
}

/// The words of the second part of a concatenation are its own words, moved by
/// the length of the first part.
pub proof fn lemma_words_from_cat(x: Seq<char>, y: Seq<char>, i: int)
    requires
        0 <= i <= y.len(),
    ensures
        words_from(x + y, x.len() + i, (x + y).len() as int) == shifted(
            words_from(y, i, y.len() as int),
            x.len() as int,
        ),
    decreases y.len() - i,
{
    let d = x.len() as int;
    let hi = y.len() as int;
    let t = x + y;
    lemma_skip_ws_cat(x, y, i);
    lemma_skip_ws_bounds(y, i, hi);
    let a = skip_ws(y, i, hi);
    if i < hi && a < hi {
        lemma_word_end_cat(x, y, a);
        lemma_word_end_bounds(y, a, hi);
        let b = word_end(y, a, hi);
        if b > i && b <= hi {
            lemma_words_from_cat(x, y, b);
            assert(words_from(t, d + i, d + hi) == seq![(a + d, b + d)] + words_from(
                t,
                d + b,
                d + hi,
            ));
            assert(words_from(t, d + i, d + hi) =~= shifted(words_from(y, i, hi), d));
        } else {
            assert(words_from(t, d + i, d + hi) =~= shifted(words_from(y, i, hi), d));
        }
    } else {
        assert(words_from(t, d + i, d + hi) =~= shifted(words_from(y, i, hi), d));
    }
}

/// A whitespace character before the words does not change them.
pub proof fn lemma_words_from_skip(s: Seq<char>, i: int, hi: int)
    requires
        0 <= i < hi <= s.len(),
        is_ws(s[i]),
    ensures
        words_from(s, i, hi) == words_from(s, i + 1, hi),
{
    lemma_skip_ws_bounds(s, i + 1, hi);
    let a = skip_ws(s, i + 1, hi);
    if a < hi {
        lemma_word_end_bounds(s, a, hi);
    }
}

/// Each word range is nonempty and holds no whitespace.
pub proof fn lemma_words_from_solid(s: Seq<char>, i: int, hi: int)
    requires
        0 <= i <= hi <= s.len(),
    ensures
        forall|k: int|
            0 <= k < words_from(s, i, hi).len() ==> i <= (#[trigger] words_from(s, i, hi)[k]).0
                < words_from(s, i, hi)[k].1 <= hi,
        forall|k: int, j: int|
            0 <= k < words_from(s, i, hi).len() && (#[trigger] words_from(s, i, hi)[k]).0 <= j
                < words_from(s, i, hi)[k].1 ==> !is_ws(#[trigger] s[j]),
    decreases hi - i,
{
    let a = skip_ws(s, i, hi);
    lemma_skip_ws_bounds(s, i, hi);
    if i < hi && a < hi {
        let b = word_end(s, a, hi);
        lemma_word_end_bounds(s, a, hi);
        if b > i && b <= hi {
            lemma_words_from_solid(s, b, hi);
            let w = words_from(s, i, hi);
            assert forall|k: int| 0 <= k < w.len() implies i <= (#[trigger] w[k]).0 < w[k].1
                <= hi by {
                if k > 0 {
                    assert(w[k] == words_from(s, b, hi)[k - 1]);
                }
            }
            assert forall|k: int, j: int|
                0 <= k < w.len() && (#[trigger] w[k]).0 <= j < w[k].1 implies !is_ws(
                #[trigger] s[j],
            ) by {
                if k > 0 {
                    assert(w[k] == words_from(s, b, hi)[k - 1]);
                }
            }
        }
    }
}

/// `join` seen from the front.
pub proof fn lemma_join_front(parts: Seq<Seq<char>>, sep: Seq<char>)
    requires
        parts.len() >= 2,
    ensures
        join(parts, sep) == parts[0] + sep + join(parts.drop_first(), sep),
    decreases parts.len(),
{
    let dl = parts.drop_last();
    let df = parts.drop_first();
    if parts.len() > 2 {
        lemma_join_front(dl, sep);
        assert(df.drop_last() =~= dl.drop_first());
        assert(df.last() == parts.last());
        assert(dl[0] == parts[0]);
        let p0 = parts[0];
        let m = join(dl.drop_first(), sep);
        assert(join(parts, sep) == join(dl, sep) + sep + parts.last());
        assert(join(df, sep) == join(df.drop_last(), sep) + sep + df.last());
        assert(p0 + sep + m + sep + parts.last() =~= p0 + sep + (m + sep + parts.last()));
    } else {
        assert(dl.len() == 1 && df.len() == 1);
        assert(join(dl, sep) == dl[0]);
        assert(join(df, sep) == df[0]);
        assert(join(parts, sep) == join(dl, sep) + sep + parts.last());
    }
}

pub fn word_end_exec(s: &[char], i: usize, hi: usize) -> (r: usize)
    requires
        i <= hi <= s@.len(),
    ensures
        r == word_end(s@, i as int, hi as int),
        i <= r <= hi,
{
    proof {
        lemma_word_end_bounds(s@, i as int, hi as int);
    }
    let mut k = i;
    while k < hi && !char_is_ws(s[k])
        invariant
            i <= k <= hi <= s@.len(),
            word_end(s@, k as int, hi as int) == word_end(s@, i as int, hi as int),
        decreases hi - k,
    {
        k = k + 1;
    }
    k
}

/// The words of `s[lo..hi]`, as ranges.
pub fn words_exec(s: &[char], lo: usize, hi: usize) -> (r: Vec<(usize, usize)>)
    requires
        lo <= hi <= s@.len(),
    ensures
        r@.len() == words_from(s@, lo as int, hi as int).len(),
        forall|k: int|
            0 <= k < r@.len() ==> (#[trigger] r@[k]).0 == words_from(s@, lo as int, hi as int)[k].0
                && r@[k].1 == words_from(s@, lo as int, hi as int)[k].1,
{
    let mut r: Vec<(usize, usize)> = Vec::new();
    let mut i = lo;
    let ghost done: Seq<(int, int)> = Seq::empty();
    while i < hi
        invariant
            lo <= i <= hi <= s@.len(),
            r@.len() == done.len(),
            forall|k: int|
                0 <= k < r@.len() ==> (#[trigger] r@[k]).0 == done[k].0 && r@[k].1 == done[k].1,
            done + words_from(s@, i as int, hi as int) == words_from(s@, lo as int, hi as int),
        decreases hi - i,
    {
        let a = skip_ws_exec(s, i, hi);
        if a >= hi {
            proof {
                assert(words_from(s@, i as int, hi as int) =~= Seq::<(int, int)>::empty());
            }
            i = hi;
        } else {
            let b = word_end_exec(s, a, hi);
            proof {
                lemma_skip_ws_bounds(s@, i as int, hi as int);
                lemma_word_end_bounds(s@, a as int, hi as int);
                assert(b > a);
                let w = seq![(a as int, b as int)];
                assert(words_from(s@, i as int, hi as int) == w + words_from(
                    s@,
                    b as int,
                    hi as int,
                ));
                assert(done + words_from(s@, i as int, hi as int) =~= (done + w) + words_from(
                    s@,
                    b as int,
                    hi as int,
                ));
                done = done + w;
            }
            r.push((a, b));
            i = b;
        }
    }
    proof {
        assert(words_from(s@, i as int, hi as int) =~= Seq::<(int, int)>::empty());
        assert(done + words_from(s@, i as int, hi as int) =~= done);
    }
    r
}

// ---------------------------------------------------------------------------
// Decimal numbers
// ---------------------------------------------------------------------------
/// The value of a digit character.
pub open spec fn digit_value(c: char) -> nat {
    ((c as u32) - ('0' as u32)) as nat
}

/// Every character of `s` is an ASCII digit.
pub open spec fn all_digits(s: Seq<char>) -> bool {
    forall|i: int| 0 <= i < s.len() ==> is_digit(#[trigger] s[i])
}

/// The value of a run of decimal digits.
pub open spec fn digits_value(s: Seq<char>) -> nat
    decreases s.len(),
{
    if s.len() == 0 {
        0
    } else {
        digits_value(s.drop_last()) * 10 + digit_value(s.last())
    }
}

/// The digits that an unsigned integer parse reads: an optional leading `+` is dropped.
pub open spec fn uint_body(s: Seq<char>) -> Seq<char> {
    if s.len() > 0 && s[0] == '+' {
        s.drop_first()
    } else {
        s
    }
}

/// `str::parse` for an unsigned integer type whose largest value is `max`.
pub open spec fn parse_uint(s: Seq<char>, max: nat) -> Option<nat> {
    let b = uint_body(s);
    if b.len() > 0 && all_digits(b) && digits_value(b) <= max {
        Some(digits_value(b))
    } else {
        None
    }
}

pub proof fn lemma_digits_value_mono(s: Seq<char>, i: int, j: int)
    requires
        0 <= i <= j <= s.len(),
        all_digits(s),
    ensures
        digits_value(s.take(i)) <= digits_value(s.take(j)),
    decreases j - i,
{
    if i < j {
        lemma_digits_value_mono(s, i, j - 1);
        assert(s.take(j).drop_last() =~= s.take(j - 1));
    }
}

/// Parses `s[a..b]` as a `u64` the way `str::parse::<u64>` does.
pub fn parse_u64_range(s: &[char], a: usize, b: usize) -> (r: Option<u64>)
    requires
        a <= b <= s@.len(),
    ensures
        match parse_uint(s@.subrange(a as int, b as int), u64::MAX as nat) {
            Some(v) => r == Some(v as u64),
            None => r is None,
        },
{
    let ghost t = s@.subrange(a as int, b as int);
    let mut i = a;
    if i < b && s[i] == '+' {
        i = i + 1;
    }
    let ghost body = s@.subrange(i as int, b as int);
    proof {
        assert(body =~= uint_body(t));
    }
    if i >= b {
        return None;
    }
    let mut k = i;
    while k < b
        invariant
            i <= k <= b <= s@.len(),
            body == s@.subrange(i as int, b as int),
            t == s@.subrange(a as int, b as int),
            body == uint_body(t),
            forall|j: int| i <= j < k ==> is_digit(#[trigger] s@[j]),
        decreases b - k,
    {
        if !char_is_digit(s[k]) {
            proof {
                assert(body[k - i] == s@[k as int]);
                assert(!is_digit(body[k - i]));
            }
            return None;
        }
        k = k + 1;
    }
    assert(all_digits(body)) by {
        assert forall|j: int| 0 <= j < body.len() implies is_digit(#[trigger] body[j]) by {
            assert(body[j] == s@[i + j]);
        }
    }
    let mut v: u64 = 0;
    let mut k = i;
    assert(body.take(0) =~= Seq::<char>::empty());
    while k < b
        invariant
            i <= k <= b <= s@.len(),
            body == s@.subrange(i as int, b as int),
            t == s@.subrange(a as int, b as int),
            body == uint_body(t),
            all_digits(body),
            v as nat == digits_value(body.take(k - i)),
        decreases b - k,
    {
        assert(body[k - i] == s@[k as int]);
        assert(is_digit(body[k - i]));
        let d = (s[k] as u32 - '0' as u32) as u64;
        proof {
            assert(body.take(k - i + 1).drop_last() =~= body.take(k - i));
            assert(body.take(k - i + 1).last() == s@[k as int]);
        }
        match v.checked_mul(10) {
            Some(m) => match m.checked_add(d) {
                Some(nv) => {
                    v = nv;
                },
                None => {
                    proof {
                        lemma_digits_value_mono(body, k - i + 1, body.len() as int);
                        assert(body.take(body.len() as int) =~= body);
                    }
                    return None;
                },
            },
            None => {
                proof {
                    lemma_digits_value_mono(body, k - i + 1, body.len() as int);
                    assert(body.take(body.len() as int) =~= body);
                }
                return None;
            },
        }
        k = k + 1;
    }
    proof {
        assert(body.take(body.len() as int) =~= body);
    }
    Some(v)
}

// ---------------------------------------------------------------------------
// Joining
// ---------------------------------------------------------------------------
/// `[..].join(sep)`.
pub open spec fn join(parts: Seq<Seq<char>>, sep: Seq<char>) -> Seq<char>
    decreases parts.len(),
{
    if parts.len() == 0 {
        Seq::empty()
    } else if parts.len() == 1 {
        parts[0]
    } else {
        join(parts.drop_last(), sep) + sep + parts.last()
    }
}

/// The views of a sequence of character vectors.
pub open spec fn views(parts: Seq<Vec<char>>) -> Seq<Seq<char>> {
    parts.map_values(|p: Vec<char>| p@)
}

/// Appends all of `s` to `r`.
pub fn push_all(r: &mut Vec<char>, s: &[char])
    ensures
        final(r)@ == old(r)@ + s@,
{
    let mut i: usize = 0;
    while i < s.len()
        invariant
            i <= s@.len(),
            r@ == old(r)@ + s@.subrange(0, i as int),
        decreases s@.len() - i,
    {
        r.push(s[i]);
        proof {
            assert(s@.subrange(0, i + 1) =~= s@.subrange(0, i as int).push(s@[i as int]));
        }
        i = i + 1;
    }
    proof {
        assert(s@.subrange(0, s@.len() as int) =~= s@);
    }
}

/// Joins `parts` with `sep` in between.
pub fn join_chars(parts: &[Vec<char>], sep: &[char]) -> (r: Vec<char>)
    ensures
        r@ == join(views(parts@), sep@),
{
    let mut r: Vec<char> = Vec::new();
    if parts.len() == 0 {
        return r;
    }
    push_all(&mut r, parts[0].as_slice());
    let mut i: usize = 1;
    proof {
        assert(views(parts@).take(1) =~= seq![parts@[0]@]);
    }
    while i < parts.len()
        invariant
            1 <= i <= parts@.len(),
            r@ == join(views(parts@).take(i as int), sep@),
        decreases parts@.len() - i,
    {
        push_all(&mut r, sep);
        push_all(&mut r, parts[i].as_slice());
        proof {
            let v = views(parts@);
            assert(v.take(i + 1).drop_last() =~= v.take(i as int));
            assert(v.take(i + 1).last() == parts@[i as int]@);
        }
        i = i + 1;
    }
    proof {
        assert(views(parts@).take(parts@.len() as int) =~= views(parts@));
    }
    r
}

/// Joins `parts[a..b]` with `sep` in between.
pub fn join_range(parts: &[Vec<char>], a: usize, b: usize, sep: &[char]) -> (r: Vec<char>)
    requires
        a <= b <= parts@.len(),
    ensures
        r@ == join(views(parts@).subrange(a as int, b as int), sep@),
{
    let ghost v = views(parts@).subrange(a as int, b as int);
    let mut r: Vec<char> = Vec::new();
    if a == b {
        return r;
    }
    push_all(&mut r, parts[a].as_slice());
    let mut i: usize = a + 1;
    proof {
        assert(v.take(1) =~= seq![parts@[a as int]@]);
    }
    while i < b
        invariant
            a + 1 <= i <= b <= parts@.len(),
            v == views(parts@).subrange(a as int, b as int),
            r@ == join(v.take(i - a), sep@),
        decreases b - i,
    {
        push_all(&mut r, sep);
        push_all(&mut r, parts[i].as_slice());
        proof {
            assert(v.take(i - a + 1).drop_last() =~= v.take(i - a));
            assert(v.take(i - a + 1).last() == parts@[i as int]@);
        }
        i = i + 1;
    }
    proof {
        assert(v.take(b - a) =~= v);
    }
    r
}

/// The character views of a sequence of string slices.
pub open spec fn str_views(ts: Seq<&str>) -> Seq<Seq<char>> {
    ts.map_values(|t: &str| t@)
}

/// The characters of each string slice.
pub fn token_chars(ts: &[&str]) -> (r: Vec<Vec<char>>)
    ensures
        views(r@) == str_views(ts@),
{
    let mut r: Vec<Vec<char>> = Vec::new();
    let mut i: usize = 0;
    while i < ts.len()
        invariant
            i <= ts@.len(),
            r@.len() == i,
            forall|j: int| 0 <= j < i ==> (#[trigger] r@[j])@ == ts@[j]@,
        decreases ts@.len() - i,
    {
        r.push(to_chars(ts[i]));
        i = i + 1;
    }
    proof {
        assert(views(r@) =~= str_views(ts@));
    }
    r
}

// ---------------------------------------------------------------------------
// UTF-8 lengths
// ---------------------------------------------------------------------------
/// The number of bytes UTF-8 uses for `c`.
pub open spec fn utf8_width(c: char) -> nat {
    let u = c as u32;
    if u < 0x80 {
        1
    } else if u < 0x800 {
        2
    } else if u < 0x10000 && !(0xD800 <= u && u <= 0xDFFF) {
        3
    } else {
        4
    }
}

/// The length in bytes of the UTF-8 encoding of `s` (what `str::len` reports).
pub open spec fn utf8_len(s: Seq<char>) -> nat
    decreases s.len(),
{
    if s.len() == 0 {
        0
    } else {
        utf8_len(s.drop_last()) + utf8_width(s.last())
    }
}

pub proof fn lemma_utf8_len_bound(s: Seq<char>)
    ensures
        utf8_len(s) <= 4 * s.len(),
    decreases s.len(),
{
    if s.len() > 0 {
        lemma_utf8_len_bound(s.drop_last());
    }
}

pub proof fn lemma_utf8_len_front(s: Seq<char>)
    requires
        s.len() > 0,
    ensures
        utf8_len(s) == utf8_width(s[0]) + utf8_len(s.drop_first()),
    decreases s.len(),
{
    if s.len() > 1 {
        let dl = s.drop_last();
        let df = s.drop_first();
        lemma_utf8_len_front(dl);
        assert(dl.drop_first() =~= df.drop_last());
        assert(df.last() == s.last());
        assert(dl[0] == s[0]);
        assert(utf8_len(s) == utf8_len(dl) + utf8_width(s.last()));
        assert(utf8_len(df) == utf8_len(df.drop_last()) + utf8_width(df.last()));
    } else {
        assert(s.drop_first().len() == 0);
        assert(s.drop_last().len() == 0);
        assert(utf8_len(s) == utf8_len(s.drop_last()) + utf8_width(s.last()));
        assert(s.last() == s[0]);
    }
}

/// `utf8_len` is the length of the UTF-8 encoding.
pub proof fn lemma_utf8_len_bytes(s: Seq<char>)
    ensures
        utf8_len(s) == vstd::utf8::encode_utf8(s).len(),
    decreases s.len(),
{
    if s.len() > 0 {
        lemma_utf8_len_front(s);
        lemma_utf8_len_bytes(s.drop_first());
        let c = s[0] as u32;
        assert(vstd::utf8::encode_utf8(s) == vstd::utf8::encode_scalar(c) + vstd::utf8::encode_utf8(
            s.drop_first(),
        ));
        assert(vstd::utf8::encode_scalar(c).len() == utf8_width(s[0]));
    }
}

/// A prefix is no longer in bytes than the whole.
pub proof fn lemma_utf8_len_prefix(s: Seq<char>, i: int)
    requires
        0 <= i <= s.len(),
    ensures
        utf8_len(s.subrange(0, i)) <= utf8_len(s),
    decreases s.len() - i,
{
    if i < s.len() {
        lemma_utf8_len_prefix(s.drop_last(), i);
        assert(s.drop_last().subrange(0, i) =~= s.subrange(0, i));
    } else {
        assert(s.subrange(0, i) =~= s);
    }
}

/// The byte offset of the char index `i` of `s` (`cs` holds the chars of `s`).
pub fn byte_offset(s: &str, cs: &[char], i: usize) -> (r: usize)
    requires
        cs@ == s@,
        i <= cs@.len(),
    ensures
        r as nat == utf8_len(s@.subrange(0, i as int)),
{
    let n = s.as_bytes().len();
    proof {
        lemma_utf8_len_bytes(s@);
        lemma_utf8_len_prefix(s@, i as int);
    }
    utf8_len_range(cs, 0, i, usize::MAX)
}

/// The number of leading characters of `s` that fit in `b` bytes.
pub open spec fn chars_within(s: Seq<char>, b: int) -> int
    decreases s.len(),
{
    if s.len() == 0 || utf8_width(s[0]) > b {
        0
    } else {
        1 + chars_within(s.drop_first(), b - utf8_width(s[0]))
    }
}

/// Byte `b` of the UTF-8 encoding of `s` is the start of a character (or its
/// end): `s[..b]` in bytes is a whole number of characters.
pub open spec fn is_byte_boundary(s: Seq<char>, b: int) -> bool {
    utf8_len(s.subrange(0, chars_within(s, b))) == b
}

pub proof fn lemma_chars_within_bounds(s: Seq<char>, b: int)
    ensures
        0 <= chars_within(s, b) <= s.len(),
    decreases s.len(),
{
    if s.len() > 0 && utf8_width(s[0]) <= b {
        lemma_chars_within_bounds(s.drop_first(), b - utf8_width(s[0]));
    }
}

/// On an ASCII prefix, bytes and characters count alike.
pub proof fn lemma_ascii_prefix(s: Seq<char>, k: int)
    requires
        0 <= k <= s.len(),
        forall|j: int| 0 <= j < k ==> (#[trigger] s[j] as u32) < 0x80,
    ensures
        chars_within(s, k) == k,
        is_byte_boundary(s, k),
    decreases k,
{
    if k > 0 {
        let t = s.drop_first();
        assert forall|j: int| 0 <= j < k - 1 implies (#[trigger] t[j] as u32) < 0x80 by {
            assert(t[j] == s[j + 1]);
        }
        lemma_ascii_prefix(t, k - 1);
        assert(s.subrange(0, k).drop_first() =~= t.subrange(0, k - 1));
        lemma_utf8_len_front(s.subrange(0, k));
        assert(s.subrange(0, k)[0] == s[0]);
    } else {
        assert(s.subrange(0, 0).len() == 0);
    }
}

/// The number of leading characters of `s` that fit in `b` bytes.
pub fn chars_within_exec(s: &[char], b: usize) -> (r: usize)
    ensures
        r as int == chars_within(s@, b as int),
        r <= s@.len(),
{
    let mut i: usize = 0;
    let mut left: usize = b;
    proof {
        assert(s@.skip(0) =~= s@);
        lemma_chars_within_bounds(s@, b as int);
    }
    while i < s.len()
        invariant
            i <= s@.len(),
            left <= b,
            i + chars_within(s@.skip(i as int), left as int) == chars_within(s@, b as int),
        decreases s@.len() - i,
    {
        let u = s[i] as u32;
        let w: usize = if u < 0x80 {
            1
        } else if u < 0x800 {
            2
        } else if u < 0x10000 && !(0xD800 <= u && u <= 0xDFFF) {
            3
        } else {
            4
        };
        proof {
            assert(s@.skip(i as int)[0] == s@[i as int]);
            assert(s@.skip(i as int).drop_first() =~= s@.skip(i + 1));
        }
        if w > left {
            return i;
        }
        left = left - w;
        i = i + 1;
    }
    i
}

/// The UTF-8 length of `s[a..b]`, saturated at `cap`.
pub fn utf8_len_range(s: &[char], a: usize, b: usize, cap: usize) -> (r: usize)
    requires
        a <= b <= s@.len(),
    ensures
        r as nat == if utf8_len(s@.subrange(a as int, b as int)) < cap {
            utf8_len(s@.subrange(a as int, b as int))
        } else {
            cap as nat
        },
{
    let mut total: usize = 0;
    let mut i = a;
    proof {
        assert(s@.subrange(a as int, a as int) =~= Seq::<char>::empty());
    }
    while i < b
        invariant
            a <= i <= b <= s@.len(),
            total <= cap,
            total as nat == if utf8_len(s@.subrange(a as int, i as int)) < cap {
                utf8_len(s@.subrange(a as int, i as int))
            } else {
                cap as nat
            },
        decreases b - i,
    {
        let u = s[i] as u32;
        let w: usize = if u < 0x80 {
            1
        } else if u < 0x800 {
            2
        } else if u < 0x10000 && !(0xD800 <= u && u <= 0xDFFF) {
            3
        } else {
            4
        };
        proof {
            let t = s@.subrange(a as int, i + 1);
            assert(t.drop_last() =~= s@.subrange(a as int, i as int));
            assert(t.last() == s@[i as int]);
        }
        if total >= cap || w >= cap - total {
            total = cap;
        } else {
            total = total + w;
        }
        i = i + 1;
    }
    total
}

/// The first `'\n'` at or after `i`; the length of `s` if none.
pub open spec fn newline_from(s: Seq<char>, i: int) -> int
    decreases s.len() - i,
{
    if 0 <= i < s.len() && s[i] != '\n' {
        newline_from(s, i + 1)
    } else {
        i
    }
}

pub proof fn lemma_newline_from(s: Seq<char>, i: int)
    requires
        0 <= i <= s.len(),
    ensures
        i <= newline_from(s, i) <= s.len(),
        forall|k: int| i <= k < newline_from(s, i) ==> #[trigger] s[k] != '\n',
        newline_from(s, i) < s.len() ==> s[newline_from(s, i)] == '\n',
    decreases s.len() - i,
{
    if 0 <= i < s.len() && s[i] != '\n' {
        lemma_newline_from(s, i + 1);
    }
}

pub fn newline_from_exec(s: &[char], i: usize) -> (r: usize)
    requires
        i <= s@.len(),
    ensures
        r as int == newline_from(s@, i as int),
        i <= r <= s@.len(),
{
    proof {
        lemma_newline_from(s@, i as int);
    }
    let mut k = i;
    while k < s.len() && s[k] != '\n'
        invariant
            i <= k <= s@.len(),
            newline_from(s@, k as int) == newline_from(s@, i as int),
        decreases s@.len() - k,
    {
        k = k + 1;
    }
    k
}

/// The lines of `s[i..]` as `str::lines` yields them, as ranges: split at
/// `'\n'`, a `'\r'` right before the `'\n'` dropped, no line after a final `'\n'`.
pub open spec fn lines_from(s: Seq<char>, i: int) -> Seq<(int, int)>
    decreases s.len() + 1 - i,
{
    if i < 0 || i >= s.len() {
        Seq::empty()
    } else {
        let nl = newline_from(s, i);
        let end = if nl < s.len() && nl > i && s[nl - 1] == '\r' {
            nl - 1
        } else {
            nl
        };
        if nl < i || nl > s.len() {
            Seq::empty()
        } else {
            seq![(i, end)] + lines_from(s, nl + 1)
        }
    }
}

/// The lines of `s`, as ranges.
pub fn line_ranges(s: &[char]) -> (r: Vec<(usize, usize)>)
    ensures
        r@.len() == lines_from(s@, 0).len(),
        forall|k: int|
            0 <= k < r@.len() ==> (#[trigger] r@[k]).0 == lines_from(s@, 0)[k].0 && r@[k].1
                == lines_from(s@, 0)[k].1,
        forall|k: int| 0 <= k < r@.len() ==> (#[trigger] r@[k]).0 <= r@[k].1 <= s@.len(),
{
    let n = s.len();
    let mut r: Vec<(usize, usize)> = Vec::new();
    let ghost mut done: Seq<(int, int)> = Seq::empty();
    let mut i: usize = 0;
    while i < n
        invariant
            i <= n,
            n == s@.len(),
            r@.len() == done.len(),
            forall|k: int|
                0 <= k < r@.len() ==> (#[trigger] r@[k]).0 == done[k].0 && r@[k].1 == done[k].1,
            forall|k: int| 0 <= k < r@.len() ==> (#[trigger] r@[k]).0 <= r@[k].1 <= s@.len(),
            done + lines_from(s@, i as int) == lines_from(s@, 0),
        decreases n - i,
    {
        let nl = newline_from_exec(s, i);
        let end = if nl < n && nl > i && s[nl - 1] == '\r' {
            nl - 1
        } else {
            nl
        };
        r.push((i, end));
        proof {
            let piece = seq![(i as int, end as int)];
            assert(lines_from(s@, i as int) == piece + lines_from(s@, nl + 1));
            assert(done + lines_from(s@, i as int) =~= (done + piece) + lines_from(s@, nl + 1));
            done = done + piece;
            assert(lines_from(s@, n as int) =~= Seq::<(int, int)>::empty());
        }
        if nl >= n {
            i = n;
        } else {
            i = nl + 1;
        }
    }
    proof {
        assert(lines_from(s@, i as int) =~= Seq::<(int, int)>::empty());
        assert(done + lines_from(s@, i as int) =~= done);
    }
    r
}


/// The lines of `s` (`str::lines`).
pub open spec fn lines(s: Seq<char>) -> Seq<Seq<char>> {
    lines_from(s, 0).map_values(|r: (int, int)| s.subrange(r.0, r.1))
}

/// The lines of `s`, each copied.
pub fn text_lines(s: &[char]) -> (r: Vec<Vec<char>>)
    ensures
        views(r@) == lines(s@),
{
    let ranges = line_ranges(s);
    let mut out: Vec<Vec<char>> = Vec::new();
    let mut i: usize = 0;
    while i < ranges.len()
        invariant
            i <= ranges@.len(),
            ranges@.len() == lines_from(s@, 0).len(),
            forall|k: int|
                0 <= k < ranges@.len() ==> (#[trigger] ranges@[k]).0 == lines_from(s@, 0)[k].0
                    && ranges@[k].1 == lines_from(s@, 0)[k].1,
            forall|k: int| 0 <= k < ranges@.len() ==> (#[trigger] ranges@[k]).0 <= ranges@[k].1 <= s@.len(),
            out@.len() == i,
            forall|k: int| 0 <= k < i ==> (#[trigger] out@[k])@ == lines(s@)[k],
        decreases ranges@.len() - i,
    {
        let (a, b) = ranges[i];
        out.push(copy_range(s, a, b));
        i = i + 1;
    }
    proof {
        assert(views(out@) =~= lines(s@));
    }
    out
}

} // verus!
