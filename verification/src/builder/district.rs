//! Kecamatan (district) lines: the district name, its annotation note and its
//! kelurahan/desa counts.
use vstd::prelude::*;

use crate::builder::columns::{column_ranges, columns, columns_from, kecamatan_code_shape,
    kecamatan_code_shape_exec};
use crate::builder::keywords::{district_note_keyword_list, district_note_keywords};
use crate::builder::notes::{
    char_views, earliest_keyword_unicode, find_earliest_keyword, unicode_lower_all,
    unicode_lower_keywords, word_boundary, word_boundary_exec,
};
use crate::text::{
    back_ws, back_ws_exec, byte_offset, char_is_ascii_ws, char_is_digit, chars_within,
    chars_within_exec, copy_range, find, find_from_exec, is_ascii_ws, is_byte_boundary, is_digit,
    is_ws, join, join_chars, parse_u64_range, parse_uint, string_of_chars, to_chars, trim,
    trim_range, trim_range_exec, utf8_len, views,
};
use crate::unicode::{str_to_lowercase, unicode_lower};

verus! {

/// Maximum trailing digits that look like a count rather than part of a name.
pub const MAX_TRAILING_COUNT_DIGITS: usize = 3;

// ---------------------------------------------------------------------------
// Skipping the `CODE NUMBER` prefix
// ---------------------------------------------------------------------------
/// Scans a kecamatan line: first past the dotted code (two dots, then ASCII
/// whitespace), then past the row number, and yields where the name starts
/// (0 when no name is found).
pub open spec fn name_start_from(
    s: Seq<char>,
    i: int,
    dots: nat,
    past_code: bool,
    past_number: bool,
) -> int
    decreases s.len() - i,
{
    if i < 0 || i >= s.len() {
        0
    } else {
        let c = s[i];
        if !past_code {
            if c == '.' {
                name_start_from(s, i + 1, dots + 1, false, false)
            } else if dots >= 2 && is_ascii_ws(c) {
                name_start_from(s, i + 1, dots, true, false)
            } else {
                name_start_from(s, i + 1, dots, false, false)
            }
        } else if !past_number {
            if is_digit(c) {
                let last_digit = i + 1 >= s.len() || !is_digit(s[i + 1]);
                name_start_from(s, i + 1, dots, true, last_digit)
            } else if is_ascii_ws(c) {
                name_start_from(s, i + 1, dots, true, false)
            } else {
                0
            }
        } else if is_ascii_ws(c) {
            name_start_from(s, i + 1, dots, true, true)
        } else {
            i
        }
    }
}

/// The part of a kecamatan line after `CODE NUMBER `, trimmed; the whole line if
/// no name follows the prefix.
pub open spec fn code_prefix_rest(s: Seq<char>) -> Seq<char> {
    let ns = name_start_from(s, 0, 0, false, false);
    if ns > 0 {
        let r = trim_range(s, ns, s.len() as int);
        s.subrange(r.0, r.1)
    } else {
        s
    }
}

pub proof fn lemma_name_start_bounds(
    s: Seq<char>,
    i: int,
    dots: nat,
    past_code: bool,
    past_number: bool,
)
    requires
        0 <= i,
    ensures
        0 <= name_start_from(s, i, dots, past_code, past_number) < s.len() || name_start_from(
            s,
            i,
            dots,
            past_code,
            past_number,
        ) == 0,
    decreases s.len() - i,
{
    if 0 <= i < s.len() {
        let c = s[i];
        if !past_code {
            if c == '.' {
                lemma_name_start_bounds(s, i + 1, dots + 1, false, false);
            } else if dots >= 2 && is_ascii_ws(c) {
                lemma_name_start_bounds(s, i + 1, dots, true, false);
            } else {
                lemma_name_start_bounds(s, i + 1, dots, false, false);
            }
        } else if !past_number {
            if is_digit(c) {
                let last_digit = i + 1 >= s.len() || !is_digit(s[i + 1]);
                lemma_name_start_bounds(s, i + 1, dots, true, last_digit);
            } else if is_ascii_ws(c) {
                lemma_name_start_bounds(s, i + 1, dots, true, false);
            }
        } else if is_ascii_ws(c) {
            lemma_name_start_bounds(s, i + 1, dots, true, true);
        }
    }
}

fn name_start(s: &[char]) -> (ns: usize)
    ensures
        ns as int == name_start_from(s@, 0, 0, false, false),
        ns == 0 || ns < s@.len(),
{
    proof {
        lemma_name_start_bounds(s@, 0, 0, false, false);
    }
    let n = s.len();
    let mut dots: usize = 0;
    let mut past_code = false;
    let mut past_number = false;
    let mut i: usize = 0;
    while i < n
        invariant
            i <= n,
            n == s@.len(),
            dots <= i,
            !past_code ==> !past_number,
            name_start_from(s@, i as int, dots as nat, past_code, past_number) == name_start_from(
                s@,
                0,
                0,
                false,
                false,
            ),
        decreases n - i,
    {
        let c = s[i];
        proof {
            let ghost dd: nat = dots as nat;
            assert(name_start_from(s@, i as int, dd, past_code, past_number) == {
                if !past_code {
                    if c == '.' {
                        name_start_from(s@, i + 1, dd + 1, false, false)
                    } else if dd >= 2 && is_ascii_ws(c) {
                        name_start_from(s@, i + 1, dd, true, false)
                    } else {
                        name_start_from(s@, i + 1, dd, false, false)
                    }
                } else if !past_number {
                    if is_digit(c) {
                        name_start_from(s@, i + 1, dd, true, i + 1 >= s@.len() || !is_digit(s@[i + 1]))
                    } else if is_ascii_ws(c) {
                        name_start_from(s@, i + 1, dd, true, false)
                    } else {
                        0
                    }
                } else if is_ascii_ws(c) {
                    name_start_from(s@, i + 1, dd, true, true)
                } else {
                    i as int
                }
            });
        }
        if !past_code {
            if c == '.' {
                dots = dots + 1;
            } else if dots >= 2 && char_is_ascii_ws(c) {
                past_code = true;
            }
        } else if !past_number {
            if char_is_digit(c) {
                if i + 1 >= n || !char_is_digit(s[i + 1]) {
                    past_number = true;
                }
            } else if char_is_ascii_ws(c) {
            } else {
                return 0;
            }
        } else if char_is_ascii_ws(c) {
        } else {
            return i;
        }
        i = i + 1;
    }
    0
}

/// Skips the code and number prefix of a kecamatan line, as a range of `s`.
pub fn skip_code_prefix_range(s: &[char]) -> (r: (usize, usize))
    ensures
        r.0 <= r.1 <= s@.len(),
        s@.subrange(r.0 as int, r.1 as int) == code_prefix_rest(s@),
{
    let ns = name_start(s);
    if ns > 0 {
        let (a, b) = trim_range_exec(s, ns, s.len());
        (a, b)
    } else {
        proof {
            assert(s@.subrange(0, s@.len() as int) =~= s@);
        }
        (0, s.len())
    }
}

/// Skips the code and number prefix of a kecamatan line to reach the name.
pub fn skip_code_prefix(s: &str) -> (r: String)
    ensures
        r@ == code_prefix_rest(s@),
{
    let cs = to_chars(s);
    let (a, b) = skip_code_prefix_range(cs.as_slice());
    crate::text::string_of_range(cs.as_slice(), a, b)
}

// ---------------------------------------------------------------------------
// Trailing counts
// ---------------------------------------------------------------------------
/// Start of the run of ASCII digits that ends at `j`.
pub open spec fn digits_start(s: Seq<char>, j: int) -> int
    decreases j,
{
    if j > 0 && j <= s.len() && is_digit(s[j - 1]) {
        digits_start(s, j - 1)
    } else {
        j
    }
}

/// Start of the run of spaces (U+0020) that ends at `j`.
pub open spec fn spaces_start(s: Seq<char>, j: int) -> int
    decreases j,
{
    if j > 0 && j <= s.len() && s[j - 1] == ' ' {
        spaces_start(s, j - 1)
    } else {
        j
    }
}

/// `s[lo..hi]` holds an ASCII digit.
pub open spec fn has_digit(s: Seq<char>, lo: int, hi: int) -> bool {
    exists|k: int| lo <= k < hi && is_digit(#[trigger] s[k])
}

/// Where `strip_trailing_count` cuts `s`: a trailing count of one to three digits,
/// introduced by a dash or by spaces, is dropped together with its separator;
/// digits stuck to the word before them are part of the name.
pub open spec fn count_cut(s: Seq<char>) -> int {
    let len = back_ws(s, 0, s.len() as int);
    let de = digits_start(s, len);
    let dc = len - de;
    if len == 0 {
        0
    } else if dc == 0 || dc > MAX_TRAILING_COUNT_DIGITS {
        len
    } else if de > 0 && s[de - 1] == '-' && back_ws(s, 0, de - 1) > 0 {
        back_ws(s, 0, de - 1)
    } else {
        let bs = spaces_start(s, de);
        if bs < de && bs > 0 && s[bs - 1] == '-' && back_ws(s, 0, bs - 1) > 0 {
            back_ws(s, 0, bs - 1)
        } else if bs < de && bs > 0 && !has_digit(s, 0, bs) {
            bs
        } else {
            len
        }
    }
}

proof fn lemma_digits_start(s: Seq<char>, j: int)
    requires
        0 <= j <= s.len(),
    ensures
        0 <= digits_start(s, j) <= j,
        forall|k: int| digits_start(s, j) <= k < j ==> is_digit(#[trigger] s[k]),
        digits_start(s, j) > 0 ==> !is_digit(s[digits_start(s, j) - 1]),
    decreases j,
{
    if j > 0 && is_digit(s[j - 1]) {
        lemma_digits_start(s, j - 1);
    }
}

proof fn lemma_spaces_start(s: Seq<char>, j: int)
    requires
        0 <= j <= s.len(),
    ensures
        0 <= spaces_start(s, j) <= j,
        spaces_start(s, j) > 0 ==> s[spaces_start(s, j) - 1] != ' ',
        forall|k: int| spaces_start(s, j) <= k < j ==> #[trigger] s[k] == ' ',
    decreases j,
{
    if j > 0 && s[j - 1] == ' ' {
        lemma_spaces_start(s, j - 1);
    }
}

fn digits_start_exec(s: &[char], j: usize) -> (r: usize)
    requires
        j <= s@.len(),
    ensures
        r as int == digits_start(s@, j as int),
{
    proof {
        lemma_digits_start(s@, j as int);
    }
    let mut k = j;
    while k > 0 && char_is_digit(s[k - 1])
        invariant
            k <= j <= s@.len(),
            digits_start(s@, k as int) == digits_start(s@, j as int),
        decreases k,
    {
        k = k - 1;
    }
    k
}

fn spaces_start_exec(s: &[char], j: usize) -> (r: usize)
    requires
        j <= s@.len(),
    ensures
        r as int == spaces_start(s@, j as int),
{
    proof {
        lemma_spaces_start(s@, j as int);
    }
    let mut k = j;
    while k > 0 && s[k - 1] == ' '
        invariant
            k <= j <= s@.len(),
            spaces_start(s@, k as int) == spaces_start(s@, j as int),
        decreases k,
    {
        k = k - 1;
    }
    k
}

fn has_digit_exec(s: &[char], lo: usize, hi: usize) -> (b: bool)
    requires
        lo <= hi <= s@.len(),
    ensures
        b == has_digit(s@, lo as int, hi as int),
{
    let mut k = lo;
    while k < hi
        invariant
            lo <= k <= hi <= s@.len(),
            forall|j: int| lo <= j < k ==> !is_digit(#[trigger] s@[j]),
        decreases hi - k,
    {
        if char_is_digit(s[k]) {
            return true;
        }
        k = k + 1;
    }
    false
}

/// Where `strip_trailing_count` cuts `s`.
pub fn count_cut_exec(s: &[char]) -> (r: usize)
    ensures
        r as int == count_cut(s@),
        r <= s@.len(),
{
    let len = back_ws_exec(s, 0, s.len());
    if len == 0 {
        return 0;
    }
    let de = digits_start_exec(s, len);
    proof {
        lemma_digits_start(s@, len as int);
    }
    let dc = len - de;
    if dc == 0 || dc > MAX_TRAILING_COUNT_DIGITS {
        return len;
    }
    if de > 0 && s[de - 1] == '-' {
        let before = back_ws_exec(s, 0, de - 1);
        if before > 0 {
            return before;
        }
    }
    let bs = spaces_start_exec(s, de);
    proof {
        lemma_spaces_start(s@, de as int);
    }
    if bs < de && bs > 0 && s[bs - 1] == '-' {
        let before_dash = back_ws_exec(s, 0, bs - 1);
        if before_dash > 0 {
            return before_dash;
        }
    }
    if bs < de && bs > 0 && !has_digit_exec(s, 0, bs) {
        return bs;
    }
    len
}

/// Strips a trailing count (`" - 7"`, `"-7"`, `" 7"`) from a district name.
pub fn strip_trailing_count(name: &str) -> (r: String)
    ensures
        r@ == name@.subrange(0, count_cut(name@)),
{
    let cs = to_chars(name);
    let cut = count_cut_exec(cs.as_slice());
    crate::text::string_of_range(cs.as_slice(), 0, cut)
}

/// `strip_trailing_count` cuts off only a count. The result is a prefix of the
/// name without its trailing whitespace, and empty only when that is empty.
/// When something is cut, the cut part is a separator of whitespace and at most
/// one dash, followed by one to three digits. A name that ends in more than three digits
/// is kept whole, and a count cut off without a dash leaves a name with no digit.
pub proof fn lemma_count_cut_only_a_count(s: Seq<char>)
    ensures
        0 <= count_cut(s) <= back_ws(s, 0, s.len() as int),
        (count_cut(s) == 0) == (back_ws(s, 0, s.len() as int) == 0),
        count_cut(s) < back_ws(s, 0, s.len() as int) ==> {
            let len = back_ws(s, 0, s.len() as int);
            let de = digits_start(s, len);
            &&& 1 <= len - de <= MAX_TRAILING_COUNT_DIGITS
            &&& forall|k: int| de <= k < len ==> is_digit(#[trigger] s[k])
            &&& count_cut(s) < de
            &&& forall|k: int| count_cut(s) <= k < de ==> #[trigger] s[k] == '-' || is_ws(s[k])
            &&& forall|k1: int, k2: int|
                count_cut(s) <= k1 < k2 < de && #[trigger] s[k1] == '-' ==> #[trigger] s[k2] != '-'
        },
        back_ws(s, 0, s.len() as int) - digits_start(s, back_ws(s, 0, s.len() as int))
            > MAX_TRAILING_COUNT_DIGITS ==> count_cut(s) == back_ws(s, 0, s.len() as int),
        (count_cut(s) < back_ws(s, 0, s.len() as int) && forall|k: int|
            count_cut(s) <= k < back_ws(s, 0, s.len() as int) ==> #[trigger] s[k] != '-')
            ==> !has_digit(s, 0, count_cut(s)),
{
    let len = back_ws(s, 0, s.len() as int);
    crate::text::lemma_back_ws_bounds(s, 0, s.len() as int);
    lemma_digits_start(s, len);
    let de = digits_start(s, len);
    if len > 0 && de > 0 && len - de >= 1 && len - de <= MAX_TRAILING_COUNT_DIGITS {
        if s[de - 1] == '-' && back_ws(s, 0, de - 1) > 0 {
            crate::text::lemma_back_ws_bounds(s, 0, de - 1);
        } else {
            lemma_spaces_start(s, de);
            let bs = spaces_start(s, de);
            if bs < de && bs > 0 && s[bs - 1] == '-' && back_ws(s, 0, bs - 1) > 0 {
                crate::text::lemma_back_ws_bounds(s, 0, bs - 1);
                assert(s[bs - 1] == '-');
            }
        }
    }
}

// ---------------------------------------------------------------------------
// Notes inside the name column
// ---------------------------------------------------------------------------
/// Where the `k`-th district note keyword is found in `s`, both in Unicode
/// lowercase: the byte offset in the lowercased text of its first occurrence,
/// when that occurrence is at a word boundary.
pub open spec fn note_keyword_hit(s: Seq<char>, k: int) -> Option<int> {
    let sl = unicode_lower(s);
    let kl = unicode_lower(district_note_keywords()[k]);
    match find(sl, kl) {
        Some(p) => if word_boundary(sl, p, kl.len() as int) {
            Some(utf8_len(sl.subrange(0, p)) as int)
        } else {
            None
        },
        None => None,
    }
}

/// The first district note keyword, from the `k`-th on in list order, found at a
/// word boundary of `s` with a non-empty name before it: the note's position in
/// `s` (the character at the keyword's byte offset).
pub open spec fn district_note_pos_from(s: Seq<char>, k: int) -> Option<int>
    decreases district_note_keywords().len() - k,
{
    if k < 0 || k >= district_note_keywords().len() {
        None
    } else {
        match note_keyword_hit(s, k) {
            Some(b) => {
                let c = chars_within(s, b);
                let tr = trim_range(s, 0, c);
                if tr.0 < tr.1 {
                    Some(c)
                } else {
                    district_note_pos_from(s, k + 1)
                }
            },
            None => district_note_pos_from(s, k + 1),
        }
    }
}

/// Each keyword hit that `strip_district_note` cuts `s` at, from the `k`-th
/// keyword on, falls on a character boundary of `s` (the cut panics otherwise).
pub open spec fn district_note_ok_from(s: Seq<char>, k: int) -> bool
    decreases district_note_keywords().len() - k,
{
    if k < 0 || k >= district_note_keywords().len() {
        true
    } else {
        match note_keyword_hit(s, k) {
            Some(b) => is_byte_boundary(s, b) && {
                let tr = trim_range(s, 0, chars_within(s, b));
                tr.0 < tr.1 || district_note_ok_from(s, k + 1)
            },
            None => district_note_ok_from(s, k + 1),
        }
    }
}

/// `strip_district_note`: the name before an embedded note keyword and the note,
/// both trimmed; the name unchanged when no keyword qualifies.
pub open spec fn district_note_split(s: Seq<char>) -> (Seq<char>, Option<Seq<char>>) {
    match district_note_pos_from(s, 0) {
        Some(p) => (trim(s.subrange(0, p)), Some(trim(s.subrange(p, s.len() as int)))),
        None => (s, None),
    }
}

proof fn lemma_district_note_pos(s: Seq<char>, k: int)
    requires
        0 <= k,
    ensures
        district_note_pos_from(s, k) matches Some(p) ==> 0 <= p <= s.len(),
    decreases district_note_keywords().len() - k,
{
    if k < district_note_keywords().len() {
        match note_keyword_hit(s, k) {
            Some(b) => crate::text::lemma_chars_within_bounds(s, b),
            None => {},
        }
        lemma_district_note_pos(s, k + 1);
    }
}

pub proof fn lemma_trim_sub(s: Seq<char>, lo: int, hi: int)
    requires
        0 <= lo <= hi <= s.len(),
    ensures
        trim(s.subrange(lo, hi)) == s.subrange(trim_range(s, lo, hi).0, trim_range(s, lo, hi).1),
{
    let t = s.subrange(lo, hi);
    lemma_skip_ws_shift(s, lo, hi, lo);
    let a = trim_range(s, lo, hi).0;
    crate::text::lemma_skip_ws_bounds(s, lo, hi);
    lemma_back_ws_shift(s, lo, hi, a, hi);
    crate::text::lemma_back_ws_bounds(s, a, hi);
    assert(t.len() == hi - lo);
    assert(crate::text::skip_ws(t, 0, t.len() as int) == a - lo);
    assert(trim(t) =~= s.subrange(trim_range(s, lo, hi).0, trim_range(s, lo, hi).1));
}

/// `skip_ws` on a subrange is `skip_ws` on the whole text, shifted.
proof fn lemma_skip_ws_shift(s: Seq<char>, lo: int, hi: int, i: int)
    requires
        0 <= lo <= i <= hi <= s.len(),
    ensures
        crate::text::skip_ws(s.subrange(lo, hi), i - lo, hi - lo) == crate::text::skip_ws(
            s,
            i,
            hi,
        ) - lo,
    decreases hi - i,
{
    if i < hi {
        assert(s.subrange(lo, hi)[i - lo] == s[i]);
        lemma_skip_ws_shift(s, lo, hi, i + 1);
    }
}

/// `back_ws` on a subrange is `back_ws` on the whole text, shifted.
proof fn lemma_back_ws_shift(s: Seq<char>, lo: int, hi: int, a: int, j: int)
    requires
        0 <= lo <= a <= j <= hi <= s.len(),
    ensures
        back_ws(s.subrange(lo, hi), a - lo, j - lo) == back_ws(s, a, j) - lo,
    decreases j - a,
{
    if a < j {
        assert(s.subrange(lo, hi)[j - 1 - lo] == s[j - 1]);
        lemma_back_ws_shift(s, lo, hi, a, j - 1);
    }
}

fn district_note_pos(s: &[char]) -> (r: Option<Option<usize>>)
    ensures
        r is Some <==> district_note_ok_from(s@, 0),
        r matches Some(x) ==> match district_note_pos_from(s@, 0) {
            Some(p) => x == Some(p as usize),
            None => x is None,
        },
{
    let ss = string_of_chars(s);
    let tls = str_to_lowercase(ss.as_str());
    let tl = to_chars(tls.as_str());
    let kws = district_note_keyword_list();
    let kls = unicode_lower_keywords(kws.as_slice());
    let ghost kspec = district_note_keywords();
    let mut k: usize = 0;
    while k < kws.len()
        invariant
            k <= kws@.len(),
            kls@.len() == kws@.len(),
            kws@.map_values(|x: &'static str| x@) == kspec,
            kspec == district_note_keywords(),
            char_views(kls@) == unicode_lower_all(kspec),
            tl@ == unicode_lower(s@),
            ss@ == s@,
            tls@ == tl@,
            district_note_ok_from(s@, k as int) == district_note_ok_from(s@, 0),
            district_note_pos_from(s@, k as int) == district_note_pos_from(s@, 0),
        decreases kws@.len() - k,
    {
        proof {
            assert(char_views(kls@)[k as int] == kls@[k as int]@);
            assert(unicode_lower_all(kspec)[k as int] == unicode_lower(kspec[k as int]));
        }
        match find_from_exec(tl.as_slice(), kls[k].as_slice(), 0) {
            Some(p) => {
                proof {
                    crate::text::lemma_find_from_props(tl@, kls@[k as int]@, 0);
                }
                if word_boundary_exec(tl.as_slice(), p, kls[k].len()) {
                    let b = byte_offset(tls.as_str(), tl.as_slice(), p);
                    let c = chars_within_exec(s, b);
                    let bb = byte_offset(ss.as_str(), s, c);
                    if bb != b {
                        return None;
                    }
                    let (a, e) = trim_range_exec(s, 0, c);
                    if a < e {
                        return Some(Some(c));
                    }
                }
            },
            None => {},
        }
        k = k + 1;
    }
    Some(None)
}

/// Removes a note embedded in the name column ("Abenaho Semula wil Prov.")
/// from a district name: returns the name and the note; `None` when a keyword
/// hit does not fall on a character boundary of the name.
pub fn strip_district_note_chars(s: &[char]) -> (r: Option<(Vec<char>, Option<Vec<char>>)>)
    ensures
        r is Some <==> district_note_ok_from(s@, 0),
        r matches Some(x) ==> x.0@ == district_note_split(s@).0 && match district_note_split(
            s@,
        ).1 {
            Some(n) => x.1 matches Some(y) && y@ == n,
            None => x.1 is None,
        },
{
    match district_note_pos(s) {
        None => None,
        Some(Some(p)) => {
            proof {
                lemma_district_note_pos(s@, 0);
                lemma_trim_sub(s@, 0, p as int);
                lemma_trim_sub(s@, p as int, s@.len() as int);
            }
            let (a, b) = trim_range_exec(s, 0, p);
            let (c, d) = trim_range_exec(s, p, s.len());
            Some((copy_range(s, a, b), Some(copy_range(s, c, d))))
        },
        Some(None) => {
            let all = copy_range(s, 0, s.len());
            proof {
                assert(s@.subrange(0, s@.len() as int) =~= s@);
            }
            Some((all, None))
        },
    }
}

/// Applies note keyword stripping to a district name.
pub fn strip_district_note(name: &str) -> (r: (String, Option<String>))
    requires
        district_note_ok_from(name@, 0),
    ensures
        r.0@ == district_note_split(name@).0,
        match district_note_split(name@).1 {
            Some(n) => r.1 matches Some(x) && x@ == n,
            None => r.1 is None,
        },
{
    let cs = to_chars(name);
    match strip_district_note_chars(cs.as_slice()) {
        Some((n, note)) => {
            let note_s = match note {
                Some(x) => Some(string_of_chars(x.as_slice())),
                None => None,
            };
            (string_of_chars(n.as_slice()), note_s)
        },
        None => {
            proof {
                assert(false);
            }
            (String::new(), None)
        },
    }
}

/// [`strip_district_note`] on any name: `None` where a keyword hit would cut the
/// name inside a character.
pub fn try_strip_district_note(name: &str) -> (r: Option<(String, Option<String>)>)
    ensures
        r is Some <==> district_note_ok_from(name@, 0),
        r matches Some(x) ==> x.0@ == district_note_split(name@).0 && match district_note_split(
            name@,
        ).1 {
            Some(n) => x.1 matches Some(y) && y@ == n,
            None => x.1 is None,
        },
{
    let cs = to_chars(name);
    match strip_district_note_chars(cs.as_slice()) {
        Some(_) => Some(strip_district_note(name)),
        None => None,
    }
}

// ---------------------------------------------------------------------------
// Notes and counts after the name column
// ---------------------------------------------------------------------------
/// Where the earliest district note keyword is found in `s` (both in Unicode
/// lowercase): its byte offset in the lowercased text.
pub open spec fn suffix_note_byte(s: Seq<char>) -> Option<int> {
    match earliest_keyword_unicode(s, district_note_keywords(), false) {
        Some(h) => Some(utf8_len(unicode_lower(s).subrange(0, h.0)) as int),
        None => None,
    }
}

/// The keyword's byte offset falls on a character boundary of `s` (the cut
/// panics otherwise).
pub open spec fn suffix_note_ok(s: Seq<char>) -> bool {
    match suffix_note_byte(s) {
        Some(b) => is_byte_boundary(s, b),
        None => true,
    }
}

/// The note in the columns after the name: the text from the earliest district
/// note keyword on, trimmed.
pub open spec fn suffix_note(s: Seq<char>) -> Option<Seq<char>> {
    match suffix_note_byte(s) {
        Some(b) => Some(trim(s.subrange(chars_within(s, b), s.len() as int))),
        None => None,
    }
}

/// The note in the columns after the name; `None` when the keyword's byte
/// offset does not fall on a character boundary.
pub fn suffix_note_chars(s: &[char]) -> (r: Option<Option<Vec<char>>>)
    ensures
        r is Some <==> suffix_note_ok(s@),
        r matches Some(x) ==> match suffix_note(s@) {
            Some(n) => x matches Some(y) && y@ == n,
            None => x is None,
        },
{
    let ss = string_of_chars(s);
    let kws = district_note_keyword_list();
    match find_earliest_keyword(ss.as_str(), kws.as_slice(), false) {
        Some((b, _)) => {
            let c = chars_within_exec(s, b);
            let bb = byte_offset(ss.as_str(), s, c);
            if bb != b {
                return None;
            }
            proof {
                lemma_trim_sub(s@, c as int, s@.len() as int);
            }
            let (a, e) = trim_range_exec(s, c, s.len());
            Some(Some(copy_range(s, a, e)))
        },
        None => Some(None),
    }
}

/// Extracts an annotation note from the suffix after the district name column.
pub fn extract_suffix_note(suffix: String) -> (r: Option<String>)
    requires
        suffix_note_ok(suffix@),
    ensures
        match suffix_note(suffix@) {
            Some(n) => r matches Some(x) && x@ == n,
            None => r is None,
        },
{
    let cs = to_chars(suffix.as_str());
    match suffix_note_chars(cs.as_slice()) {
        Some(Some(x)) => Some(string_of_chars(x.as_slice())),
        Some(None) => None,
        None => {
            proof {
                assert(false);
            }
            None
        },
    }
}

/// [`extract_suffix_note`] on any suffix: `None` where the note would be cut
/// inside a character.
pub fn try_extract_suffix_note(suffix: String) -> (r: Option<Option<String>>)
    ensures
        r is Some <==> suffix_note_ok(suffix@),
        r matches Some(x) ==> match suffix_note(suffix@) {
            Some(n) => x matches Some(y) && y@ == n,
            None => x is None,
        },
{
    let cs = to_chars(suffix.as_str());
    match suffix_note_chars(cs.as_slice()) {
        Some(_) => Some(extract_suffix_note(suffix)),
        None => None,
    }
}

/// A count column: `-` stands for zero, otherwise a `u32`.
pub open spec fn count_value(s: Seq<char>) -> Option<u32> {
    if s == seq!['-'] {
        Some(0)
    } else {
        match parse_uint(s, u32::MAX as nat) {
            Some(v) => Some(v as u32),
            None => None,
        }
    }
}

/// Kel/desa counts at the head of the columns after the name, and where the
/// remaining (note) columns start.
pub open spec fn suffix_counts(parts: Seq<Seq<char>>) -> (Option<u32>, Option<u32>, int) {
    if parts.len() == 0 {
        (None, None, 0)
    } else {
        match count_value(parts[0]) {
            None => (None, None, 0),
            Some(kel) => if parts.len() > 1 && count_value(parts[1]) is Some {
                (Some(kel), count_value(parts[1]), 2)
            } else {
                (Some(kel), None, 1)
            },
        }
    }
}

pub fn count_value_exec(s: &[char]) -> (r: Option<u32>)
    ensures
        r == count_value(s@),
{
    if s.len() == 1 && s[0] == '-' {
        proof {
            assert(s@ =~= seq!['-']);
        }
        return Some(0);
    }
    proof {
        if s@ == seq!['-'] {
            assert(s@.len() == 1);
        }
        assert(s@.subrange(0, s@.len() as int) =~= s@);
    }
    match parse_u64_range(s, 0, s.len()) {
        Some(v) => if v <= u32::MAX as u64 {
            Some(v as u32)
        } else {
            None
        },
        None => None,
    }
}

/// Kel/desa counts from the columns after the district name.
pub fn suffix_counts_chars(parts: &[Vec<char>]) -> (r: (Option<u32>, Option<u32>, usize))
    ensures
        r.0 == suffix_counts(views(parts@)).0,
        r.1 == suffix_counts(views(parts@)).1,
        r.2 as int == suffix_counts(views(parts@)).2,
{
    if parts.len() == 0 {
        return (None, None, 0);
    }
    match count_value_exec(parts[0].as_slice()) {
        None => (None, None, 0),
        Some(kel) => {
            if parts.len() > 1 {
                match count_value_exec(parts[1].as_slice()) {
                    Some(desa) => {
                        return (Some(kel), Some(desa), 2);
                    },
                    None => {},
                }
            }
            (Some(kel), None, 1)
        },
    }
}

/// Parses kel/desa counts from the suffix parts after the district name.
pub fn parse_suffix_counts(suffix_parts: &[&str]) -> (r: (Option<u32>, Option<u32>, usize))
    ensures
        r.0 == suffix_counts(suffix_parts@.map_values(|s: &str| s@)).0,
        r.1 == suffix_counts(suffix_parts@.map_values(|s: &str| s@)).1,
        r.2 as int == suffix_counts(suffix_parts@.map_values(|s: &str| s@)).2,
{
    let mut parts: Vec<Vec<char>> = Vec::new();
    let mut i: usize = 0;
    while i < suffix_parts.len()
        invariant
            i <= suffix_parts@.len(),
            parts@.len() == i,
            forall|j: int| 0 <= j < i ==> (#[trigger] parts@[j])@ == suffix_parts@[j]@,
        decreases suffix_parts@.len() - i,
    {
        parts.push(to_chars(suffix_parts[i]));
        i = i + 1;
    }
    proof {
        assert(views(parts@) =~= suffix_parts@.map_values(|s: &str| s@));
    }
    suffix_counts_chars(parts.as_slice())
}

// ---------------------------------------------------------------------------
// The whole kecamatan line
// ---------------------------------------------------------------------------
/// What is extracted from a kecamatan line.
pub struct ExtractedDistrict {
    /// The cleaned district name.
    pub name: String,
    /// Annotation text from the kecamatan line.
    pub note: Option<String>,
    /// Number of kelurahan in this kecamatan (0 if explicitly "-").
    pub kel_count: Option<u32>,
    /// Number of desa in this kecamatan (0 if explicitly "-").
    pub desa_count: Option<u32>,
}

/// The model of an extracted district.
pub struct DistrictModel {
    pub name: Seq<char>,
    pub note: Option<Seq<char>>,
    pub kel_count: Option<u32>,
    pub desa_count: Option<u32>,
}

pub open spec fn opt_view(o: Option<String>) -> Option<Seq<char>> {
    match o {
        Some(s) => Some(s@),
        None => None,
    }
}

impl View for ExtractedDistrict {
    type V = DistrictModel;

    open spec fn view(&self) -> DistrictModel {
        DistrictModel {
            name: self.name@,
            note: opt_view(self.note),
            kel_count: self.kel_count,
            desa_count: self.desa_count,
        }
    }
}

/// The name column and where the columns after it start.
pub open spec fn name_column(parts: Seq<Seq<char>>) -> (Seq<char>, int) {
    if parts.len() > 0 && kecamatan_code_shape(parts[0]) {
        if parts.len() > 1 {
            (parts[1], 2)
        } else {
            (parts[0], parts.len() as int)
        }
    } else {
        (if parts.len() > 0 {
            parts[0]
        } else {
            Seq::empty()
        }, 1)
    }
}

/// The district extracted from a kecamatan line: the code and row number are
/// skipped, the rest is split into columns, the name column (the one after a
/// repeated code, in the listing layout) loses its trailing count and embedded
/// note, the counts follow, and a note is taken from the name column or else
/// from the remaining columns.
pub open spec fn district_of(after_prefix: Seq<char>) -> DistrictModel {
    let nr = code_prefix_rest(trim(after_prefix));
    let parts = columns(nr);
    let nc = name_column(parts);
    let stripped = nc.0.subrange(0, count_cut(nc.0));
    let split = district_note_split(stripped);
    let from = if nc.1 < parts.len() {
        nc.1
    } else {
        parts.len() as int
    };
    let sp = parts.subrange(from, parts.len() as int);
    let counts = suffix_counts(sp);
    let rem = sp.subrange(counts.2, sp.len() as int);
    let snote = if rem.len() > 0 {
        suffix_note(join(rem, seq![' ']))
    } else {
        None
    };
    DistrictModel {
        name: split.0,
        note: if split.1 is Some {
            split.1
        } else {
            snote
        },
        kel_count: counts.0,
        desa_count: counts.1,
    }
}

/// Every note that [`district_of`] cuts from the kecamatan line falls on a
/// character boundary (the cut panics otherwise).
pub open spec fn district_ok(after_prefix: Seq<char>) -> bool {
    let nr = code_prefix_rest(trim(after_prefix));
    let parts = columns(nr);
    let nc = name_column(parts);
    let stripped = nc.0.subrange(0, count_cut(nc.0));
    let from = if nc.1 < parts.len() {
        nc.1
    } else {
        parts.len() as int
    };
    let sp = parts.subrange(from, parts.len() as int);
    let counts = suffix_counts(sp);
    let rem = sp.subrange(counts.2, sp.len() as int);
    &&& district_note_ok_from(stripped, 0)
    &&& rem.len() > 0 ==> suffix_note_ok(join(rem, seq![' ']))
}

/// Extracts the district name, annotation note and counts from a kecamatan line.
pub fn extract_district_name(after_prefix: &str) -> (r: ExtractedDistrict)
    requires
        district_ok(after_prefix@),
    ensures
        r@ == district_of(after_prefix@),
{
    match extract_district_name_checked(after_prefix) {
        Some(d) => d,
        None => {
            proof {
                assert(false);
            }
            ExtractedDistrict { name: String::new(), note: None, kel_count: None, desa_count: None }
        },
    }
}

/// [`extract_district_name`] on any line: `None` where a note would be cut
/// inside a character.
pub fn extract_district_name_checked(after_prefix: &str) -> (r: Option<ExtractedDistrict>)
    ensures
        r is Some <==> district_ok(after_prefix@),
        r matches Some(d) ==> d@ == district_of(after_prefix@),
{
    let line = to_chars(after_prefix);
    let (ta, tb) = trim_range_exec(line.as_slice(), 0, line.len());
    let trimmed = copy_range(line.as_slice(), ta, tb);
    proof {
        assert(trimmed@ == trim(after_prefix@));
    }
    let (na, nb) = skip_code_prefix_range(trimmed.as_slice());
    let nr = copy_range(trimmed.as_slice(), na, nb);
    let ranges = column_ranges(nr.as_slice());
    let mut parts: Vec<Vec<char>> = Vec::new();
    let mut i: usize = 0;
    while i < ranges.len()
        invariant
            i <= ranges@.len(),
            ranges@.len() == columns_from(nr@, 0).len(),
            forall|j: int|
                0 <= j < ranges@.len() ==> (#[trigger] ranges@[j]).0 == columns_from(nr@, 0)[j].0
                    && ranges@[j].1 == columns_from(nr@, 0)[j].1,
            forall|j: int| 0 <= j < ranges@.len() ==> (#[trigger] ranges@[j]).0 < ranges@[j].1 <= nr@.len(),
            parts@.len() == i,
            forall|j: int| 0 <= j < i ==> (#[trigger] parts@[j])@ == columns(nr@)[j],
        decreases ranges@.len() - i,
    {
        let (a, b) = ranges[i];
        parts.push(copy_range(nr.as_slice(), a, b));
        i = i + 1;
    }
    let ghost pv = views(parts@);
    proof {
        assert(pv =~= columns(nr@));
    }
    let (raw_name, suffix_start): (Vec<char>, usize) = if parts.len() > 0
        && kecamatan_code_shape_exec(parts[0].as_slice()) {
        if parts.len() > 1 {
            (copy_range(parts[1].as_slice(), 0, parts[1].len()), 2)
        } else {
            (copy_range(parts[0].as_slice(), 0, parts[0].len()), parts.len())
        }
    } else if parts.len() > 0 {
        (copy_range(parts[0].as_slice(), 0, parts[0].len()), 1)
    } else {
        (Vec::new(), 1)
    };
    proof {
        let nc = name_column(pv);
        if parts@.len() > 1 {
            assert(parts@[1]@.subrange(0, parts@[1]@.len() as int) =~= parts@[1]@);
        }
        if parts@.len() > 0 {
            assert(parts@[0]@.subrange(0, parts@[0]@.len() as int) =~= parts@[0]@);
        }
        assert(raw_name@ =~= nc.0);
        assert(suffix_start as int == nc.1);
    }
    let cut = count_cut_exec(raw_name.as_slice());
    let stripped = copy_range(raw_name.as_slice(), 0, cut);
    let (cleaned, name_note) = match strip_district_note_chars(stripped.as_slice()) {
        Some(x) => x,
        None => {
            return None;
        },
    };
    let from = if suffix_start < parts.len() {
        suffix_start
    } else {
        parts.len()
    };
    let mut sp: Vec<Vec<char>> = Vec::new();
    let mut k = from;
    while k < parts.len()
        invariant
            from <= k <= parts@.len(),
            sp@.len() == k - from,
            forall|j: int| 0 <= j < sp@.len() ==> (#[trigger] sp@[j])@ == parts@[from + j]@,
        decreases parts@.len() - k,
    {
        sp.push(copy_range(parts[k].as_slice(), 0, parts[k].len()));
        proof {
            assert(parts@[k as int]@.subrange(0, parts@[k as int]@.len() as int)
                =~= parts@[k as int]@);
        }
        k = k + 1;
    }
    proof {
        assert(views(sp@) =~= pv.subrange(from as int, pv.len() as int));
    }
    let (kel_count, desa_count, ns) = suffix_counts_chars(sp.as_slice());
    let mut rem: Vec<Vec<char>> = Vec::new();
    let mut k = ns;
    while k < sp.len()
        invariant
            ns <= k <= sp@.len(),
            rem@.len() == k - ns,
            forall|j: int| 0 <= j < rem@.len() ==> (#[trigger] rem@[j])@ == sp@[ns + j]@,
        decreases sp@.len() - k,
    {
        rem.push(copy_range(sp[k].as_slice(), 0, sp[k].len()));
        proof {
            assert(sp@[k as int]@.subrange(0, sp@[k as int]@.len() as int) =~= sp@[k as int]@);
        }
        k = k + 1;
    }
    proof {
        assert(views(rem@) =~= views(sp@).subrange(ns as int, views(sp@).len() as int));
    }
    let suffix_note_v: Option<Vec<char>> = if rem.len() > 0 {
        let sep: Vec<char> = vec![' '];
        let joined = join_chars(rem.as_slice(), sep.as_slice());
        proof {
            assert(sep@ =~= seq![' ']);
        }
        match suffix_note_chars(joined.as_slice()) {
            Some(x) => x,
            None => {
                return None;
            },
        }
    } else {
        None
    };
    let note_v = match name_note {
        Some(n) => Some(n),
        None => suffix_note_v,
    };
    let note = match note_v {
        Some(n) => Some(string_of_chars(n.as_slice())),
        None => None,
    };
    Some(
        ExtractedDistrict {
            name: string_of_chars(cleaned.as_slice()),
            note,
            kel_count,
            desa_count,
        },
    )
}

} // verus!
