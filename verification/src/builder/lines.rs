//! Recognizing the kinds of line in the decree text: section headers,
//! kecamatan lines and village lines.
use vstd::prelude::*;

use crate::builder::columns::{kecamatan_code_shape, kecamatan_code_shape_exec};
use crate::builder::village::{digit_end, digit_end_exec, lemma_digit_end};
use crate::text::{
    char_is_digit, char_is_ws, copy_range, find, find_from_exec, is_digit, is_ws, newline_from,
    newline_from_exec, skip_ws, skip_ws_exec, string_of_chars, to_chars, trim, trim_range_exec,
};

verus! {

// ---------------------------------------------------------------------------
// Section headers: `C.<word>.<number>) <city> Provinsi <province>`
// ---------------------------------------------------------------------------
/// A word character of a section header tag: ASCII letter, digit or underscore.
pub open spec fn is_word_char(c: char) -> bool {
    ('a' <= c && c <= 'z') || ('A' <= c && c <= 'Z') || ('0' <= c && c <= '9') || c == '_'
}

pub fn char_is_word(c: char) -> (b: bool)
    ensures
        b == is_word_char(c),
{
    ('a' <= c && c <= 'z') || ('A' <= c && c <= 'Z') || ('0' <= c && c <= '9') || c == '_'
}

/// The end of the run of word characters that starts at `i`.
pub open spec fn word_char_end(s: Seq<char>, i: int) -> int
    decreases s.len() - i,
{
    if 0 <= i < s.len() && is_word_char(s[i]) {
        word_char_end(s, i + 1)
    } else {
        i
    }
}

pub proof fn lemma_word_char_end(s: Seq<char>, i: int)
    requires
        0 <= i <= s.len(),
    ensures
        i <= word_char_end(s, i) <= s.len(),
    decreases s.len() - i,
{
    if 0 <= i < s.len() && is_word_char(s[i]) {
        lemma_word_char_end(s, i + 1);
    }
}

fn word_char_end_exec(s: &[char], i: usize) -> (r: usize)
    requires
        i <= s@.len(),
    ensures
        r as int == word_char_end(s@, i as int),
        i <= r <= s@.len(),
{
    proof {
        lemma_word_char_end(s@, i as int);
    }
    let mut k = i;
    while k < s.len() && char_is_word(s[k])
        invariant
            i <= k <= s@.len(),
            word_char_end(s@, k as int) == word_char_end(s@, i as int),
        decreases s@.len() - k,
    {
        k = k + 1;
    }
    k
}

/// The tag `C.<word>.<digits>)` followed by whitespace starts at `p`; the
/// position of that whitespace.
pub open spec fn header_tag_at(s: Seq<char>, p: int) -> Option<int> {
    if 0 <= p && p + 1 < s.len() && s[p] == 'C' && s[p + 1] == '.' {
        let w = word_char_end(s, p + 2);
        if w > p + 2 && w < s.len() && s[w] == '.' {
            let d = digit_end(s, w + 1);
            if d > w + 1 && d + 1 < s.len() && s[d] == ')' && is_ws(s[d + 1]) {
                Some(d + 1)
            } else {
                None
            }
        } else {
            None
        }
    } else {
        None
    }
}

/// `s[i..j]` holds no line feed.
pub open spec fn no_newline(s: Seq<char>, i: int, j: int) -> bool {
    forall|k: int| i <= k < j ==> #[trigger] s[k] != '\n'
}

/// A section header matches at `p`: the tag, whitespace, then the rest of the
/// text up to its end without a line feed.
pub open spec fn header_at(s: Seq<char>, p: int) -> bool {
    match header_tag_at(s, p) {
        Some(b0) => {
            let b = skip_ws(s, b0, s.len() as int);
            (b < s.len() && no_newline(s, b, s.len() as int)) || (b == s.len() && s.len() - 1 > b0
                && s[s.len() - 1] != '\n')
        },
        None => false,
    }
}

/// The first position at or after `p` where a section header matches.
pub open spec fn first_header(s: Seq<char>, p: int) -> Option<int>
    decreases s.len() - p,
{
    if p < 0 || p >= s.len() {
        None
    } else if header_at(s, p) {
        Some(p)
    } else {
        first_header(s, p + 1)
    }
}

/// The marker that separates the city from the province in a header.
pub open spec fn provinsi_marker() -> Seq<char> {
    "Provinsi "@
}

/// A section header line: its city part (possibly empty) and its province part,
/// split where `"Provinsi "` first occurs in the text after the tag.
pub open spec fn section_header(s: Seq<char>) -> Option<(Seq<char>, Seq<char>)> {
    match first_header(s, 0) {
        Some(p) => {
            let b0 = header_tag_at(s, p)->0;
            let b = skip_ws(s, b0, s.len() as int);
            if b < s.len() {
                let text = s.subrange(b, s.len() as int);
                match find(text, provinsi_marker()) {
                    Some(i) => Some(
                        (trim(text.subrange(0, i)), trim(text.subrange(i, text.len() as int))),
                    ),
                    None => None,
                }
            } else {
                None
            }
        },
        None => None,
    }
}

fn header_tag_at_exec(s: &[char], p: usize) -> (r: Option<usize>)
    requires
        p < s@.len(),
    ensures
        match header_tag_at(s@, p as int) {
            Some(b0) => r == Some(b0 as usize),
            None => r is None,
        },
{
    let n = s.len();
    if p + 1 < n && s[p] == 'C' && s[p + 1] == '.' {
        let w = word_char_end_exec(s, p + 2);
        if w > p + 2 && w < n && s[w] == '.' {
            let d = digit_end_exec(s, w + 1);
            if d > w + 1 && d < n - 1 && s[d] == ')' && char_is_ws(s[d + 1]) {
                return Some(d + 1);
            }
        }
    }
    None
}

fn no_newline_exec(s: &[char], i: usize, j: usize) -> (b: bool)
    requires
        i <= j <= s@.len(),
    ensures
        b == no_newline(s@, i as int, j as int),
{
    let mut k = i;
    while k < j
        invariant
            i <= k <= j <= s@.len(),
            no_newline(s@, i as int, k as int),
        decreases j - k,
    {
        if s[k] == '\n' {
            return false;
        }
        k = k + 1;
    }
    true
}

fn header_at_exec(s: &[char], p: usize) -> (b: bool)
    requires
        p < s@.len(),
    ensures
        b == header_at(s@, p as int),
{
    let n = s.len();
    match header_tag_at_exec(s, p) {
        Some(b0) => {
            let b = skip_ws_exec(s, b0, n);
            (b < n && no_newline_exec(s, b, n)) || (b == n && n - 1 > b0 && s[n - 1] != '\n')
        },
        None => false,
    }
}

/// A parsed section header: the city (possibly empty) and the province.
pub struct SectionHeader {
    pub province: String,
    pub city: String,
}

pub fn section_header_chars(s: &[char]) -> (r: Option<(Vec<char>, Vec<char>)>)
    ensures
        match section_header(s@) {
            Some(h) => r matches Some(x) && x.0@ == h.0 && x.1@ == h.1,
            None => r is None,
        },
{
    let n = s.len();
    let mut p: usize = 0;
    while p < n
        invariant
            p <= n,
            n == s@.len(),
            first_header(s@, p as int) == first_header(s@, 0),
        decreases n - p,
    {
        if header_at_exec(s, p) {
            let b0 = match header_tag_at_exec(s, p) {
                Some(x) => x,
                None => 0,
            };
            let b = skip_ws_exec(s, b0, n);
            if b >= n {
                return None;
            }
            let text = copy_range(s, b, n);
            let marker = to_chars("Provinsi ");
            match find_from_exec(text.as_slice(), marker.as_slice(), 0) {
                Some(i) => {
                    proof {
                        crate::text::lemma_find_from_props(text@, marker@, 0);
                        crate::builder::district::lemma_trim_sub(text@, 0, i as int);
                        crate::builder::district::lemma_trim_sub(
                            text@,
                            i as int,
                            text@.len() as int,
                        );
                    }
                    let (ca, cb) = trim_range_exec(text.as_slice(), 0, i);
                    let (pa, pb) = trim_range_exec(text.as_slice(), i, text.len());
                    return Some(
                        (copy_range(text.as_slice(), ca, cb), copy_range(text.as_slice(), pa, pb)),
                    );
                },
                None => {
                    return None;
                },
            }
        }
        p = p + 1;
    }
    None
}

/// Parses a section header line (e.g. `C.Kabupaten.1) Kabupaten Bogor Provinsi Jawa Barat`).
pub fn parse_section_header(line: &str) -> (r: Option<SectionHeader>)
    ensures
        match section_header(line@) {
            Some(h) => r matches Some(x) && x.city@ == h.0 && x.province@ == h.1,
            None => r is None,
        },
{
    let cs = to_chars(line);
    match section_header_chars(cs.as_slice()) {
        Some((city, province)) => Some(
            SectionHeader {
                province: string_of_chars(province.as_slice()),
                city: string_of_chars(city.as_slice()),
            },
        ),
        None => None,
    }
}

// ---------------------------------------------------------------------------
// Kecamatan lines: `[ws] XX.XX.XX ws <number> ws <A-Z or 0-9>...`
// ---------------------------------------------------------------------------
/// A kecamatan line: optional leading whitespace, the `XX.XX.XX` code,
/// whitespace, a row number, whitespace and an uppercase letter or digit.
/// The position of the code.
pub open spec fn kecamatan_line(s: Seq<char>) -> Option<int> {
    let a = skip_ws(s, 0, s.len() as int);
    if a + 8 <= s.len() && kecamatan_code_shape(s.subrange(a, a + 8)) && a + 8 < s.len()
        && is_ws(s[a + 8]) {
        let d0 = skip_ws(s, a + 8, s.len() as int);
        let d1 = digit_end(s, d0);
        if d1 > d0 && d1 < s.len() && is_ws(s[d1]) {
            let c0 = skip_ws(s, d1, s.len() as int);
            if c0 < s.len() && (('A' <= s[c0] && s[c0] <= 'Z') || is_digit(s[c0])) {
                Some(a)
            } else {
                None
            }
        } else {
            None
        }
    } else {
        None
    }
}

pub fn kecamatan_line_exec(s: &[char]) -> (r: Option<usize>)
    ensures
        match kecamatan_line(s@) {
            Some(a) => r matches Some(x) && x as int == a && x + 8 <= s@.len(),
            None => r is None,
        },
{
    let n = s.len();
    let a = skip_ws_exec(s, 0, n);
    if a < n && n - a > 8 {
        let code = copy_range(s, a, a + 8);
        if kecamatan_code_shape_exec(code.as_slice()) && char_is_ws(s[a + 8]) {
            let d0 = skip_ws_exec(s, a + 8, n);
            let d1 = digit_end_exec(s, d0);
            if d1 > d0 && d1 < n && char_is_ws(s[d1]) {
                let c0 = skip_ws_exec(s, d1, n);
                if c0 < n && (('A' <= s[c0] && s[c0] <= 'Z') || char_is_digit(s[c0])) {
                    return Some(a);
                }
            }
        }
    }
    proof {
        if a + 8 == n {
            assert(!(a + 8 < s@.len()));
        }
    }
    None
}

// ---------------------------------------------------------------------------
// Village lines: `XX.XX.XX.XXXX` at the start, then whitespace or the end
// ---------------------------------------------------------------------------
/// `s` has the `XX.XX.XX.XXXX` village code shape.
pub open spec fn village_code_shape(s: Seq<char>) -> bool {
    &&& s.len() == 13
    &&& s[2] == '.' && s[5] == '.' && s[8] == '.'
    &&& is_digit(s[0]) && is_digit(s[1]) && is_digit(s[3]) && is_digit(s[4])
    &&& is_digit(s[6]) && is_digit(s[7]) && is_digit(s[9]) && is_digit(s[10])
    &&& is_digit(s[11]) && is_digit(s[12])
}

/// A village line starts with a village code followed by whitespace or the end.
pub open spec fn village_line(s: Seq<char>) -> bool {
    &&& s.len() >= 13
    &&& village_code_shape(s.subrange(0, 13))
    &&& (s.len() == 13 || is_ws(s[13]))
}

pub fn village_line_exec(s: &[char]) -> (b: bool)
    ensures
        b == village_line(s@),
{
    if s.len() < 13 {
        return false;
    }
    let ok = s[2] == '.' && s[5] == '.' && s[8] == '.' && char_is_digit(s[0]) && char_is_digit(
        s[1],
    ) && char_is_digit(s[3]) && char_is_digit(s[4]) && char_is_digit(s[6]) && char_is_digit(s[7])
        && char_is_digit(s[9]) && char_is_digit(s[10]) && char_is_digit(s[11]) && char_is_digit(
        s[12],
    );
    proof {
        let c = s@.subrange(0, 13);
        assert(c[0] == s@[0] && c[1] == s@[1] && c[2] == s@[2] && c[3] == s@[3] && c[4] == s@[4]);
        assert(c[5] == s@[5] && c[6] == s@[6] && c[7] == s@[7] && c[8] == s@[8] && c[9] == s@[9]);
        assert(c[10] == s@[10] && c[11] == s@[11] && c[12] == s@[12]);
    }
    ok && (s.len() == 13 || char_is_ws(s[13]))
}

} // verus!
