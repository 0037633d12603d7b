//! Section D.c of the decree: the islands of each regency/city, with their
//! coordinates, area, status (`BP`/`TBP`) and annotation.
use vstd::prelude::*;

use crate::builder::district::opt_view;
use crate::builder::tables::{
    city_code_at, double_ws_exec, double_ws_from, island_summary_models, lemma_double_ws_from,
    lemma_trim_sub_range, parse_section_db, section_db, starts_with, IslandSummary,
};
use crate::builder::village::{digit_end, digit_end_exec, word_list, words};
use crate::text::{
    char_is_digit, char_is_ws, copy_range, is_digit, is_ws, lines, lower, lower_chars, push_all,
    skip_ws, skip_ws_exec, string_of_chars, text_lines, to_chars, trim, trim_range_exec, views,
    word_end, word_end_exec,
};

verus! {

// ---------------------------------------------------------------------------
// Float literals
// ---------------------------------------------------------------------------
/// `t` is exactly `pat` up to ASCII case.
pub open spec fn ascii_ci_eq(t: Seq<char>, pat: Seq<char>) -> bool {
    lower(t) == pat
}

/// The unsigned part of a float literal: digits with an optional fraction (at
/// least one digit in all), then an optional exponent.
pub open spec fn decimal_literal(b: Seq<char>) -> bool {
    let n = b.len() as int;
    let i = digit_end(b, 0);
    let frac = i < n && b[i] == '.';
    let j = if frac {
        digit_end(b, i + 1)
    } else {
        i
    };
    let mantissa = if frac {
        i > 0 || j > i + 1
    } else {
        i > 0
    };
    let s = if j + 1 < n && (b[j + 1] == '+' || b[j + 1] == '-') {
        j + 2
    } else {
        j + 1
    };
    mantissa && (j == n || ((b[j] == 'e' || b[j] == 'E') && digit_end(b, s) > s && digit_end(b, s)
        == n))
}

/// A text that `str::parse::<f64>` accepts: an optional sign, then `inf`,
/// `infinity` or `nan` in any ASCII case, or a decimal literal.
pub open spec fn float_literal(t: Seq<char>) -> bool {
    let b = if t.len() > 0 && (t[0] == '+' || t[0] == '-') {
        t.skip(1)
    } else {
        t
    };
    ||| ascii_ci_eq(b, "inf"@)
    ||| ascii_ci_eq(b, "infinity"@)
    ||| ascii_ci_eq(b, "nan"@)
    ||| decimal_literal(b)
}

fn vec_eq_str(a: &[char], b: &str) -> (r: bool)
    ensures
        r == (a@ == b@),
{
    let bc = to_chars(b);
    crate::builder::village::vec_eq(a, bc.as_slice())
}

fn decimal_literal_exec(b: &[char]) -> (r: bool)
    ensures
        r == decimal_literal(b@),
{
    let n = b.len();
    let i = digit_end_exec(b, 0);
    let frac = i < n && b[i] == '.';
    let j = if frac {
        digit_end_exec(b, i + 1)
    } else {
        i
    };
    let mantissa = if frac {
        i > 0 || j > i + 1
    } else {
        i > 0
    };
    if !mantissa {
        return false;
    }
    if j == n {
        return true;
    }
    if !(b[j] == 'e' || b[j] == 'E') {
        return false;
    }
    let s = if j + 1 < n && (b[j + 1] == '+' || b[j + 1] == '-') {
        j + 2
    } else {
        j + 1
    };
    let k = digit_end_exec(b, s);
    k > s && k == n
}

pub fn float_literal_exec(t: &[char]) -> (r: bool)
    ensures
        r == float_literal(t@),
{
    let signed = t.len() > 0 && (t[0] == '+' || t[0] == '-');
    let b = if signed {
        copy_range(t, 1, t.len())
    } else {
        copy_range(t, 0, t.len())
    };
    proof {
        assert(t@.subrange(1, t@.len() as int) =~= t@.skip(1));
        assert(t@.subrange(0, t@.len() as int) =~= t@);
    }
    let bl = lower_chars(b.as_slice());
    vec_eq_str(bl.as_slice(), "inf") || vec_eq_str(bl.as_slice(), "infinity") || vec_eq_str(
        bl.as_slice(),
        "nan",
    ) || decimal_literal_exec(b.as_slice())
}

// ---------------------------------------------------------------------------
// Coordinates
// ---------------------------------------------------------------------------
pub open spec fn dig(s: Seq<char>, i: int) -> bool {
    0 <= i < s.len() && is_digit(s[i])
}

pub open spec fn ch(s: Seq<char>, i: int, c: char) -> bool {
    0 <= i < s.len() && s[i] == c
}

/// Latitude degrees at `a` (one or two digits and `°`): where the minutes start.
pub open spec fn lat_deg_end(s: Seq<char>, a: int) -> Option<int> {
    if dig(s, a) && dig(s, a + 1) && ch(s, a + 2, '°') {
        Some(a + 3)
    } else if dig(s, a) && ch(s, a + 1, '°') {
        Some(a + 2)
    } else {
        None
    }
}

/// Longitude degrees at `a` (two or three digits and `°`): where the minutes start.
pub open spec fn lon_deg_end(s: Seq<char>, a: int) -> Option<int> {
    if dig(s, a) && dig(s, a + 1) && dig(s, a + 2) && ch(s, a + 3, '°') {
        Some(a + 4)
    } else if dig(s, a) && dig(s, a + 1) && ch(s, a + 2, '°') {
        Some(a + 3)
    } else {
        None
    }
}

/// Minutes at `a` (two digits and `'`): where the seconds start.
pub open spec fn min_end(s: Seq<char>, a: int) -> Option<int> {
    if dig(s, a) && dig(s, a + 1) && ch(s, a + 2, '\'') {
        Some(a + 3)
    } else {
        None
    }
}

/// Seconds at `a` (two digits, an optional fraction, and `"`): where the `"` stands.
pub open spec fn sec_end(s: Seq<char>, a: int) -> Option<int> {
    if dig(s, a) && dig(s, a + 1) {
        if ch(s, a + 2, '"') {
            Some(a + 2)
        } else if ch(s, a + 2, '.') && dig(s, a + 3) && ch(s, digit_end(s, a + 3), '"') {
            Some(digit_end(s, a + 3))
        } else {
            None
        }
    } else {
        None
    }
}

/// A coordinate pair found in the text.
pub struct CoordModel {
    pub lat_deg: Seq<char>,
    pub lat_min: Seq<char>,
    pub lat_sec: Seq<char>,
    pub lat_dir: char,
    pub lon_deg: Seq<char>,
    pub lon_min: Seq<char>,
    pub lon_sec: Seq<char>,
    pub lon_dir: char,
    pub start: int,
    pub end: int,
}

/// The longitude half of a coordinate pair, from `v` on.
pub open spec fn lon_at(s: Seq<char>, v: int) -> Option<(int, int, int, int)> {
    let n = s.len() as int;
    match lon_deg_end(s, v) {
        None => None,
        Some(p3) => match min_end(s, p3) {
            None => None,
            Some(p4) => match sec_end(s, p4) {
                None => None,
                Some(q2) => {
                    let t2 = skip_ws(s, q2 + 1, n);
                    if ch(s, t2, 'T') || ch(s, t2, 'E') || ch(s, t2, 'B') {
                        Some((p3, p4, q2, t2))
                    } else {
                        None
                    }
                },
            },
        },
    }
}

/// A coordinate pair starting at `a`: `DD°MM'SS.ss" U` (or `S`), whitespace,
/// `DDD°MM'SS.ss" T` (or `E`, `B`).
pub open spec fn coord_at(s: Seq<char>, a: int) -> Option<CoordModel> {
    let n = s.len() as int;
    match lat_deg_end(s, a) {
        None => None,
        Some(p1) => match min_end(s, p1) {
            None => None,
            Some(p2) => match sec_end(s, p2) {
                None => None,
                Some(q1) => {
                    let t = skip_ws(s, q1 + 1, n);
                    let u = t + 1;
                    if (ch(s, t, 'U') || ch(s, t, 'S')) && 0 <= u < n && is_ws(s[u]) {
                        let v = skip_ws(s, u, n);
                        match lon_at(s, v) {
                            None => None,
                            Some((p3, p4, q2, t2)) => Some(
                                CoordModel {
                                    lat_deg: s.subrange(a, p1 - 1),
                                    lat_min: s.subrange(p1, p2 - 1),
                                    lat_sec: s.subrange(p2, q1),
                                    lat_dir: s[t],
                                    lon_deg: s.subrange(v, p3 - 1),
                                    lon_min: s.subrange(p3, p4 - 1),
                                    lon_sec: s.subrange(p4, q2),
                                    lon_dir: s[t2],
                                    start: a,
                                    end: t2 + 1,
                                },
                            ),
                        }
                    } else {
                        None
                    }
                },
            },
        },
    }
}

/// The first coordinate pair at or after `i`.
pub open spec fn coord_from(s: Seq<char>, i: int) -> Option<CoordModel>
    decreases s.len() - i,
{
    if i < 0 || i >= s.len() {
        None
    } else {
        match coord_at(s, i) {
            Some(c) => Some(c),
            None => coord_from(s, i + 1),
        }
    }
}

/// The first coordinate pair of `s`.
pub open spec fn first_coord(s: Seq<char>) -> Option<CoordModel> {
    coord_from(s, 0)
}

proof fn lemma_digit_end_bounds(s: Seq<char>, i: int)
    requires
        0 <= i <= s.len(),
    ensures
        i <= digit_end(s, i) <= s.len(),
{
    crate::builder::village::lemma_digit_end(s, i);
}

fn dig_exec(s: &[char], i: usize) -> (b: bool)
    ensures
        b == dig(s@, i as int),
{
    i < s.len() && char_is_digit(s[i])
}

fn ch_exec(s: &[char], i: usize, c: char) -> (b: bool)
    ensures
        b == ch(s@, i as int, c),
{
    i < s.len() && s[i] == c
}

fn lat_deg_end_exec(s: &[char], a: usize) -> (r: Option<usize>)
    requires
        a <= s@.len(),
    ensures
        match lat_deg_end(s@, a as int) {
            Some(p) => r == Some(p as usize) && p <= s@.len(),
            None => r is None,
        },
{
    let _n = s.len();
    if dig_exec(s, a) && dig_exec(s, a + 1) && ch_exec(s, a + 2, '°') {
        Some(a + 3)
    } else if dig_exec(s, a) && ch_exec(s, a + 1, '°') {
        Some(a + 2)
    } else {
        None
    }
}

fn lon_deg_end_exec(s: &[char], a: usize) -> (r: Option<usize>)
    requires
        a <= s@.len(),
    ensures
        match lon_deg_end(s@, a as int) {
            Some(p) => r == Some(p as usize) && p <= s@.len(),
            None => r is None,
        },
{
    let _n = s.len();
    if dig_exec(s, a) && dig_exec(s, a + 1) && dig_exec(s, a + 2) && ch_exec(s, a + 3, '°') {
        Some(a + 4)
    } else if dig_exec(s, a) && dig_exec(s, a + 1) && ch_exec(s, a + 2, '°') {
        Some(a + 3)
    } else {
        None
    }
}

fn min_end_exec(s: &[char], a: usize) -> (r: Option<usize>)
    requires
        a <= s@.len(),
    ensures
        match min_end(s@, a as int) {
            Some(p) => r == Some(p as usize) && p <= s@.len(),
            None => r is None,
        },
{
    let _n = s.len();
    if dig_exec(s, a) && dig_exec(s, a + 1) && ch_exec(s, a + 2, '\'') {
        Some(a + 3)
    } else {
        None
    }
}

fn sec_end_exec(s: &[char], a: usize) -> (r: Option<usize>)
    requires
        a <= s@.len(),
    ensures
        match sec_end(s@, a as int) {
            Some(p) => r == Some(p as usize) && a + 2 <= p < s@.len(),
            None => r is None,
        },
{
    let _n = s.len();
    if dig_exec(s, a) && dig_exec(s, a + 1) {
        if ch_exec(s, a + 2, '"') {
            Some(a + 2)
        } else if ch_exec(s, a + 2, '.') && dig_exec(s, a + 3) {
            proof {
                lemma_digit_end_bounds(s@, a + 3);
            }
            let d = digit_end_exec(s, a + 3);
            if ch_exec(s, d, '"') {
                Some(d)
            } else {
                None
            }
        } else {
            None
        }
    } else {
        None
    }
}

/// A coordinate pair as read from the text.
pub struct IslandCoords {
    pub lat_deg: String,
    pub lat_min: String,
    pub lat_sec: String,
    /// `U` (north) or `S` (south).
    pub lat_dir: char,
    pub lon_deg: String,
    pub lon_min: String,
    pub lon_sec: String,
    /// `T` or `E` (east), or `B` (west).
    pub lon_dir: char,
}

/// The view of a coordinate pair, without its position.
pub open spec fn coords_view(c: IslandCoords) -> (Seq<char>, Seq<char>, Seq<char>, char, Seq<char>, Seq<char>, Seq<char>, char) {
    (c.lat_deg@, c.lat_min@, c.lat_sec@, c.lat_dir, c.lon_deg@, c.lon_min@, c.lon_sec@, c.lon_dir)
}

pub open spec fn coord_model_view(c: CoordModel) -> (Seq<char>, Seq<char>, Seq<char>, char, Seq<char>, Seq<char>, Seq<char>, char) {
    (c.lat_deg, c.lat_min, c.lat_sec, c.lat_dir, c.lon_deg, c.lon_min, c.lon_sec, c.lon_dir)
}

fn lon_at_exec(s: &[char], v: usize) -> (r: Option<(usize, usize, usize, usize)>)
    requires
        v <= s@.len(),
    ensures
        match lon_at(s@, v as int) {
            Some((p3, p4, q2, t2)) => r matches Some(x) && x.0 == p3 && x.1 == p4 && x.2 == q2
                && x.3 == t2 && v + 3 <= p3 && p3 + 3 <= p4 && p4 + 2 <= q2 && q2 < t2 < s@.len(),
            None => r is None,
        },
{
    let n = s.len();
    let p3 = match lon_deg_end_exec(s, v) {
        Some(p) => p,
        None => {
            return None;
        },
    };
    let p4 = match min_end_exec(s, p3) {
        Some(p) => p,
        None => {
            return None;
        },
    };
    let q2 = match sec_end_exec(s, p4) {
        Some(p) => p,
        None => {
            return None;
        },
    };
    proof {
        crate::text::lemma_skip_ws_bounds(s@, q2 + 1, n as int);
    }
    let t2 = skip_ws_exec(s, q2 + 1, n);
    if ch_exec(s, t2, 'T') || ch_exec(s, t2, 'E') || ch_exec(s, t2, 'B') {
        Some((p3, p4, q2, t2))
    } else {
        None
    }
}

fn coord_at_exec(s: &[char], a: usize) -> (r: Option<(IslandCoords, usize, usize)>)
    requires
        a <= s@.len(),
    ensures
        match coord_at(s@, a as int) {
            Some(c) => r matches Some(x) && coords_view(x.0) == coord_model_view(c) && x.1
                == c.start && x.2 == c.end && a <= c.end <= s@.len(),
            None => r is None,
        },
{
    let n = s.len();
    let p1 = match lat_deg_end_exec(s, a) {
        Some(p) => p,
        None => {
            return None;
        },
    };
    let p2 = match min_end_exec(s, p1) {
        Some(p) => p,
        None => {
            return None;
        },
    };
    let q1 = match sec_end_exec(s, p2) {
        Some(p) => p,
        None => {
            return None;
        },
    };
    proof {
        crate::text::lemma_skip_ws_bounds(s@, q1 + 1, n as int);
    }
    let t = skip_ws_exec(s, q1 + 1, n);
    if !((ch_exec(s, t, 'U') || ch_exec(s, t, 'S')) && t + 1 < n && char_is_ws(s[t + 1])) {
        return None;
    }
    let u = t + 1;
    proof {
        crate::text::lemma_skip_ws_bounds(s@, u as int, n as int);
    }
    let v = skip_ws_exec(s, u, n);
    match lon_at_exec(s, v) {
        None => None,
        Some((p3, p4, q2, t2)) => {
            let c = IslandCoords {
                lat_deg: string_of_chars(copy_range(s, a, p1 - 1).as_slice()),
                lat_min: string_of_chars(copy_range(s, p1, p2 - 1).as_slice()),
                lat_sec: string_of_chars(copy_range(s, p2, q1).as_slice()),
                lat_dir: s[t],
                lon_deg: string_of_chars(copy_range(s, v, p3 - 1).as_slice()),
                lon_min: string_of_chars(copy_range(s, p3, p4 - 1).as_slice()),
                lon_sec: string_of_chars(copy_range(s, p4, q2).as_slice()),
                lon_dir: s[t2],
            };
            Some((c, a, t2 + 1))
        },
    }
}

/// The first coordinate pair at or after `from`, with its start and end.
pub fn coord_from_exec(s: &[char], from: usize) -> (r: Option<(IslandCoords, usize, usize)>)
    requires
        from <= s@.len(),
    ensures
        match coord_from(s@, from as int) {
            Some(c) => r matches Some(x) && coords_view(x.0) == coord_model_view(c) && x.1
                == c.start && x.2 == c.end && c.start <= c.end <= s@.len(),
            None => r is None,
        },
{
    let mut i = from;
    while i < s.len()
        invariant
            from <= i <= s@.len(),
            coord_from(s@, i as int) == coord_from(s@, from as int),
        decreases s@.len() - i,
    {
        match coord_at_exec(s, i) {
            Some(x) => {
                return Some(x);
            },
            None => {},
        }
        i = i + 1;
    }
    None
}

// ---------------------------------------------------------------------------
// Area, status and annotation
// ---------------------------------------------------------------------------
/// A leading status (`TBP` or `BP`) and the trimmed text after it.
pub open spec fn status_prefix(r: Seq<char>) -> Option<(Seq<char>, Seq<char>)> {
    if starts_with(r, "TBP"@) {
        Some(("TBP"@, trim(r.skip(3))))
    } else if starts_with(r, "BP"@) {
        Some(("BP"@, trim(r.skip(2))))
    } else {
        None
    }
}

/// `Some(trim(r))` unless `r` is empty.
pub open spec fn note_of(r: Seq<char>) -> Option<Seq<char>> {
    if r.len() == 0 {
        None
    } else {
        Some(trim(r))
    }
}

/// The fields after an island's coordinates: an optional area (a float literal),
/// an optional status (`TBP` or `BP`), and the rest as annotation.
pub open spec fn island_fields(rest0: Seq<char>) -> (Option<Seq<char>>, Option<Seq<char>>, Option<
    Seq<char>,
>) {
    let r = trim(rest0);
    let n = r.len() as int;
    if n == 0 {
        (None, None, None)
    } else {
        match status_prefix(r) {
            Some((st, r2)) => (None, Some(st), note_of(r2)),
            None => {
                let e = word_end(r, 0, n);
                let tok = r.subrange(0, e);
                if float_literal(tok) {
                    let r2 = if skip_ws(r, e, n) < n {
                        trim(r.skip(e))
                    } else {
                        Seq::empty()
                    };
                    match status_prefix(r2) {
                        Some((st, r3)) => (Some(tok), Some(st), note_of(r3)),
                        None => (Some(tok), None, note_of(r2)),
                    }
                } else {
                    (None, None, note_of(r))
                }
            },
        }
    }
}

fn trimmed_tail(s: &[char], a: usize) -> (r: Vec<char>)
    requires
        a <= s@.len(),
    ensures
        r@ == trim(s@.skip(a as int)),
{
    let (x, y) = trim_range_exec(s, a, s.len());
    proof {
        lemma_trim_sub_range(s@, a as int, s@.len() as int);
        assert(s@.subrange(a as int, s@.len() as int) =~= s@.skip(a as int));
    }
    copy_range(s, x, y)
}

fn status_prefix_exec(r: &[char]) -> (out: Option<(String, Vec<char>)>)
    ensures
        match status_prefix(r@) {
            Some((st, rest)) => out matches Some(x) && x.0@ == st && x.1@ == rest,
            None => out is None,
        },
{
    proof {
        reveal_strlit("TBP");
        reveal_strlit("BP");
    }
    let tbp = to_chars("TBP");
    let bp = to_chars("BP");
    if crate::text::occurs_at_exec(r, 0, tbp.as_slice()) {
        let rest = trimmed_tail(r, 3);
        Some((string_of_chars(tbp.as_slice()), rest))
    } else if crate::text::occurs_at_exec(r, 0, bp.as_slice()) {
        let rest = trimmed_tail(r, 2);
        Some((string_of_chars(bp.as_slice()), rest))
    } else {
        None
    }
}

fn note_of_exec(r: &[char]) -> (out: Option<String>)
    ensures
        opt_view(out) == note_of(r@),
{
    proof {
        assert(r@.skip(0) =~= r@);
    }
    if r.len() == 0 {
        None
    } else {
        Some(string_of_chars(trimmed_tail(r, 0).as_slice()))
    }
}

/// The fields of an island row after its coordinates.
pub struct IslandFields {
    /// The area column (km²) as written.
    pub area_km2: Option<String>,
    pub status: Option<String>,
    pub keterangan: Option<String>,
}

pub open spec fn island_fields_view(f: IslandFields) -> (Option<Seq<char>>, Option<Seq<char>>, Option<
    Seq<char>,
>) {
    (opt_view(f.area_km2), opt_view(f.status), opt_view(f.keterangan))
}

pub fn island_fields_chars(rest0: &[char]) -> (f: IslandFields)
    ensures
        island_fields_view(f) == island_fields(rest0@),
{
    let r = trimmed_tail(rest0, 0);
    proof {
        assert(rest0@.skip(0) =~= rest0@);
    }
    let n = r.len();
    if n == 0 {
        return IslandFields { area_km2: None, status: None, keterangan: None };
    }
    match status_prefix_exec(r.as_slice()) {
        Some((st, r2)) => {
            return IslandFields {
                area_km2: None,
                status: Some(st),
                keterangan: note_of_exec(r2.as_slice()),
            };
        },
        None => {},
    }
    let e = word_end_exec(r.as_slice(), 0, n);
    let tok = copy_range(r.as_slice(), 0, e);
    if float_literal_exec(tok.as_slice()) {
        proof {
            crate::text::lemma_skip_ws_bounds(r@, e as int, n as int);
        }
        let r2 = if skip_ws_exec(r.as_slice(), e, n) < n {
            trimmed_tail(r.as_slice(), e)
        } else {
            let v: Vec<char> = Vec::new();
            proof {
                assert(v@ =~= Seq::<char>::empty());
            }
            v
        };
        let area = Some(string_of_chars(tok.as_slice()));
        match status_prefix_exec(r2.as_slice()) {
            Some((st, r3)) => IslandFields {
                area_km2: area,
                status: Some(st),
                keterangan: note_of_exec(r3.as_slice()),
            },
            None => IslandFields {
                area_km2: area,
                status: None,
                keterangan: note_of_exec(r2.as_slice()),
            },
        }
    } else {
        IslandFields { area_km2: None, status: None, keterangan: note_of_exec(r.as_slice()) }
    }
}

/// Reads the area, status and annotation after an island's coordinates.
pub fn parse_island_fields(rest: &str) -> (f: IslandFields)
    ensures
        island_fields_view(f) == island_fields(rest@),
{
    let cs = to_chars(rest);
    island_fields_chars(cs.as_slice())
}

/// What the text after an island's name gives: its coordinates and the fields
/// after them; nothing without a coordinate pair.
pub struct IslandTail {
    pub coords: Option<IslandCoords>,
    pub fields: IslandFields,
}

/// The coordinates and fields that the tail of an island row gives.
pub open spec fn tail_model(tail: Seq<char>) -> (
    Option<(Seq<char>, Seq<char>, Seq<char>, char, Seq<char>, Seq<char>, Seq<char>, char)>,
    (Option<Seq<char>>, Option<Seq<char>>, Option<Seq<char>>),
) {
    match first_coord(tail) {
        None => (None, (None, None, None)),
        Some(c) => (Some(coord_model_view(c)), island_fields(trim(tail.skip(c.end)))),
    }
}

pub open spec fn tail_view(t: IslandTail) -> (
    Option<(Seq<char>, Seq<char>, Seq<char>, char, Seq<char>, Seq<char>, Seq<char>, char)>,
    (Option<Seq<char>>, Option<Seq<char>>, Option<Seq<char>>),
) {
    (
        match t.coords {
            Some(c) => Some(coords_view(c)),
            None => None,
        },
        island_fields_view(t.fields),
    )
}

pub fn island_tail_chars(tail: &[char]) -> (t: IslandTail)
    ensures
        tail_view(t) == tail_model(tail@),
{
    match coord_from_exec(tail, 0) {
        None => IslandTail {
            coords: None,
            fields: IslandFields { area_km2: None, status: None, keterangan: None },
        },
        Some((c, _start, end)) => {
            let after = trimmed_tail(tail, end);
            IslandTail { coords: Some(c), fields: island_fields_chars(after.as_slice()) }
        },
    }
}

/// Reads the coordinates, area, status and annotation of an island row's tail.
pub fn parse_island_tail(tail: &str) -> (t: IslandTail)
    ensures
        tail_view(t) == tail_model(tail@),
{
    let cs = to_chars(tail);
    island_tail_chars(cs.as_slice())
}


// ---------------------------------------------------------------------------
// The island listing
// ---------------------------------------------------------------------------
/// A regency/city heading of the island listing: the city code `dd.dd`, the word
/// `Kabupaten` or `Kota`, and at least two more words. Gives the code.
pub open spec fn kab_header(line: Seq<char>) -> Option<Seq<char>> {
    let ws = words(line);
    if ws.len() >= 4 && ws[0].len() == 5 && city_code_at(ws[0], 0) && (ws[1] == "Kabupaten"@
        || ws[1] == "Kota"@) {
        Some(ws[0])
    } else {
        None
    }
}

fn kab_header_exec(line: &[char]) -> (r: Option<Vec<char>>)
    ensures
        match kab_header(line@) {
            Some(c) => r matches Some(x) && x@ == c,
            None => r is None,
        },
{
    let ws = word_list(line);
    let ghost v = views(ws@);
    proof {
        assert(v.len() == ws@.len());
    }
    if ws.len() < 4 {
        return None;
    }
    proof {
        assert(v[0] == ws@[0]@);
        assert(v[1] == ws@[1]@);
    }
    let w0 = ws[0].as_slice();
    if !(w0.len() == 5 && char_is_digit(w0[0]) && char_is_digit(w0[1]) && w0[2] == '.'
        && char_is_digit(w0[3]) && char_is_digit(w0[4])) {
        return None;
    }
    if !(vec_eq_str(ws[1].as_slice(), "Kabupaten") || vec_eq_str(ws[1].as_slice(), "Kota")) {
        return None;
    }
    Some(copy_range(w0, 0, 5))
}

/// An island code `dd.dd.ddddd` starts at `i`.
pub open spec fn island_code_at(s: Seq<char>, i: int) -> bool {
    &&& i + 11 <= s.len()
    &&& city_code_at(s, i)
    &&& s[i + 5] == '.'
    &&& forall|k: int| i + 6 <= k < i + 11 ==> is_digit(#[trigger] s[k])
}

/// An island row with a code: the island code, the name up to a wide gap, and
/// the tail (empty when only whitespace follows the gap). Gives the code, the
/// name and the trimmed tail.
pub open spec fn island_code_row(line: Seq<char>) -> Option<(Seq<char>, Seq<char>, Seq<char>)> {
    let n = line.len() as int;
    let i0 = skip_ws(line, 0, n);
    let c = i0 + 11;
    let m0 = skip_ws(line, c, n);
    if island_code_at(line, i0) && c < n && is_ws(line[c]) && m0 < n {
        match double_ws_from(line, m0) {
            Some(p) => {
                let e = skip_ws(line, p, n);
                if e < n {
                    Some((line.subrange(i0, c), trim(line.subrange(m0, p)), trim(line.subrange(e, n))))
                } else if e - p >= 3 {
                    Some((line.subrange(i0, c), trim(line.subrange(m0, p)), Seq::empty()))
                } else {
                    None
                }
            },
            None => None,
        }
    } else {
        None
    }
}

fn island_code_row_exec(line: &[char]) -> (r: Option<(Vec<char>, Vec<char>, Vec<char>)>)
    ensures
        match island_code_row(line@) {
            Some((code, name, tail)) => r matches Some(x) && x.0@ == code && x.1@ == name && x.2@
                == tail,
            None => r is None,
        },
{
    let n = line.len();
    proof {
        crate::text::lemma_skip_ws_bounds(line@, 0, n as int);
    }
    let i0 = skip_ws_exec(line, 0, n);
    if n - i0 < 11 {
        return None;
    }
    if !(char_is_digit(line[i0]) && char_is_digit(line[i0 + 1]) && line[i0 + 2] == '.'
        && char_is_digit(line[i0 + 3]) && char_is_digit(line[i0 + 4]) && line[i0 + 5] == '.') {
        return None;
    }
    let mut k = i0 + 6;
    while k < i0 + 11
        invariant
            i0 + 6 <= k <= i0 + 11 <= n,
            n == line@.len(),
            i0 == skip_ws(line@, 0, n as int),
            forall|j: int| i0 + 6 <= j < k ==> is_digit(#[trigger] line@[j]),
        decreases i0 + 11 - k,
    {
        if !char_is_digit(line[k]) {
            proof {
                assert(!is_digit(line@[k as int]));
                assert(!island_code_at(line@, i0 as int));
            }
            return None;
        }
        k = k + 1;
    }
    let c = i0 + 11;
    if !(c < n && char_is_ws(line[c])) {
        return None;
    }
    proof {
        crate::text::lemma_skip_ws_bounds(line@, c as int, n as int);
    }
    let m0 = skip_ws_exec(line, c, n);
    if m0 >= n {
        return None;
    }
    match double_ws_exec(line, m0) {
        None => None,
        Some(p) => {
            proof {
                lemma_double_ws_from(line@, m0 as int);
                match double_ws_from(line@, m0 as int) {
                    Some(p0) => {
                        assert(p0 + 1 < n);
                    },
                    None => {},
                }
                crate::text::lemma_skip_ws_bounds(line@, p as int, n as int);
            }
            let e = skip_ws_exec(line, p, n);
            let code = copy_range(line, i0, c);
            let (a1, b1) = trim_range_exec(line, m0, p);
            let name = copy_range(line, a1, b1);
            proof {
                lemma_trim_sub_range(line@, m0 as int, p as int);
            }
            if e < n {
                let (a2, b2) = trim_range_exec(line, e, n);
                proof {
                    lemma_trim_sub_range(line@, e as int, n as int);
                }
                Some((code, name, copy_range(line, a2, b2)))
            } else if e - p >= 3 {
                let empty: Vec<char> = Vec::new();
                proof {
                    assert(empty@ =~= Seq::<char>::empty());
                }
                Some((code, name, empty))
            } else {
                None
            }
        },
    }
}

/// An island of the listing.
pub struct IslandRecord {
    /// The island code (`dd.dd.ddddd`), or the regency/city code followed by
    /// `.XXXXX` for an island listed without a code.
    pub code: String,
    pub name: String,
    pub kabupaten_code: String,
    pub coords: Option<IslandCoords>,
    /// The area column (km²) as written.
    pub area_km2: Option<String>,
    pub status: Option<String>,
    pub keterangan: Option<String>,
}

/// The model of an island record.
pub struct IslandRecordModel {
    pub code: Seq<char>,
    pub name: Seq<char>,
    pub kabupaten_code: Seq<char>,
    pub tail: (
        Option<(Seq<char>, Seq<char>, Seq<char>, char, Seq<char>, Seq<char>, Seq<char>, char)>,
        (Option<Seq<char>>, Option<Seq<char>>, Option<Seq<char>>),
    ),
}

pub open spec fn island_record_view(r: IslandRecord) -> IslandRecordModel {
    IslandRecordModel {
        code: r.code@,
        name: r.name@,
        kabupaten_code: r.kabupaten_code@,
        tail: (
            match r.coords {
                Some(c) => Some(coords_view(c)),
                None => None,
            },
            (opt_view(r.area_km2), opt_view(r.status), opt_view(r.keterangan)),
        ),
    }
}

pub open spec fn island_record_models(rs: Seq<IslandRecord>) -> Seq<IslandRecordModel> {
    rs.map_values(|r: IslandRecord| island_record_view(r))
}

/// The scan of the island listing: the current regency/city code and the
/// islands so far.
pub struct DcScan {
    pub kab: Seq<char>,
    pub islands: Seq<IslandRecordModel>,
}

/// One line of the scan. A line without a coordinate pair may be a regency/city
/// heading, which sets the current code. A line with one is an island: with its
/// own code, or, when it does not start with a digit, listed without a code
/// (its name is the text before the coordinates).
pub open spec fn dc_step(st: DcScan, line: Seq<char>) -> DcScan {
    let t = trim(line);
    if t.len() == 0 || first_coord(t) is None {
        match kab_header(line) {
            Some(c) => DcScan { kab: c, ..st },
            None => st,
        }
    } else {
        match island_code_row(line) {
            Some((code, name, tail)) => DcScan {
                islands: st.islands.push(
                    IslandRecordModel { code, name, kabupaten_code: st.kab, tail: tail_model(tail) },
                ),
                ..st
            },
            None => if !is_digit(t[0]) {
                let nt = trim(t);
                match first_coord(nt) {
                    Some(c) => DcScan {
                        islands: st.islands.push(
                            IslandRecordModel {
                                code: st.kab + ".XXXXX"@,
                                name: trim(nt.take(c.start)),
                                kabupaten_code: st.kab,
                                tail: tail_model(trim(nt.skip(c.start))),
                            },
                        ),
                        ..st
                    },
                    None => st,
                }
            } else {
                st
            },
        }
    }
}

pub open spec fn dc_scan(ls: Seq<Seq<char>>) -> DcScan
    decreases ls.len(),
{
    if ls.len() == 0 {
        DcScan { kab: Seq::empty(), islands: Seq::empty() }
    } else {
        dc_step(dc_scan(ls.drop_last()), ls.last())
    }
}

/// The islands of the island listing in `text`.
pub open spec fn section_dc(text: Seq<char>) -> Seq<IslandRecordModel> {
    dc_scan(lines(text)).islands
}

/// A regency/city heading of the island listing: words that are a code
/// `dd.dd`, then `Kabupaten` or `Kota`, then at least a name and a count. Gives
/// the code.
pub open spec fn city_heading(line: Seq<char>) -> Option<Seq<char>> {
    let ws = words(line);
    if ws.len() >= 4 && ws[0].len() == 5 && is_digit(ws[0][0]) && is_digit(ws[0][1]) && ws[0][2]
        == '.' && is_digit(ws[0][3]) && is_digit(ws[0][4]) && (ws[1] == "Kabupaten"@ || ws[1]
        == "Kota"@) {
        Some(ws[0])
    } else {
        None
    }
}

/// The line holds a coordinate pair (an island line, not a heading).
pub open spec fn has_coords(line: Seq<char>) -> bool {
    trim(line).len() > 0 && first_coord(trim(line)) is Some
}

/// The code of the last regency/city heading among the first `n` lines (empty
/// when there is none).
pub open spec fn last_heading_code(ls: Seq<Seq<char>>, n: int) -> Seq<char>
    decreases n,
{
    if n <= 0 {
        Seq::empty()
    } else if !has_coords(ls[n - 1]) && city_heading(ls[n - 1]) is Some {
        city_heading(ls[n - 1])->0
    } else {
        last_heading_code(ls, n - 1)
    }
}

proof fn lemma_last_heading_prefix(ls: Seq<Seq<char>>, m: int, n: int)
    requires
        0 <= n <= m <= ls.len(),
    ensures
        last_heading_code(ls.take(m), n) == last_heading_code(ls, n),
    decreases n,
{
    if n > 0 {
        assert(ls.take(m)[n - 1] == ls[n - 1]);
        lemma_last_heading_prefix(ls, m, n - 1);
    }
}

/// The island listing files each island under the regency or city of the last
/// heading (`Kabupaten` or `Kota`) before it: every island comes from a line
/// with a coordinate pair, and its regency/city code is the code of the last
/// heading above that line.
pub proof fn lemma_islands_under_last_heading(ls: Seq<Seq<char>>)
    ensures
        dc_scan(ls).kab == last_heading_code(ls, ls.len() as int),
        forall|i: int|
            0 <= i < dc_scan(ls).islands.len() ==> exists|j: int|
                0 <= j < ls.len() && has_coords(ls[j]) && (#[trigger] dc_scan(ls).islands[i]).kabupaten_code
                    == last_heading_code(ls, j),
    decreases ls.len(),
{
    if ls.len() > 0 {
        let p = ls.drop_last();
        let n = ls.len() as int;
        lemma_islands_under_last_heading(p);
        assert(p =~= ls.take(n - 1));
        lemma_last_heading_prefix(ls, n - 1, n - 1);
        let st = dc_scan(p);
        let line = ls.last();
        let nx = dc_scan(ls);
        assert(nx == dc_step(st, line));
        assert(kab_header(line) == city_heading(line));
        assert forall|i: int| 0 <= i < nx.islands.len() implies exists|j: int|
            0 <= j < ls.len() && has_coords(ls[j]) && (#[trigger] nx.islands[i]).kabupaten_code
                == last_heading_code(ls, j) by {
            if i < st.islands.len() {
                assert(nx.islands[i] == st.islands[i]);
                let j = choose|j: int|
                    0 <= j < p.len() && has_coords(p[j]) && (#[trigger] st.islands[i]).kabupaten_code
                        == last_heading_code(p, j);
                lemma_last_heading_prefix(ls, n - 1, j);
                assert(p[j] == ls[j]);
            } else {
                assert(has_coords(ls[n - 1]));
                assert(nx.islands[i].kabupaten_code == st.kab);
            }
        }
    }
}

fn island_record(code: Vec<char>, name: Vec<char>, kab: &[char], tail: &[char]) -> (r: IslandRecord)
    ensures
        island_record_view(r) == (IslandRecordModel {
            code: code@,
            name: name@,
            kabupaten_code: kab@,
            tail: tail_model(tail@),
        }),
{
    let t = island_tail_chars(tail);
    IslandRecord {
        code: string_of_chars(code.as_slice()),
        name: string_of_chars(name.as_slice()),
        kabupaten_code: string_of_chars(kab),
        coords: t.coords,
        area_km2: t.fields.area_km2,
        status: t.fields.status,
        keterangan: t.fields.keterangan,
    }
}

/// Reads the islands of the island listing (section D.c).
pub fn parse_section_dc(text: &str) -> (r: Vec<IslandRecord>)
    ensures
        island_record_models(r@) == section_dc(text@),
{
    let s = to_chars(text);
    let ls = text_lines(s.as_slice());
    let ghost lv = views(ls@);
    let mut out: Vec<IslandRecord> = Vec::new();
    let mut kab: Vec<char> = Vec::new();
    let mut i: usize = 0;
    proof {
        assert(lv.take(0) =~= Seq::<Seq<char>>::empty());
        assert(island_record_models(out@) =~= Seq::<IslandRecordModel>::empty());
        assert(kab@ =~= Seq::<char>::empty());
    }
    while i < ls.len()
        invariant
            i <= ls@.len(),
            lv == views(ls@),
            lv == lines(s@),
            s@ == text@,
            dc_scan(lv.take(i as int)) == (DcScan {
                kab: kab@,
                islands: island_record_models(out@),
            }),
        decreases ls@.len() - i,
    {
        let line = ls[i].as_slice();
        proof {
            assert(lv.take(i + 1).drop_last() =~= lv.take(i as int));
            assert(lv.take(i + 1).last() == line@);
        }
        let t = trimmed_tail(line, 0);
        proof {
            assert(line@.skip(0) =~= line@);
        }
        let coord = if t.len() == 0 {
            None
        } else {
            coord_from_exec(t.as_slice(), 0)
        };
        match coord {
            None => {
                match kab_header_exec(line) {
                    Some(c) => {
                        kab = c;
                    },
                    None => {},
                }
            },
            Some(_) => {
                match island_code_row_exec(line) {
                    Some((code, name, tail)) => {
                        let rec = island_record(code, name, kab.as_slice(), tail.as_slice());
                        let ghost before = island_record_models(out@);
                        out.push(rec);
                        proof {
                            assert(island_record_models(out@) =~= before.push(
                                island_record_view(rec),
                            ));
                        }
                    },
                    None => {
                        if !char_is_digit(t[0]) {
                            let nt = trimmed_tail(t.as_slice(), 0);
                            proof {
                                assert(t@.skip(0) =~= t@);
                            }
                            match coord_from_exec(nt.as_slice(), 0) {
                                Some((_c, start, _end)) => {
                                    let (a, b) = trim_range_exec(nt.as_slice(), 0, start);
                                    let name = copy_range(nt.as_slice(), a, b);
                                    proof {
                                        lemma_trim_sub_range(nt@, 0, start as int);
                                        assert(nt@.subrange(0, start as int) =~= nt@.take(
                                            start as int,
                                        ));
                                    }
                                    let tail = trimmed_tail(nt.as_slice(), start);
                                    let mut code = copy_range(kab.as_slice(), 0, kab.len());
                                    let suffix = to_chars(".XXXXX");
                                    push_all(&mut code, suffix.as_slice());
                                    proof {
                                        assert(kab@.subrange(0, kab@.len() as int) =~= kab@);
                                    }
                                    let rec = island_record(
                                        code,
                                        name,
                                        kab.as_slice(),
                                        tail.as_slice(),
                                    );
                                    let ghost before = island_record_models(out@);
                                    out.push(rec);
                                    proof {
                                        assert(island_record_models(out@) =~= before.push(
                                            island_record_view(rec),
                                        ));
                                    }
                                },
                                None => {},
                            }
                        }
                    },
                }
            },
        }
        i = i + 1;
    }
    proof {
        assert(lv.take(ls@.len() as int) =~= lv);
    }
    out
}


/// Reads the island counts (section D.b) and the island listing (section D.c).
pub fn extract_islands(text: &str) -> (r: (Vec<IslandSummary>, Vec<IslandRecord>))
    ensures
        island_summary_models(r.0@) == section_db(text@),
        island_record_models(r.1@) == section_dc(text@),
{
    let summaries = parse_section_db(text);
    let islands = parse_section_dc(text);
    (summaries, islands)
}

} // verus!
