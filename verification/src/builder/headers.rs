//! Header rows of the decree's code listing: a province row (name, capital and
//! annotation) and a regency/city row (name, capital, counts, area, population
//! and annotation).
use vstd::prelude::*;

use crate::builder::columns::{column_gap, lemma_next_gap_props, next_gap_exec};
use crate::builder::numbers::{
    indonesian_int, indonesian_int_chars, lemma_number_from_bounds, lemma_numeric_start_bounds,
    number_from, number_from_exec, numeric_start, numeric_start_in, trailing_keterangan,
    trailing_keterangan_in,
};
use crate::builder::village::{word_list, words};
use crate::text::{
    back_ws, back_ws_exec, copy_range, join, join_range, str_views, string_of_chars, to_chars,
    token_chars, trim, trim_end, trim_range_exec, utf8_len, views,
};

verus! {

/// Minimum tokens expected in a header row.
pub const MIN_TOKENS_HEADER: usize = 3;

/// Minimum numeric fields expected in a province row.
pub const MIN_NUM_FIELDS_PROVINCE: usize = 5;

/// Minimum numeric fields expected in a city row.
pub const MIN_NUM_FIELDS_CITY: usize = 2;

/// Where the first large gap (a column gap) of `s` starts, as a byte offset.
pub fn find_first_large_gap(s: &str) -> (r: Option<usize>)
    ensures
        match column_gap(s@) {
            Some(g) => r == Some(utf8_len(s@.subrange(0, g)) as usize),
            None => r is None,
        },
{
    crate::builder::columns::find_column_gap(s)
}

/// The words before the first number, joined by spaces; none when the row
/// starts with a number.
pub open spec fn leading_words(ts: Seq<Seq<char>>) -> Option<Seq<char>> {
    let e = number_from(ts, 0);
    if e > 0 {
        Some(join(ts.take(e), seq![' ']))
    } else {
        None
    }
}

/// `s[a..]`, copied.
fn tail_from(s: &[char], a: usize) -> (r: Vec<char>)
    requires
        a <= s@.len(),
    ensures
        r@ == s@.skip(a as int),
{
    let r = copy_range(s, a, s.len());
    proof {
        assert(s@.subrange(a as int, s@.len() as int) =~= s@.skip(a as int));
    }
    r
}

fn leading_words_in(ts: &[Vec<char>]) -> (r: Option<Vec<char>>)
    ensures
        match leading_words(views(ts@)) {
            Some(x) => r matches Some(y) && y@ == x,
            None => r is None,
        },
{
    proof {
        lemma_number_from_bounds(views(ts@), 0);
    }
    let e = number_from_exec(ts, 0);
    if e > 0 {
        let sep: Vec<char> = vec![' '];
        proof {
            assert(sep@ =~= seq![' ']);
            assert(views(ts@).subrange(0, e as int) =~= views(ts@).take(e as int));
        }
        Some(join_range(ts, 0, e, sep.as_slice()))
    } else {
        None
    }
}

// ---------------------------------------------------------------------------
// Name and capital of a city row
// ---------------------------------------------------------------------------
/// The name and the capital in the text of a city row, given where its type
/// word (`Kabupaten`, `Kab` or `Kota`) and its numeric columns start. With a
/// column gap the name is the text before it and the capital the words after it
/// up to the first number; without one, a `Kota` row names itself from the type
/// word to the numbers and takes the words after the type word as capital, and
/// any other row has no capital.
pub open spec fn name_and_capital(rest: Seq<char>, type_idx: int, num_start: int) -> (
    Seq<char>,
    Option<Seq<char>>,
) {
    let ts = words(rest);
    if ts.len() == 0 || type_idx >= ts.len() {
        (Seq::empty(), None)
    } else {
        match column_gap(rest) {
            Some(g) => (trim(rest.take(g)), leading_words(words(rest.skip(g)))),
            None => {
                let name = join(ts.subrange(type_idx, num_start), seq![' ']);
                if ts[type_idx] == seq!['K', 'o', 't', 'a'] && num_start > type_idx + 1 {
                    (name, Some(join(ts.subrange(type_idx + 1, num_start), seq![' '])))
                } else {
                    (name, None)
                }
            },
        }
    }
}

/// The split reads `words[type_idx..num_start]` when there is no column gap.
pub open spec fn name_split_in_range(rest: Seq<char>, type_idx: int, num_start: int) -> bool {
    column_gap(rest) is None && 0 < words(rest).len() && type_idx < words(rest).len()
        ==> type_idx <= num_start <= words(rest).len()
}

fn is_kota(t: &[char]) -> (b: bool)
    ensures
        b == (t@ == seq!['K', 'o', 't', 'a']),
{
    let r = t.len() == 4 && t[0] == 'K' && t[1] == 'o' && t[2] == 't' && t[3] == 'a';
    proof {
        if r {
            assert(t@ =~= seq!['K', 'o', 't', 'a']);
        }
    }
    r
}

pub fn name_and_capital_chars(rest: &[char], type_idx: usize, num_start: usize) -> (r: (
    Vec<char>,
    Option<Vec<char>>,
))
    requires
        name_split_in_range(rest@, type_idx as int, num_start as int),
    ensures
        r.0@ == name_and_capital(rest@, type_idx as int, num_start as int).0,
        match name_and_capital(rest@, type_idx as int, num_start as int).1 {
            Some(c) => r.1 matches Some(x) && x@ == c,
            None => r.1 is None,
        },
{
    let ts = word_list(rest);
    proof {
        assert(views(ts@).len() == ts@.len());
    }
    if ts.len() == 0 || type_idx >= ts.len() {
        let empty: Vec<char> = Vec::new();
        proof {
            assert(empty@ =~= Seq::<char>::empty());
        }
        return (empty, None);
    }
    let n = rest.len();
    match next_gap_exec(rest, 0) {
        Some(g) => {
            proof {
                lemma_next_gap_props(rest@, 0);
                match column_gap(rest@) {
                    Some(g0) => {
                        assert(crate::builder::columns::gap_at(rest@, g0));
                        assert(0 <= g0 < n);
                        assert(g0 == g);
                    },
                    None => {},
                }
            }
            let (a, b) = trim_range_exec(rest, 0, g);
            let name = copy_range(rest, a, b);
            proof {
                assert(rest@.take(g as int).subrange(a as int, b as int) =~= rest@.subrange(
                    a as int,
                    b as int,
                ));
                assert(crate::text::trim_range(rest@.take(g as int), 0, g as int)
                    == crate::text::trim_range(rest@, 0, g as int)) by {
                    lemma_trim_range_prefix(rest@, g as int);
                }
            }
            let after = tail_from(rest, g);
            let after_words = word_list(after.as_slice());
            let cap = leading_words_in(after_words.as_slice());
            proof {
                assert(name@ == trim(rest@.take(g as int)));
                assert(column_gap(rest@) == Some(g as int));
                assert(after_words@.len() == words(rest@.skip(g as int)).len());
                assert(name_and_capital(rest@, type_idx as int, num_start as int).0 == trim(
                    rest@.take(g as int),
                ));
            }
            (name, cap)
        },
        None => {
            let sep: Vec<char> = vec![' '];
            proof {
                assert(sep@ =~= seq![' ']);
                assert(views(ts@)[type_idx as int] == ts@[type_idx as int]@);
            }
            let name = join_range(ts.as_slice(), type_idx, num_start, sep.as_slice());
            if is_kota(ts[type_idx].as_slice()) && num_start > type_idx + 1 {
                (name, Some(join_range(ts.as_slice(), type_idx + 1, num_start, sep.as_slice())))
            } else {
                (name, None)
            }
        },
    }
}

/// Trimming `s[0..g]` reads the same characters whether or not the rest of `s`
/// is there.
proof fn lemma_trim_range_prefix(s: Seq<char>, g: int)
    requires
        0 <= g <= s.len(),
    ensures
        crate::text::trim_range(s.take(g), 0, g) == crate::text::trim_range(s, 0, g),
{
    lemma_skip_ws_prefix(s, g, 0);
    let a = crate::text::skip_ws(s, 0, g);
    crate::text::lemma_skip_ws_bounds(s, 0, g);
    lemma_back_ws_prefix(s, g, a, g);
}

proof fn lemma_skip_ws_prefix(s: Seq<char>, g: int, i: int)
    requires
        0 <= i,
        0 <= g <= s.len(),
    ensures
        crate::text::skip_ws(s.take(g), i, g) == crate::text::skip_ws(s, i, g),
    decreases g - i,
{
    if i < g {
        assert(s.take(g)[i] == s[i]);
        lemma_skip_ws_prefix(s, g, i + 1);
    }
}

proof fn lemma_back_ws_prefix(s: Seq<char>, g: int, lo: int, j: int)
    requires
        0 <= lo,
        j <= g <= s.len(),
    ensures
        back_ws(s.take(g), lo, j) == back_ws(s, lo, j),
    decreases j - lo,
{
    if j > lo {
        if j >= 1 {
            assert(s.take(g)[j - 1] == s[j - 1]);
        }
        lemma_back_ws_prefix(s, g, lo, j - 1);
    }
}

/// Splits the text of a city row into the name and the capital.
pub fn split_name_ibukota_by_gap(rest: &str, type_idx: usize, num_start: usize) -> (r: (
    String,
    Option<String>,
))
    requires
        name_split_in_range(rest@, type_idx as int, num_start as int),
    ensures
        r.0@ == name_and_capital(rest@, type_idx as int, num_start as int).0,
        match name_and_capital(rest@, type_idx as int, num_start as int).1 {
            Some(c) => r.1 matches Some(x) && x@ == c,
            None => r.1 is None,
        },
{
    let cs = to_chars(rest);
    let (name, capital) = name_and_capital_chars(cs.as_slice(), type_idx, num_start);
    let capital = match capital {
        Some(c) => Some(string_of_chars(c.as_slice())),
        None => None,
    };
    (string_of_chars(name.as_slice()), capital)
}

/// A copy of `ts[a..]`.
pub fn tokens_from(ts: &[Vec<char>], a: usize) -> (r: Vec<Vec<char>>)
    requires
        a <= ts@.len(),
    ensures
        views(r@) == views(ts@).skip(a as int),
{
    let mut r: Vec<Vec<char>> = Vec::new();
    let mut i = a;
    while i < ts.len()
        invariant
            a <= i <= ts@.len(),
            r@.len() == i - a,
            forall|k: int| 0 <= k < r@.len() ==> (#[trigger] r@[k])@ == ts@[a + k]@,
        decreases ts@.len() - i,
    {
        let t = copy_range(ts[i].as_slice(), 0, ts[i].len());
        proof {
            assert(ts@[i as int]@.subrange(0, ts@[i as int]@.len() as int) =~= ts@[i as int]@);
        }
        r.push(t);
        i = i + 1;
    }
    proof {
        assert(views(r@) =~= views(ts@).skip(a as int));
    }
    r
}

// ---------------------------------------------------------------------------
// Fields of a city row
// ---------------------------------------------------------------------------
/// The fields read from the numeric part of a city row.
pub struct CityFields {
    /// The capital, when the row names one.
    pub ibukota: Option<String>,
    /// Number of kecamatan.
    pub kec_count: u32,
    /// Number of kelurahan.
    pub kel_count: u32,
    /// Number of desa.
    pub desa_count: u32,
    /// The area column (km², with `,` as decimal separator) as written.
    pub luas_km2: Option<String>,
    /// Population.
    pub penduduk: Option<u64>,
    /// Annotation text after the numbers.
    pub keterangan: Option<String>,
}

/// The model of the fields of a city row.
pub struct CityFieldsModel {
    pub ibukota: Option<Seq<char>>,
    pub kec_count: u32,
    pub kel_count: u32,
    pub desa_count: u32,
    pub luas_km2: Option<Seq<char>>,
    pub penduduk: Option<u64>,
    pub keterangan: Option<Seq<char>>,
}

impl View for CityFields {
    type V = CityFieldsModel;

    open spec fn view(&self) -> CityFieldsModel {
        CityFieldsModel {
            ibukota: opt_string_view(self.ibukota),
            kec_count: self.kec_count,
            kel_count: self.kel_count,
            desa_count: self.desa_count,
            luas_km2: opt_string_view(self.luas_km2),
            penduduk: self.penduduk,
            keterangan: opt_string_view(self.keterangan),
        }
    }
}

pub open spec fn opt_string_view(o: Option<String>) -> Option<Seq<char>> {
    match o {
        Some(s) => Some(s@),
        None => None,
    }
}

/// A count column: its integer value cut to 32 bits, or 0 when it does not parse.
pub open spec fn count_at(ts: Seq<Seq<char>>, p: int) -> u32 {
    match indonesian_int(ts[p]) {
        Some(v) => v as u32,
        None => 0,
    }
}

/// Joined by spaces, when that is not empty.
pub open spec fn nonempty_join(ts: Seq<Seq<char>>) -> Option<Seq<char>> {
    let j = join(ts, seq![' ']);
    if j.len() == 0 {
        None
    } else {
        Some(j)
    }
}

/// The fields of a city row, read in order from its numeric columns: the capital
/// (given, or the words before the first number), then the kecamatan count, the
/// kelurahan and desa counts, the area, the population, and the rest as
/// annotation. A missing count is 0.
pub open spec fn city_fields(ts: Seq<Seq<char>>, pre: Option<Seq<char>>) -> CityFieldsModel {
    let n = ts.len() as int;
    let p0 = if pre is Some {
        0
    } else {
        number_from(ts, 0)
    };
    let ibukota = match pre {
        Some(c) => Some(c),
        None => if p0 > 0 {
            nonempty_join(ts.take(p0))
        } else {
            None
        },
    };
    let kec = if p0 < n {
        count_at(ts, p0)
    } else {
        0u32
    };
    let p1 = if p0 < n {
        p0 + 1
    } else {
        p0
    };
    let kel = if p1 < n {
        count_at(ts, p1)
    } else {
        0u32
    };
    let desa = if p1 + 1 < n {
        count_at(ts, p1 + 1)
    } else {
        0u32
    };
    let p2 = if p1 + 1 < n {
        p1 + 2
    } else if p1 < n {
        p1 + 1
    } else {
        p1
    };
    let luas = if p2 < n {
        Some(ts[p2])
    } else {
        None
    };
    let p3 = if p2 < n {
        p2 + 1
    } else {
        p2
    };
    let penduduk = if p3 < n {
        indonesian_int(ts[p3])
    } else {
        None
    };
    let p4 = if p3 < n {
        p3 + 1
    } else {
        p3
    };
    let keterangan = if p4 < n {
        nonempty_join(ts.skip(p4))
    } else {
        None
    };
    CityFieldsModel {
        ibukota,
        kec_count: kec,
        kel_count: kel,
        desa_count: desa,
        luas_km2: luas,
        penduduk,
        keterangan,
    }
}

fn count_at_exec(ts: &[Vec<char>], p: usize) -> (r: u32)
    requires
        p < ts@.len(),
    ensures
        r == count_at(views(ts@), p as int),
{
    proof {
        assert(views(ts@)[p as int] == ts@[p as int]@);
    }
    match indonesian_int_chars(ts[p].as_slice()) {
        Some(v) => v as u32,
        None => 0,
    }
}

fn nonempty_join_range(ts: &[Vec<char>], a: usize, b: usize) -> (r: Option<String>)
    requires
        a <= b <= ts@.len(),
    ensures
        match nonempty_join(views(ts@).subrange(a as int, b as int)) {
            Some(j) => r matches Some(x) && x@ == j,
            None => r is None,
        },
{
    let sep: Vec<char> = vec![' '];
    proof {
        assert(sep@ =~= seq![' ']);
    }
    let j = join_range(ts, a, b, sep.as_slice());
    if j.len() == 0 {
        None
    } else {
        Some(string_of_chars(j.as_slice()))
    }
}

pub fn city_fields_in(ts: &[Vec<char>], pre_ibukota: Option<String>) -> (r: CityFields)
    ensures
        r@ == city_fields(views(ts@), opt_string_view(pre_ibukota)),
{
    let ghost v = views(ts@);
    let n = ts.len();
    proof {
        lemma_number_from_bounds(v, 0);
        assert(v.len() == n);
    }
    let is_pre = pre_ibukota.is_some();
    let p0 = if is_pre {
        0
    } else {
        number_from_exec(ts, 0)
    };
    let ibukota = match pre_ibukota {
        Some(c) => Some(c),
        None => if p0 > 0 {
            let r = nonempty_join_range(ts, 0, p0);
            proof {
                assert(v.subrange(0, p0 as int) =~= v.take(p0 as int));
            }
            r
        } else {
            None
        },
    };
    let mut pos = p0;
    let kec = if pos < n {
        let c = count_at_exec(ts, pos);
        pos = pos + 1;
        c
    } else {
        0
    };
    let (kel, desa) = if pos < n && pos + 1 < n {
        let a = count_at_exec(ts, pos);
        let b = count_at_exec(ts, pos + 1);
        pos = pos + 2;
        (a, b)
    } else if pos < n {
        let a = count_at_exec(ts, pos);
        pos = pos + 1;
        (a, 0)
    } else {
        (0, 0)
    };
    let luas_km2 = if pos < n {
        let t = string_of_chars(ts[pos].as_slice());
        proof {
            assert(v[pos as int] == ts@[pos as int]@);
        }
        pos = pos + 1;
        Some(t)
    } else {
        None
    };
    let penduduk = if pos < n {
        proof {
            assert(v[pos as int] == ts@[pos as int]@);
        }
        let p = indonesian_int_chars(ts[pos].as_slice());
        pos = pos + 1;
        p
    } else {
        None
    };
    let keterangan = if pos < n {
        let k = nonempty_join_range(ts, pos, n);
        proof {
            assert(v.subrange(pos as int, n as int) =~= v.skip(pos as int));
        }
        k
    } else {
        None
    };
    CityFields { ibukota, kec_count: kec, kel_count: kel, desa_count: desa, luas_km2, penduduk, keterangan }
}

/// Reads the fields of a city row from its numeric columns.
pub fn parse_city_fields(tokens: &[&str], pre_ibukota: Option<String>) -> (r: CityFields)
    ensures
        r@ == city_fields(str_views(tokens@), opt_string_view(pre_ibukota)),
{
    let ts = token_chars(tokens);
    city_fields_in(ts.as_slice(), pre_ibukota)
}

// ---------------------------------------------------------------------------
// Province rows
// ---------------------------------------------------------------------------
/// The name, capital and annotation of a province row. With a column gap the
/// name is the text before it, the capital the words after it up to the first
/// number, and the annotation trails the numbers; without one the name is the
/// words before the numeric columns, of which there must be at least five.
pub open spec fn province_rest(rest: Seq<char>) -> Option<
    (Seq<char>, Option<Seq<char>>, Option<Seq<char>>),
> {
    let ts = words(rest);
    if ts.len() < MIN_TOKENS_HEADER {
        None
    } else {
        match column_gap(rest) {
            Some(g) => {
                let after = words(rest.skip(g));
                Some(
                    (
                        trim_end(rest.take(g)),
                        leading_words(after),
                        trailing_keterangan(after.skip(number_from(after, 0))),
                    ),
                )
            },
            None => {
                let ns = numeric_start(ts);
                if ns < 1 || ts.len() - ns < MIN_NUM_FIELDS_PROVINCE {
                    None
                } else {
                    Some((join(ts.take(ns), seq![' ']), None, trailing_keterangan(ts.skip(ns))))
                }
            },
        }
    }
}

pub open spec fn opt_vec_view(o: Option<Vec<char>>) -> Option<Seq<char>> {
    match o {
        Some(v) => Some(v@),
        None => None,
    }
}

pub fn province_rest_chars(rest: &[char]) -> (r: Option<(Vec<char>, Option<Vec<char>>, Option<Vec<char>>)>)
    ensures
        match province_rest(rest@) {
            Some((name, capital, note)) => r matches Some(x) && x.0@ == name && opt_vec_view(x.1)
                == capital && opt_vec_view(x.2) == note,
            None => r is None,
        },
{
    let ts = word_list(rest);
    proof {
        assert(views(ts@).len() == ts@.len());
    }
    if ts.len() < MIN_TOKENS_HEADER {
        return None;
    }
    let n = rest.len();
    match next_gap_exec(rest, 0) {
        Some(g) => {
            proof {
                lemma_next_gap_props(rest@, 0);
                match column_gap(rest@) {
                    Some(g0) => {
                        assert(crate::builder::columns::gap_at(rest@, g0));
                        assert(0 <= g0 < n);
                    },
                    None => {},
                }
                lemma_back_ws_prefix(rest@, g as int, 0, g as int);
            }
            let b = back_ws_exec(rest, 0, g);
            let name = copy_range(rest, 0, b);
            proof {
                assert(rest@.take(g as int).subrange(0, b as int) =~= rest@.subrange(0, b as int));
            }
            let after = tail_from(rest, g);
            let after_words = word_list(after.as_slice());
            let capital = leading_words_in(after_words.as_slice());
            proof {
                lemma_number_from_bounds(views(after_words@), 0);
            }
            let e = number_from_exec(after_words.as_slice(), 0);
            let nums = tokens_from(after_words.as_slice(), e);
            let note = trailing_keterangan_in(nums.as_slice());
            Some((name, capital, note))
        },
        None => {
            let ns = numeric_start_in(ts.as_slice());
            proof {
                lemma_numeric_start_bounds(views(ts@));
            }
            if ns < 1 || ts.len() - ns < MIN_NUM_FIELDS_PROVINCE {
                return None;
            }
            let sep: Vec<char> = vec![' '];
            proof {
                assert(sep@ =~= seq![' ']);
                assert(views(ts@).subrange(0, ns as int) =~= views(ts@).take(ns as int));
            }
            let name = join_range(ts.as_slice(), 0, ns, sep.as_slice());
            let nums = tokens_from(ts.as_slice(), ns);
            let note = trailing_keterangan_in(nums.as_slice());
            Some((name, None, note))
        },
    }
}

/// Reads the name, capital and annotation of a province row.
pub fn parse_province_rest(rest: &str) -> (r: Option<(String, Option<String>, Option<String>)>)
    ensures
        match province_rest(rest@) {
            Some((name, capital, note)) => r matches Some(x) && x.0@ == name
                && opt_string_view(x.1) == capital && opt_string_view(x.2) == note,
            None => r is None,
        },
{
    let cs = to_chars(rest);
    match province_rest_chars(cs.as_slice()) {
        Some((name, capital, note)) => Some(
            (string_of_chars(name.as_slice()), opt_string_of(capital), opt_string_of(note)),
        ),
        None => None,
    }
}

pub fn opt_string_of(o: Option<Vec<char>>) -> (r: Option<String>)
    ensures
        opt_string_view(r) == opt_vec_view(o),
{
    match o {
        Some(v) => Some(string_of_chars(v.as_slice())),
        None => None,
    }
}

} // verus!
