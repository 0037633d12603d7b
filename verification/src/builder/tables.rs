//! The decree's summary tables: the province table (section A), the province and
//! regency/city rows of the code listing (section C) and the population table
//! (section E), joined into province and city records.
use vstd::prelude::*;

use crate::builder::district::opt_view;
use crate::builder::headers::{
    city_fields, city_fields_in, name_and_capital, name_and_capital_chars, opt_string_view,
    province_rest, province_rest_chars, tokens_from, CityFieldsModel, MIN_NUM_FIELDS_CITY,
    MIN_TOKENS_HEADER,
};
use crate::builder::numbers::{lemma_numeric_start_bounds, numeric_start, numeric_start_in};
use crate::builder::parse::{extend_keterangan, extended_keterangan};
use crate::builder::village::{continuation, continuation_chars, digit_end, digit_end_exec, word_list, words};
use crate::text::{
    char_is_digit, char_is_ws, contains, copy_range, is_digit, is_ws, lines, skip_ws, skip_ws_exec,
    string_of_chars, text_lines, to_chars, trim, trim_range_exec, views,
};

verus! {

// ---------------------------------------------------------------------------
// Section C: regency/city rows
// ---------------------------------------------------------------------------
/// A city code `dd.dd` starts at `i`.
pub open spec fn city_code_at(s: Seq<char>, i: int) -> bool {
    &&& 0 <= i
    &&& i + 5 <= s.len()
    &&& is_digit(s[i])
    &&& is_digit(s[i + 1])
    &&& s[i + 2] == '.'
    &&& is_digit(s[i + 3])
    &&& is_digit(s[i + 4])
}

/// A regency/city row of the code listing: indentation, the city code `dd.dd`,
/// whitespace, a row number, whitespace, and the row's text. Gives the code and
/// the trimmed text; a row whose text is blank gives nothing.
pub open spec fn city_row(line: Seq<char>) -> Option<(Seq<char>, Seq<char>)> {
    let n = line.len() as int;
    let i0 = skip_ws(line, 0, n);
    let i1 = i0 + 5;
    let i2 = skip_ws(line, i1, n);
    let i3 = digit_end(line, i2);
    let i4 = skip_ws(line, i3, n);
    if i0 >= 1 && city_code_at(line, i0) && i1 < n && is_ws(line[i1]) && i3 > i2 && i3 < n
        && is_ws(line[i3]) && i4 < n {
        Some((line.subrange(i0, i1), trim(line.subrange(i4, n))))
    } else {
        None
    }
}

pub fn city_row_exec(line: &[char]) -> (r: Option<(Vec<char>, Vec<char>)>)
    ensures
        match city_row(line@) {
            Some((code, rest)) => r matches Some(x) && x.0@ == code && x.1@ == rest,
            None => r is None,
        },
{
    let n = line.len();
    proof {
        crate::text::lemma_skip_ws_bounds(line@, 0, n as int);
    }
    let i0 = skip_ws_exec(line, 0, n);
    if i0 < 1 || n - i0 < 5 {
        return None;
    }
    if !(char_is_digit(line[i0]) && char_is_digit(line[i0 + 1]) && line[i0 + 2] == '.'
        && char_is_digit(line[i0 + 3]) && char_is_digit(line[i0 + 4])) {
        return None;
    }
    let i1 = i0 + 5;
    if i1 >= n || !char_is_ws(line[i1]) {
        return None;
    }
    proof {
        crate::text::lemma_skip_ws_bounds(line@, i1 as int, n as int);
    }
    let i2 = skip_ws_exec(line, i1, n);
    let i3 = digit_end_exec(line, i2);
    if i3 <= i2 || i3 >= n || !char_is_ws(line[i3]) {
        return None;
    }
    proof {
        crate::text::lemma_skip_ws_bounds(line@, i3 as int, n as int);
    }
    let i4 = skip_ws_exec(line, i3, n);
    if i4 >= n {
        return None;
    }
    let code = copy_range(line, i0, i1);
    let (a, b) = trim_range_exec(line, i4, n);
    let rest = copy_range(line, a, b);
    proof {
        lemma_trim_sub_range(line@, i4 as int, n as int);
    }
    Some((code, rest))
}

/// Trimming the piece `s[lo..hi]` is trimming the range `lo..hi` of `s`.
pub proof fn lemma_trim_sub_range(s: Seq<char>, lo: int, hi: int)
    requires
        0 <= lo <= hi <= s.len(),
    ensures
        trim(s.subrange(lo, hi)) == s.subrange(
            crate::text::trim_range(s, lo, hi).0,
            crate::text::trim_range(s, lo, hi).1,
        ),
{
    crate::builder::district::lemma_trim_sub(s, lo, hi);
}

/// A word that names the type of a regency/city row.
pub open spec fn is_type_word(t: Seq<char>) -> bool {
    ||| t == seq!['K', 'a', 'b', 'u', 'p', 'a', 't', 'e', 'n']
    ||| t == seq!['K', 'a', 'b']
    ||| t == seq!['K', 'o', 't', 'a']
}

fn is_type_word_exec(t: &[char]) -> (b: bool)
    ensures
        b == is_type_word(t@),
{
    let kab = t.len() == 3 && t[0] == 'K' && t[1] == 'a' && t[2] == 'b';
    let kota = t.len() == 4 && t[0] == 'K' && t[1] == 'o' && t[2] == 't' && t[3] == 'a';
    let kabupaten = t.len() == 9 && t[0] == 'K' && t[1] == 'a' && t[2] == 'b' && t[3] == 'u' && t[4]
        == 'p' && t[5] == 'a' && t[6] == 't' && t[7] == 'e' && t[8] == 'n';
    proof {
        if kab {
            assert(t@ =~= seq!['K', 'a', 'b']);
        }
        if kota {
            assert(t@ =~= seq!['K', 'o', 't', 'a']);
        }
        if kabupaten {
            assert(t@ =~= seq!['K', 'a', 'b', 'u', 'p', 'a', 't', 'e', 'n']);
        }
    }
    kab || kota || kabupaten
}

/// The index of the first type word at or after `i`.
pub open spec fn type_index_from(ts: Seq<Seq<char>>, i: int) -> Option<int>
    decreases ts.len() - i,
{
    if i < 0 || i >= ts.len() {
        None
    } else if is_type_word(ts[i]) {
        Some(i)
    } else {
        type_index_from(ts, i + 1)
    }
}

pub proof fn lemma_type_index_from(ts: Seq<Seq<char>>, i: int)
    requires
        0 <= i,
    ensures
        type_index_from(ts, i) matches Some(k) ==> i <= k < ts.len(),
    decreases ts.len() - i,
{
    if i < ts.len() && !is_type_word(ts[i]) {
        lemma_type_index_from(ts, i + 1);
    }
}

fn type_index_exec(ts: &[Vec<char>]) -> (r: Option<usize>)
    ensures
        match type_index_from(views(ts@), 0) {
            Some(k) => r == Some(k as usize),
            None => r is None,
        },
{
    let ghost v = views(ts@);
    let mut i: usize = 0;
    while i < ts.len()
        invariant
            i <= ts@.len(),
            v == views(ts@),
            type_index_from(v, i as int) == type_index_from(v, 0),
        decreases ts@.len() - i,
    {
        proof {
            assert(v[i as int] == ts@[i as int]@);
        }
        if is_type_word_exec(ts[i].as_slice()) {
            return Some(i);
        }
        i = i + 1;
    }
    None
}

/// A regency/city header of the code listing.
pub struct CCityHeader {
    pub code: String,
    pub name: String,
    pub ibukota: Option<String>,
    pub kec_count: u32,
    pub kel_count: u32,
    pub desa_count: u32,
    /// The area column as written.
    pub luas_km2: Option<String>,
    pub penduduk: Option<u64>,
    pub keterangan: Option<String>,
}

/// The model of a regency/city header.
pub struct CityHeaderModel {
    pub code: Seq<char>,
    pub name: Seq<char>,
    pub ibukota: Option<Seq<char>>,
    pub kec_count: u32,
    pub kel_count: u32,
    pub desa_count: u32,
    pub luas_km2: Option<Seq<char>>,
    pub penduduk: Option<u64>,
    pub keterangan: Option<Seq<char>>,
}

impl View for CCityHeader {
    type V = CityHeaderModel;

    open spec fn view(&self) -> CityHeaderModel {
        CityHeaderModel {
            code: self.code@,
            name: self.name@,
            ibukota: opt_view(self.ibukota),
            kec_count: self.kec_count,
            kel_count: self.kel_count,
            desa_count: self.desa_count,
            luas_km2: opt_view(self.luas_km2),
            penduduk: self.penduduk,
            keterangan: opt_view(self.keterangan),
        }
    }
}

pub open spec fn city_models(cs: Seq<CCityHeader>) -> Seq<CityHeaderModel> {
    cs.map_values(|c: CCityHeader| c@)
}

/// The header read from a city row's code and text: the row needs at least
/// three words, a type word, numeric columns starting past the word after the
/// type word, and at least two numeric columns.
pub open spec fn city_header_of(code: Seq<char>, rest: Seq<char>) -> Option<CityHeaderModel> {
    let ts = words(rest);
    if ts.len() < MIN_TOKENS_HEADER {
        None
    } else {
        match type_index_from(ts, 0) {
            None => None,
            Some(ti) => {
                let ns = numeric_start(ts);
                if ns <= ti + 1 || ts.len() - ns < MIN_NUM_FIELDS_CITY {
                    None
                } else {
                    let nc = name_and_capital(rest, ti, ns);
                    let f = city_fields(ts.skip(ns), nc.1);
                    Some(
                        CityHeaderModel {
                            code,
                            name: nc.0,
                            ibukota: f.ibukota,
                            kec_count: f.kec_count,
                            kel_count: f.kel_count,
                            desa_count: f.desa_count,
                            luas_km2: f.luas_km2,
                            penduduk: f.penduduk,
                            keterangan: f.keterangan,
                        },
                    )
                }
            },
        }
    }
}

fn city_header_exec(code: Vec<char>, rest: &[char]) -> (r: Option<CCityHeader>)
    ensures
        match city_header_of(code@, rest@) {
            Some(h) => r matches Some(x) && x@ == h,
            None => r is None,
        },
{
    let ts = word_list(rest);
    let ghost v = views(ts@);
    proof {
        assert(v.len() == ts@.len());
    }
    if ts.len() < MIN_TOKENS_HEADER {
        return None;
    }
    let ti = match type_index_exec(ts.as_slice()) {
        Some(i) => i,
        None => {
            return None;
        },
    };
    proof {
        lemma_type_index_from(v, 0);
        lemma_numeric_start_bounds(v);
    }
    let ns = numeric_start_in(ts.as_slice());
    if ns <= ti + 1 || ts.len() - ns < MIN_NUM_FIELDS_CITY {
        return None;
    }
    let (name, capital) = name_and_capital_chars(rest, ti, ns);
    let capital = match capital {
        Some(c) => Some(string_of_chars(c.as_slice())),
        None => None,
    };
    proof {
        assert(opt_string_view(capital) == name_and_capital(rest@, ti as int, ns as int).1);
    }
    let nums = tokens_from(ts.as_slice(), ns);
    let f = city_fields_in(nums.as_slice(), capital);
    Some(
        CCityHeader {
            code: string_of_chars(code.as_slice()),
            name: string_of_chars(name.as_slice()),
            ibukota: f.ibukota,
            kec_count: f.kec_count,
            kel_count: f.kel_count,
            desa_count: f.desa_count,
            luas_km2: f.luas_km2,
            penduduk: f.penduduk,
            keterangan: f.keterangan,
        },
    )
}

/// Continuation text appended to the annotation of the last city header.
pub open spec fn append_city_note(cs: Seq<CityHeaderModel>, text: Seq<char>) -> Seq<
    CityHeaderModel,
> {
    if cs.len() == 0 {
        cs
    } else {
        let last = cs.last();
        cs.update(
            cs.len() - 1,
            CityHeaderModel { keterangan: extended_keterangan(last.keterangan, text), ..last },
        )
    }
}

/// Appends continuation text to the annotation of the last city header.
pub fn append_city_keterangan(items: &mut Vec<CCityHeader>, text: &str)
    ensures
        city_models(final(items)@) == append_city_note(city_models(old(items)@), text@),
{
    let ghost before = city_models(items@);
    if items.len() == 0 {
        return;
    }
    let ghost pre = items@;
    let mut last = items.pop().unwrap();
    proof {
        assert(last == pre.last());
        assert(city_models(items@) =~= before.drop_last());
    }
    let k = last.keterangan;
    last.keterangan = extend_keterangan(k, text);
    let ghost mid = city_models(items@);
    items.push(last);
    proof {
        assert(city_models(items@) =~= mid.push(last@));
        assert(append_city_note(before, text@) =~= before.drop_last().push(last@));
    }
}

/// What the scan of city rows remembers between lines: the headers so far, and
/// whether the last one ended in an annotation that may continue.
pub struct CityScan {
    pub cities: Seq<CityHeaderModel>,
    pub cont: bool,
}

/// One line of the scan: while an annotation may continue, an indented text line
/// extends it; otherwise a city row adds a header.
pub open spec fn city_step(st: CityScan, line: Seq<char>) -> CityScan {
    if st.cont && continuation(line) is Some {
        CityScan { cities: append_city_note(st.cities, trim(line)), cont: true }
    } else {
        match city_row(line) {
            Some((code, rest)) => match city_header_of(code, rest) {
                Some(h) => CityScan { cities: st.cities.push(h), cont: h.keterangan is Some },
                None => CityScan { cities: st.cities, cont: false },
            },
            None => CityScan { cities: st.cities, cont: false },
        }
    }
}

/// The scan after the lines `ls`.
pub open spec fn city_scan(ls: Seq<Seq<char>>) -> CityScan
    decreases ls.len(),
{
    if ls.len() == 0 {
        CityScan { cities: Seq::empty(), cont: false }
    } else {
        city_step(city_scan(ls.drop_last()), ls.last())
    }
}

/// The regency/city headers of the code listing in `text`.
pub open spec fn c_city_headers(text: Seq<char>) -> Seq<CityHeaderModel> {
    city_scan(lines(text)).cities
}

/// Reads the regency/city headers of the code listing.
pub fn parse_c_city_headers(text: &str) -> (r: Vec<CCityHeader>)
    ensures
        city_models(r@) == c_city_headers(text@),
{
    let s = to_chars(text);
    let ls = text_lines(s.as_slice());
    let ghost lv = views(ls@);
    let mut cities: Vec<CCityHeader> = Vec::new();
    let mut cont = false;
    let mut i: usize = 0;
    proof {
        assert(lv.take(0) =~= Seq::<Seq<char>>::empty());
        assert(city_models(cities@) =~= Seq::<CityHeaderModel>::empty());
    }
    while i < ls.len()
        invariant
            i <= ls@.len(),
            lv == views(ls@),
            lv == lines(s@),
            s@ == text@,
            city_scan(lv.take(i as int)) == (CityScan { cities: city_models(cities@), cont }),
        decreases ls@.len() - i,
    {
        let line = ls[i].as_slice();
        proof {
            assert(lv.take(i + 1).drop_last() =~= lv.take(i as int));
            assert(lv.take(i + 1).last() == line@);
        }
        let is_cont = cont && continuation_chars(line).is_some();
        if is_cont {
            let (a, b) = trim_range_exec(line, 0, line.len());
            let t = string_of_chars(copy_range(line, a, b).as_slice());
            proof {
                assert(line@.subrange(0, line@.len() as int) =~= line@);
                lemma_trim_sub_range(line@, 0, line@.len() as int);
            }
            append_city_keterangan(&mut cities, t.as_str());
        } else {
            cont = false;
            match city_row_exec(line) {
                Some((code, rest)) => {
                    match city_header_exec(code, rest.as_slice()) {
                        Some(h) => {
                            cont = h.keterangan.is_some();
                            let ghost before = city_models(cities@);
                            cities.push(h);
                            proof {
                                assert(city_models(cities@) =~= before.push(h@));
                            }
                        },
                        None => {},
                    }
                },
                None => {},
            }
        }
        i = i + 1;
    }
    proof {
        assert(lv.take(ls@.len() as int) =~= lv);
    }
    cities
}


// ---------------------------------------------------------------------------
// Section C: province rows
// ---------------------------------------------------------------------------
/// Every character of `s` is `c`.
pub open spec fn all_are(s: Seq<char>, c: char) -> bool {
    forall|k: int| 0 <= k < s.len() ==> s[k] == c
}

/// Zero to three `I`s.
pub open spec fn few_i(s: Seq<char>) -> bool {
    s.len() <= 3 && all_are(s, 'I')
}

/// The end of the run of `X`s that starts at `i`.
pub open spec fn x_run_end(s: Seq<char>, i: int) -> int
    decreases s.len() - i,
{
    if 0 <= i < s.len() && s[i] == 'X' {
        x_run_end(s, i + 1)
    } else {
        i
    }
}

/// A roman row number as the decree writes them: `I`–`III`, `IV`, `V`–`VIII`,
/// `IX`, or one to three `X`s followed by an optional `V` and up to three `I`s.
pub open spec fn roman_numeral(w: Seq<char>) -> bool {
    let x = x_run_end(w, 0);
    ||| 1 <= w.len() && few_i(w)
    ||| w == seq!['I', 'V']
    ||| w == seq!['I', 'X']
    ||| w.len() >= 2 && w[0] == 'V' && few_i(w.skip(1))
    ||| 1 <= x <= 3 && (few_i(w.skip(x)) || (w.len() > x && w[x] == 'V' && few_i(w.skip(x + 1))))
}

proof fn lemma_x_run_end(s: Seq<char>, i: int)
    requires
        0 <= i <= s.len(),
    ensures
        i <= x_run_end(s, i) <= s.len(),
    decreases s.len() - i,
{
    if i < s.len() && s[i] == 'X' {
        lemma_x_run_end(s, i + 1);
    }
}

fn few_i_from(w: &[char], a: usize) -> (b: bool)
    requires
        a <= w@.len(),
    ensures
        b == few_i(w@.skip(a as int)),
{
    if w.len() - a > 3 {
        return false;
    }
    let mut k = a;
    while k < w.len()
        invariant
            a <= k <= w@.len(),
            forall|j: int| a <= j < k ==> w@[j] == 'I',
        decreases w@.len() - k,
    {
        if w[k] != 'I' {
            proof {
                assert(w@.skip(a as int)[k - a] != 'I');
            }
            return false;
        }
        k = k + 1;
    }
    proof {
        assert forall|j: int| 0 <= j < w@.skip(a as int).len() implies w@.skip(a as int)[j]
            == 'I' by {
            assert(w@.skip(a as int)[j] == w@[a + j]);
        }
    }
    true
}

fn roman_numeral_exec(w: &[char]) -> (b: bool)
    ensures
        b == roman_numeral(w@),
{
    let n = w.len();
    let ghost x0 = x_run_end(w@, 0);
    proof {
        lemma_x_run_end(w@, 0);
        assert(w@.skip(0) =~= w@);
    }
    if 1 <= n && few_i_from(w, 0) {
        return true;
    }
    let iv = n == 2 && w[0] == 'I' && w[1] == 'V';
    let ix = n == 2 && w[0] == 'I' && w[1] == 'X';
    proof {
        if n == 2 {
            if w@ == seq!['I', 'V'] || w@ == seq!['I', 'X'] {
                assert(w@[0] == 'I');
            }
            if iv {
                assert(w@ =~= seq!['I', 'V']);
            }
            if ix {
                assert(w@ =~= seq!['I', 'X']);
            }
        }
    }
    if iv || ix {
        return true;
    }
    if n >= 2 && w[0] == 'V' && few_i_from(w, 1) {
        return true;
    }
    let mut x: usize = 0;
    while x < n && w[x] == 'X'
        invariant
            x <= n == w@.len(),
            x_run_end(w@, x as int) == x0,
        decreases n - x,
    {
        x = x + 1;
    }
    if 1 <= x && x <= 3 {
        if few_i_from(w, x) {
            return true;
        }
        if n > x && w[x] == 'V' && few_i_from(w, x + 1) {
            return true;
        }
    }
    false
}

/// A province row numbered in roman numerals: the numeral, the two-digit
/// province code, and a text that starts with a letter and has at least two
/// characters. Gives the code and the trimmed text.
pub open spec fn roman_row(line: Seq<char>) -> Option<(Seq<char>, Seq<char>)> {
    let n = line.len() as int;
    let i0 = skip_ws(line, 0, n);
    let we = crate::text::word_end(line, i0, n);
    let c0 = skip_ws(line, we, n);
    let t0 = skip_ws(line, c0 + 2, n);
    if we < n && roman_numeral(line.subrange(i0, we)) && c0 + 2 < n && is_digit(line[c0])
        && is_digit(line[c0 + 1]) && is_ws(line[c0 + 2]) && t0 + 1 < n && crate::text::is_ascii_alpha(
        line[t0],
    ) {
        Some((line.subrange(c0, c0 + 2), trim(line.subrange(t0, n))))
    } else {
        None
    }
}

/// A province row of the new provinces, numbered in arabic digits: indentation,
/// a code from `93` to `96`, and a text that starts with a letter and has at
/// least two characters. Gives the code and the trimmed text.
pub open spec fn arabic_row(line: Seq<char>) -> Option<(Seq<char>, Seq<char>)> {
    let n = line.len() as int;
    let i0 = skip_ws(line, 0, n);
    let t0 = skip_ws(line, i0 + 2, n);
    if i0 >= 1 && i0 + 2 < n && line[i0] == '9' && '3' <= line[i0 + 1] <= '6' && is_ws(
        line[i0 + 2],
    ) && t0 + 1 < n && crate::text::is_ascii_alpha(line[t0]) {
        Some((line.subrange(i0, i0 + 2), trim(line.subrange(t0, n))))
    } else {
        None
    }
}

/// A province row of the code listing, in either numbering.
pub open spec fn province_row(line: Seq<char>) -> Option<(Seq<char>, Seq<char>)> {
    match roman_row(line) {
        Some(x) => Some(x),
        None => arabic_row(line),
    }
}

fn char_is_ascii_alpha(c: char) -> (b: bool)
    ensures
        b == crate::text::is_ascii_alpha(c),
{
    ('a' <= c && c <= 'z') || ('A' <= c && c <= 'Z')
}

fn roman_row_exec(line: &[char]) -> (r: Option<(Vec<char>, Vec<char>)>)
    ensures
        match roman_row(line@) {
            Some((code, rest)) => r matches Some(x) && x.0@ == code && x.1@ == rest,
            None => r is None,
        },
{
    let n = line.len();
    proof {
        crate::text::lemma_skip_ws_bounds(line@, 0, n as int);
    }
    let i0 = skip_ws_exec(line, 0, n);
    let we = crate::text::word_end_exec(line, i0, n);
    if we >= n {
        return None;
    }
    let word = copy_range(line, i0, we);
    if !roman_numeral_exec(word.as_slice()) {
        return None;
    }
    proof {
        crate::text::lemma_skip_ws_bounds(line@, we as int, n as int);
    }
    let c0 = skip_ws_exec(line, we, n);
    if n - c0 <= 2 {
        return None;
    }
    if !(char_is_digit(line[c0]) && char_is_digit(line[c0 + 1]) && char_is_ws(line[c0 + 2])) {
        return None;
    }
    proof {
        crate::text::lemma_skip_ws_bounds(line@, c0 + 2, n as int);
    }
    let t0 = skip_ws_exec(line, c0 + 2, n);
    if n - t0 <= 1 || !char_is_ascii_alpha(line[t0]) {
        return None;
    }
    let code = copy_range(line, c0, c0 + 2);
    let (a, b) = trim_range_exec(line, t0, n);
    let rest = copy_range(line, a, b);
    proof {
        lemma_trim_sub_range(line@, t0 as int, n as int);
    }
    Some((code, rest))
}

fn arabic_row_exec(line: &[char]) -> (r: Option<(Vec<char>, Vec<char>)>)
    ensures
        match arabic_row(line@) {
            Some((code, rest)) => r matches Some(x) && x.0@ == code && x.1@ == rest,
            None => r is None,
        },
{
    let n = line.len();
    proof {
        crate::text::lemma_skip_ws_bounds(line@, 0, n as int);
    }
    let i0 = skip_ws_exec(line, 0, n);
    if i0 < 1 || n - i0 <= 2 {
        return None;
    }
    if !(line[i0] == '9' && '3' <= line[i0 + 1] && line[i0 + 1] <= '6' && char_is_ws(
        line[i0 + 2],
    )) {
        return None;
    }
    proof {
        crate::text::lemma_skip_ws_bounds(line@, i0 + 2, n as int);
    }
    let t0 = skip_ws_exec(line, i0 + 2, n);
    if n - t0 <= 1 || !char_is_ascii_alpha(line[t0]) {
        return None;
    }
    let code = copy_range(line, i0, i0 + 2);
    let (a, b) = trim_range_exec(line, t0, n);
    let rest = copy_range(line, a, b);
    proof {
        lemma_trim_sub_range(line@, t0 as int, n as int);
    }
    Some((code, rest))
}

/// A province header of the code listing.
pub struct CProvinceHeader {
    pub code: String,
    pub name: String,
    pub ibukota: Option<String>,
    pub keterangan: Option<String>,
}

/// The model of a province header.
pub struct ProvinceHeaderModel {
    pub code: Seq<char>,
    pub name: Seq<char>,
    pub ibukota: Option<Seq<char>>,
    pub keterangan: Option<Seq<char>>,
}

impl View for CProvinceHeader {
    type V = ProvinceHeaderModel;

    open spec fn view(&self) -> ProvinceHeaderModel {
        ProvinceHeaderModel {
            code: self.code@,
            name: self.name@,
            ibukota: opt_view(self.ibukota),
            keterangan: opt_view(self.keterangan),
        }
    }
}

pub open spec fn province_header_models(hs: Seq<CProvinceHeader>) -> Seq<ProvinceHeaderModel> {
    hs.map_values(|h: CProvinceHeader| h@)
}

/// The header a line gives, if it is a province row whose text reads.
pub open spec fn province_header_of(line: Seq<char>) -> Option<ProvinceHeaderModel> {
    match province_row(line) {
        Some((code, rest)) => match province_rest(rest) {
            Some((name, ibukota, keterangan)) => Some(
                ProvinceHeaderModel { code, name, ibukota, keterangan },
            ),
            None => None,
        },
        None => None,
    }
}

/// The province headers among the lines `ls`.
pub open spec fn province_headers_in(ls: Seq<Seq<char>>) -> Seq<ProvinceHeaderModel>
    decreases ls.len(),
{
    if ls.len() == 0 {
        Seq::empty()
    } else {
        let p = province_headers_in(ls.drop_last());
        match province_header_of(ls.last()) {
            Some(h) => p.push(h),
            None => p,
        }
    }
}

/// The province headers of the code listing in `text`.
pub open spec fn c_province_headers(text: Seq<char>) -> Seq<ProvinceHeaderModel> {
    province_headers_in(lines(text))
}

fn province_header_exec(line: &[char]) -> (r: Option<CProvinceHeader>)
    ensures
        match province_header_of(line@) {
            Some(h) => r matches Some(x) && x@ == h,
            None => r is None,
        },
{
    let row = match roman_row_exec(line) {
        Some(x) => Some(x),
        None => arabic_row_exec(line),
    };
    match row {
        Some((code, rest)) => match province_rest_chars(rest.as_slice()) {
            Some((name, ibukota, keterangan)) => Some(
                CProvinceHeader {
                    code: string_of_chars(code.as_slice()),
                    name: string_of_chars(name.as_slice()),
                    ibukota: crate::builder::headers::opt_string_of(ibukota),
                    keterangan: crate::builder::headers::opt_string_of(keterangan),
                },
            ),
            None => None,
        },
        None => None,
    }
}

/// Reads the province headers of the code listing.
pub fn parse_c_province_headers(text: &str) -> (r: Vec<CProvinceHeader>)
    ensures
        province_header_models(r@) == c_province_headers(text@),
{
    let s = to_chars(text);
    let ls = text_lines(s.as_slice());
    let ghost lv = views(ls@);
    let mut out: Vec<CProvinceHeader> = Vec::new();
    let mut i: usize = 0;
    proof {
        assert(lv.take(0) =~= Seq::<Seq<char>>::empty());
        assert(province_header_models(out@) =~= Seq::<ProvinceHeaderModel>::empty());
    }
    while i < ls.len()
        invariant
            i <= ls@.len(),
            lv == views(ls@),
            lv == lines(s@),
            s@ == text@,
            province_headers_in(lv.take(i as int)) == province_header_models(out@),
        decreases ls@.len() - i,
    {
        proof {
            assert(lv.take(i + 1).drop_last() =~= lv.take(i as int));
            assert(lv.take(i + 1).last() == ls@[i as int]@);
        }
        match province_header_exec(ls[i].as_slice()) {
            Some(h) => {
                let ghost before = province_header_models(out@);
                out.push(h);
                proof {
                    assert(province_header_models(out@) =~= before.push(h@));
                }
            },
            None => {},
        }
        i = i + 1;
    }
    proof {
        assert(lv.take(ls@.len() as int) =~= lv);
    }
    out
}


// ---------------------------------------------------------------------------
// Section A: the province table
// ---------------------------------------------------------------------------
/// Minimum tokens expected after the name in a province table row.
pub const MIN_TOKENS_SECTION_A: usize = 8;

/// `s` starts with `pat`.
pub open spec fn starts_with(s: Seq<char>, pat: Seq<char>) -> bool {
    crate::text::occurs_at(s, 0, pat)
}

fn starts_with_exec(s: &[char], pat: &str) -> (b: bool)
    ensures
        b == starts_with(s@, pat@),
{
    let p = to_chars(pat);
    crate::text::occurs_at_exec(s, 0, p.as_slice())
}

/// `s` with every `c` removed.
pub open spec fn without_char(s: Seq<char>, c: char) -> Seq<char>
    decreases s.len(),
{
    if s.len() == 0 {
        s
    } else if s.last() == c {
        without_char(s.drop_last(), c)
    } else {
        without_char(s.drop_last(), c).push(s.last())
    }
}

fn without_char_exec(s: &[char], c: char) -> (r: Vec<char>)
    ensures
        r@ == without_char(s@, c),
{
    let mut r: Vec<char> = Vec::new();
    let mut i: usize = 0;
    while i < s.len()
        invariant
            i <= s@.len(),
            r@ == without_char(s@.take(i as int), c),
        decreases s@.len() - i,
    {
        proof {
            assert(s@.take(i + 1).drop_last() =~= s@.take(i as int));
        }
        if s[i] != c {
            r.push(s[i]);
        }
        i = i + 1;
    }
    proof {
        assert(s@.take(s@.len() as int) =~= s@);
    }
    r
}

/// A line of the province table that is not a data row: blank, a heading, a
/// total, a footnote, or anything not starting with a digit.
pub open spec fn section_a_skipped(t: Seq<char>) -> bool {
    ||| t.len() == 0
    ||| starts_with(t, "NO"@)
    ||| starts_with(t, "A."@)
    ||| starts_with(t, "JUMLAH"@)
    ||| starts_with(t, "KETERANGAN"@)
    ||| starts_with(t, "*"@)
    ||| !is_digit(t[0])
}

/// The first index at or after `i` where two whitespace characters stand in a row.
pub open spec fn double_ws_from(t: Seq<char>, i: int) -> Option<int>
    decreases t.len() - i,
{
    if i < 0 || i + 1 >= t.len() {
        None
    } else if is_ws(t[i]) && is_ws(t[i + 1]) {
        Some(i)
    } else {
        double_ws_from(t, i + 1)
    }
}

pub proof fn lemma_double_ws_from(t: Seq<char>, i: int)
    requires
        0 <= i,
    ensures
        double_ws_from(t, i) matches Some(p) ==> i <= p && p + 1 < t.len(),
    decreases t.len() - i,
{
    if i + 1 < t.len() && !(is_ws(t[i]) && is_ws(t[i + 1])) {
        lemma_double_ws_from(t, i + 1);
    }
}

pub fn double_ws_exec(t: &[char], from: usize) -> (r: Option<usize>)
    requires
        from <= t@.len(),
    ensures
        match double_ws_from(t@, from as int) {
            Some(p) => r == Some(p as usize),
            None => r is None,
        },
{
    let mut i = from;
    while i < t.len() && i + 1 < t.len()
        invariant
            from <= i <= t@.len(),
            double_ws_from(t@, i as int) == double_ws_from(t@, from as int),
        decreases t@.len() - i,
    {
        if char_is_ws(t[i]) && char_is_ws(t[i + 1]) {
            return Some(i);
        }
        i = i + 1;
    }
    None
}

/// A data row of the province table (`t` trimmed): a row number, the two-digit
/// province code, the name (words up to the first gap of two or more whitespace
/// characters) and the rest. Gives the code, the name and the rest.
pub open spec fn section_a_row(t: Seq<char>) -> Option<(Seq<char>, Seq<char>, Seq<char>)> {
    let n = t.len() as int;
    let d0 = digit_end(t, 0);
    let c0 = skip_ws(t, d0, n);
    let m0 = skip_ws(t, c0 + 2, n);
    if d0 > 0 && d0 < n && is_ws(t[d0]) && c0 + 2 < n && is_digit(t[c0]) && is_digit(t[c0 + 1])
        && is_ws(t[c0 + 2]) && m0 < n {
        match double_ws_from(t, m0) {
            Some(p) => {
                let e = skip_ws(t, p, n);
                if e < n {
                    Some((t.subrange(c0, c0 + 2), trim(t.subrange(m0, p)), trim(t.subrange(e, n))))
                } else {
                    None
                }
            },
            None => None,
        }
    } else {
        None
    }
}

/// A row of the province table.
pub struct SectionAProvince {
    pub code: String,
    pub name: String,
    pub kab_count: u32,
    pub kota_count: u32,
    pub kec_count: u32,
    pub kel_count: u32,
    pub desa_count: u32,
    /// The area column as written.
    pub luas_km2: String,
    pub penduduk: Option<u64>,
    pub island_count: Option<u32>,
}

/// The model of a row of the province table.
pub struct SectionAModel {
    pub code: Seq<char>,
    pub name: Seq<char>,
    pub kab_count: u32,
    pub kota_count: u32,
    pub kec_count: u32,
    pub kel_count: u32,
    pub desa_count: u32,
    pub luas_km2: Seq<char>,
    pub penduduk: Option<u64>,
    pub island_count: Option<u32>,
}

impl View for SectionAProvince {
    type V = SectionAModel;

    open spec fn view(&self) -> SectionAModel {
        SectionAModel {
            code: self.code@,
            name: self.name@,
            kab_count: self.kab_count,
            kota_count: self.kota_count,
            kec_count: self.kec_count,
            kel_count: self.kel_count,
            desa_count: self.desa_count,
            luas_km2: self.luas_km2@,
            penduduk: self.penduduk,
            island_count: self.island_count,
        }
    }
}

pub open spec fn section_a_models(ps: Seq<SectionAProvince>) -> Seq<SectionAModel> {
    ps.map_values(|p: SectionAProvince| p@)
}

/// A plain `u32` column, or 0 when it does not parse.
pub open spec fn plain_count(t: Seq<char>) -> u32 {
    match crate::text::parse_uint(t, u32::MAX as nat) {
        Some(v) => v as u32,
        None => 0,
    }
}

/// The province a line of the table gives: the row, with at least eight columns
/// after the name (the kabupaten, kota and kecamatan counts, the kelurahan and
/// desa counts, the area, the population and the island count).
pub open spec fn section_a_entry(line: Seq<char>) -> Option<SectionAModel> {
    let t = trim(line);
    if section_a_skipped(t) {
        None
    } else {
        match section_a_row(t) {
            Some((code, name, tail)) => {
                let ts = words(tail);
                if ts.len() < MIN_TOKENS_SECTION_A {
                    None
                } else {
                    Some(
                        SectionAModel {
                            code,
                            name,
                            kab_count: plain_count(ts[0]),
                            kota_count: plain_count(ts[1]),
                            kec_count: plain_count(ts[2]),
                            kel_count: crate::builder::headers::count_at(ts, 3),
                            desa_count: crate::builder::headers::count_at(ts, 4),
                            luas_km2: ts[5],
                            penduduk: crate::builder::numbers::indonesian_int(ts[6]),
                            island_count: match crate::builder::numbers::indonesian_int(
                                without_char(ts[7], ','),
                            ) {
                                Some(v) => Some(v as u32),
                                None => None,
                            },
                        },
                    )
                }
            },
            None => None,
        }
    }
}

/// The rows of the province table among the lines `ls`.
pub open spec fn section_a_in(ls: Seq<Seq<char>>) -> Seq<SectionAModel>
    decreases ls.len(),
{
    if ls.len() == 0 {
        Seq::empty()
    } else {
        let p = section_a_in(ls.drop_last());
        match section_a_entry(ls.last()) {
            Some(e) => p.push(e),
            None => p,
        }
    }
}

/// The rows of the province table in `text`.
pub open spec fn section_a(text: Seq<char>) -> Seq<SectionAModel> {
    section_a_in(lines(text))
}

fn plain_count_exec(t: &[char]) -> (r: u32)
    ensures
        r == plain_count(t@),
{
    proof {
        assert(t@.subrange(0, t@.len() as int) =~= t@);
    }
    match crate::text::parse_u64_range(t, 0, t.len()) {
        Some(v) => if v <= u32::MAX as u64 {
            v as u32
        } else {
            0
        },
        None => 0,
    }
}

fn section_a_skipped_exec(t: &[char]) -> (b: bool)
    ensures
        b == section_a_skipped(t@),
{
    t.len() == 0 || starts_with_exec(t, "NO") || starts_with_exec(t, "A.") || starts_with_exec(
        t,
        "JUMLAH",
    ) || starts_with_exec(t, "KETERANGAN") || starts_with_exec(t, "*") || !char_is_digit(t[0])
}

fn section_a_row_exec(t: &[char]) -> (r: Option<(Vec<char>, Vec<char>, Vec<char>)>)
    ensures
        match section_a_row(t@) {
            Some((code, name, tail)) => r matches Some(x) && x.0@ == code && x.1@ == name && x.2@
                == tail,
            None => r is None,
        },
{
    let n = t.len();
    let d0 = digit_end_exec(t, 0);
    if d0 == 0 || d0 >= n || !char_is_ws(t[d0]) {
        return None;
    }
    proof {
        crate::text::lemma_skip_ws_bounds(t@, d0 as int, n as int);
    }
    let c0 = skip_ws_exec(t, d0, n);
    if n - c0 <= 2 || !(char_is_digit(t[c0]) && char_is_digit(t[c0 + 1]) && char_is_ws(t[c0 + 2])) {
        return None;
    }
    proof {
        crate::text::lemma_skip_ws_bounds(t@, c0 + 2, n as int);
    }
    let m0 = skip_ws_exec(t, c0 + 2, n);
    if m0 >= n {
        return None;
    }
    match double_ws_exec(t, m0) {
        Some(p) => {
            proof {
                lemma_double_ws_from(t@, m0 as int);
                match double_ws_from(t@, m0 as int) {
                    Some(p0) => {
                        assert(p0 + 1 < n);
                    },
                    None => {},
                }
                crate::text::lemma_skip_ws_bounds(t@, p as int, n as int);
            }
            let e = skip_ws_exec(t, p, n);
            if e >= n {
                return None;
            }
            let code = copy_range(t, c0, c0 + 2);
            let (a1, b1) = trim_range_exec(t, m0, p);
            let name = copy_range(t, a1, b1);
            let (a2, b2) = trim_range_exec(t, e, n);
            let tail = copy_range(t, a2, b2);
            proof {
                lemma_trim_sub_range(t@, m0 as int, p as int);
                lemma_trim_sub_range(t@, e as int, n as int);
            }
            Some((code, name, tail))
        },
        None => None,
    }
}

fn section_a_entry_exec(line: &[char]) -> (r: Option<SectionAProvince>)
    ensures
        match section_a_entry(line@) {
            Some(e) => r matches Some(x) && x@ == e,
            None => r is None,
        },
{
    let (a, b) = trim_range_exec(line, 0, line.len());
    let t = copy_range(line, a, b);
    proof {
        assert(line@.subrange(0, line@.len() as int) =~= line@);
        lemma_trim_sub_range(line@, 0, line@.len() as int);
    }
    if section_a_skipped_exec(t.as_slice()) {
        return None;
    }
    match section_a_row_exec(t.as_slice()) {
        Some((code, name, tail)) => {
            let ts = word_list(tail.as_slice());
            let ghost v = views(ts@);
            proof {
                assert(v.len() == ts@.len());
            }
            if ts.len() < MIN_TOKENS_SECTION_A {
                return None;
            }
            proof {
                assert forall|k: int| 0 <= k < ts@.len() implies v[k] == (#[trigger] ts@[k])@ by {}
            }
            let kab_count = plain_count_exec(ts[0].as_slice());
            let kota_count = plain_count_exec(ts[1].as_slice());
            let kec_count = plain_count_exec(ts[2].as_slice());
            let kel_count = match crate::builder::numbers::indonesian_int_chars(ts[3].as_slice()) {
                Some(v) => v as u32,
                None => 0,
            };
            let desa_count = match crate::builder::numbers::indonesian_int_chars(ts[4].as_slice()) {
                Some(v) => v as u32,
                None => 0,
            };
            let luas_km2 = string_of_chars(ts[5].as_slice());
            let penduduk = crate::builder::numbers::indonesian_int_chars(ts[6].as_slice());
            let islands = without_char_exec(ts[7].as_slice(), ',');
            let island_count = match crate::builder::numbers::indonesian_int_chars(
                islands.as_slice(),
            ) {
                Some(v) => Some(v as u32),
                None => None,
            };
            proof {
                assert(v[0] == ts@[0]@);
                assert(v[1] == ts@[1]@);
                assert(v[2] == ts@[2]@);
                assert(v[3] == ts@[3]@);
                assert(v[4] == ts@[4]@);
                assert(v[5] == ts@[5]@);
                assert(v[6] == ts@[6]@);
                assert(v[7] == ts@[7]@);
            }
            Some(
                SectionAProvince {
                    code: string_of_chars(code.as_slice()),
                    name: string_of_chars(name.as_slice()),
                    kab_count,
                    kota_count,
                    kec_count,
                    kel_count,
                    desa_count,
                    luas_km2,
                    penduduk,
                    island_count,
                },
            )
        },
        None => None,
    }
}

/// Reads the rows of the province table.
pub fn parse_section_a(text: &str) -> (r: Vec<SectionAProvince>)
    ensures
        section_a_models(r@) == section_a(text@),
{
    let s = to_chars(text);
    let ls = text_lines(s.as_slice());
    let ghost lv = views(ls@);
    let mut out: Vec<SectionAProvince> = Vec::new();
    let mut i: usize = 0;
    proof {
        assert(lv.take(0) =~= Seq::<Seq<char>>::empty());
        assert(section_a_models(out@) =~= Seq::<SectionAModel>::empty());
    }
    while i < ls.len()
        invariant
            i <= ls@.len(),
            lv == views(ls@),
            lv == lines(s@),
            s@ == text@,
            section_a_in(lv.take(i as int)) == section_a_models(out@),
        decreases ls@.len() - i,
    {
        proof {
            assert(lv.take(i + 1).drop_last() =~= lv.take(i as int));
            assert(lv.take(i + 1).last() == ls@[i as int]@);
        }
        match section_a_entry_exec(ls[i].as_slice()) {
            Some(e) => {
                let ghost before = section_a_models(out@);
                out.push(e);
                proof {
                    assert(section_a_models(out@) =~= before.push(e@));
                }
            },
            None => {},
        }
        i = i + 1;
    }
    proof {
        assert(lv.take(ls@.len() as int) =~= lv);
    }
    out
}


// ---------------------------------------------------------------------------
// Section E: population
// ---------------------------------------------------------------------------
/// A line of the population table that is not a data row: blank, the header,
/// the row of column numbers, a total, a footnote, or the signature block.
pub open spec fn section_e_skipped(t: Seq<char>) -> bool {
    ||| t.len() == 0
    ||| starts_with(t, "Kode"@)
    ||| (starts_with(t, "1"@) && contains(t, "2"@) && contains(t, "3"@) && contains(t, "4"@)
        && contains(t, "5"@) && !contains(t, "Kabupaten"@) && !contains(t, "Provinsi"@)
        && !contains(t, "Kota"@) && !contains(t, "Papua"@) && !contains(t, "Aceh"@))
    ||| starts_with(t, "INDONESIA"@)
    ||| starts_with(t, "Total"@)
    ||| starts_with(t, "*)"@)
    ||| starts_with(t, "Salinan"@)
    ||| starts_with(t, "Kepala"@)
    ||| starts_with(t, "NIP"@)
    ||| starts_with(t, "As"@)
    ||| starts_with(t, "Pe "@)
    ||| starts_with(t, "MENTERI"@)
    ||| starts_with(t, "ttd"@)
}

fn contains_exec(s: &[char], pat: &str) -> (b: bool)
    ensures
        b == crate::text::contains(s@, pat@),
{
    let p = to_chars(pat);
    crate::text::find_from_exec(s, p.as_slice(), 0).is_some()
}

fn section_e_skipped_exec(t: &[char]) -> (b: bool)
    ensures
        b == section_e_skipped(t@),
{
    t.len() == 0 || starts_with_exec(t, "Kode") || (starts_with_exec(t, "1") && contains_exec(
        t,
        "2",
    ) && contains_exec(t, "3") && contains_exec(t, "4") && contains_exec(t, "5") && !contains_exec(
        t,
        "Kabupaten",
    ) && !contains_exec(t, "Provinsi") && !contains_exec(t, "Kota") && !contains_exec(t, "Papua")
        && !contains_exec(t, "Aceh")) || starts_with_exec(t, "INDONESIA") || starts_with_exec(
        t,
        "Total",
    ) || starts_with_exec(t, "*)") || starts_with_exec(t, "Salinan") || starts_with_exec(
        t,
        "Kepala",
    ) || starts_with_exec(t, "NIP") || starts_with_exec(t, "As") || starts_with_exec(t, "Pe ")
        || starts_with_exec(t, "MENTERI") || starts_with_exec(t, "ttd")
}

/// A character of a population figure as OCR reads it: a word character, `'`,
/// `.` or `,`.
pub open spec fn figure_char(c: char) -> bool {
    crate::text::is_ascii_alnum(c) || c == '_' || c == '\'' || c == '.' || c == ','
}

pub open spec fn figure_token(t: Seq<char>) -> bool {
    forall|k: int| 0 <= k < t.len() ==> figure_char(#[trigger] t[k])
}

/// The length of the region code a population row starts with: `dd.dd` for a
/// regency/city, `dd` for a province.
pub open spec fn e_code_len(t: Seq<char>) -> int {
    if city_code_at(t, 0) {
        5
    } else {
        2
    }
}

/// A data row of the population table (`t` trimmed): the region code, a name
/// between whitespace, and the male, female and total figures as the last three
/// words. Gives the code and the three figures.
pub open spec fn section_e_row(t: Seq<char>) -> Option<(Seq<char>, Seq<char>, Seq<char>, Seq<char>)> {
    let n = t.len() as int;
    let c = e_code_len(t);
    let r = crate::text::words_from(t, 0, n);
    let m = r.len() as int;
    if (c == 5 || (n >= 2 && is_digit(t[0]) && is_digit(t[1]))) && c < n && is_ws(t[c]) && m >= 3
        && r[m - 3].0 - c >= 3 && figure_token(t.subrange(r[m - 3].0, r[m - 3].1)) && figure_token(
        t.subrange(r[m - 2].0, r[m - 2].1),
    ) && figure_token(t.subrange(r[m - 1].0, r[m - 1].1)) {
        Some(
            (
                t.take(c),
                t.subrange(r[m - 3].0, r[m - 3].1),
                t.subrange(r[m - 2].0, r[m - 2].1),
                t.subrange(r[m - 1].0, r[m - 1].1),
            ),
        )
    } else {
        None
    }
}

/// The population row of a line, if it is one.
pub open spec fn e_row_of_line(line: Seq<char>) -> Option<(Seq<char>, Seq<char>, Seq<char>, Seq<char>)> {
    let t = trim(line);
    if section_e_skipped(t) {
        None
    } else {
        section_e_row(t)
    }
}

/// No population row of `text` holds a figure that the OCR repair fails on.
pub open spec fn section_e_repairable(text: Seq<char>) -> bool {
    let ls = lines(text);
    forall|k: int|
        0 <= k < ls.len() ==> (#[trigger] e_row_of_line(ls[k]) matches Some(x) ==> (
        !crate::builder::numbers::ocr_repair_fails(x.1)
            && !crate::builder::numbers::ocr_repair_fails(x.2)
            && !crate::builder::numbers::ocr_repair_fails(x.3)))
}

/// A row of the population table.
pub struct SectionEEntry {
    pub code: String,
    pub male: Option<u64>,
    pub female: Option<u64>,
    pub total: Option<u64>,
}

/// The model of a row of the population table.
pub struct SectionEModel {
    pub code: Seq<char>,
    pub male: Option<u64>,
    pub female: Option<u64>,
    pub total: Option<u64>,
}

impl View for SectionEEntry {
    type V = SectionEModel;

    open spec fn view(&self) -> SectionEModel {
        SectionEModel { code: self.code@, male: self.male, female: self.female, total: self.total }
    }
}

pub open spec fn section_e_models(es: Seq<SectionEEntry>) -> Seq<SectionEModel> {
    es.map_values(|e: SectionEEntry| e@)
}

/// The population entry of a line: its code and its repaired figures.
pub open spec fn section_e_entry(line: Seq<char>) -> Option<SectionEModel> {
    match e_row_of_line(line) {
        Some((code, m, f, t)) => Some(
            SectionEModel {
                code,
                male: crate::builder::numbers::ocr_number(m),
                female: crate::builder::numbers::ocr_number(f),
                total: crate::builder::numbers::ocr_number(t),
            },
        ),
        None => None,
    }
}

/// The population entries among the lines `ls`.
pub open spec fn section_e_in(ls: Seq<Seq<char>>) -> Seq<SectionEModel>
    decreases ls.len(),
{
    if ls.len() == 0 {
        Seq::empty()
    } else {
        let p = section_e_in(ls.drop_last());
        match section_e_entry(ls.last()) {
            Some(e) => p.push(e),
            None => p,
        }
    }
}

/// The population entries of `text`.
pub open spec fn section_e(text: Seq<char>) -> Seq<SectionEModel> {
    section_e_in(lines(text))
}

fn figure_token_exec(t: &[char], a: usize, b: usize) -> (r: bool)
    requires
        a <= b <= t@.len(),
    ensures
        r == figure_token(t@.subrange(a as int, b as int)),
{
    let mut k = a;
    while k < b
        invariant
            a <= k <= b <= t@.len(),
            forall|j: int| a <= j < k ==> figure_char(#[trigger] t@[j]),
        decreases b - k,
    {
        let c = t[k];
        if !(crate::text::char_is_ascii_alnum(c) || c == '_' || c == '\'' || c == '.' || c == ',') {
            proof {
                assert(t@.subrange(a as int, b as int)[k - a] == c);
            }
            return false;
        }
        k = k + 1;
    }
    proof {
        assert forall|j: int| 0 <= j < b - a implies figure_char(
            #[trigger] t@.subrange(a as int, b as int)[j],
        ) by {
            assert(t@.subrange(a as int, b as int)[j] == t@[a + j]);
        }
    }
    true
}

fn section_e_row_exec(t: &[char]) -> (r: Option<(Vec<char>, Vec<char>, Vec<char>, Vec<char>)>)
    ensures
        match section_e_row(t@) {
            Some((code, m, f, tot)) => r matches Some(x) && x.0@ == code && x.1@ == m && x.2@ == f
                && x.3@ == tot,
            None => r is None,
        },
{
    let n = t.len();
    let five = n >= 5 && char_is_digit(t[0]) && char_is_digit(t[1]) && t[2] == '.' && char_is_digit(
        t[3],
    ) && char_is_digit(t[4]);
    let c: usize = if five {
        5
    } else {
        2
    };
    proof {
        assert(c as int == e_code_len(t@));
    }
    if !five && !(n >= 2 && char_is_digit(t[0]) && char_is_digit(t[1])) {
        return None;
    }
    if c >= n || !char_is_ws(t[c]) {
        return None;
    }
    let r = crate::text::words_exec(t, 0, n);
    let m = r.len();
    proof {
        crate::builder::village::lemma_words_from_bounds(t@, 0, n as int);
    }
    if m < 3 {
        return None;
    }
    let (a1, b1) = r[m - 3];
    let (a2, b2) = r[m - 2];
    let (a3, b3) = r[m - 1];
    if a1 < c || a1 - c < 3 {
        return None;
    }
    if !(figure_token_exec(t, a1, b1) && figure_token_exec(t, a2, b2) && figure_token_exec(
        t,
        a3,
        b3,
    )) {
        return None;
    }
    let code = copy_range(t, 0, c);
    proof {
        assert(t@.subrange(0, c as int) =~= t@.take(c as int));
    }
    Some((code, copy_range(t, a1, b1), copy_range(t, a2, b2), copy_range(t, a3, b3)))
}

fn e_row_of_line_exec(line: &[char]) -> (r: Option<(Vec<char>, Vec<char>, Vec<char>, Vec<char>)>)
    ensures
        match e_row_of_line(line@) {
            Some((code, m, f, tot)) => r matches Some(x) && x.0@ == code && x.1@ == m && x.2@ == f
                && x.3@ == tot,
            None => r is None,
        },
{
    let (a, b) = trim_range_exec(line, 0, line.len());
    let t = copy_range(line, a, b);
    proof {
        assert(line@.subrange(0, line@.len() as int) =~= line@);
        lemma_trim_sub_range(line@, 0, line@.len() as int);
    }
    if section_e_skipped_exec(t.as_slice()) {
        return None;
    }
    section_e_row_exec(t.as_slice())
}

/// Whether no population row of `text` holds a figure that the OCR repair
/// fails on.
pub fn section_e_is_repairable(text: &str) -> (b: bool)
    ensures
        b == section_e_repairable(text@),
{
    let s = to_chars(text);
    let ls = text_lines(s.as_slice());
    let ghost lv = views(ls@);
    let mut i: usize = 0;
    while i < ls.len()
        invariant
            i <= ls@.len(),
            lv == views(ls@),
            lv == lines(s@),
            s@ == text@,
            forall|k: int|
                0 <= k < i ==> (#[trigger] e_row_of_line(lv[k]) matches Some(x) ==> (
                !crate::builder::numbers::ocr_repair_fails(x.1)
                    && !crate::builder::numbers::ocr_repair_fails(x.2)
                    && !crate::builder::numbers::ocr_repair_fails(x.3))),
        decreases ls@.len() - i,
    {
        proof {
            assert(lv[i as int] == ls@[i as int]@);
        }
        match e_row_of_line_exec(ls[i].as_slice()) {
            Some((_code, m, f, t)) => {
                if repair_fails_exec(m.as_slice()) || repair_fails_exec(f.as_slice())
                    || repair_fails_exec(t.as_slice()) {
                    return false;
                }
            },
            None => {},
        }
        i = i + 1;
    }
    true
}

fn repair_fails_exec(s: &[char]) -> (b: bool)
    ensures
        b == crate::builder::numbers::ocr_repair_fails(s@),
{
    let (a, b) = trim_range_exec(s, 0, s.len());
    let t = copy_range(s, a, b);
    proof {
        assert(s@.subrange(0, s@.len() as int) =~= s@);
        lemma_trim_sub_range(s@, 0, s@.len() as int);
    }
    if t.len() != 2 {
        return false;
    }
    if crate::builder::numbers::indonesian_int_chars(t.as_slice()).is_some() {
        return false;
    }
    let f0 = if t[0] == '\'' || t[0] == 'r' || t[0] == 'l' {
        '1'
    } else {
        t[0]
    };
    f0 == '1' && (t[1] == 't' || t[1] == 'l')
}

/// Reads the rows of the population table, repairing OCR misreadings of the figures.
pub fn parse_section_e(text: &str) -> (r: Vec<SectionEEntry>)
    requires
        section_e_repairable(text@),
    ensures
        section_e_models(r@) == section_e(text@),
{
    let s = to_chars(text);
    let ls = text_lines(s.as_slice());
    let ghost lv = views(ls@);
    let mut out: Vec<SectionEEntry> = Vec::new();
    let mut i: usize = 0;
    proof {
        assert(lv.take(0) =~= Seq::<Seq<char>>::empty());
        assert(section_e_models(out@) =~= Seq::<SectionEModel>::empty());
    }
    while i < ls.len()
        invariant
            i <= ls@.len(),
            lv == views(ls@),
            lv == lines(s@),
            s@ == text@,
            section_e_repairable(text@),
            section_e_in(lv.take(i as int)) == section_e_models(out@),
        decreases ls@.len() - i,
    {
        proof {
            assert(lv.take(i + 1).drop_last() =~= lv.take(i as int));
            assert(lv.take(i + 1).last() == ls@[i as int]@);
            assert(lv[i as int] == ls@[i as int]@);
        }
        match e_row_of_line_exec(ls[i].as_slice()) {
            Some((code, m, f, t)) => {
                proof {
                    assert(e_row_of_line(lv[i as int]) is Some);
                }
                let e = SectionEEntry {
                    code: string_of_chars(code.as_slice()),
                    male: crate::builder::numbers::ocr_number_chars(m.as_slice()),
                    female: crate::builder::numbers::ocr_number_chars(f.as_slice()),
                    total: crate::builder::numbers::ocr_number_chars(t.as_slice()),
                };
                let ghost before = section_e_models(out@);
                out.push(e);
                proof {
                    assert(section_e_models(out@) =~= before.push(e@));
                }
            },
            None => {},
        }
        i = i + 1;
    }
    proof {
        assert(lv.take(ls@.len() as int) =~= lv);
    }
    out
}


// ---------------------------------------------------------------------------
// Population lookups
// ---------------------------------------------------------------------------
/// The (code, male population) pairs of the entries that have a male figure.
pub open spec fn male_pairs(es: Seq<SectionEModel>) -> Seq<(Seq<char>, u64)>
    decreases es.len(),
{
    if es.len() == 0 {
        Seq::empty()
    } else {
        let p = male_pairs(es.drop_last());
        match es.last().male {
            Some(m) => p.push((es.last().code, m)),
            None => p,
        }
    }
}

/// The (code, female population) pairs of the entries that have a female figure.
pub open spec fn female_pairs(es: Seq<SectionEModel>) -> Seq<(Seq<char>, u64)>
    decreases es.len(),
{
    if es.len() == 0 {
        Seq::empty()
    } else {
        let p = female_pairs(es.drop_last());
        match es.last().female {
            Some(f) => p.push((es.last().code, f)),
            None => p,
        }
    }
}

/// The value that a map built from `pairs` in order holds for `key`: the last
/// pair with that key.
pub open spec fn map_lookup(pairs: Seq<(Seq<char>, u64)>, key: Seq<char>) -> Option<u64>
    decreases pairs.len(),
{
    if pairs.len() == 0 {
        None
    } else if pairs.last().0 == key {
        Some(pairs.last().1)
    } else {
        map_lookup(pairs.drop_last(), key)
    }
}

pub open spec fn pair_views(ps: Seq<(String, u64)>) -> Seq<(Seq<char>, u64)> {
    ps.map_values(|p: (String, u64)| (p.0@, p.1))
}

/// The male and female population by region code, as (code, figure) pairs in
/// table order; where a code repeats, the later pair stands.
pub fn build_population_maps(section_e: &[SectionEEntry]) -> (r: (
    Vec<(String, u64)>,
    Vec<(String, u64)>,
))
    ensures
        pair_views(r.0@) == male_pairs(section_e_models(section_e@)),
        pair_views(r.1@) == female_pairs(section_e_models(section_e@)),
{
    let ghost es = section_e_models(section_e@);
    let mut males: Vec<(String, u64)> = Vec::new();
    let mut females: Vec<(String, u64)> = Vec::new();
    let mut i: usize = 0;
    proof {
        assert(es.take(0) =~= Seq::<SectionEModel>::empty());
        assert(pair_views(males@) =~= Seq::<(Seq<char>, u64)>::empty());
        assert(pair_views(females@) =~= Seq::<(Seq<char>, u64)>::empty());
    }
    while i < section_e.len()
        invariant
            i <= section_e@.len(),
            es == section_e_models(section_e@),
            pair_views(males@) == male_pairs(es.take(i as int)),
            pair_views(females@) == female_pairs(es.take(i as int)),
        decreases section_e@.len() - i,
    {
        let e = &section_e[i];
        proof {
            assert(es.take(i + 1).drop_last() =~= es.take(i as int));
            assert(es.take(i + 1).last() == e@);
        }
        match e.male {
            Some(m) => {
                let ghost before = pair_views(males@);
                let code = string_of_chars(to_chars(e.code.as_str()).as_slice());
                males.push((code, m));
                proof {
                    assert(pair_views(males@) =~= before.push((e.code@, m)));
                }
            },
            None => {},
        }
        match e.female {
            Some(f) => {
                let ghost before = pair_views(females@);
                let code = string_of_chars(to_chars(e.code.as_str()).as_slice());
                females.push((code, f));
                proof {
                    assert(pair_views(females@) =~= before.push((e.code@, f)));
                }
            },
            None => {},
        }
        i = i + 1;
    }
    proof {
        assert(es.take(section_e@.len() as int) =~= es);
    }
    (males, females)
}

/// The figure for `key` in pairs built by [`build_population_maps`].
pub fn population_lookup(pairs: &[(String, u64)], key: &str) -> (r: Option<u64>)
    ensures
        r == map_lookup(pair_views(pairs@), key@),
{
    let ghost pv = pair_views(pairs@);
    let kc = to_chars(key);
    let mut n = pairs.len();
    proof {
        assert(pv.take(n as int) =~= pv);
    }
    while n > 0
        invariant
            n <= pairs@.len(),
            pv == pair_views(pairs@),
            kc@ == key@,
            map_lookup(pv.take(n as int), key@) == map_lookup(pv, key@),
        decreases n,
    {
        let (code, v) = &pairs[n - 1];
        let cc = to_chars(code.as_str());
        proof {
            assert(pv.take(n as int).drop_last() =~= pv.take(n - 1));
            assert(pv.take(n as int).last() == (code@, *v));
        }
        if crate::builder::village::vec_eq(cc.as_slice(), kc.as_slice()) {
            return Some(*v);
        }
        n = n - 1;
    }
    proof {
        assert(pv.take(0) =~= Seq::<(Seq<char>, u64)>::empty());
    }
    None
}

// ---------------------------------------------------------------------------
// Province and city records
// ---------------------------------------------------------------------------
/// A province record.
pub struct ProvinceRecord {
    pub code: String,
    pub name: String,
    pub ibukota: Option<String>,
    pub kab_count: u32,
    pub kota_count: u32,
    pub kec_count: u32,
    pub kel_count: u32,
    pub desa_count: u32,
    /// The area column as written.
    pub luas_km2: String,
    pub penduduk: Option<u64>,
    pub island_count: Option<u32>,
    pub keterangan: Option<String>,
    pub population_male: Option<u64>,
    pub population_female: Option<u64>,
}

/// The model of a province record.
pub struct ProvinceRecordModel {
    pub code: Seq<char>,
    pub name: Seq<char>,
    pub ibukota: Option<Seq<char>>,
    pub kab_count: u32,
    pub kota_count: u32,
    pub kec_count: u32,
    pub kel_count: u32,
    pub desa_count: u32,
    pub luas_km2: Seq<char>,
    pub penduduk: Option<u64>,
    pub island_count: Option<u32>,
    pub keterangan: Option<Seq<char>>,
    pub population_male: Option<u64>,
    pub population_female: Option<u64>,
}

impl View for ProvinceRecord {
    type V = ProvinceRecordModel;

    open spec fn view(&self) -> ProvinceRecordModel {
        ProvinceRecordModel {
            code: self.code@,
            name: self.name@,
            ibukota: opt_view(self.ibukota),
            kab_count: self.kab_count,
            kota_count: self.kota_count,
            kec_count: self.kec_count,
            kel_count: self.kel_count,
            desa_count: self.desa_count,
            luas_km2: self.luas_km2@,
            penduduk: self.penduduk,
            island_count: self.island_count,
            keterangan: opt_view(self.keterangan),
            population_male: self.population_male,
            population_female: self.population_female,
        }
    }
}

pub open spec fn province_record_models(ps: Seq<ProvinceRecord>) -> Seq<ProvinceRecordModel> {
    ps.map_values(|p: ProvinceRecord| p@)
}

/// The capital of province `code` in the headers: from the last header with that
/// code that names one.
pub open spec fn header_ibukota(hs: Seq<ProvinceHeaderModel>, code: Seq<char>) -> Option<Seq<char>>
    decreases hs.len(),
{
    if hs.len() == 0 {
        None
    } else if hs.last().code == code && hs.last().ibukota is Some {
        hs.last().ibukota
    } else {
        header_ibukota(hs.drop_last(), code)
    }
}

/// The annotation of province `code` in the headers: from the last header with
/// that code that has one.
pub open spec fn header_keterangan(hs: Seq<ProvinceHeaderModel>, code: Seq<char>) -> Option<
    Seq<char>,
>
    decreases hs.len(),
{
    if hs.len() == 0 {
        None
    } else if hs.last().code == code && hs.last().keterangan is Some {
        hs.last().keterangan
    } else {
        header_keterangan(hs.drop_last(), code)
    }
}

/// The province record of a table row, completed from the headers and the
/// population table.
pub open spec fn province_record_of(
    p: SectionAModel,
    hs: Seq<ProvinceHeaderModel>,
    es: Seq<SectionEModel>,
) -> ProvinceRecordModel {
    ProvinceRecordModel {
        code: p.code,
        name: p.name,
        ibukota: header_ibukota(hs, p.code),
        kab_count: p.kab_count,
        kota_count: p.kota_count,
        kec_count: p.kec_count,
        kel_count: p.kel_count,
        desa_count: p.desa_count,
        luas_km2: p.luas_km2,
        penduduk: p.penduduk,
        island_count: p.island_count,
        keterangan: header_keterangan(hs, p.code),
        population_male: map_lookup(male_pairs(es), p.code),
        population_female: map_lookup(female_pairs(es), p.code),
    }
}

/// The province records of `text`: one per row of the province table.
pub open spec fn provinces_of(text: Seq<char>) -> Seq<ProvinceRecordModel> {
    section_a(text).map_values(
        |p: SectionAModel| province_record_of(p, c_province_headers(text), section_e(text)),
    )
}

/// Each province record is the province-table row at the same place, field by
/// field: code, name and the regency, city, district, kelurahan and desa counts,
/// area, population and island count are the row's; the population by sex is
/// looked up by the row's code.
pub proof fn lemma_province_records_follow_table(text: Seq<char>)
    ensures
        provinces_of(text).len() == section_a(text).len(),
        forall|i: int|
            0 <= i < section_a(text).len() ==> {
                let p = #[trigger] provinces_of(text)[i];
                let row = section_a(text)[i];
                &&& p.code == row.code
                &&& p.name == row.name
                &&& p.kab_count == row.kab_count
                &&& p.kota_count == row.kota_count
                &&& p.kec_count == row.kec_count
                &&& p.kel_count == row.kel_count
                &&& p.desa_count == row.desa_count
                &&& p.luas_km2 == row.luas_km2
                &&& p.penduduk == row.penduduk
                &&& p.island_count == row.island_count
                &&& p.population_male == map_lookup(male_pairs(section_e(text)), row.code)
                &&& p.population_female == map_lookup(female_pairs(section_e(text)), row.code)
            },
{
}

fn header_field_exec(hs: &[CProvinceHeader], code: &str, capital: bool) -> (r: Option<String>)
    ensures
        capital ==> opt_view(r) == header_ibukota(province_header_models(hs@), code@),
        !capital ==> opt_view(r) == header_keterangan(province_header_models(hs@), code@),
{
    let ghost hv = province_header_models(hs@);
    let kc = to_chars(code);
    let mut n = hs.len();
    proof {
        assert(hv.take(n as int) =~= hv);
    }
    while n > 0
        invariant
            n <= hs@.len(),
            hv == province_header_models(hs@),
            kc@ == code@,
            capital ==> header_ibukota(hv.take(n as int), code@) == header_ibukota(hv, code@),
            !capital ==> header_keterangan(hv.take(n as int), code@) == header_keterangan(
                hv,
                code@,
            ),
        decreases n,
    {
        let h = &hs[n - 1];
        let hc = to_chars(h.code.as_str());
        proof {
            assert(hv.take(n as int).drop_last() =~= hv.take(n - 1));
            assert(hv.take(n as int).last() == h@);
        }
        let field = if capital {
            &h.ibukota
        } else {
            &h.keterangan
        };
        if crate::builder::village::vec_eq(hc.as_slice(), kc.as_slice()) {
            match field {
                Some(x) => {
                    return Some(string_of_chars(to_chars(x.as_str()).as_slice()));
                },
                None => {},
            }
        }
        n = n - 1;
    }
    proof {
        assert(hv.take(0) =~= Seq::<ProvinceHeaderModel>::empty());
    }
    None
}

/// Reads the province records: the province table, completed with the capital
/// and annotation of the code listing and the population table.
pub fn extract_provinces(text: &str) -> (r: Vec<ProvinceRecord>)
    requires
        section_e_repairable(text@),
    ensures
        province_record_models(r@) == provinces_of(text@),
{
    let a_rows = parse_section_a(text);
    let c_headers = parse_c_province_headers(text);
    let e_rows = parse_section_e(text);
    let (male_map, female_map) = build_population_maps(e_rows.as_slice());
    let ghost rows = section_a_models(a_rows@);
    let ghost hs = c_province_headers(text@);
    let ghost es = section_e(text@);
    let mut out: Vec<ProvinceRecord> = Vec::new();
    let mut i: usize = 0;
    while i < a_rows.len()
        invariant
            i <= a_rows@.len(),
            rows == section_a_models(a_rows@),
            rows == section_a(text@),
            province_header_models(c_headers@) == hs,
            section_e_models(e_rows@) == es,
            pair_views(male_map@) == male_pairs(es),
            pair_views(female_map@) == female_pairs(es),
            out@.len() == i,
            forall|k: int|
                0 <= k < i ==> (#[trigger] out@[k])@ == province_record_of(rows[k], hs, es),
        decreases a_rows@.len() - i,
    {
        let p = &a_rows[i];
        proof {
            assert(rows[i as int] == p@);
        }
        let code = p.code.as_str();
        let rec = ProvinceRecord {
            code: string_of_chars(to_chars(code).as_slice()),
            name: string_of_chars(to_chars(p.name.as_str()).as_slice()),
            ibukota: header_field_exec(c_headers.as_slice(), code, true),
            kab_count: p.kab_count,
            kota_count: p.kota_count,
            kec_count: p.kec_count,
            kel_count: p.kel_count,
            desa_count: p.desa_count,
            luas_km2: string_of_chars(to_chars(p.luas_km2.as_str()).as_slice()),
            penduduk: p.penduduk,
            island_count: p.island_count,
            keterangan: header_field_exec(c_headers.as_slice(), code, false),
            population_male: population_lookup(male_map.as_slice(), code),
            population_female: population_lookup(female_map.as_slice(), code),
        };
        out.push(rec);
        i = i + 1;
    }
    proof {
        assert(province_record_models(out@) =~= provinces_of(text@));
    }
    out
}

/// A regency/city record.
pub struct CityRecord {
    pub code: String,
    pub name: String,
    pub ibukota: Option<String>,
    pub kec_count: u32,
    pub kel_count: u32,
    pub desa_count: u32,
    /// The area column as written.
    pub luas_km2: Option<String>,
    pub penduduk: Option<u64>,
    pub keterangan: Option<String>,
    pub population_male: Option<u64>,
    pub population_female: Option<u64>,
}

/// The model of a regency/city record.
pub struct CityRecordModel {
    pub code: Seq<char>,
    pub name: Seq<char>,
    pub ibukota: Option<Seq<char>>,
    pub kec_count: u32,
    pub kel_count: u32,
    pub desa_count: u32,
    pub luas_km2: Option<Seq<char>>,
    pub penduduk: Option<u64>,
    pub keterangan: Option<Seq<char>>,
    pub population_male: Option<u64>,
    pub population_female: Option<u64>,
}

impl View for CityRecord {
    type V = CityRecordModel;

    open spec fn view(&self) -> CityRecordModel {
        CityRecordModel {
            code: self.code@,
            name: self.name@,
            ibukota: opt_view(self.ibukota),
            kec_count: self.kec_count,
            kel_count: self.kel_count,
            desa_count: self.desa_count,
            luas_km2: opt_view(self.luas_km2),
            penduduk: self.penduduk,
            keterangan: opt_view(self.keterangan),
            population_male: self.population_male,
            population_female: self.population_female,
        }
    }
}

pub open spec fn city_record_models(cs: Seq<CityRecord>) -> Seq<CityRecordModel> {
    cs.map_values(|c: CityRecord| c@)
}

/// The city record of a header, completed from the population table.
pub open spec fn city_record_of(c: CityHeaderModel, es: Seq<SectionEModel>) -> CityRecordModel {
    CityRecordModel {
        code: c.code,
        name: c.name,
        ibukota: c.ibukota,
        kec_count: c.kec_count,
        kel_count: c.kel_count,
        desa_count: c.desa_count,
        luas_km2: c.luas_km2,
        penduduk: c.penduduk,
        keterangan: c.keterangan,
        population_male: map_lookup(male_pairs(es), c.code),
        population_female: map_lookup(female_pairs(es), c.code),
    }
}

/// The regency/city records of `text`: one per header of the code listing.
pub open spec fn cities_of(text: Seq<char>) -> Seq<CityRecordModel> {
    c_city_headers(text).map_values(|c: CityHeaderModel| city_record_of(c, section_e(text)))
}

/// Each regency/city record is the header of the code listing at the same
/// place, field by field: code, name, capital, the district, kelurahan and desa
/// counts, area, population and annotation are the header's; the population by
/// sex is looked up by the header's code.
pub proof fn lemma_city_records_follow_headers(text: Seq<char>)
    ensures
        cities_of(text).len() == c_city_headers(text).len(),
        forall|i: int|
            0 <= i < c_city_headers(text).len() ==> {
                let c = #[trigger] cities_of(text)[i];
                let h = c_city_headers(text)[i];
                &&& c.code == h.code
                &&& c.name == h.name
                &&& c.ibukota == h.ibukota
                &&& c.kec_count == h.kec_count
                &&& c.kel_count == h.kel_count
                &&& c.desa_count == h.desa_count
                &&& c.luas_km2 == h.luas_km2
                &&& c.penduduk == h.penduduk
                &&& c.keterangan == h.keterangan
                &&& c.population_male == map_lookup(male_pairs(section_e(text)), h.code)
                &&& c.population_female == map_lookup(female_pairs(section_e(text)), h.code)
            },
{
}

/// Reads the regency/city records: the headers of the code listing, completed
/// with the population table.
pub fn extract_cities(text: &str) -> (r: Vec<CityRecord>)
    requires
        section_e_repairable(text@),
    ensures
        city_record_models(r@) == cities_of(text@),
{
    let c_cities = parse_c_city_headers(text);
    let e_rows = parse_section_e(text);
    let (male_map, female_map) = build_population_maps(e_rows.as_slice());
    let ghost cs = city_models(c_cities@);
    let ghost es = section_e(text@);
    let mut out: Vec<CityRecord> = Vec::new();
    let mut i: usize = 0;
    while i < c_cities.len()
        invariant
            i <= c_cities@.len(),
            cs == city_models(c_cities@),
            cs == c_city_headers(text@),
            section_e_models(e_rows@) == es,
            pair_views(male_map@) == male_pairs(es),
            pair_views(female_map@) == female_pairs(es),
            out@.len() == i,
            forall|k: int| 0 <= k < i ==> (#[trigger] out@[k])@ == city_record_of(cs[k], es),
        decreases c_cities@.len() - i,
    {
        let c = &c_cities[i];
        proof {
            assert(cs[i as int] == c@);
        }
        let code = c.code.as_str();
        let rec = CityRecord {
            code: string_of_chars(to_chars(code).as_slice()),
            name: string_of_chars(to_chars(c.name.as_str()).as_slice()),
            ibukota: crate::builder::parse::clone_opt_string(&c.ibukota),
            kec_count: c.kec_count,
            kel_count: c.kel_count,
            desa_count: c.desa_count,
            luas_km2: crate::builder::parse::clone_opt_string(&c.luas_km2),
            penduduk: c.penduduk,
            keterangan: crate::builder::parse::clone_opt_string(&c.keterangan),
            population_male: population_lookup(male_map.as_slice(), code),
            population_female: population_lookup(female_map.as_slice(), code),
        };
        out.push(rec);
        i = i + 1;
    }
    proof {
        assert(city_record_models(out@) =~= cities_of(text@));
    }
    out
}


// ---------------------------------------------------------------------------
// Section D.b: island counts per regency/city
// ---------------------------------------------------------------------------
/// The name (words up to the first gap of two or more whitespace characters
/// that has text after it) and the trimmed text after that gap, from `m0` on.
pub open spec fn name_and_tail(t: Seq<char>, m0: int) -> Option<(Seq<char>, Seq<char>)> {
    let n = t.len() as int;
    match double_ws_from(t, m0) {
        Some(p) => {
            let e = skip_ws(t, p, n);
            if e < n {
                Some((trim(t.subrange(m0, p)), trim(t.subrange(e, n))))
            } else {
                None
            }
        },
        None => None,
    }
}

fn name_and_tail_exec(t: &[char], m0: usize) -> (r: Option<(Vec<char>, Vec<char>)>)
    requires
        m0 <= t@.len(),
    ensures
        match name_and_tail(t@, m0 as int) {
            Some((name, tail)) => r matches Some(x) && x.0@ == name && x.1@ == tail,
            None => r is None,
        },
{
    let n = t.len();
    match double_ws_exec(t, m0) {
        Some(p) => {
            proof {
                lemma_double_ws_from(t@, m0 as int);
                match double_ws_from(t@, m0 as int) {
                    Some(p0) => {
                        assert(p0 + 1 < n);
                    },
                    None => {},
                }
                crate::text::lemma_skip_ws_bounds(t@, p as int, n as int);
            }
            let e = skip_ws_exec(t, p, n);
            if e >= n {
                return None;
            }
            let (a1, b1) = trim_range_exec(t, m0, p);
            let name = copy_range(t, a1, b1);
            let (a2, b2) = trim_range_exec(t, e, n);
            let tail = copy_range(t, a2, b2);
            proof {
                lemma_trim_sub_range(t@, m0 as int, p as int);
                lemma_trim_sub_range(t@, e as int, n as int);
            }
            Some((name, tail))
        },
        None => None,
    }
}

/// A province heading of section D.b (`D.b.<n>) Provinsi <name>`): the trimmed
/// name, empty when only whitespace follows.
pub open spec fn db_province(line: Seq<char>) -> Option<Seq<char>> {
    let n = line.len() as int;
    let i0 = skip_ws(line, 0, n);
    let d0 = i0 + 4;
    let d1 = digit_end(line, d0);
    let w0 = skip_ws(line, d1 + 1, n);
    let j = w0 + 8;
    let k = skip_ws(line, j, n);
    if crate::text::occurs_at(line, i0, "D.b."@) && d1 > d0 && d1 < n && line[d1] == ')' && d1 + 1
        < n && is_ws(line[d1 + 1]) && crate::text::occurs_at(line, w0, "Provinsi"@) && j < n && is_ws(
        line[j],
    ) && (k < n || k - j >= 2) {
        if k < n {
            Some(trim(line.subrange(k, n)))
        } else {
            Some(Seq::empty())
        }
    } else {
        None
    }
}

fn db_province_exec(line: &[char]) -> (r: Option<Vec<char>>)
    ensures
        match db_province(line@) {
            Some(p) => r matches Some(x) && x@ == p,
            None => r is None,
        },
{
    let n = line.len();
    proof {
        crate::text::lemma_skip_ws_bounds(line@, 0, n as int);
    }
    let i0 = skip_ws_exec(line, 0, n);
    let db = to_chars("D.b.");
    proof {
        reveal_strlit("D.b.");
        reveal_strlit("Provinsi");
    }
    if !crate::text::occurs_at_exec(line, i0, db.as_slice()) {
        return None;
    }
    let d0 = i0 + 4;
    let d1 = digit_end_exec(line, d0);
    if !(d1 > d0 && d1 < n && line[d1] == ')' && d1 + 1 < n && char_is_ws(line[d1 + 1])) {
        return None;
    }
    proof {
        crate::text::lemma_skip_ws_bounds(line@, d1 + 1, n as int);
    }
    let w0 = skip_ws_exec(line, d1 + 1, n);
    let prov = to_chars("Provinsi");
    if !crate::text::occurs_at_exec(line, w0, prov.as_slice()) {
        return None;
    }
    let j = w0 + 8;
    if !(j < n && char_is_ws(line[j])) {
        return None;
    }
    proof {
        crate::text::lemma_skip_ws_bounds(line@, j as int, n as int);
    }
    let k = skip_ws_exec(line, j, n);
    if k < n {
        let (a, b) = trim_range_exec(line, k, n);
        proof {
            lemma_trim_sub_range(line@, k as int, n as int);
        }
        Some(copy_range(line, a, b))
    } else if k - j >= 2 {
        let e: Vec<char> = Vec::new();
        proof {
            assert(e@ =~= Seq::<char>::empty());
        }
        Some(e)
    } else {
        None
    }
}

/// A regency/city row of section D.b: a row number, the city code `dd.dd`, the
/// name up to a wide gap, and the island count. Gives the code, name and count text.
pub open spec fn db_city_row(line: Seq<char>) -> Option<(Seq<char>, Seq<char>, Seq<char>)> {
    let n = line.len() as int;
    let i0 = skip_ws(line, 0, n);
    let d0 = digit_end(line, i0);
    let c0 = skip_ws(line, d0, n);
    let m0 = skip_ws(line, c0 + 5, n);
    if d0 > i0 && d0 < n && is_ws(line[d0]) && city_code_at(line, c0) && c0 + 5 < n && is_ws(
        line[c0 + 5],
    ) && m0 < n {
        match name_and_tail(line, m0) {
            Some((name, tail)) => Some((line.subrange(c0, c0 + 5), name, tail)),
            None => None,
        }
    } else {
        None
    }
}

fn db_city_row_exec(line: &[char]) -> (r: Option<(Vec<char>, Vec<char>, Vec<char>)>)
    ensures
        match db_city_row(line@) {
            Some((code, name, tail)) => r matches Some(x) && x.0@ == code && x.1@ == name && x.2@
                == tail,
            None => r is None,
        },
{
    let n = line.len();
    proof {
        crate::text::lemma_skip_ws_bounds(line@, 0, n as int);
    }
    let i0 = skip_ws_exec(line, 0, n);
    let d0 = digit_end_exec(line, i0);
    if !(d0 > i0 && d0 < n && char_is_ws(line[d0])) {
        return None;
    }
    proof {
        crate::text::lemma_skip_ws_bounds(line@, d0 as int, n as int);
    }
    let c0 = skip_ws_exec(line, d0, n);
    if n - c0 <= 5 {
        return None;
    }
    if !(char_is_digit(line[c0]) && char_is_digit(line[c0 + 1]) && line[c0 + 2] == '.'
        && char_is_digit(line[c0 + 3]) && char_is_digit(line[c0 + 4]) && char_is_ws(line[c0 + 5])) {
        return None;
    }
    proof {
        crate::text::lemma_skip_ws_bounds(line@, c0 + 5, n as int);
    }
    let m0 = skip_ws_exec(line, c0 + 5, n);
    if m0 >= n {
        return None;
    }
    match name_and_tail_exec(line, m0) {
        Some((name, tail)) => Some((copy_range(line, c0, c0 + 5), name, tail)),
        None => None,
    }
}

/// The number of islands of a regency/city (section D.b).
pub struct IslandSummary {
    pub code: String,
    pub name: String,
    pub province: String,
    pub island_count: u32,
}

/// The model of an island count.
pub struct IslandSummaryModel {
    pub code: Seq<char>,
    pub name: Seq<char>,
    pub province: Seq<char>,
    pub island_count: u32,
}

impl View for IslandSummary {
    type V = IslandSummaryModel;

    open spec fn view(&self) -> IslandSummaryModel {
        IslandSummaryModel {
            code: self.code@,
            name: self.name@,
            province: self.province@,
            island_count: self.island_count,
        }
    }
}

pub open spec fn island_summary_models(ss: Seq<IslandSummary>) -> Seq<IslandSummaryModel> {
    ss.map_values(|x: IslandSummary| x@)
}

/// The scan of section D.b: the current province, and the counts so far.
pub struct DbScan {
    pub province: Seq<char>,
    pub summaries: Seq<IslandSummaryModel>,
}

/// One line of the scan: a province heading sets the province; a city row with a
/// nonzero island count adds a summary under it.
pub open spec fn db_step(st: DbScan, line: Seq<char>) -> DbScan {
    match db_province(line) {
        Some(p) => DbScan { province: p, ..st },
        None => match db_city_row(line) {
            Some((code, name, tail)) => {
                let count = crate::builder::headers::count_at(seq![tail], 0);
                if count == 0 {
                    st
                } else {
                    DbScan {
                        summaries: st.summaries.push(
                            IslandSummaryModel { code, name, province: st.province, island_count: count },
                        ),
                        ..st
                    }
                }
            },
            None => st,
        },
    }
}

pub open spec fn db_scan(ls: Seq<Seq<char>>) -> DbScan
    decreases ls.len(),
{
    if ls.len() == 0 {
        DbScan { province: Seq::empty(), summaries: Seq::empty() }
    } else {
        db_step(db_scan(ls.drop_last()), ls.last())
    }
}

/// The island counts of section D.b in `text`.
pub open spec fn section_db(text: Seq<char>) -> Seq<IslandSummaryModel> {
    db_scan(lines(text)).summaries
}

/// Reads the island counts per regency/city (section D.b).
pub fn parse_section_db(text: &str) -> (r: Vec<IslandSummary>)
    ensures
        island_summary_models(r@) == section_db(text@),
{
    let s = to_chars(text);
    let ls = text_lines(s.as_slice());
    let ghost lv = views(ls@);
    let mut out: Vec<IslandSummary> = Vec::new();
    let mut province: Vec<char> = Vec::new();
    let mut i: usize = 0;
    proof {
        assert(lv.take(0) =~= Seq::<Seq<char>>::empty());
        assert(island_summary_models(out@) =~= Seq::<IslandSummaryModel>::empty());
        assert(province@ =~= Seq::<char>::empty());
    }
    while i < ls.len()
        invariant
            i <= ls@.len(),
            lv == views(ls@),
            lv == lines(s@),
            s@ == text@,
            db_scan(lv.take(i as int)) == (DbScan {
                province: province@,
                summaries: island_summary_models(out@),
            }),
        decreases ls@.len() - i,
    {
        let line = ls[i].as_slice();
        proof {
            assert(lv.take(i + 1).drop_last() =~= lv.take(i as int));
            assert(lv.take(i + 1).last() == line@);
        }
        match db_province_exec(line) {
            Some(p) => {
                province = p;
            },
            None => match db_city_row_exec(line) {
                Some((code, name, tail)) => {
                    let count = match crate::builder::numbers::indonesian_int_chars(
                        tail.as_slice(),
                    ) {
                        Some(v) => v as u32,
                        None => 0,
                    };
                    proof {
                        assert(seq![tail@][0] == tail@);
                    }
                    if count != 0 {
                        let rec = IslandSummary {
                            code: string_of_chars(code.as_slice()),
                            name: string_of_chars(name.as_slice()),
                            province: string_of_chars(province.as_slice()),
                            island_count: count,
                        };
                        let ghost before = island_summary_models(out@);
                        out.push(rec);
                        proof {
                            assert(island_summary_models(out@) =~= before.push(rec@));
                        }
                    }
                },
                None => {},
            },
        }
        i = i + 1;
    }
    proof {
        assert(lv.take(ls@.len() as int) =~= lv);
    }
    out
}

} // verus!
