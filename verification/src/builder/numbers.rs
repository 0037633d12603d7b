//! Numbers in the decree's tables: integers with `.` thousands separators, OCR
//! repairs of population figures, and where the numeric columns of a row begin.
use vstd::prelude::*;

use crate::builder::columns::column_gap;
use crate::builder::village::{word_list, words};
use crate::text::{
    char_is_digit, copy_range, is_digit, join, join_chars, join_range, parse_u64_range, parse_uint,
    skip_ws, string_of_chars, to_chars, token_chars, trim, trim_range, trim_range_exec, views,
    str_views,
};

verus! {

// ---------------------------------------------------------------------------
// Integers with thousands separators
// ---------------------------------------------------------------------------
/// `s` with every `.` (a thousands separator) removed.
pub open spec fn without_dots(s: Seq<char>) -> Seq<char>
    decreases s.len(),
{
    if s.len() == 0 {
        s
    } else if s.last() == '.' {
        without_dots(s.drop_last())
    } else {
        without_dots(s.drop_last()).push(s.last())
    }
}

/// An integer written with `.` as thousands separator ("1.234.567"), as a `u64`.
pub open spec fn indonesian_int(s: Seq<char>) -> Option<u64> {
    match parse_uint(without_dots(s), u64::MAX as nat) {
        Some(v) => Some(v as u64),
        None => None,
    }
}

fn without_dots_chars(s: &[char]) -> (r: Vec<char>)
    ensures
        r@ == without_dots(s@),
{
    let mut r: Vec<char> = Vec::new();
    let mut i: usize = 0;
    while i < s.len()
        invariant
            i <= s@.len(),
            r@ == without_dots(s@.take(i as int)),
        decreases s@.len() - i,
    {
        proof {
            assert(s@.take(i + 1).drop_last() =~= s@.take(i as int));
        }
        if s[i] != '.' {
            r.push(s[i]);
        }
        i = i + 1;
    }
    proof {
        assert(s@.take(s@.len() as int) =~= s@);
    }
    r
}

pub fn indonesian_int_chars(s: &[char]) -> (r: Option<u64>)
    ensures
        r == indonesian_int(s@),
{
    let cleaned = without_dots_chars(s);
    proof {
        assert(cleaned@.subrange(0, cleaned@.len() as int) =~= cleaned@);
    }
    parse_u64_range(cleaned.as_slice(), 0, cleaned.len())
}

/// Parses an integer that uses `.` as thousands separator.
pub fn parse_indonesian_int(s: &str) -> (r: Option<u64>)
    ensures
        r == indonesian_int(s@),
{
    let cs = to_chars(s);
    indonesian_int_chars(cs.as_slice())
}

proof fn lemma_without_dots_has_none(s: Seq<char>)
    ensures
        forall|k: int| 0 <= k < without_dots(s).len() ==> without_dots(s)[k] != '.',
    decreases s.len(),
{
    if s.len() > 0 {
        lemma_without_dots_has_none(s.drop_last());
        let p = without_dots(s.drop_last());
        assert forall|k: int| 0 <= k < without_dots(s).len() implies without_dots(s)[k] != '.' by {
            if k < p.len() {
                assert(without_dots(s)[k] == p[k]);
            }
        }
    }
}

proof fn lemma_without_dots_of_dotless(s: Seq<char>)
    requires
        forall|k: int| 0 <= k < s.len() ==> s[k] != '.',
    ensures
        without_dots(s) == s,
    decreases s.len(),
{
    if s.len() > 0 {
        lemma_without_dots_of_dotless(s.drop_last());
        assert(s.drop_last().push(s.last()) =~= s);
    }
}

/// Thousands separators do not change the value: a number reads the same with
/// its dots removed.
pub proof fn lemma_dots_do_not_change_value(s: Seq<char>)
    ensures
        indonesian_int(without_dots(s)) == indonesian_int(s),
{
    lemma_without_dots_has_none(s);
    lemma_without_dots_of_dotless(without_dots(s));
}

// ---------------------------------------------------------------------------
// OCR repair
// ---------------------------------------------------------------------------
/// `s` keeping only ASCII digits, `.` and `,`.
pub open spec fn number_chars(s: Seq<char>) -> Seq<char>
    decreases s.len(),
{
    if s.len() == 0 {
        s
    } else {
        let c = s.last();
        let p = number_chars(s.drop_last());
        if is_digit(c) || c == '.' || c == ',' {
            p.push(c)
        } else {
            p
        }
    }
}

/// A leading `'`, `r` or `l` is a misread `1`.
pub open spec fn first_digit_fixed(s: Seq<char>) -> Seq<char> {
    if s.len() > 0 && (s[0] == '\'' || s[0] == 'r' || s[0] == 'l') {
        s.update(0, '1')
    } else {
        s
    }
}

/// After a leading `1`, a `t` or `l` in front of a digit is a stray mark.
pub open spec fn stray_mark_dropped(s: Seq<char>) -> Seq<char> {
    if s.len() > 2 && (s[1] == 't' || s[1] == 'l') && s[0] == '1' && is_digit(s[2]) {
        s.remove(1)
    } else {
        s
    }
}

/// The repair fails on a two-character value like `1t`: the third character it
/// looks at is not there.
pub open spec fn ocr_repair_fails(s: Seq<char>) -> bool {
    let t = trim(s);
    let f = first_digit_fixed(t);
    t.len() == 2 && indonesian_int(t) is None && f[0] == '1' && (f[1] == 't' || f[1] == 'l')
}

/// A population figure, repaired where OCR misread it.
pub open spec fn ocr_number(s: Seq<char>) -> Option<u64> {
    let t = trim(s);
    if t.len() == 0 {
        None
    } else if indonesian_int(t) is Some {
        indonesian_int(t)
    } else {
        let r = number_chars(stray_mark_dropped(first_digit_fixed(t)));
        if r.len() == 0 {
            None
        } else {
            indonesian_int(r)
        }
    }
}

fn number_chars_exec(s: &[char]) -> (r: Vec<char>)
    ensures
        r@ == number_chars(s@),
{
    let mut r: Vec<char> = Vec::new();
    let mut i: usize = 0;
    while i < s.len()
        invariant
            i <= s@.len(),
            r@ == number_chars(s@.take(i as int)),
        decreases s@.len() - i,
    {
        proof {
            assert(s@.take(i + 1).drop_last() =~= s@.take(i as int));
        }
        let c = s[i];
        if char_is_digit(c) || c == '.' || c == ',' {
            r.push(c);
        }
        i = i + 1;
    }
    proof {
        assert(s@.take(s@.len() as int) =~= s@);
    }
    r
}

pub fn ocr_number_chars(s: &[char]) -> (r: Option<u64>)
    requires
        !ocr_repair_fails(s@),
    ensures
        r == ocr_number(s@),
{
    let (a, b) = trim_range_exec(s, 0, s.len());
    let t = copy_range(s, a, b);
    proof {
        assert(t@ == trim(s@));
    }
    if t.len() == 0 {
        return None;
    }
    match indonesian_int_chars(t.as_slice()) {
        Some(v) => {
            return Some(v);
        },
        None => {},
    }
    let mut chars = t;
    let first = chars[0];
    if first == '\'' || first == 'r' || first == 'l' {
        chars.set(0, '1');
    }
    let ghost fixed = chars@;
    proof {
        assert(fixed =~= first_digit_fixed(trim(s@)));
    }
    if chars.len() > 1 && (chars[1] == 't' || chars[1] == 'l') && chars[0] == '1' && char_is_digit(
        chars[2],
    ) {
        chars.remove(1);
    }
    proof {
        assert(chars@ =~= stray_mark_dropped(fixed));
    }
    let repaired = number_chars_exec(chars.as_slice());
    if repaired.len() == 0 {
        return None;
    }
    indonesian_int_chars(repaired.as_slice())
}

/// Recovers a population figure that OCR may have misread.
pub fn recover_ocr_number(s: &str) -> (r: Option<u64>)
    requires
        !ocr_repair_fails(s@),
    ensures
        r == ocr_number(s@),
{
    let cs = to_chars(s);
    ocr_number_chars(cs.as_slice())
}

// ---------------------------------------------------------------------------
// Numeric columns
// ---------------------------------------------------------------------------
/// A token that starts with an ASCII digit.
pub open spec fn likely_number(t: Seq<char>) -> bool {
    t.len() > 0 && is_digit(t[0])
}

pub fn likely_number_chars(t: &[char]) -> (b: bool)
    ensures
        b == likely_number(t@),
{
    t.len() > 0 && char_is_digit(t[0])
}

/// Whether a token looks like a number (it starts with an ASCII digit).
pub fn is_likely_number(token: &str) -> (b: bool)
    ensures
        b == likely_number(token@),
{
    let cs = to_chars(token);
    likely_number_chars(cs.as_slice())
}

/// The first index at or after `from` where two numbers stand in a row;
/// the length if there is none.
pub open spec fn number_pair_from(ts: Seq<Seq<char>>, from: int) -> int
    decreases ts.len() - from,
{
    if from + 1 >= ts.len() {
        ts.len() as int
    } else if likely_number(ts[from]) && likely_number(ts[from + 1]) {
        from
    } else {
        number_pair_from(ts, from + 1)
    }
}

/// The first index at or after `from` where a number stands; the length if
/// there is none.
pub open spec fn number_from(ts: Seq<Seq<char>>, from: int) -> int
    decreases ts.len() - from,
{
    if from >= ts.len() {
        ts.len() as int
    } else if likely_number(ts[from]) {
        from
    } else {
        number_from(ts, from + 1)
    }
}

/// Where the numeric columns of a header row start: at the first two numbers in
/// a row after the first token, else at the first number after the second token,
/// else at the end.
pub open spec fn numeric_start(ts: Seq<Seq<char>>) -> int {
    let p = number_pair_from(ts, 1);
    if p < ts.len() {
        p
    } else {
        number_from(ts, 2)
    }
}

pub proof fn lemma_number_from_bounds(ts: Seq<Seq<char>>, from: int)
    requires
        0 <= from,
    ensures
        from <= ts.len() ==> from <= number_from(ts, from) <= ts.len(),
        from > ts.len() ==> number_from(ts, from) == ts.len(),
        number_from(ts, from) < ts.len() ==> likely_number(ts[number_from(ts, from)]),
        forall|k: int| from <= k < number_from(ts, from) ==> !likely_number(#[trigger] ts[k]),
    decreases ts.len() - from,
{
    if from < ts.len() && !likely_number(ts[from]) {
        lemma_number_from_bounds(ts, from + 1);
    }
}

pub proof fn lemma_number_pair_from_bounds(ts: Seq<Seq<char>>, from: int)
    requires
        0 <= from,
    ensures
        number_pair_from(ts, from) <= ts.len(),
        number_pair_from(ts, from) < ts.len() ==> from <= number_pair_from(ts, from)
            && number_pair_from(ts, from) + 1 < ts.len(),
    decreases ts.len() - from,
{
    if from + 1 < ts.len() && !(likely_number(ts[from]) && likely_number(ts[from + 1])) {
        lemma_number_pair_from_bounds(ts, from + 1);
    }
}

pub proof fn lemma_numeric_start_bounds(ts: Seq<Seq<char>>)
    ensures
        0 <= numeric_start(ts) <= ts.len(),
{
    lemma_number_pair_from_bounds(ts, 1);
    lemma_number_from_bounds(ts, 2);
}

pub fn number_from_exec(ts: &[Vec<char>], from: usize) -> (r: usize)
    requires
        from <= ts@.len(),
    ensures
        r as int == number_from(views(ts@), from as int),
{
    let ghost v = views(ts@);
    let mut i = from;
    while i < ts.len() && !likely_number_chars(ts[i].as_slice())
        invariant
            from <= i <= ts@.len(),
            v == views(ts@),
            number_from(v, i as int) == number_from(v, from as int),
        decreases ts@.len() - i,
    {
        proof {
            assert(v[i as int] == ts@[i as int]@);
        }
        i = i + 1;
    }
    proof {
        if i < ts.len() {
            assert(v[i as int] == ts@[i as int]@);
        }
    }
    i
}

pub fn numeric_start_in(ts: &[Vec<char>]) -> (r: usize)
    ensures
        r as int == numeric_start(views(ts@)),
{
    let ghost v = views(ts@);
    let mut i: usize = 1;
    while i < ts.len() && i + 1 < ts.len()
        invariant
            1 <= i,
            v == views(ts@),
            number_pair_from(v, i as int) == number_pair_from(v, 1),
        decreases ts@.len() - i,
    {
        proof {
            assert(v[i as int] == ts@[i as int]@);
            assert(v[i + 1] == ts@[i + 1]@);
        }
        if likely_number_chars(ts[i].as_slice()) && likely_number_chars(ts[i + 1].as_slice()) {
            return i;
        }
        i = i + 1;
    }
    if ts.len() < 2 {
        return ts.len();
    }
    number_from_exec(ts, 2)
}

/// Where the numeric columns of a header row start.
pub fn find_numeric_start(tokens: &[&str]) -> (r: usize)
    ensures
        r as int == numeric_start(str_views(tokens@)),
{
    let ts = token_chars(tokens);
    numeric_start_in(ts.as_slice())
}

/// The index of the last token below `n` that is not a number.
pub open spec fn last_non_number(ts: Seq<Seq<char>>, n: int) -> Option<int>
    decreases n,
{
    if n <= 0 {
        None
    } else if !likely_number(ts[n - 1]) {
        Some(n - 1)
    } else {
        last_non_number(ts, n - 1)
    }
}

pub proof fn lemma_last_non_number(ts: Seq<Seq<char>>, n: int)
    requires
        n <= ts.len(),
    ensures
        last_non_number(ts, n) matches Some(k) ==> 0 <= k < n,
    decreases n,
{
    if n > 0 && likely_number(ts[n - 1]) {
        lemma_last_non_number(ts, n - 1);
    }
}

/// The annotation at the end of a row's numeric columns: everything from the last
/// token that is not a number on, joined by spaces, when that is not empty.
pub open spec fn trailing_keterangan(ts: Seq<Seq<char>>) -> Option<Seq<char>> {
    match last_non_number(ts, ts.len() as int) {
        Some(k) => {
            let j = join(ts.subrange(k, ts.len() as int), seq![' ']);
            if j.len() == 0 {
                None
            } else {
                Some(j)
            }
        },
        None => None,
    }
}

pub fn trailing_keterangan_in(ts: &[Vec<char>]) -> (r: Option<Vec<char>>)
    ensures
        match trailing_keterangan(views(ts@)) {
            Some(k) => r matches Some(x) && x@ == k,
            None => r is None,
        },
{
    let ghost v = views(ts@);
    let mut n = ts.len();
    while n > 0 && likely_number_chars(ts[n - 1].as_slice())
        invariant
            n <= ts@.len(),
            v == views(ts@),
            last_non_number(v, n as int) == last_non_number(v, ts@.len() as int),
        decreases n,
    {
        proof {
            assert(v[n - 1] == ts@[n - 1]@);
        }
        n = n - 1;
    }
    if n == 0 {
        return None;
    }
    proof {
        assert(v[n - 1] == ts@[n - 1]@);
    }
    let sep: Vec<char> = vec![' '];
    proof {
        assert(sep@ =~= seq![' ']);
    }
    let j = join_range(ts, n - 1, ts.len(), sep.as_slice());
    if j.len() == 0 {
        None
    } else {
        Some(j)
    }
}

/// The annotation text at the end of a row's numeric columns.
pub fn find_keterangan_in_num_fields(num_fields: &[&str]) -> (r: Option<String>)
    ensures
        match trailing_keterangan(str_views(num_fields@)) {
            Some(k) => r matches Some(x) && x@ == k,
            None => r is None,
        },
{
    let ts = token_chars(num_fields);
    match trailing_keterangan_in(ts.as_slice()) {
        Some(x) => Some(string_of_chars(x.as_slice())),
        None => None,
    }
}

} // verus!
