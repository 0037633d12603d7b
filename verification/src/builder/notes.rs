//! Detection of administrative notes that follow a name in the decree text.
use vstd::prelude::*;

use crate::builder::keywords::{
    reference_indicator_list, reference_indicators, reference_validated_keyword_list,
    reference_validated_keywords, self_validating_keyword_list, self_validating_keywords,
};
use crate::text::{
    byte_offset, char_is_ascii_alnum, is_ascii_text, char_is_digit, chars_within, chars_within_exec, contains,
    copy_range, find_from, find_from_exec, is_ascii_alnum, is_byte_boundary, is_digit, lower,
    lower_chars, occurs_at, to_chars, utf8_len,
};
use crate::unicode::{str_to_lowercase, unicode_lower};
use vstd::utf8::encode_utf8;

verus! {

/// How many bytes after a keyword are scanned for a reference indicator.
pub const REFERENCE_WINDOW: usize = 30;

/// The match at `pos..pos + kw_len` is delimited by non-alphanumeric characters
/// (or the ends of the text), so "ND" does not match inside "poNDok".
pub open spec fn word_boundary(t: Seq<char>, pos: int, kw_len: int) -> bool {
    &&& (pos == 0 || !is_ascii_alnum(t[pos - 1]))
    &&& (pos + kw_len >= t.len() || !is_ascii_alnum(t[pos + kw_len]))
}

/// End of the window of `window` bytes after `pos`: the characters that lie
/// wholly within those bytes, cut at the end of the text.
pub open spec fn window_end(t: Seq<char>, pos: int, window: int) -> int {
    if 0 <= pos <= t.len() {
        pos + chars_within(t.subrange(pos, t.len() as int), window)
    } else {
        pos
    }
}

/// The `window` bytes after `pos` hold a digit or one of the reference indicators.
pub open spec fn has_reference(t: Seq<char>, pos: int, window: int) -> bool {
    let end = window_end(t, pos, window);
    &&& pos < end
    &&& {
        ||| exists|k: int| pos <= k < end && is_digit(#[trigger] t[k])
        ||| exists|j: int|
            0 <= j < reference_indicators().len() && contains(
                t.subrange(pos, end),
                #[trigger] reference_indicators()[j],
            )
    }
}

pub proof fn lemma_window_end(t: Seq<char>, pos: int, window: int)
    requires
        0 <= pos <= t.len(),
    ensures
        pos <= window_end(t, pos, window) <= t.len(),
{
    crate::text::lemma_chars_within_bounds(t.subrange(pos, t.len() as int), window);
}

/// The byte `b` is an ASCII letter or digit.
pub open spec fn is_ascii_alnum_byte(b: u8) -> bool {
    (0x30 <= b && b <= 0x39) || (0x41 <= b && b <= 0x5a) || (0x61 <= b && b <= 0x7a)
}

/// The match at bytes `pos..pos + kw_len` is delimited by bytes that are not
/// ASCII letters or digits (or by the ends of the text).
pub open spec fn byte_word_boundary(b: Seq<u8>, pos: int, kw_len: int) -> bool {
    &&& (pos == 0 || !is_ascii_alnum_byte(b[pos - 1]))
    &&& (pos + kw_len >= b.len() || !is_ascii_alnum_byte(b[pos + kw_len]))
}

pub fn word_boundary_exec(t: &[char], pos: usize, kw_len: usize) -> (b: bool)
    requires
        pos <= t@.len(),
    ensures
        b == word_boundary(t@, pos as int, kw_len as int),
{
    let before_ok = pos == 0 || !char_is_ascii_alnum(t[pos - 1]);
    let after_ok = kw_len >= t.len() - pos || !char_is_ascii_alnum(t[pos + kw_len]);
    before_ok && after_ok
}

/// Whether the keyword match at bytes `pos..pos + kw_len` in `text` is at a word
/// boundary.
pub fn is_word_boundary(text: &str, pos: usize, kw_len: usize) -> (b: bool)
    requires
        pos <= encode_utf8(text@).len(),
        pos + kw_len <= usize::MAX,
    ensures
        b == byte_word_boundary(encode_utf8(text@), pos as int, kw_len as int),
{
    let bytes = text.as_bytes();
    let before_ok = pos == 0 || !byte_is_ascii_alnum(bytes[pos - 1]);
    let after_ok = pos + kw_len >= bytes.len() || !byte_is_ascii_alnum(bytes[pos + kw_len]);
    before_ok && after_ok
}

fn byte_is_ascii_alnum(b: u8) -> (r: bool)
    ensures
        r == is_ascii_alnum_byte(b),
{
    (0x30 <= b && b <= 0x39) || (0x41 <= b && b <= 0x5a) || (0x61 <= b && b <= 0x7a)
}

pub fn has_reference_exec(t: &[char], pos: usize, window: usize) -> (b: bool)
    ensures
        b == has_reference(t@, pos as int, window as int),
{
    if pos >= t.len() {
        proof {
            if pos == t@.len() {
                lemma_window_end(t@, pos as int, window as int);
            }
        }
        return false;
    }
    let rest = copy_range(t, pos, t.len());
    let end = pos + chars_within_exec(rest.as_slice(), window);
    if pos >= end {
        return false;
    }
    let mut k = pos;
    while k < end
        invariant
            pos <= k <= end <= t@.len(),
            end == window_end(t@, pos as int, window as int),
            forall|j: int| pos <= j < k ==> !is_digit(#[trigger] t@[j]),
        decreases end - k,
    {
        if char_is_digit(t[k]) {
            return true;
        }
        k = k + 1;
    }
    let w = copy_range(t, pos, end);
    let inds = reference_indicator_list();
    let ghost ispec = reference_indicators();
    let mut j: usize = 0;
    while j < inds.len()
        invariant
            j <= inds@.len(),
            inds@.map_values(|s: &'static str| s@) == ispec,
            ispec == reference_indicators(),
            w@ == t@.subrange(pos as int, end as int),
            pos < end <= t@.len(),
            end == window_end(t@, pos as int, window as int),
            forall|i: int| 0 <= i < j ==> !contains(w@, #[trigger] ispec[i]),
        decreases inds@.len() - j,
    {
        let pat = to_chars(inds[j]);
        proof {
            assert(pat@ == ispec[j as int]);
        }
        match find_from_exec(w.as_slice(), pat.as_slice(), 0) {
            Some(_) => {
                proof {
                    assert(contains(t@.subrange(pos as int, end as int), reference_indicators()[j as int]));
                }
                return true;
            },
            None => {},
        }
        j = j + 1;
    }
    false
}

/// The byte is an ASCII digit.
pub open spec fn is_ascii_digit_byte(x: u8) -> bool {
    0x30 <= x && x <= 0x39
}

/// `pat` occurs in the bytes `b[lo..hi]`.
pub open spec fn bytes_contain(b: Seq<u8>, lo: int, hi: int, pat: Seq<u8>) -> bool {
    exists|i: int| lo <= i && i + pat.len() <= hi && #[trigger] b.subrange(i, i + pat.len()) == pat
}

/// The bytes `b[pos..end]`, with `end` the window limit, hold an ASCII digit or
/// the UTF-8 encoding of one of the reference indicators.
pub open spec fn byte_reference(b: Seq<u8>, pos: int, window: int) -> bool {
    let end = if pos + window < b.len() {
        pos + window
    } else {
        b.len() as int
    };
    &&& pos < end
    &&& {
        ||| exists|k: int| pos <= k < end && is_ascii_digit_byte(#[trigger] b[k])
        ||| exists|j: int|
            0 <= j < reference_indicators().len() && bytes_contain(
                b,
                pos,
                end,
                encode_utf8(#[trigger] reference_indicators()[j]),
            )
    }
}

fn bytes_contain_exec(b: &[u8], lo: usize, hi: usize, pat: &[u8]) -> (r: bool)
    requires
        lo <= hi <= b@.len(),
    ensures
        r == bytes_contain(b@, lo as int, hi as int, pat@),
{
    let m = pat.len();
    if m > hi - lo {
        return false;
    }
    let mut i = lo;
    while i <= hi - m
        invariant
            lo <= i <= hi - m + 1,
            hi <= b@.len(),
            m == pat@.len(),
            m <= hi - lo,
            forall|k: int| lo <= k < i ==> #[trigger] b@.subrange(k, k + m) != pat@,
        decreases hi - i,
    {
        let mut q: usize = 0;
        while q < m && b[i + q] == pat[q]
            invariant
                q <= m,
                i + m <= hi <= b@.len(),
                m == pat@.len(),
                forall|t: int| 0 <= t < q ==> b@[i + t] == pat@[t],
            decreases m - q,
        {
            q = q + 1;
        }
        if q == m {
            proof {
                assert(b@.subrange(i as int, i + m) =~= pat@);
            }
            return true;
        }
        proof {
            assert(b@.subrange(i as int, i + m)[q as int] != pat@[q as int]);
        }
        i = i + 1;
    }
    proof {
        assert forall|k: int| lo <= k && k + m <= hi implies #[trigger] b@.subrange(k, k + m)
            != pat@ by {
            assert(k < i);
        }
    }
    false
}

/// Whether the text following a keyword holds a reference-like pattern within
/// `window` bytes of the byte offset `pos`: the bytes from `pos` to the window's
/// end hold an ASCII digit or one of the reference indicators.
pub fn has_reference_indicator(text_lower: &str, pos: usize, window: usize) -> (b: bool)
    requires
        pos + window <= usize::MAX,
        pos < window_limit(text_lower@, pos as int, window as int) ==> is_byte_boundary(
            text_lower@,
            pos as int,
        ) && is_byte_boundary(text_lower@, window_limit(text_lower@, pos as int, window as int)),
    ensures
        b == byte_reference(encode_utf8(text_lower@), pos as int, window as int),
{
    let bytes = text_lower.as_bytes();
    let n = bytes.len();
    let end = if pos + window < n {
        pos + window
    } else {
        n
    };
    if pos >= end {
        return false;
    }
    let mut k = pos;
    while k < end
        invariant
            pos <= k <= end <= bytes@.len(),
            end as int == (if pos + window < bytes@.len() {
                pos + window
            } else {
                bytes@.len() as int
            }),
            forall|t: int| pos <= t < k ==> !is_ascii_digit_byte(#[trigger] bytes@[t]),
            bytes@ == encode_utf8(text_lower@),
        decreases end - k,
    {
        if 0x30 <= bytes[k] && bytes[k] <= 0x39 {
            proof {
                assert(is_ascii_digit_byte(bytes@[k as int]));
            }
            return true;
        }
        k = k + 1;
    }
    let inds = reference_indicator_list();
    let mut j: usize = 0;
    while j < inds.len()
        invariant
            j <= inds@.len(),
            inds@.map_values(|s: &'static str| s@) == reference_indicators(),
            pos < end <= bytes@.len(),
            end as int == (if pos + window < bytes@.len() {
                pos + window
            } else {
                bytes@.len() as int
            }),
            bytes@ == encode_utf8(text_lower@),
            forall|t: int| pos <= t < end ==> !is_ascii_digit_byte(#[trigger] bytes@[t]),
            forall|i: int|
                0 <= i < j ==> !bytes_contain(
                    bytes@,
                    pos as int,
                    end as int,
                    encode_utf8(#[trigger] reference_indicators()[i]),
                ),
        decreases inds@.len() - j,
    {
        let pat = inds[j].as_bytes();
        proof {
            assert(inds@[j as int]@ == reference_indicators()[j as int]);
        }
        if bytes_contain_exec(bytes, pos, end, pat) {
            return true;
        }
        j = j + 1;
    }
    false
}

/// The end of the byte window `pos..pos + window`, cut at the end of the text.
pub open spec fn window_limit(t: Seq<char>, pos: int, window: int) -> int {
    if pos + window < utf8_len(t) {
        pos + window
    } else {
        utf8_len(t) as int
    }
}

/// The match of the case-folded keyword `kl` at `p` in the case-folded text `tl`
/// counts: it is at a word boundary and, when `req` is set, a reference follows.
pub open spec fn valid_hit(tl: Seq<char>, kl: Seq<char>, req: bool, p: int) -> bool {
    word_boundary(tl, p, kl.len() as int) && (!req || has_reference(
        tl,
        p + kl.len(),
        REFERENCE_WINDOW as int,
    ))
}

/// The first occurrence of `kl` at or after `i` that counts.
pub open spec fn hit_from(tl: Seq<char>, kl: Seq<char>, req: bool, i: int) -> Option<int>
    decreases tl.len() + 1 - i,
{
    match find_from(tl, kl, i) {
        Some(p) => if valid_hit(tl, kl, req, p) {
            Some(p)
        } else if i <= p <= tl.len() {
            hit_from(tl, kl, req, p + 1)
        } else {
            None
        },
        None => None,
    }
}

/// Where the case-folded keyword `kl` is found in the case-folded text `tl`:
/// its earliest occurrence that counts.
pub open spec fn keyword_hit(tl: Seq<char>, kl: Seq<char>, req: bool) -> Option<int> {
    hit_from(tl, kl, req, 0)
}

pub proof fn lemma_hit_from(tl: Seq<char>, kl: Seq<char>, req: bool, i: int)
    requires
        0 <= i,
    ensures
        hit_from(tl, kl, req, i) matches Some(p) ==> i <= p && p + kl.len() <= tl.len()
            && occurs_at(tl, p, kl) && valid_hit(tl, kl, req, p),
    decreases tl.len() + 1 - i,
{
    crate::text::lemma_find_from_props(tl, kl, i);
    match find_from(tl, kl, i) {
        Some(p) => if !valid_hit(tl, kl, req, p) && i <= p <= tl.len() {
            lemma_hit_from(tl, kl, req, p + 1);
        },
        None => {},
    }
}

/// The earliest hit among the first `n` case-folded keywords `kls`, as
/// (position, keyword index); on equal positions the keyword listed first wins.
pub open spec fn earliest_hit(tl: Seq<char>, kls: Seq<Seq<char>>, req: bool, n: int) -> Option<
    (int, int),
>
    decreases n,
{
    if n <= 0 {
        None
    } else {
        let prev = earliest_hit(tl, kls, req, n - 1);
        match keyword_hit(tl, kls[n - 1], req) {
            Some(p) => match prev {
                Some(b) => if p < b.0 {
                    Some((p, n - 1))
                } else {
                    prev
                },
                None => Some((p, n - 1)),
            },
            None => prev,
        }
    }
}

/// The ASCII case folding of each keyword.
pub open spec fn lower_all(kws: Seq<Seq<char>>) -> Seq<Seq<char>> {
    kws.map_values(|k: Seq<char>| lower(k))
}

/// The Unicode case folding of each keyword.
pub open spec fn unicode_lower_all(kws: Seq<Seq<char>>) -> Seq<Seq<char>> {
    kws.map_values(|k: Seq<char>| unicode_lower(k))
}

/// The earliest keyword of `kws` found in `text`, both folded to ASCII lowercase.
pub open spec fn earliest_keyword(text: Seq<char>, kws: Seq<Seq<char>>, req: bool) -> Option<
    (int, int),
> {
    earliest_hit(lower(text), lower_all(kws), req, kws.len() as int)
}

/// The earliest keyword of `kws` found in `text`, both folded to Unicode
/// lowercase; positions are character indices of the folded text.
pub open spec fn earliest_keyword_unicode(text: Seq<char>, kws: Seq<Seq<char>>, req: bool) -> Option<
    (int, int),
> {
    earliest_hit(unicode_lower(text), unicode_lower_all(kws), req, kws.len() as int)
}

pub proof fn lemma_earliest_hit_index(tl: Seq<char>, kls: Seq<Seq<char>>, req: bool, n: int)
    requires
        0 <= n <= kls.len(),
    ensures
        earliest_hit(tl, kls, req, n) matches Some(h) ==> 0 <= h.1 < n && keyword_hit(
            tl,
            kls[h.1],
            req,
        ) == Some(h.0) && 0 <= h.0 && h.0 + kls[h.1].len() <= tl.len(),
    decreases n,
{
    if n > 0 {
        lemma_earliest_hit_index(tl, kls, req, n - 1);
        lemma_hit_from(tl, kls[n - 1], req, 0);
    }
}

/// The views of a list of character vectors.
pub open spec fn char_views(v: Seq<Vec<char>>) -> Seq<Seq<char>> {
    v.map_values(|x: Vec<char>| x@)
}

/// The Unicode case folding of each keyword of a table.
pub fn unicode_lower_keywords(keywords: &[&'static str]) -> (r: Vec<Vec<char>>)
    ensures
        r@.len() == keywords@.len(),
        char_views(r@) == unicode_lower_all(keywords@.map_values(|s: &'static str| s@)),
        forall|k: int|
            0 <= k < keywords@.len() && is_ascii_text(#[trigger] keywords@[k]@) ==> r@[k]@ == lower(
                keywords@[k]@,
            ),
{
    let ghost kws = keywords@.map_values(|s: &'static str| s@);
    let mut r: Vec<Vec<char>> = Vec::new();
    let mut i: usize = 0;
    while i < keywords.len()
        invariant
            i <= keywords@.len(),
            kws == keywords@.map_values(|s: &'static str| s@),
            r@.len() == i,
            forall|k: int| 0 <= k < i ==> (#[trigger] r@[k])@ == unicode_lower(kws[k]),
            forall|k: int|
                0 <= k < i && is_ascii_text(#[trigger] keywords@[k]@) ==> r@[k]@ == lower(
                    keywords@[k]@,
                ),
        decreases keywords@.len() - i,
    {
        let kl = str_to_lowercase(keywords[i]);
        proof {
            assert(keywords@[i as int]@ == kws[i as int]);
        }
        r.push(to_chars(kl.as_str()));
        i = i + 1;
    }
    proof {
        assert(char_views(r@) =~= unicode_lower_all(kws));
    }
    r
}

/// The earliest occurrence of `kl` in `tl` that counts.
fn keyword_hit_exec(tl: &[char], kl: &[char], req: bool) -> (r: Option<usize>)
    ensures
        match keyword_hit(tl@, kl@, req) {
            Some(q) => r == Some(q as usize),
            None => r is None,
        },
{
    let n = tl.len();
    let mut i: usize = 0;
    loop
        invariant
            n == tl@.len(),
            i <= tl@.len() + 1,
            hit_from(tl@, kl@, req, i as int) == keyword_hit(tl@, kl@, req),
        decreases tl@.len() + 1 - i,
    {
        match find_from_exec(tl, kl, i) {
            Some(p) => {
                proof {
                    crate::text::lemma_find_from_props(tl@, kl@, i as int);
                    assert(occurs_at(tl@, p as int, kl@));
                    assert(p + kl@.len() <= tl@.len());
                }
                let ok = word_boundary_exec(tl, p, kl.len()) && (!req || has_reference_exec(
                    tl,
                    p + kl.len(),
                    REFERENCE_WINDOW,
                ));
                if ok {
                    return Some(p);
                }
                proof {
                    assert(!valid_hit(tl@, kl@, req, p as int));
                    assert(hit_from(tl@, kl@, req, i as int) == hit_from(tl@, kl@, req, p + 1));
                }
                if p >= n {
                    proof {
                        assert(find_from(tl@, kl@, p + 1) is None);
                    }
                    return None;
                }
                i = p + 1;
            },
            None => {
                return None;
            },
        }
    }
}

/// The earliest hit of the case-folded keywords `kls` (the folded forms of
/// `keywords`) in the case-folded text `tl`.
pub fn find_earliest_in(
    tl: &[char],
    kls: &Vec<Vec<char>>,
    keywords: &[&'static str],
    require_reference: bool,
) -> (r: Option<(usize, &'static str)>)
    requires
        kls@.len() == keywords@.len(),
    ensures
        match earliest_hit(tl@, char_views(kls@), require_reference, keywords@.len() as int) {
            Some(h) => r matches Some(x) && x.0 == h.0 && x.1@ == keywords@[h.1]@,
            None => r is None,
        },
{
    let ghost kv = char_views(kls@);
    let tn = tl.len();
    let mut best: Option<(usize, &'static str)> = None;
    let mut i: usize = 0;
    while i < keywords.len()
        invariant
            tn == tl@.len(),
            i <= keywords@.len(),
            kls@.len() == keywords@.len(),
            kv == char_views(kls@),
            match earliest_hit(tl@, kv, require_reference, i as int) {
                Some(h) => best matches Some(x) && x.0 == h.0 && x.1@ == keywords@[h.1]@,
                None => best is None,
            },
            kv.len() == keywords@.len(),
        decreases keywords@.len() - i,
    {
        proof {
            assert(kls@[i as int]@ == kv[i as int]);
        }
        let hit = keyword_hit_exec(tl, kls[i].as_slice(), require_reference);
        proof {
            lemma_earliest_hit_index(tl@, kv, require_reference, i as int);
            lemma_hit_from(tl@, kv[i as int], require_reference, 0);
            assert(keyword_hit(tl@, kv[i as int], require_reference) == keyword_hit(
                tl@,
                kls@[i as int]@,
                require_reference,
            ));
        }
        let ghost prev = earliest_hit(tl@, kv, require_reference, i as int);
        proof {
            assert(earliest_hit(tl@, kv, require_reference, i + 1) == match keyword_hit(
                tl@,
                kv[i as int],
                require_reference,
            ) {
                Some(q) => match prev {
                    Some(b) => if q < b.0 {
                        Some((q, i as int))
                    } else {
                        prev
                    },
                    None => Some((q, i as int)),
                },
                None => prev,
            });
        }
        match hit {
            Some(p) => {
                let better = match best {
                    Some(b) => p < b.0,
                    None => true,
                };
                if better {
                    best = Some((p, keywords[i]));
                }
            },
            None => {},
        }
        i = i + 1;
    }
    best
}

/// Finds the earliest occurrence of any of `keywords` in `text` (both in Unicode
/// lowercase) at a word boundary, optionally requiring a reference after it;
/// returns its byte offset in the lowercased text and the keyword.
pub fn find_earliest_keyword(text: &str, keywords: &[&'static str], require_reference: bool) -> (r:
    Option<(usize, &'static str)>)
    ensures
        match earliest_keyword_unicode(
            text@,
            keywords@.map_values(|s: &'static str| s@),
            require_reference,
        ) {
            Some(h) => r matches Some(x) && x.0 == utf8_len(unicode_lower(text@).subrange(0, h.0))
                && x.1@ == keywords@[h.1]@,
            None => r is None,
        },
        (is_ascii_text(text@) && forall|k: int|
            0 <= k < keywords@.len() ==> is_ascii_text(#[trigger] keywords@[k]@)) ==> match earliest_keyword(
            text@,
            keywords@.map_values(|s: &'static str| s@),
            require_reference,
        ) {
            Some(h) => r matches Some(x) && x.0 == h.0 && x.1@ == keywords@[h.1]@,
            None => r is None,
        },
{
    let tls = str_to_lowercase(text);
    let tl = to_chars(tls.as_str());
    let kls = unicode_lower_keywords(keywords);
    proof {
        lemma_earliest_hit_index(
            tl@,
            char_views(kls@),
            require_reference,
            keywords@.len() as int,
        );
    }
    proof {
        let kws = keywords@.map_values(|s: &'static str| s@);
        if is_ascii_text(text@) && forall|k: int|
            0 <= k < keywords@.len() ==> is_ascii_text(#[trigger] keywords@[k]@) {
            assert(char_views(kls@) =~= lower_all(kws));
            crate::text::lemma_lower_ascii(text@);
        }
    }
    match find_earliest_in(tl.as_slice(), &kls, keywords, require_reference) {
        Some((p, kw)) => {
            proof {
                if is_ascii_text(text@) {
                    crate::text::lemma_lower_ascii(text@);
                    crate::text::lemma_ascii_prefix(tl@, p as int);
                }
            }
            Some((byte_offset(tls.as_str(), tl.as_slice(), p), kw))
        },
        None => None,
    }
}

/// A note keyword found in village name text.
pub struct NoteMatch {
    /// Position where the note keyword starts.
    pub pos: usize,
    /// The keyword that was matched, in its listed casing.
    pub keyword: &'static str,
}

/// The note boundary of a case-folded text `tl`, given the folded forms of the
/// self-validating and the reference-validated keywords: the earliest
/// self-validating keyword, unless a reference-validated keyword comes strictly
/// earlier.
pub open spec fn note_boundary_of(tl: Seq<char>, sl: Seq<Seq<char>>, rl: Seq<Seq<char>>) -> Option<
    (int, Seq<char>),
> {
    let s = earliest_hit(tl, sl, false, self_validating_keywords().len() as int);
    let r = earliest_hit(tl, rl, true, reference_validated_keywords().len() as int);
    match (s, r) {
        (Some(sh), Some(rh)) => if rh.0 < sh.0 {
            Some((rh.0, reference_validated_keywords()[rh.1]))
        } else {
            Some((sh.0, self_validating_keywords()[sh.1]))
        },
        (Some(sh), None) => Some((sh.0, self_validating_keywords()[sh.1])),
        (None, Some(rh)) => Some((rh.0, reference_validated_keywords()[rh.1])),
        (None, None) => None,
    }
}

/// The note boundary of `raw_lower` with ASCII case folding; positions are
/// character indices.
pub open spec fn note_boundary(raw_lower: Seq<char>) -> Option<(int, Seq<char>)> {
    note_boundary_of(
        lower(raw_lower),
        lower_all(self_validating_keywords()),
        lower_all(reference_validated_keywords()),
    )
}

/// The note boundary of `raw_lower` with Unicode case folding; positions are
/// character indices of the folded text.
pub open spec fn note_boundary_unicode(raw_lower: Seq<char>) -> Option<(int, Seq<char>)> {
    note_boundary_of(
        unicode_lower(raw_lower),
        unicode_lower_all(self_validating_keywords()),
        unicode_lower_all(reference_validated_keywords()),
    )
}

pub proof fn lemma_note_boundary_of_pos(tl: Seq<char>, sl: Seq<Seq<char>>, rl: Seq<Seq<char>>)
    requires
        sl.len() == self_validating_keywords().len(),
        rl.len() == reference_validated_keywords().len(),
    ensures
        note_boundary_of(tl, sl, rl) matches Some(n) ==> 0 <= n.0 <= tl.len(),
{
    lemma_earliest_hit_index(tl, sl, false, sl.len() as int);
    lemma_earliest_hit_index(tl, rl, true, rl.len() as int);
}

fn note_boundary_from(tl: &[char], sl: &Vec<Vec<char>>, rl: &Vec<Vec<char>>) -> (r: Option<
    NoteMatch,
>)
    requires
        sl@.len() == self_validating_keywords().len(),
        rl@.len() == reference_validated_keywords().len(),
    ensures
        match note_boundary_of(tl@, char_views(sl@), char_views(rl@)) {
            Some(n) => r matches Some(m) && m.pos == n.0 && m.keyword@ == n.1,
            None => r is None,
        },
{
    let selfs = self_validating_keyword_list();
    let refs = reference_validated_keyword_list();
    let self_match = find_earliest_in(tl, sl, selfs.as_slice(), false);
    let ref_match = find_earliest_in(tl, rl, refs.as_slice(), true);
    proof {
        lemma_earliest_hit_index(tl@, char_views(sl@), false, sl@.len() as int);
        lemma_earliest_hit_index(tl@, char_views(rl@), true, rl@.len() as int);
    }
    match (self_match, ref_match) {
        (Some((sp, sk)), Some((rp, rk))) => if rp < sp {
            Some(NoteMatch { pos: rp, keyword: rk })
        } else {
            Some(NoteMatch { pos: sp, keyword: sk })
        },
        (Some((sp, sk)), None) => Some(NoteMatch { pos: sp, keyword: sk }),
        (None, Some((rp, rk))) => Some(NoteMatch { pos: rp, keyword: rk }),
        (None, None) => None,
    }
}

/// Finds the earliest note boundary in `raw_lower` by checking all note keywords
/// (in Unicode lowercase); the position is a byte offset in the lowercased text.
pub fn find_note_boundary(raw_lower: &str) -> (r: Option<NoteMatch>)
    ensures
        match note_boundary_unicode(raw_lower@) {
            Some(n) => r matches Some(m) && m.pos == utf8_len(
                unicode_lower(raw_lower@).subrange(0, n.0),
            ) && m.keyword@ == n.1,
            None => r is None,
        },
        is_ascii_text(raw_lower@) ==> match note_boundary(raw_lower@) {
            Some(n) => r matches Some(m) && m.pos == n.0 && m.keyword@ == n.1,
            None => r is None,
        },
{
    let tls = str_to_lowercase(raw_lower);
    let tl = to_chars(tls.as_str());
    let sl = unicode_lower_keywords(self_validating_keyword_list().as_slice());
    let rl = unicode_lower_keywords(reference_validated_keyword_list().as_slice());
    proof {
        lemma_note_boundary_of_pos(tl@, char_views(sl@), char_views(rl@));
        if is_ascii_text(raw_lower@) {
            crate::builder::keywords::lemma_self_validating_keywords_ascii();
            crate::builder::keywords::lemma_reference_validated_keywords_ascii();
            crate::text::lemma_lower_ascii(raw_lower@);
            assert(char_views(sl@) =~= lower_all(self_validating_keywords()));
            assert(char_views(rl@) =~= lower_all(reference_validated_keywords()));
        }
    }
    match note_boundary_from(tl.as_slice(), &sl, &rl) {
        Some(m) => {
            proof {
                if is_ascii_text(raw_lower@) {
                    crate::text::lemma_ascii_prefix(tl@, m.pos as int);
                }
            }
            Some(
                NoteMatch {
                    pos: byte_offset(tls.as_str(), tl.as_slice(), m.pos),
                    keyword: m.keyword,
                },
            )
        },
        None => None,
    }
}

/// Case folding the text first does not change its note boundary.
pub proof fn lemma_note_boundary_lower(t: Seq<char>)
    ensures
        note_boundary(lower(t)) == note_boundary(t),
{
    crate::text::lemma_lower_idem(t);
}

} // verus!
