//! Fetching helpers: SHA-256 fingerprints of downloaded data, retry delays, and
//! the paging of the village boundary service.
use vstd::prelude::*;

use sha2::Digest;

use crate::text::{push_all, string_of_chars, to_chars};
use vstd::arithmetic::power2::{lemma2_to64, lemma_pow2_strictly_increases, lemma_pow2_unfold, pow2};

verus! {

// ---------------------------------------------------------------------------
// SHA-256
// ---------------------------------------------------------------------------
/// The SHA-256 digest of a byte string.
pub uninterp spec fn sha256_of(data: Seq<u8>) -> Seq<u8>;

/// Runs `sha2::Sha256` (`new`, `update`, `finalize`) over `data`. Claimed: the
/// result is the SHA-256 digest of exactly these bytes, and it is 32 bytes long
/// (the hasher's output size).
#[verifier::external_body]
fn sha256_digest(data: &[u8]) -> (r: Vec<u8>)
    ensures
        r@ == sha256_of(data@),
        r@.len() == 32,
{
    let mut hasher = sha2::Sha256::new();
    hasher.update(data);
    hasher.finalize().to_vec()
}

/// The lowercase hexadecimal digits.
pub open spec fn hex_chars() -> Seq<char> {
    seq!['0', '1', '2', '3', '4', '5', '6', '7', '8', '9', 'a', 'b', 'c', 'd', 'e', 'f']
}

/// Bytes as lowercase hexadecimal, two digits per byte, high nibble first.
pub open spec fn hex(bytes: Seq<u8>) -> Seq<char>
    decreases bytes.len(),
{
    if bytes.len() == 0 {
        Seq::empty()
    } else {
        hex(bytes.drop_last()) + seq![
            hex_chars()[(bytes.last() / 16) as int],
            hex_chars()[(bytes.last() % 16) as int],
        ]
    }
}

fn hex_char(n: u8) -> (c: char)
    requires
        n < 16,
    ensures
        c == hex_chars()[n as int],
{
    let digits = ['0', '1', '2', '3', '4', '5', '6', '7', '8', '9', 'a', 'b', 'c', 'd', 'e', 'f'];
    proof {
        assert(digits@ =~= hex_chars());
    }
    digits[n as usize]
}

/// Bytes as lowercase hexadecimal.
pub fn hex_string(bytes: &[u8]) -> (r: String)
    ensures
        r@ == hex(bytes@),
{
    let mut out: Vec<char> = Vec::new();
    let mut i: usize = 0;
    while i < bytes.len()
        invariant
            i <= bytes@.len(),
            out@ == hex(bytes@.take(i as int)),
        decreases bytes@.len() - i,
    {
        let b = bytes[i];
        proof {
            assert(bytes@.take(i + 1).drop_last() =~= bytes@.take(i as int));
            assert(bytes@.take(i + 1).last() == b);
        }
        out.push(hex_char(b / 16));
        out.push(hex_char(b % 16));
        proof {
            assert(out@ =~= hex(bytes@.take(i + 1)));
        }
        i = i + 1;
    }
    proof {
        assert(bytes@.take(bytes@.len() as int) =~= bytes@);
    }
    string_of_chars(out.as_slice())
}

/// A lowercase hexadecimal digit.
pub open spec fn is_hex_char(c: char) -> bool {
    ('0' <= c && c <= '9') || ('a' <= c && c <= 'f')
}

proof fn lemma_hex_char(d: int)
    requires
        0 <= d < 16,
    ensures
        is_hex_char(hex_chars()[d]),
{
    if d == 0 {} else if d == 1 {} else if d == 2 {} else if d == 3 {} else if d == 4 {
    } else if d == 5 {} else if d == 6 {} else if d == 7 {} else if d == 8 {} else if d == 9 {
    } else if d == 10 {} else if d == 11 {} else if d == 12 {} else if d == 13 {
    } else if d == 14 {} else {}
}

/// Hexadecimal text holds only lowercase hexadecimal digits.
pub proof fn lemma_hex_digits(bytes: Seq<u8>)
    ensures
        forall|i: int| 0 <= i < hex(bytes).len() ==> is_hex_char(#[trigger] hex(bytes)[i]),
    decreases bytes.len(),
{
    if bytes.len() > 0 {
        lemma_hex_digits(bytes.drop_last());
        lemma_hex_char((bytes.last() / 16) as int);
        lemma_hex_char((bytes.last() % 16) as int);
        let p = hex(bytes.drop_last());
        assert forall|i: int| 0 <= i < hex(bytes).len() implies is_hex_char(
            #[trigger] hex(bytes)[i],
        ) by {
            if i < p.len() {
                assert(hex(bytes)[i] == p[i]);
            }
        }
    }
}

/// The SHA-256 hash of raw bytes, as lowercase hexadecimal: 64 hexadecimal digits.
pub fn hash_sha256(data: &[u8]) -> (r: String)
    ensures
        r@ == hex(sha256_of(data@)),
        r@.len() == 64,
        forall|i: int| 0 <= i < r@.len() ==> is_hex_char(#[trigger] r@[i]),
{
    let digest = sha256_digest(data);
    proof {
        lemma_hex_len(digest@);
        lemma_hex_digits(digest@);
    }
    hex_string(digest.as_slice())
}

pub proof fn lemma_hex_len(bytes: Seq<u8>)
    ensures
        hex(bytes).len() == 2 * bytes.len(),
    decreases bytes.len(),
{
    if bytes.len() > 0 {
        lemma_hex_len(bytes.drop_last());
    }
}

// ---------------------------------------------------------------------------
// Decimal numbers
// ---------------------------------------------------------------------------
pub open spec fn digit_char(d: nat) -> char {
    seq!['0', '1', '2', '3', '4', '5', '6', '7', '8', '9'][d as int]
}

/// The decimal representation of `n`.
pub open spec fn decimal(n: nat) -> Seq<char>
    decreases n,
{
    if n < 10 {
        seq![digit_char(n)]
    } else {
        decimal(n / 10) + seq![digit_char(n % 10)]
    }
}

fn digit_char_exec(d: u64) -> (c: char)
    requires
        d < 10,
    ensures
        c == digit_char(d as nat),
{
    let digits = ['0', '1', '2', '3', '4', '5', '6', '7', '8', '9'];
    proof {
        assert(digits@ =~= seq!['0', '1', '2', '3', '4', '5', '6', '7', '8', '9']);
    }
    digits[d as usize]
}

fn decimal_chars(n: u64) -> (r: Vec<char>)
    ensures
        r@ == decimal(n as nat),
    decreases n,
{
    if n < 10 {
        let mut v: Vec<char> = Vec::new();
        v.push(digit_char_exec(n));
        proof {
            assert(v@ =~= seq![digit_char(n as nat)]);
        }
        v
    } else {
        let mut v = decimal_chars(n / 10);
        v.push(digit_char_exec(n % 10));
        v
    }
}

proof fn lemma_digit_char(d: nat)
    requires
        d < 10,
    ensures
        crate::text::is_digit(digit_char(d)),
        crate::text::digit_value(digit_char(d)) == d,
{
    if d == 0 {} else if d == 1 {} else if d == 2 {} else if d == 3 {} else if d == 4 {
    } else if d == 5 {} else if d == 6 {} else if d == 7 {} else if d == 8 {} else {}
}

proof fn lemma_decimal_digits(n: nat)
    ensures
        decimal(n).len() > 0,
        crate::text::all_digits(decimal(n)),
        crate::text::digits_value(decimal(n)) == n,
    decreases n,
{
    lemma_digit_char(n % 10);
    if n < 10 {
        assert(decimal(n).drop_last() =~= Seq::<char>::empty());
        assert(decimal(n).last() == digit_char(n));
        assert(n % 10 == n);
        assert(crate::text::digits_value(decimal(n).drop_last()) == 0);
        assert(crate::text::digits_value(decimal(n)) == crate::text::digits_value(
            decimal(n).drop_last(),
        ) * 10 + crate::text::digit_value(decimal(n).last()));
    } else {
        lemma_decimal_digits(n / 10);
        let p = decimal(n / 10);
        assert(decimal(n).drop_last() =~= p);
        assert(decimal(n).last() == digit_char(n % 10));
        assert((n / 10) * 10 + n % 10 == n) by (nonlinear_arith);
        assert(crate::text::digits_value(decimal(n)) == crate::text::digits_value(p) * 10
            + crate::text::digit_value(decimal(n).last()));
        assert forall|i: int| 0 <= i < decimal(n).len() implies crate::text::is_digit(
            #[trigger] decimal(n)[i],
        ) by {
            if i < p.len() {
                assert(decimal(n)[i] == p[i]);
            }
        }
    }
}

/// Writing a number in decimal and reading it back gives the number.
pub proof fn lemma_decimal_round_trip(n: nat, max: nat)
    requires
        n <= max,
    ensures
        crate::text::parse_uint(decimal(n), max) == Some(n),
{
    lemma_decimal_digits(n);
    lemma_digit_char(if n < 10 { n } else { n % 10 });
    let d = decimal(n);
    assert(d[0] != '+') by {
        assert(crate::text::is_digit(d[0]));
    }
    assert(crate::text::uint_body(d) == d);
}

/// `n` written in decimal.
pub fn decimal_string(n: u64) -> (r: String)
    ensures
        r@ == decimal(n as nat),
{
    let v = decimal_chars(n);
    string_of_chars(v.as_slice())
}

// ---------------------------------------------------------------------------
// Retries
// ---------------------------------------------------------------------------
/// Seconds to wait after failed attempt `attempt` (counted from 0) before the
/// next one: `2^attempt` while retries remain, none once `max_retries` retries
/// are spent.
pub fn retry_delay(attempt: usize, max_retries: usize) -> (r: Option<u64>)
    requires
        attempt < max_retries ==> attempt < 64,
    ensures
        attempt < max_retries ==> r == Some(pow2(attempt as nat) as u64),
        attempt >= max_retries ==> r is None,
{
    if attempt >= max_retries {
        return None;
    }
    proof {
        lemma2_to64();
        lemma_pow2_unfold(1);
        assert(pow2(0) == 1);
    }
    let mut v: u64 = 1;
    let mut i: usize = 0;
    while i < attempt
        invariant
            i <= attempt < 64,
            v as nat == pow2(i as nat),
            pow2(64) == 0x10000000000000000,
        decreases attempt - i,
    {
        proof {
            lemma_pow2_unfold((i + 1) as nat);
            lemma_pow2_strictly_increases((i + 1) as nat, 64);
        }
        v = v * 2;
        i = i + 1;
    }
    Some(v)
}

/// Each wait is twice the one before: after failed attempts `a` and `a + 1`
/// (both with retries left), the second delay is double the first.
pub proof fn lemma_backoff_doubles(a: nat)
    requires
        a + 1 < 64,
    ensures
        pow2(a + 1) == 2 * pow2(a),
        pow2(a + 1) as u64 == 2 * (pow2(a) as u64),
{
    lemma_pow2_unfold(a + 1);
    lemma2_to64();
    lemma_pow2_strictly_increases(a + 1, 64);
}

// ---------------------------------------------------------------------------
// Paging of the boundary service
// ---------------------------------------------------------------------------
/// Number of features requested per page.
pub const BIG_BATCH_SIZE: usize = 1000;

/// What to do with a page of the boundary service.
#[derive(Debug, Clone, Copy, PartialEq, Eq, Structural)]
pub enum PageStep {
    /// The page is empty: stop.
    Done,
    /// Take the page's features and stop: it was the last page.
    TakeAndStop,
    /// Take the page's features and ask for the page at `next_offset`.
    TakeAndContinue { next_offset: usize },
}

/// The step after a page with `features` features fetched at `offset`: an empty
/// page ends the fetch, a short page is the last one, a full page is followed by
/// the next.
pub fn big_page_step(offset: usize, features: usize) -> (r: PageStep)
    requires
        features >= BIG_BATCH_SIZE ==> offset + BIG_BATCH_SIZE <= usize::MAX,
    ensures
        features == 0 ==> r == PageStep::Done,
        0 < features < BIG_BATCH_SIZE ==> r == PageStep::TakeAndStop,
        features >= BIG_BATCH_SIZE ==> r == (PageStep::TakeAndContinue {
            next_offset: (offset + BIG_BATCH_SIZE) as usize,
        }),
{
    if features == 0 {
        PageStep::Done
    } else if features < BIG_BATCH_SIZE {
        PageStep::TakeAndStop
    } else {
        PageStep::TakeAndContinue { next_offset: offset + BIG_BATCH_SIZE }
    }
}

/// The query of the boundary service for the page at `offset`: villages with a
/// code, their code and names, and their geometry, as JSON.
pub open spec fn big_query(api_url: Seq<char>, offset: nat) -> Seq<char> {
    api_url
        + "?where=KDEPUM+IS+NOT+NULL&outFields=KDEPUM,WADMKD,WADMKC,WADMKK,WADMPR&returnGeometry=true&f=json&resultRecordCount="@
        + decimal(BIG_BATCH_SIZE as nat) + "&resultOffset="@ + decimal(offset)
}

/// The query address of the boundary service for the page at `offset`.
pub fn big_query_url(api_url: &str, offset: usize) -> (r: String)
    requires
        offset <= u64::MAX,
    ensures
        r@ == big_query(api_url@, offset as nat),
{
    let mut out = to_chars(api_url);
    let head = to_chars(
        "?where=KDEPUM+IS+NOT+NULL&outFields=KDEPUM,WADMKD,WADMKC,WADMKK,WADMPR&returnGeometry=true&f=json&resultRecordCount=",
    );
    push_all(&mut out, head.as_slice());
    let batch = decimal_chars(BIG_BATCH_SIZE as u64);
    push_all(&mut out, batch.as_slice());
    let mid = to_chars("&resultOffset=");
    push_all(&mut out, mid.as_slice());
    let off = decimal_chars(offset as u64);
    push_all(&mut out, off.as_slice());
    string_of_chars(out.as_slice())
}

// ---------------------------------------------------------------------------
// Choosing the ring a centroid is taken of
// ---------------------------------------------------------------------------
/// The ring a village's centroid is computed from, given the number of points of
/// each ring: the first of the rings with the most points; `None` when there is
/// no ring.
pub fn largest_ring(lens: &[usize]) -> (r: Option<usize>)
    ensures
        lens@.len() == 0 <==> r is None,
        r matches Some(i) ==> i < lens@.len() && (forall|j: int|
            0 <= j < lens@.len() ==> lens@[j] <= lens@[i as int]) && (forall|j: int|
            0 <= j < i ==> lens@[j] < lens@[i as int]),
{
    if lens.len() == 0 {
        return None;
    }
    let mut best: usize = 0;
    let mut max_len: usize = 0;
    let mut k: usize = 0;
    while k < lens.len()
        invariant
            0 < lens@.len(),
            k <= lens@.len(),
            best < lens@.len(),
            k > 0 ==> best < k && max_len == lens@[best as int],
            k == 0 ==> best == 0 && max_len == 0,
            forall|j: int| 0 <= j < k ==> lens@[j] <= max_len,
            forall|j: int| 0 <= j < best ==> lens@[j] < max_len,
        decreases lens@.len() - k,
    {
        if lens[k] > max_len {
            max_len = lens[k];
            best = k;
        }
        k = k + 1;
    }
    Some(best)
}

} // verus!
