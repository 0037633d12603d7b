//! Shared types for Indonesian village location data: database metadata, the
//! administrative hierarchy of a village code, and result limits.
use vstd::prelude::*;

use crate::text::{join, parse_u64_range, parse_uint, push_all, string_of_chars, to_chars};

verus! {

/// Maximum number of results returned by a nearest-village query.
pub const NEAREST_MAX_LIMIT: usize = 20;

/// Maximum number of results returned by a name search.
pub const SEARCH_MAX_LIMIT: usize = 100;

/// Maximum number of results per page returned by a code prefix lookup.
pub const CODE_PREFIX_MAX_LIMIT: usize = 1000;

/// Metadata about the location database.
#[derive(Debug, Clone)]
pub struct DataInfo {
    /// The upstream data source (e.g., `"official"` or `"release"`).
    pub source: String,
    /// The government decree this data is based on.
    pub decree: String,
    /// The number of villages in the database.
    pub village_count: u32,
    /// Unix timestamp (seconds since epoch) of when the database was built.
    pub build_date: u64,
}

/// The text stored for a metadata key, or `"unknown"` when there is none.
pub open spec fn meta_text(v: Option<Seq<char>>) -> Seq<char> {
    match v {
        Some(s) => s,
        None => seq!['u', 'n', 'k', 'n', 'o', 'w', 'n'],
    }
}

/// A metadata number: the stored text parsed as an unsigned integer no larger
/// than `max`, or 0 when it is missing or does not parse.
pub open spec fn meta_number(v: Option<Seq<char>>, max: nat) -> nat {
    match v {
        Some(s) => match parse_uint(s, max) {
            Some(n) => n,
            None => 0,
        },
        None => 0,
    }
}

pub open spec fn opt_str_view(v: Option<String>) -> Option<Seq<char>> {
    match v {
        Some(s) => Some(s@),
        None => None,
    }
}

fn meta_number_exec(v: &Option<String>, max: u64) -> (r: u64)
    ensures
        r as nat == meta_number(opt_str_view(*v), max as nat),
{
    match v {
        Some(s) => {
            let cs = to_chars(s.as_str());
            proof {
                assert(cs@.subrange(0, cs@.len() as int) =~= cs@);
            }
            match parse_u64_range(cs.as_slice(), 0, cs.len()) {
                Some(n) => if n <= max {
                    n
                } else {
                    0
                },
                None => 0,
            }
        },
        None => 0,
    }
}

/// Builds the database metadata from the values stored under the keys
/// `source`, `decree`, `village_count` and `build_date`.
pub fn data_info_from_meta(
    source: Option<String>,
    decree: Option<String>,
    village_count: Option<String>,
    build_date: Option<String>,
) -> (r: DataInfo)
    ensures
        r.source@ == meta_text(opt_str_view(source)),
        r.decree@ == meta_text(opt_str_view(decree)),
        r.village_count as nat == meta_number(opt_str_view(village_count), u32::MAX as nat),
        r.build_date as nat == meta_number(opt_str_view(build_date), u64::MAX as nat),
{
    let vc = meta_number_exec(&village_count, u32::MAX as u64);
    let bd = meta_number_exec(&build_date, u64::MAX);
    let unknown = "unknown";
    proof {
        reveal_strlit("unknown");
    }
    let src = match source {
        Some(s) => s,
        None => string_of_chars(to_chars(unknown).as_slice()),
    };
    let dec = match decree {
        Some(s) => s,
        None => string_of_chars(to_chars(unknown).as_slice()),
    };
    DataInfo { source: src, decree: dec, village_count: vc as u32, build_date: bd }
}

/// Method used to determine the administrative location.
#[derive(Debug, Clone, Copy, PartialEq, Eq, Structural)]
pub enum LocateMethod {
    /// Matched by nearest village centroid (Haversine distance).
    Nearest,
    /// Matched by polygon containment.
    Contained,
}

impl LocateMethod {
    /// The method's name as displayed: `nearest` or `contained`.
    pub fn to_string(&self) -> (r: String)
        ensures
            r@ == (match self {
                LocateMethod::Nearest => "nearest"@,
                LocateMethod::Contained => "contained"@,
            }),
    {
        match self {
            LocateMethod::Nearest => string_of_chars(to_chars("nearest").as_slice()),
            LocateMethod::Contained => string_of_chars(to_chars("contained").as_slice()),
        }
    }
}

/// Result of a point-in-polygon test.
#[derive(Debug, Clone, Copy, PartialEq, Eq, Structural)]
#[non_exhaustive]
pub enum PipResult {
    /// The point is inside the polygon.
    Inside,
    /// The point is outside the polygon.
    Outside,
    /// The point lies exactly on a polygon edge or vertex.
    OnBoundary,
}

/// A single level of the administrative hierarchy with code and name.
#[derive(Debug, Clone)]
pub struct AdminLevel {
    /// Administrative code for this level (e.g., `"31"`, `"31.71"`, `"31.71.03"`).
    pub code: String,
    /// Name of this administrative unit.
    pub name: String,
}

impl AdminLevel {
    /// The level as displayed: its code, a space, and its name.
    pub fn to_string(&self) -> (r: String)
        ensures
            r@ == self.code@ + seq![' '] + self.name@,
    {
        let mut out: Vec<char> = to_chars(self.code.as_str());
        out.push(' ');
        let name = to_chars(self.name.as_str());
        push_all(&mut out, name.as_slice());
        string_of_chars(out.as_slice())
    }
}

// ---------------------------------------------------------------------------
// Administrative codes
// ---------------------------------------------------------------------------
/// The pieces of `s` between `.` separators, from index `i` on, with `cur`
/// already collected for the current piece (`str::split('.')`).
pub open spec fn dot_pieces_from(s: Seq<char>, i: int, cur: Seq<char>) -> Seq<Seq<char>>
    decreases s.len() - i,
{
    if i >= s.len() {
        seq![cur]
    } else if s[i] == '.' {
        seq![cur] + dot_pieces_from(s, i + 1, Seq::empty())
    } else {
        dot_pieces_from(s, i + 1, cur.push(s[i]))
    }
}

/// The pieces of `s` between `.` separators.
pub open spec fn dot_pieces(s: Seq<char>) -> Seq<Seq<char>> {
    dot_pieces_from(s, 0, Seq::empty())
}

/// The codes of the province, the city and the district of a village code with
/// exactly four dot-separated parts (`"31.71.03.1001"` gives `"31"`, `"31.71"`
/// and `"31.71.03"`).
pub open spec fn admin_codes_of(code: Seq<char>) -> Option<(Seq<char>, Seq<char>, Seq<char>)> {
    let p = dot_pieces(code);
    if p.len() == 4 {
        Some(
            (
                p[0],
                p[0] + seq!['.'] + p[1],
                p[0] + seq!['.'] + p[1] + seq!['.'] + p[2],
            ),
        )
    } else {
        None
    }
}

proof fn lemma_dot_pieces_nonempty(s: Seq<char>, i: int, cur: Seq<char>)
    ensures
        dot_pieces_from(s, i, cur).len() >= 1,
    decreases s.len() - i,
{
    if i < s.len() {
        if s[i] == '.' {
            lemma_dot_pieces_nonempty(s, i + 1, Seq::empty());
        } else {
            lemma_dot_pieces_nonempty(s, i + 1, cur.push(s[i]));
        }
    }
}

proof fn lemma_join_prepend(a: Seq<char>, ps: Seq<Seq<char>>, sep: Seq<char>)
    requires
        ps.len() >= 1,
    ensures
        join(seq![a] + ps, sep) == a + sep + join(ps, sep),
    decreases ps.len(),
{
    let q = seq![a] + ps;
    if ps.len() == 1 {
        assert(q.drop_last() =~= seq![a]);
        assert(join(ps, sep) == ps[0]);
        assert(join(seq![a], sep) == a);
        assert(q.last() == ps[0]);
        assert(join(q, sep) == join(q.drop_last(), sep) + sep + q.last());
    } else {
        lemma_join_prepend(a, ps.drop_last(), sep);
        assert(q.drop_last() =~= seq![a] + ps.drop_last());
        assert(q.last() == ps.last());
        assert(join(q, sep) == join(q.drop_last(), sep) + sep + q.last());
        assert(join(ps, sep) == join(ps.drop_last(), sep) + sep + ps.last());
        assert(join(q, sep) =~= a + sep + join(ps, sep));
    }
}

proof fn lemma_dot_pieces_join(s: Seq<char>, i: int, cur: Seq<char>)
    requires
        0 <= i <= s.len(),
    ensures
        join(dot_pieces_from(s, i, cur), seq!['.']) == cur + s.skip(i),
    decreases s.len() - i,
{
    if i >= s.len() {
        assert(s.skip(i) =~= Seq::<char>::empty());
        assert(cur + s.skip(i) =~= cur);
    } else if s[i] == '.' {
        let rest = dot_pieces_from(s, i + 1, Seq::empty());
        lemma_dot_pieces_nonempty(s, i + 1, Seq::empty());
        lemma_dot_pieces_join(s, i + 1, Seq::empty());
        lemma_join_prepend(cur, rest, seq!['.']);
        assert(Seq::<char>::empty() + s.skip(i + 1) =~= s.skip(i + 1));
        assert(cur + seq!['.'] + s.skip(i + 1) =~= cur + s.skip(i));
    } else {
        lemma_dot_pieces_join(s, i + 1, cur.push(s[i]));
        assert(cur.push(s[i]) + s.skip(i + 1) =~= cur + s.skip(i));
    }
}

/// The codes nest: the district code followed by a dot starts the village code,
/// the city code followed by a dot starts the district code, and the province
/// code followed by a dot starts the city code.
pub proof fn lemma_admin_codes_nest(code: Seq<char>)
    ensures
        admin_codes_of(code) matches Some((p, c, d)) ==> {
            &&& d.len() < code.len() && code.subrange(0, d.len() as int) == d && code[d.len() as int]
                == '.'
            &&& c.len() < d.len() && d.subrange(0, c.len() as int) == c && d[c.len() as int] == '.'
            &&& p.len() < c.len() && c.subrange(0, p.len() as int) == p && c[p.len() as int] == '.'
        },
{
    let ps = dot_pieces(code);
    if ps.len() == 4 {
        lemma_dot_pieces_join(code, 0, Seq::empty());
        assert(code.skip(0) =~= code);
        let sep = seq!['.'];
        assert(ps.take(1).len() == 1);
        assert(ps.drop_last().drop_last().drop_last() =~= seq![ps[0]]);
        assert(ps.drop_last().drop_last() =~= seq![ps[0], ps[1]]);
        assert(ps.drop_last() =~= seq![ps[0], ps[1], ps[2]]);
        assert(join(seq![ps[0]], sep) == ps[0]);
        assert(seq![ps[0], ps[1]].drop_last() =~= seq![ps[0]]);
        assert(join(seq![ps[0], ps[1]], sep) == ps[0] + sep + ps[1]);
        assert(seq![ps[0], ps[1], ps[2]].drop_last() =~= seq![ps[0], ps[1]]);
        assert(join(seq![ps[0], ps[1], ps[2]], sep) == ps[0] + sep + ps[1] + sep + ps[2]);
        assert(join(ps, sep) == join(ps.drop_last(), sep) + sep + ps.last());
        let p = ps[0];
        let c = ps[0] + sep + ps[1];
        let d = ps[0] + sep + ps[1] + sep + ps[2];
        assert(code =~= d + sep + ps[3]);
        assert(code.subrange(0, d.len() as int) =~= d);
        assert(d.subrange(0, c.len() as int) =~= c);
        assert(c.subrange(0, p.len() as int) =~= p);
    }
}

fn dot_pieces_exec(s: &[char]) -> (r: Vec<Vec<char>>)
    ensures
        r@.len() == dot_pieces(s@).len(),
        forall|k: int| 0 <= k < r@.len() ==> (#[trigger] r@[k])@ == dot_pieces(s@)[k],
{
    let mut out: Vec<Vec<char>> = Vec::new();
    let mut cur: Vec<char> = Vec::new();
    let mut i: usize = 0;
    while i < s.len()
        invariant
            i <= s@.len(),
            dot_pieces(s@) == views_of(out@) + dot_pieces_from(s@, i as int, cur@),
        decreases s@.len() - i,
    {
        if s[i] == '.' {
            proof {
                assert(views_of(out@.push(cur)) =~= views_of(out@).push(cur@));
                assert(views_of(out@) + dot_pieces_from(s@, i as int, cur@) =~= views_of(out@).push(
                    cur@,
                ) + dot_pieces_from(s@, i + 1, Seq::empty()));
            }
            out.push(cur);
            cur = Vec::new();
            proof {
                assert(cur@ =~= Seq::<char>::empty());
            }
        } else {
            cur.push(s[i]);
        }
        i = i + 1;
    }
    proof {
        assert(views_of(out@.push(cur)) =~= views_of(out@).push(cur@));
        assert(views_of(out@) + dot_pieces_from(s@, i as int, cur@) =~= views_of(out@).push(cur@));
    }
    out.push(cur);
    out
}

pub open spec fn views_of(v: Seq<Vec<char>>) -> Seq<Seq<char>> {
    v.map_values(|p: Vec<char>| p@)
}

/// The province, city and district codes of a village code, when it has exactly
/// four dot-separated parts.
pub fn admin_codes(code: &str) -> (r: Option<(String, String, String)>)
    ensures
        match admin_codes_of(code@) {
            Some((p, c, d)) => r matches Some(x) && x.0@ == p && x.1@ == c && x.2@ == d,
            None => r is None,
        },
{
    let cs = to_chars(code);
    let parts = dot_pieces_exec(cs.as_slice());
    if parts.len() != 4 {
        return None;
    }
    let mut city: Vec<char> = Vec::new();
    push_all(&mut city, parts[0].as_slice());
    city.push('.');
    push_all(&mut city, parts[1].as_slice());
    let mut district: Vec<char> = Vec::new();
    push_all(&mut district, city.as_slice());
    district.push('.');
    push_all(&mut district, parts[2].as_slice());
    proof {
        assert(city@ =~= parts@[0]@ + seq!['.'] + parts@[1]@);
        assert(district@ =~= parts@[0]@ + seq!['.'] + parts@[1]@ + seq!['.'] + parts@[2]@);
    }
    Some(
        (
            string_of_chars(parts[0].as_slice()),
            string_of_chars(city.as_slice()),
            string_of_chars(district.as_slice()),
        ),
    )
}

// ---------------------------------------------------------------------------
// Query limits and paging
// ---------------------------------------------------------------------------
/// `limit.clamp(1, max)`.
pub open spec fn clamped(limit: int, max: int) -> int {
    if limit < 1 {
        1
    } else if limit > max {
        max
    } else {
        limit
    }
}

/// The number of results a query returns at most, for a requested `limit`
/// (`limit.clamp(1, max)`).
pub fn clamp_limit(limit: usize, max: usize) -> (r: usize)
    requires
        1 <= max,
    ensures
        r as int == clamped(limit as int, max as int),
{
    if limit < 1 {
        1
    } else if limit > max {
        max
    } else {
        limit
    }
}

/// Whether a page of `returned` results starting at `offset` leaves more of
/// `total` matches after it.
pub fn has_more(offset: usize, returned: usize, total: usize) -> (r: bool)
    requires
        offset + returned <= usize::MAX,
    ensures
        r == (offset + returned < total),
{
    offset + returned < total
}

/// How many villages a name lookup found.
#[derive(Debug, Clone, Copy, PartialEq, Eq, Structural)]
pub enum MatchCount {
    /// No matches.
    Zero,
    /// Exactly one match.
    One,
    /// Several matches.
    Many,
}

/// Classifies the number of matches of an unambiguous name lookup.
pub fn match_count(n: usize) -> (r: MatchCount)
    ensures
        n == 0 ==> r == MatchCount::Zero,
        n == 1 ==> r == MatchCount::One,
        n > 1 ==> r == MatchCount::Many,
{
    if n == 0 {
        MatchCount::Zero
    } else if n == 1 {
        MatchCount::One
    } else {
        MatchCount::Many
    }
}

} // verus!
