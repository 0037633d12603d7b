//! Matching the decree's villages with the boundary service's records: a village
//! takes the coordinates of the record with its code, else the centroid of the
//! records of its kecamatan.
use vstd::prelude::*;

use crate::builder::parse::{village_models, VillageModel, VillageRecord};
use crate::builder::village::vec_eq;
use crate::text::{push_all, string_of_chars, to_chars};

verus! {

/// The key that groups records by kecamatan: `province|city|district`.
pub open spec fn kecamatan_key(province: Seq<char>, city: Seq<char>, district: Seq<char>) -> Seq<
    char,
> {
    province + seq!['|'] + city + seq!['|'] + district
}

/// The kecamatan key of a record.
pub fn kecamatan_key_of(province: &str, city: &str, district: &str) -> (r: String)
    ensures
        r@ == kecamatan_key(province@, city@, district@),
{
    let mut out = to_chars(province);
    out.push('|');
    let c = to_chars(city);
    push_all(&mut out, c.as_slice());
    out.push('|');
    let d = to_chars(district);
    push_all(&mut out, d.as_slice());
    string_of_chars(out.as_slice())
}

/// Where a village's coordinates come from.
#[derive(Debug, Clone, Copy, PartialEq, Eq, Structural)]
pub enum CoordSource {
    /// The boundary record at this index has the village's code.
    Matched(usize),
    /// No record has the code; the centroid of the records of the village's
    /// kecamatan stands in.
    KecamatanCentroid,
    /// Neither: the coordinates are unknown (0, 0).
    Unlocated,
}

/// The index of the last entry of `items` equal to `key`.
pub open spec fn last_index_of(items: Seq<Seq<char>>, key: Seq<char>) -> Option<int>
    decreases items.len(),
{
    if items.len() == 0 {
        None
    } else if items.last() == key {
        Some(items.len() - 1)
    } else {
        last_index_of(items.drop_last(), key)
    }
}

pub proof fn lemma_last_index_of(items: Seq<Seq<char>>, key: Seq<char>)
    ensures
        last_index_of(items, key) matches Some(j) ==> 0 <= j < items.len() && items[j] == key
            && forall|k: int| j < k < items.len() ==> items[k] != key,
        last_index_of(items, key) is None ==> forall|k: int| 0 <= k < items.len() ==> items[k]
            != key,
    decreases items.len(),
{
    if items.len() > 0 && items.last() != key {
        lemma_last_index_of(items.drop_last(), key);
        let p = items.drop_last();
        assert forall|k: int| 0 <= k < p.len() implies items[k] == p[k] by {}
    }
}

/// The source of a village's coordinates: the last boundary record with its code
/// (a map built from the records keeps the last), else its kecamatan's centroid
/// when any record shares its kecamatan key, else none.
pub open spec fn coord_source(v: VillageModel, big_codes: Seq<Seq<char>>, big_keys: Seq<Seq<char>>) -> CoordSource {
    match last_index_of(big_codes, v.code) {
        Some(j) => CoordSource::Matched(j as usize),
        None => if last_index_of(big_keys, kecamatan_key(v.province, v.city, v.district)) is Some {
            CoordSource::KecamatanCentroid
        } else {
            CoordSource::Unlocated
        },
    }
}

/// Where a village's coordinates come from, in terms of the boundary records:
/// it takes the last record with its code when one has it; otherwise the
/// centroid of its kecamatan when some record has its kecamatan key; otherwise
/// none.
pub proof fn lemma_coord_source_meaning(
    v: VillageModel,
    big_codes: Seq<Seq<char>>,
    big_keys: Seq<Seq<char>>,
)
    requires
        big_codes.len() <= usize::MAX,
    ensures
        coord_source(v, big_codes, big_keys) matches CoordSource::Matched(j) ==> 0 <= j
            < big_codes.len() && big_codes[j as int] == v.code && forall|k: int|
            j < k < big_codes.len() ==> big_codes[k] != v.code,
        coord_source(v, big_codes, big_keys) is KecamatanCentroid ==> (forall|k: int|
            0 <= k < big_codes.len() ==> big_codes[k] != v.code) && exists|k: int|
            0 <= k < big_keys.len() && big_keys[k] == kecamatan_key(v.province, v.city, v.district),
        coord_source(v, big_codes, big_keys) is Unlocated ==> (forall|k: int|
            0 <= k < big_codes.len() ==> big_codes[k] != v.code) && forall|k: int|
            0 <= k < big_keys.len() ==> big_keys[k] != kecamatan_key(v.province, v.city, v.district),
{
    lemma_last_index_of(big_codes, v.code);
    lemma_last_index_of(big_keys, kecamatan_key(v.province, v.city, v.district));
    match last_index_of(big_codes, v.code) {
        Some(j) => {
            assert(0 <= j < big_codes.len());
            assert((j as usize) as int == j);
        },
        None => {},
    }
}

pub open spec fn string_views(ss: Seq<String>) -> Seq<Seq<char>> {
    ss.map_values(|s: String| s@)
}

fn last_index_exec(items: &[String], key: &[char]) -> (r: Option<usize>)
    ensures
        match last_index_of(string_views(items@), key@) {
            Some(j) => r == Some(j as usize),
            None => r is None,
        },
{
    let ghost v = string_views(items@);
    let mut n = items.len();
    proof {
        assert(v.take(n as int) =~= v);
    }
    while n > 0
        invariant
            n <= items@.len(),
            v == string_views(items@),
            last_index_of(v.take(n as int), key@) == last_index_of(v, key@),
        decreases n,
    {
        let it = to_chars(items[n - 1].as_str());
        proof {
            assert(v.take(n as int).drop_last() =~= v.take(n - 1));
            assert(v.take(n as int).last() == items@[n - 1]@);
            assert(v.take(n as int).len() == n);
        }
        if vec_eq(it.as_slice(), key) {
            return Some(n - 1);
        }
        n = n - 1;
    }
    proof {
        assert(v.take(0) =~= Seq::<Seq<char>>::empty());
    }
    None
}

/// For each village, where its coordinates come from, given the codes and the
/// kecamatan keys of the boundary records.
pub fn merge_plan(villages: &[VillageRecord], big_codes: &[String], big_keys: &[String]) -> (r: Vec<
    CoordSource,
>)
    ensures
        r@.len() == villages@.len(),
        forall|i: int|
            0 <= i < villages@.len() ==> r@[i] == coord_source(
                (#[trigger] villages@[i])@,
                string_views(big_codes@),
                string_views(big_keys@),
            ),
{
    let mut out: Vec<CoordSource> = Vec::new();
    let mut i: usize = 0;
    while i < villages.len()
        invariant
            i <= villages@.len(),
            out@.len() == i,
            forall|k: int|
                0 <= k < i ==> out@[k] == coord_source(
                    (#[trigger] villages@[k])@,
                    string_views(big_codes@),
                    string_views(big_keys@),
                ),
        decreases villages@.len() - i,
    {
        let v = &villages[i];
        let code = to_chars(v.code.as_str());
        let src = match last_index_exec(big_codes, code.as_slice()) {
            Some(j) => CoordSource::Matched(j),
            None => {
                let key = kecamatan_key_of(v.province.as_str(), v.city.as_str(), v.district.as_str());
                let kc = to_chars(key.as_str());
                if last_index_exec(big_keys, kc.as_slice()).is_some() {
                    CoordSource::KecamatanCentroid
                } else {
                    CoordSource::Unlocated
                }
            },
        };
        proof {
            lemma_last_index_of(string_views(big_codes@), code@);
        }
        out.push(src);
        i = i + 1;
    }
    out
}

/// The text fields of a boundary record.
pub struct BigFields {
    pub code: String,
    pub name: String,
    pub district: String,
    pub city: String,
    pub province: String,
}

/// An optional text, or the empty text when it is missing.
pub open spec fn or_empty(o: Option<String>) -> Seq<char> {
    match o {
        Some(s) => s@,
        None => Seq::empty(),
    }
}

fn string_or_empty(o: Option<String>) -> (r: String)
    ensures
        r@ == or_empty(o),
{
    match o {
        Some(s) => s,
        None => String::new(),
    }
}

/// The fields of a boundary feature from its attributes: a feature is kept only
/// when it has a code and a name; a missing district, city or province is empty.
pub fn big_record_fields(
    code: Option<String>,
    name: Option<String>,
    district: Option<String>,
    city: Option<String>,
    province: Option<String>,
) -> (r: Option<BigFields>)
    ensures
        r is Some <==> (code is Some && name is Some),
        r matches Some(f) ==> {
            &&& f.code@ == or_empty(code)
            &&& f.name@ == or_empty(name)
            &&& f.district@ == or_empty(district)
            &&& f.city@ == or_empty(city)
            &&& f.province@ == or_empty(province)
        },
{
    match (code, name) {
        (Some(c), Some(n)) => Some(
            BigFields {
                code: c,
                name: n,
                district: string_or_empty(district),
                city: string_or_empty(city),
                province: string_or_empty(province),
            },
        ),
        _ => None,
    }
}

} // verus!
