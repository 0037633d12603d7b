use wilayah::builder::merge::{big_record_fields, kecamatan_key_of, merge_plan, CoordSource};
use wilayah::builder::parse::VillageRecord;

/// A boundary record as the tests need it: code, kecamatan and coordinates.
struct Big {
    code: String,
    district: String,
    city: String,
    province: String,
    lat: f64,
    lon: f64,
}

fn make_big_record(code: &str, lat: f64, lon: f64) -> Big {
    Big {
        code: code.to_string(),
        district: "Kemayoran".to_string(),
        city: "Jakarta Pusat".to_string(),
        province: "Jakarta".to_string(),
        lat,
        lon,
    }
}

fn make_village(code: &str, district: &str, city: &str, province: &str) -> VillageRecord {
    VillageRecord {
        code: code.to_string(),
        name: code.to_string(),
        district: district.to_string(),
        city: city.to_string(),
        province: province.to_string(),
        raw_name: None,
        note_keyword: None,
        note_boundary: None,
        district_note: None,
        kel_count: None,
        desa_count: None,
        keterangan: None,
    }
}

fn codes_and_keys(big: &[Big]) -> (Vec<String>, Vec<String>) {
    let codes = big.iter().map(|r| r.code.clone()).collect();
    let keys = big
        .iter()
        .map(|r| kecamatan_key_of(&r.province, &r.city, &r.district))
        .collect();
    (codes, keys)
}

/// Coordinates of each village following the plan: the matched record's, the
/// kecamatan centroid, or (0, 0).
fn merged_coords(villages: &[VillageRecord], big: &[Big]) -> Vec<(f64, f64)> {
    let (codes, keys) = codes_and_keys(big);
    let plan = merge_plan(villages, &codes, &keys);
    villages
        .iter()
        .zip(plan.iter())
        .map(|(v, s)| match *s {
            CoordSource::Matched(j) => (big[j].lat, big[j].lon),
            CoordSource::KecamatanCentroid => {
                let key = kecamatan_key_of(&v.province, &v.city, &v.district);
                let pts: Vec<(f64, f64)> = big
                    .iter()
                    .zip(keys.iter())
                    .filter(|(_, k)| **k == key)
                    .map(|(r, _)| (r.lat, r.lon))
                    .collect();
                let n = pts.len() as f64;
                (
                    pts.iter().map(|p| p.0).sum::<f64>() / n,
                    pts.iter().map(|p| p.1).sum::<f64>() / n,
                )
            }
            CoordSource::Unlocated => (0.0, 0.0),
        })
        .collect()
}

#[test]
fn test_merge_villages_match() {
    let villages = vec![make_village(
        "31.71.03.1001",
        "Kemayoran",
        "Jakarta Pusat",
        "Jakarta",
    )];
    let big_data = vec![make_big_record("31.71.03.1001", -6.1647, 106.8453)];
    let merged = merged_coords(&villages, &big_data);
    assert_eq!(merged.len(), 1);
    assert_eq!(merged[0].0, -6.1647);
    assert_eq!(merged[0].1, 106.8453);
}

#[test]
fn test_merge_villages_fallback_kecamatan() {
    let villages = vec![make_village(
        "31.71.03.1002",
        "Kemayoran",
        "Jakarta Pusat",
        "Jakarta",
    )];
    let big_data = vec![make_big_record("31.71.03.1001", -6.1647, 106.8453)];
    let merged = merged_coords(&villages, &big_data);
    assert_eq!(merged.len(), 1);
    assert_eq!(merged[0].0, -6.1647);
    assert_eq!(merged[0].1, 106.8453);
}

#[test]
fn test_merge_villages_fallback_no_kecamatan() {
    let villages = vec![make_village(
        "99.99.99.9999",
        "Unknown",
        "Unknown City",
        "Unknown Province",
    )];
    let big_data = vec![];
    let merged = merged_coords(&villages, &big_data);
    assert_eq!(merged.len(), 1);
    assert_eq!(merged[0].0, 0.0);
    assert_eq!(merged[0].1, 0.0);
}

#[test]
fn merge_plan_sources() {
    let villages = vec![
        make_village("31.71.03.1001", "Kemayoran", "Jakarta Pusat", "Jakarta"),
        make_village("31.71.03.1002", "Kemayoran", "Jakarta Pusat", "Jakarta"),
        make_village("99.99.99.9999", "Unknown", "Unknown City", "Unknown Province"),
    ];
    let big_data = vec![
        make_big_record("31.71.03.1005", -6.0, 106.0),
        make_big_record("31.71.03.1001", -6.1647, 106.8453),
    ];
    let (codes, keys) = codes_and_keys(&big_data);
    let plan = merge_plan(&villages, &codes, &keys);
    assert_eq!(
        plan,
        vec![
            CoordSource::Matched(1),
            CoordSource::KecamatanCentroid,
            CoordSource::Unlocated
        ]
    );
}

#[test]
fn merge_plan_last_record_with_a_code_wins() {
    let villages = vec![make_village("31.71.03.1001", "Kemayoran", "Jakarta Pusat", "Jakarta")];
    let big_data = vec![
        make_big_record("31.71.03.1001", -6.0, 106.0),
        make_big_record("31.71.03.1001", -6.5, 106.5),
    ];
    let (codes, keys) = codes_and_keys(&big_data);
    assert_eq!(merge_plan(&villages, &codes, &keys), vec![CoordSource::Matched(1)]);
}

#[test]
fn kecamatan_key_joins_with_bars() {
    assert_eq!(
        kecamatan_key_of("Jakarta", "Jakarta Pusat", "Kemayoran"),
        "Jakarta|Jakarta Pusat|Kemayoran"
    );
}

#[test]
fn merge_centroid_averages_the_kecamatan() {
    let villages = vec![make_village("31.71.03.1009", "Kemayoran", "Jakarta Pusat", "Jakarta")];
    let big_data = vec![
        make_big_record("31.71.03.1001", -6.0, 106.0),
        make_big_record("31.71.03.1002", -7.0, 107.0),
    ];
    let merged = merged_coords(&villages, &big_data);
    assert_eq!(merged, vec![(-6.5, 106.5)]);
}

#[test]
fn big_record_fields_need_code_and_name() {
    let s = |x: &str| Some(x.to_string());
    assert!(big_record_fields(None, s("A"), s("D"), s("C"), s("P")).is_none());
    assert!(big_record_fields(s("11.01.01.2001"), None, None, None, None).is_none());
    let f = big_record_fields(s("11.01.01.2001"), s("A"), None, s("C"), None).unwrap();
    assert_eq!(f.code, "11.01.01.2001");
    assert_eq!(f.name, "A");
    assert_eq!(f.district, "");
    assert_eq!(f.city, "C");
    assert_eq!(f.province, "");
}
