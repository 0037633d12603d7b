use wilayah::builder::util::largest_ring;
use wilayah::builder::{
    ParseOutputDetail, Pipeline, PipelineError, RingClassification, DATA_DECREE,
};
use wilayah::types::{
    admin_codes, clamp_limit, data_info_from_meta, has_more, match_count, AdminLevel,
    LocateMethod, MatchCount, CODE_PREFIX_MAX_LIMIT, NEAREST_MAX_LIMIT, SEARCH_MAX_LIMIT,
};
use wilayah::version;

#[test]
fn test_pipeline_error_new() {
    let err = PipelineError::new("something failed");
    assert_eq!(err.to_string(), "something failed");
}

#[test]
fn test_pipeline_error_context() {
    let err = PipelineError::new("inner").context("outer");
    assert_eq!(err.to_string(), "outer");
    assert!(err.source().is_some(), "context should preserve source");
}

#[test]
fn test_pipeline_error_source_chain() {
    let err = PipelineError::new("root").context("middle").context("top");
    assert_eq!(err.to_string(), "top");
    let src = err.source().unwrap();
    assert_eq!(src.to_string(), "middle");
    let src2 = src.source().unwrap();
    assert_eq!(src2.to_string(), "root");
    assert!(src2.source().is_none());
}

#[test]
fn test_version() {
    assert_eq!(version(), "0.5.0");
}

#[test]
fn test_admin_level_display() {
    let level = AdminLevel {
        code: "31.71".into(),
        name: "Jakarta".into(),
    };
    assert_eq!(level.to_string(), "31.71 Jakarta");
}

#[test]
fn test_locate_method_names() {
    assert_eq!(LocateMethod::Nearest.to_string(), "nearest");
    assert_eq!(LocateMethod::Contained.to_string(), "contained");
}

#[test]
fn test_pipeline_defaults() {
    let p = Pipeline::new();
    assert_eq!(p.cache_dir, "data/cache");
    assert_eq!(p.output, "data/locations.db");
    assert_eq!(p.decree, DATA_DECREE);
    assert_eq!(p.decree, "Kepmendagri No 300.2.2-2138 Tahun 2025");
    assert!(!p.force_refresh_big);
    assert!(!p.include_polygons);
    assert_eq!(p.ring_classification, RingClassification::SeparateRings);
    assert!(p.save_parsed_villages.is_none());
    assert!(p.pdf_url.starts_with("https://drive.google.com/"));
    assert!(p.big_api_url.starts_with("https://geoservices.big.go.id/"));
}

#[test]
fn test_pipeline_builder_sets_only_its_field() {
    let p = Pipeline::new()
        .output("out/test.db")
        .cache_dir("tmp/cache")
        .decree("Decree X")
        .force_refresh_big(true)
        .include_polygons(true)
        .ring_classification(RingClassification::ClassifyHoles)
        .save_parsed_villages(ParseOutputDetail::Full)
        .pdf_url("http://example.invalid/a.pdf")
        .big_api_url("http://example.invalid/query");
    assert_eq!(p.output, "out/test.db");
    assert_eq!(p.cache_dir, "tmp/cache");
    assert_eq!(p.decree, "Decree X");
    assert!(p.force_refresh_big);
    assert!(p.include_polygons);
    assert_eq!(p.ring_classification, RingClassification::ClassifyHoles);
    assert_eq!(p.save_parsed_villages, Some(ParseOutputDetail::Full));
    assert_eq!(p.pdf_url, "http://example.invalid/a.pdf");
    assert_eq!(p.big_api_url, "http://example.invalid/query");
}

#[test]
fn test_pipeline_default_matches_new() {
    let a = Pipeline::default();
    let b = Pipeline::new();
    assert_eq!(a.output, b.output);
    assert_eq!(a.pdf_url, b.pdf_url);
    assert_eq!(a.decree, b.decree);
}

#[test]
fn test_data_info_from_meta_values() {
    let info = data_info_from_meta(
        Some("official".to_string()),
        Some("Decree".to_string()),
        Some("83758".to_string()),
        Some("1700000000".to_string()),
    );
    assert_eq!(info.source, "official");
    assert_eq!(info.decree, "Decree");
    assert_eq!(info.village_count, 83758);
    assert_eq!(info.build_date, 1700000000);
}

#[test]
fn test_data_info_from_meta_defaults() {
    let info = data_info_from_meta(None, None, Some("many".to_string()), None);
    assert_eq!(info.source, "unknown");
    assert_eq!(info.decree, "unknown");
    assert_eq!(info.village_count, 0);
    assert_eq!(info.build_date, 0);
}

#[test]
fn test_data_info_from_meta_count_too_large() {
    let info = data_info_from_meta(None, None, Some("4294967296".to_string()), None);
    assert_eq!(info.village_count, 0);
}

#[test]
fn test_admin_codes_four_parts() {
    let (p, c, d) = admin_codes("31.71.03.1001").unwrap();
    assert_eq!(p, "31");
    assert_eq!(c, "31.71");
    assert_eq!(d, "31.71.03");
}

#[test]
fn test_admin_codes_wrong_part_count() {
    assert!(admin_codes("31.71.03").is_none());
    assert!(admin_codes("31.71.03.1001.5").is_none());
    assert!(admin_codes("").is_none());
}

#[test]
fn test_clamp_limit() {
    assert_eq!(clamp_limit(0, NEAREST_MAX_LIMIT), 1);
    assert_eq!(clamp_limit(5, NEAREST_MAX_LIMIT), 5);
    assert_eq!(clamp_limit(500, NEAREST_MAX_LIMIT), 20);
    assert_eq!(clamp_limit(500, SEARCH_MAX_LIMIT), 100);
    assert_eq!(clamp_limit(5000, CODE_PREFIX_MAX_LIMIT), 1000);
}

#[test]
fn test_has_more() {
    assert!(has_more(0, 10, 11));
    assert!(!has_more(0, 10, 10));
    assert!(!has_more(20, 0, 5));
}

#[test]
fn test_match_count() {
    assert_eq!(match_count(0), MatchCount::Zero);
    assert_eq!(match_count(1), MatchCount::One);
    assert_eq!(match_count(7), MatchCount::Many);
}

#[test]
fn largest_ring_first_with_most_points() {
    assert_eq!(largest_ring(&[]), None);
    assert_eq!(largest_ring(&[0]), Some(0));
    assert_eq!(largest_ring(&[3, 7, 5, 7]), Some(1));
    assert_eq!(largest_ring(&[2, 2]), Some(0));
    assert_eq!(largest_ring(&[1, 0, 4]), Some(2));
}
