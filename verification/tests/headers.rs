use wilayah::builder::headers::{
    find_first_large_gap, parse_city_fields, parse_province_rest, split_name_ibukota_by_gap,
};
use wilayah::builder::numbers::{
    find_keterangan_in_num_fields, find_numeric_start, is_likely_number, parse_indonesian_int,
    recover_ocr_number,
};
use wilayah::builder::tables::{
    build_population_maps, extract_cities, extract_provinces, parse_section_e,
    population_lookup, section_e_is_repairable,
};

#[test]
fn test_is_likely_number_cases() {
    assert!(is_likely_number("12"));
    assert!(is_likely_number("4.174"));
    assert!(!is_likely_number("Tapaktuan"));
    assert!(!is_likely_number(""));
    assert!(!is_likely_number("-"));
}

#[test]
fn test_find_numeric_start_pair() {
    let tokens = ["Kabupaten", "Aceh", "Selatan", "Tapaktuan", "18", "0", "260"];
    assert_eq!(find_numeric_start(&tokens), 4);
}

#[test]
fn test_find_numeric_start_single_after_second() {
    let tokens = ["Kota", "Sabang", "Sabang", "2", "Perbaikan"];
    assert_eq!(find_numeric_start(&tokens), 3);
}

#[test]
fn test_find_numeric_start_none() {
    let tokens = ["Kota", "Sabang"];
    assert_eq!(find_numeric_start(&tokens), 2);
    let empty: [&str; 0] = [];
    assert_eq!(find_numeric_start(&empty), 0);
}

#[test]
fn test_find_numeric_start_number_first_token_ignored() {
    let tokens = ["7", "Kota", "5"];
    assert_eq!(find_numeric_start(&tokens), 2);
}

#[test]
fn test_find_keterangan_in_num_fields_trailing_text() {
    let fields = ["18", "0", "260", "Perbaikan", "nama", "2016"];
    assert_eq!(
        find_keterangan_in_num_fields(&fields).as_deref(),
        Some("nama 2016")
    );
}

#[test]
fn test_find_keterangan_in_num_fields_all_numbers() {
    let fields = ["18", "0", "260"];
    assert!(find_keterangan_in_num_fields(&fields).is_none());
}

#[test]
fn test_find_first_large_gap() {
    assert_eq!(find_first_large_gap("Aceh   Banda Aceh"), Some(4));
    assert_eq!(find_first_large_gap("Aceh Banda Aceh"), None);
}

#[test]
fn test_split_name_ibukota_by_gap_with_gap() {
    let rest = "Kabupaten Aceh Selatan    Tapaktuan   18 0 260";
    let (name, ib) = split_name_ibukota_by_gap(rest, 0, 4);
    assert_eq!(name, "Kabupaten Aceh Selatan");
    assert_eq!(ib.as_deref(), Some("Tapaktuan"));
}

#[test]
fn test_split_name_ibukota_by_gap_kota_without_gap() {
    let rest = "Kota Sabang Sabang 2 7 0";
    let (name, ib) = split_name_ibukota_by_gap(rest, 0, 3);
    assert_eq!(name, "Kota Sabang Sabang");
    assert_eq!(ib.as_deref(), Some("Sabang Sabang"));
}

#[test]
fn test_split_name_ibukota_by_gap_kabupaten_without_gap() {
    let rest = "Kabupaten Simeulue Sinabang 10 0 138";
    let (name, ib) = split_name_ibukota_by_gap(rest, 0, 3);
    assert_eq!(name, "Kabupaten Simeulue Sinabang");
    assert!(ib.is_none());
}

#[test]
fn test_split_name_ibukota_by_gap_type_index_out_of_range() {
    let (name, ib) = split_name_ibukota_by_gap("Kota Sabang", 5, 7);
    assert_eq!(name, "");
    assert!(ib.is_none());
}

#[test]
fn test_parse_city_fields_full_row() {
    let tokens = ["18", "0", "260", "4.174", "239.629", "Perbaikan", "nama"];
    let f = parse_city_fields(&tokens, Some("Tapaktuan".to_string()));
    assert_eq!(f.ibukota.as_deref(), Some("Tapaktuan"));
    assert_eq!(f.kec_count, 18);
    assert_eq!(f.kel_count, 0);
    assert_eq!(f.desa_count, 260);
    assert_eq!(f.luas_km2.as_deref(), Some("4.174"));
    assert_eq!(f.penduduk, Some(239629));
    assert_eq!(f.keterangan.as_deref(), Some("Perbaikan nama"));
}

#[test]
fn test_parse_city_fields_capital_from_tokens() {
    let tokens = ["Kutacane", "16", "385"];
    let f = parse_city_fields(&tokens, None);
    assert_eq!(f.ibukota.as_deref(), Some("Kutacane"));
    assert_eq!(f.kec_count, 16);
    assert_eq!(f.kel_count, 385);
    assert_eq!(f.desa_count, 0);
    assert!(f.luas_km2.is_none());
    assert!(f.penduduk.is_none());
    assert!(f.keterangan.is_none());
}

#[test]
fn test_parse_city_fields_empty() {
    let empty: [&str; 0] = [];
    let f = parse_city_fields(&empty, None);
    assert!(f.ibukota.is_none());
    assert_eq!(f.kec_count, 0);
    assert_eq!(f.kel_count, 0);
    assert_eq!(f.desa_count, 0);
}

#[test]
fn test_parse_city_fields_unparsable_count_is_zero() {
    let tokens = ["1x", "2", "3"];
    let f = parse_city_fields(&tokens, None);
    assert_eq!(f.kec_count, 0);
    assert_eq!(f.kel_count, 2);
    assert_eq!(f.desa_count, 3);
}

#[test]
fn test_parse_province_rest_with_gap() {
    let (name, ib, ket) =
        parse_province_rest("Aceh                             Banda Aceh    18     5       290").unwrap();
    assert_eq!(name, "Aceh");
    assert_eq!(ib.as_deref(), Some("Banda Aceh"));
    assert!(ket.is_none());
}

#[test]
fn test_parse_province_rest_without_gap() {
    let (name, ib, ket) = parse_province_rest("Aceh 18 5 290 0 6500 UU 11").unwrap();
    assert_eq!(name, "Aceh");
    assert!(ib.is_none());
    assert_eq!(ket.as_deref(), Some("UU 11"));
}

#[test]
fn test_parse_province_rest_too_few_tokens() {
    assert!(parse_province_rest("Aceh 18").is_none());
}

#[test]
fn test_parse_province_rest_too_few_numbers() {
    assert!(parse_province_rest("Aceh 18 5 290").is_none());
}

#[test]
fn test_parse_indonesian_int_rejects() {
    assert_eq!(parse_indonesian_int(""), None);
    assert_eq!(parse_indonesian_int("1,5"), None);
    assert_eq!(parse_indonesian_int("-3"), None);
    assert_eq!(parse_indonesian_int("18446744073709551616"), None);
    assert_eq!(parse_indonesian_int("18.446.744.073.709.551.615"), Some(u64::MAX));
}

#[test]
fn test_recover_ocr_number_more() {
    assert_eq!(recover_ocr_number("  1l23 "), Some(123));
    assert_eq!(recover_ocr_number("l.234"), Some(1234));
    assert_eq!(recover_ocr_number("abc"), None);
}

const SAMPLE_TABLES: &str = "  1     11    Aceh                                                   18             5         290         0    6.500       56.835,019         5.623.479            365\n I       11      Aceh                             Banda Aceh    18     5       290                6500     56.835     5.623.479   Undang-undang Nomor 11 Tahun 2006 tentang Pemerintahan Aceh\n       11.01     1      Kabupaten Aceh Selatan    Tapaktuan                    18       0         260      4.174      239.629     Perbaikan nama\n     11    Aceh                                                     2.815.060              2.808.419           5.623.479\n   11.01   Kabupaten Aceh Selatan                                      120.041              119.588             239.629\n";

#[test]
fn test_extract_provinces_joins_tables() {
    assert!(section_e_is_repairable(SAMPLE_TABLES));
    let provinces = extract_provinces(SAMPLE_TABLES);
    assert_eq!(provinces.len(), 1);
    let aceh = &provinces[0];
    assert_eq!(aceh.code, "11");
    assert_eq!(aceh.name, "Aceh");
    assert_eq!(aceh.ibukota.as_deref(), Some("Banda Aceh"));
    assert!(aceh.keterangan.is_some());
    assert_eq!(aceh.desa_count, 6500);
    assert_eq!(aceh.penduduk, Some(5623479));
    assert_eq!(aceh.island_count, Some(365));
    assert_eq!(aceh.population_male, Some(2815060));
    assert_eq!(aceh.population_female, Some(2808419));
}

#[test]
fn test_extract_cities_joins_population() {
    let cities = extract_cities(SAMPLE_TABLES);
    assert_eq!(cities.len(), 1);
    let c = &cities[0];
    assert_eq!(c.code, "11.01");
    assert_eq!(c.name, "Kabupaten Aceh Selatan");
    assert_eq!(c.ibukota.as_deref(), Some("Tapaktuan"));
    assert_eq!(c.kec_count, 18);
    assert_eq!(c.penduduk, Some(239629));
    assert_eq!(c.keterangan.as_deref(), Some("Perbaikan nama"));
    assert_eq!(c.population_male, Some(120041));
    assert_eq!(c.population_female, Some(119588));
}

#[test]
fn test_population_maps_last_entry_wins() {
    let text = "   11.01   Kabupaten A   10 20 30\n   11.01   Kabupaten A   11 21 32\n";
    let entries = parse_section_e(text);
    assert_eq!(entries.len(), 2);
    let (male, female) = build_population_maps(&entries);
    assert_eq!(male.len(), 2);
    assert_eq!(population_lookup(&male, "11.01"), Some(11));
    assert_eq!(population_lookup(&female, "11.01"), Some(21));
    assert_eq!(population_lookup(&male, "11.02"), None);
}

#[test]
fn test_section_e_repair_failure_detected() {
    assert!(!section_e_is_repairable("   11.01   Kabupaten A   1t 20 30\n"));
    assert!(section_e_is_repairable("   11.01   Kabupaten A   1t5 20 30\n"));
}

#[test]
fn test_city_header_continuation_appends_note() {
    let text = "       11.01     1      Kabupaten Aceh Selatan    Tapaktuan                    18       0         260      4.174      239.629     Perbaikan nama\n                                                                     ibu kota 2016\n";
    let cities = wilayah::builder::tables::parse_c_city_headers(text);
    assert_eq!(cities.len(), 1);
    assert_eq!(
        cities[0].keterangan.as_deref(),
        Some("Perbaikan nama ibu kota 2016")
    );
}
