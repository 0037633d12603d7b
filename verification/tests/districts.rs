use wilayah::builder::columns::{find_column_gap, is_kecamatan_code, split_on_column_gap};
use wilayah::builder::district::{
    extract_district_name, extract_suffix_note, parse_suffix_counts, strip_district_note,
    strip_trailing_count,
};
use wilayah::builder::parse::{extract_districts, parse_villages, VillageParser, VillageRecord};

#[test]
fn test_parse_kecamatan_digit_name() {
    let text = "\
C.Kabupaten.1) Kabupaten Pasaman Barat Provinsi Sumatera Barat
13.05.04   4 2 x 11 Anam Lingkuang                           3
13.05.04.2001 5 BUKIK KILI";
    let villages = parse_villages(text);
    assert_eq!(villages.len(), 1);
    assert_eq!(villages[0].district, "2 x 11 Anam Lingkuang");
}

#[test]
fn test_parse_kecamatan_name_no_trailing_dash() {
    let text = "\
C.Kabupaten.1) Kabupaten Bandung Provinsi Jawa Barat
31.73.01 60 KECAMATAN BALEENDAH - 7
31.73.01.1001 5 CIPAGARANTU";
    let villages = parse_villages(text);
    assert_eq!(villages.len(), 1);
    assert_eq!(villages[0].district, "KECAMATAN BALEENDAH");
}

#[test]
fn test_extract_district_name_basic() {
    let result = extract_district_name("31.73.01 60 KECAMATAN BALEENDAH - 7");
    assert_eq!(result.name, "KECAMATAN BALEENDAH");
    assert!(result.note.is_none());
}

#[test]
fn test_extract_district_name_trailing_dash_no_space() {
    let result = extract_district_name("31.73.01 60 KECAMATAN BALEENDAH-7");
    assert_eq!(result.name, "KECAMATAN BALEENDAH");
    assert!(result.note.is_none());
}

#[test]
fn test_extract_district_name_no_trailing_count() {
    let result = extract_district_name("31.73.01 60 KECAMATAN BALEENDAH   7");
    assert_eq!(result.name, "KECAMATAN BALEENDAH");
    assert!(result.note.is_none());
}

#[test]
fn test_strip_trailing_count_dash_space_number() {
    assert_eq!(
        strip_trailing_count("KECAMATAN BALEENDAH - 7"),
        "KECAMATAN BALEENDAH"
    );
}

#[test]
fn test_strip_trailing_count_dash_number() {
    assert_eq!(
        strip_trailing_count("KECAMATAN BALEENDAH-7"),
        "KECAMATAN BALEENDAH"
    );
}

#[test]
fn test_strip_trailing_count_space_number() {
    assert_eq!(
        strip_trailing_count("KECAMATAN BALEENDAH 7"),
        "KECAMATAN BALEENDAH"
    );
}

#[test]
fn test_strip_trailing_count_preserves_name_with_digit() {
    assert_eq!(
        strip_trailing_count("2 x 11 Anam Lingkuang 3"),
        "2 x 11 Anam Lingkuang 3"
    );
}

#[test]
fn test_strip_trailing_count_no_trailing_number() {
    assert_eq!(strip_trailing_count("Bakongan"), "Bakongan");
}

#[test]
fn test_parse_villages_basic() {
    let text = "\
C.K.1) Kabupaten Bandung Provinsi Jawa Barat
31.73.01 60 KECAMATAN BALEENDAH - 7
31.73.01.1001 5 CIPAGARANTU
31.73.01.1002 12 MARGASARI";
    let villages = parse_villages(text);
    assert_eq!(villages.len(), 2);
    assert_eq!(villages[0].code, "31.73.01.1001");
    assert_eq!(villages[0].name, "CIPAGARANTU");
    assert_eq!(villages[0].province, "Provinsi Jawa Barat");
    assert_eq!(villages[0].city, "Kabupaten Bandung");
    assert_eq!(villages[1].code, "31.73.01.1002");
    assert_eq!(villages[1].name, "MARGASARI");
}

#[test]
fn test_village_parser_struct() {
    let parser = VillageParser::new();
    let text = "\
C.K.1) Kabupaten Bandung Provinsi Jawa Barat
31.73.01 60 KECAMATAN BALEENDAH - 7
31.73.01.1001 5 CIPAGARANTU
31.73.01.1002 12 MARGASARI";
    let villages = parser.parse(text);
    assert_eq!(villages.len(), 2);
    assert_eq!(villages[0].code, "31.73.01.1001");
    assert_eq!(villages[1].code, "31.73.01.1002");
}

#[test]
fn test_split_on_column_gap_basic() {
    let parts = split_on_column_gap("Bakongan                               7");
    assert_eq!(parts, vec!["Bakongan", "7"]);
}

#[test]
fn test_split_on_column_gap_three_parts() {
    let parts = split_on_column_gap("Makbon    1    14    Semula wil. Provinsi Papua");
    assert_eq!(
        parts,
        vec!["Makbon", "1", "14", "Semula wil. Provinsi Papua"]
    );
}

#[test]
fn test_split_on_column_gap_no_gap() {
    let parts = split_on_column_gap("SinglePart");
    assert_eq!(parts, vec!["SinglePart"]);
}

#[test]
fn test_split_on_column_gap_two_spaces_not_split() {
    let parts = split_on_column_gap("Hello  World");
    assert_eq!(parts, vec!["Hello  World"]);
}

#[test]
fn test_is_kecamatan_code_valid() {
    assert!(is_kecamatan_code("11.01.01"));
    assert!(is_kecamatan_code("96.01.01"));
}

#[test]
fn test_is_kecamatan_code_invalid() {
    assert!(!is_kecamatan_code("11.01"));
    assert!(!is_kecamatan_code("KECAMATAN"));
    assert!(!is_kecamatan_code("11.01.01.2001"));
    assert!(!is_kecamatan_code(""));
}

#[test]
fn test_extract_district_name_columnar_format() {
    let result = extract_district_name("11.01.01 1 Bakongan                               7");
    assert_eq!(result.name, "Bakongan");
    assert!(result.note.is_none());
}

#[test]
fn test_extract_district_name_code_as_name() {
    let result = extract_district_name("96.01.01                    1 Makbon");
    assert_eq!(result.name, "Makbon");
    assert!(result.note.is_none());
}

#[test]
fn test_extract_district_name_with_suffix_note() {
    let result = extract_district_name(
        "96.01.01 1 Makbon    1  14    Semula wil. Provinsi Papua Barat; UU No. 16 Tahun 2025",
    );
    assert_eq!(result.name, "Makbon");
    assert!(result.note.is_some());
    let note = result.note.unwrap();
    assert!(
        note.starts_with("Semula"),
        "note should start with 'Semula': {note}"
    );
}

#[test]
fn test_extract_district_name_note_in_name_column() {
    let result = extract_district_name("96.01.01 1 Abenaho Semula wil Prov.");
    assert_eq!(result.name, "Abenaho");
    assert!(result.note.is_some());
}

#[test]
fn test_strip_district_note_no_keyword() {
    let (name, note) = strip_district_note("Bakongan");
    assert_eq!(name, "Bakongan");
    assert!(note.is_none());
}

#[test]
fn test_strip_district_note_with_keyword() {
    let (name, note) = strip_district_note("Abenaho Semula wil Prov.");
    assert_eq!(name, "Abenaho");
    assert_eq!(note.as_deref(), Some("Semula wil Prov."));
}

#[test]
fn test_extract_suffix_note_no_keyword() {
    assert!(extract_suffix_note("7".to_string()).is_none());
    assert!(extract_suffix_note("1  14".to_string()).is_none());
}

#[test]
fn test_extract_suffix_note_with_keyword() {
    let note = extract_suffix_note("1  14  Semula wil. Provinsi Papua Barat".to_string());
    assert!(note.is_some());
    assert!(note.unwrap().starts_with("Semula"));
}

#[test]
fn test_find_column_gap_with_gap() {
    assert_eq!(
        find_column_gap("Ujong Mangki                             Perbaikan nama"),
        Some(12)
    );
}

#[test]
fn test_find_column_gap_no_gap() {
    assert_eq!(find_column_gap("Keude Bakongan"), None);
}

#[test]
fn test_find_column_gap_two_spaces_not_gap() {
    assert_eq!(find_column_gap("Hello  World"), None);
}

#[test]
fn test_district_name_banyuurip_fmt2() {
    let result = extract_district_name("33.06.07                                        7 Banyuurip                             3                           24");
    assert_eq!(result.name, "Banyuurip");
    assert!(result.note.is_none());
}

#[test]
fn test_district_name_mappakasunggu_fmt1() {
    let result = extract_district_name("     73.05.01        1 Mappakasunggu                                                      1         3");
    assert_eq!(result.name, "Mappakasunggu");
    assert!(result.note.is_none());
}

#[test]
fn test_district_name_mappakasunggu_fmt2() {
    let result = extract_district_name("73.05.01                                                     1 Mappakasunggu                                  1                        3");
    assert_eq!(result.name, "Mappakasunggu");
    assert!(result.note.is_none());
}

#[test]
fn test_district_name_proppo_fmt2() {
    let result = extract_district_name("35.28.05                                        5 Proppo                        -                          27");
    assert_eq!(result.name, "Proppo");
    assert!(result.note.is_none());
}

#[test]
fn test_district_name_puuwatu_fmt2() {
    let result = extract_district_name("74.71.09                                        9 Puuwatu                                6          -");
    assert_eq!(result.name, "Puuwatu");
    assert!(result.note.is_none());
}

#[test]
fn test_district_name_lalembuu() {
    let result = extract_district_name(
        "74.03.02  1 Lalembuu                        18                        -",
    );
    assert_eq!(result.name, "Lalembuu");
    assert!(result.note.is_none());
}

#[test]
fn test_district_name_batulappa() {
    let result = extract_district_name(
        "73.11.05  5 Batulappa                        5                        -",
    );
    assert_eq!(result.name, "Batulappa");
    assert!(result.note.is_none());
}

#[test]
fn test_district_name_soppeng_riaja() {
    let result = extract_district_name(
        "73.09.05  7 Soppeng Riaja                        7                        -",
    );
    assert_eq!(result.name, "Soppeng Riaja");
    assert!(result.note.is_none());
}

#[test]
fn test_district_name_suluun_tareran() {
    let result = extract_district_name(
        "71.05.09  9 Suluun Tareran                        9                        -",
    );
    assert_eq!(result.name, "Suluun Tareran");
    assert!(result.note.is_none());
}

#[test]
fn test_district_name_baruppu() {
    let result = extract_district_name(
        "73.21.04  4 Baruppu                        4                        -",
    );
    assert_eq!(result.name, "Baruppu");
    assert!(result.note.is_none());
}

#[test]
fn test_parse_suffix_counts_empty() {
    let (kel, desa, start) = parse_suffix_counts(&[]);
    assert_eq!(kel, None);
    assert_eq!(desa, None);
    assert_eq!(start, 0);
}

#[test]
fn test_parse_suffix_counts_kabupaten() {
    let (kel, desa, start) = parse_suffix_counts(&["-", "7"]);
    assert_eq!(kel, Some(0));
    assert_eq!(desa, Some(7));
    assert_eq!(start, 2);
}

#[test]
fn test_parse_suffix_counts_kota() {
    let (kel, desa, start) = parse_suffix_counts(&["6", "-"]);
    assert_eq!(kel, Some(6));
    assert_eq!(desa, Some(0));
    assert_eq!(start, 2);
}

#[test]
fn test_parse_suffix_counts_both_nonzero() {
    let (kel, desa, start) = parse_suffix_counts(&["2", "14"]);
    assert_eq!(kel, Some(2));
    assert_eq!(desa, Some(14));
    assert_eq!(start, 2);
}

#[test]
fn test_parse_suffix_counts_single_count() {
    let (kel, desa, start) = parse_suffix_counts(&["7"]);
    assert_eq!(kel, Some(7));
    assert_eq!(desa, None);
    assert_eq!(start, 1);
}

#[test]
fn test_parse_suffix_counts_with_note() {
    let (kel, desa, start) = parse_suffix_counts(&["-", "14", "Semula", "wil."]);
    assert_eq!(kel, Some(0));
    assert_eq!(desa, Some(14));
    assert_eq!(start, 2);
}

#[test]
fn test_parse_suffix_counts_non_numeric_prefix() {
    let (kel, desa, start) = parse_suffix_counts(&["Semula", "wil."]);
    assert_eq!(kel, None);
    assert_eq!(desa, None);
    assert_eq!(start, 0);
}

#[test]
fn test_extract_district_name_kabupaten_counts() {
    let result = extract_district_name(
        "11.01.01 1 Bakongan                       -                             7",
    );
    assert_eq!(result.name, "Bakongan");
    assert_eq!(result.kel_count, Some(0));
    assert_eq!(result.desa_count, Some(7));
}

#[test]
fn test_extract_district_name_kota_counts() {
    let result = extract_district_name(
        "31.71.01 1 Gambir                                       6           -",
    );
    assert_eq!(result.name, "Gambir");
    assert_eq!(result.kel_count, Some(6));
    assert_eq!(result.desa_count, Some(0));
}

#[test]
fn test_extract_district_name_counts_with_note() {
    let result = extract_district_name(
        "96.01.01 1 Makbon                       -                            14    Semula wil. Provinsi Papua Barat",
    );
    assert_eq!(result.name, "Makbon");
    assert_eq!(result.kel_count, Some(0));
    assert_eq!(result.desa_count, Some(14));
    assert!(result.note.is_some());
}

#[test]
fn test_extract_districts() {
    let villages = vec![
        VillageRecord {
            code: "11.01.01.2001".to_string(),
            name: "Keude Bakongan".to_string(),
            district: "Bakongan".to_string(),
            city: "Aceh Selatan".to_string(),
            province: "Aceh".to_string(),
            raw_name: None,
            note_keyword: None,
            note_boundary: None,
            district_note: None,
            kel_count: Some(0),
            desa_count: Some(7),
            keterangan: None,
        },
        VillageRecord {
            code: "11.01.01.2002".to_string(),
            name: "Ujong Mangki".to_string(),
            district: "Bakongan".to_string(),
            city: "Aceh Selatan".to_string(),
            province: "Aceh".to_string(),
            raw_name: None,
            note_keyword: None,
            note_boundary: None,
            district_note: None,
            kel_count: Some(0),
            desa_count: Some(7),
            keterangan: None,
        },
        VillageRecord {
            code: "11.01.02.2001".to_string(),
            name: "Fajar Harapan".to_string(),
            district: "Kluet Utara".to_string(),
            city: "Aceh Selatan".to_string(),
            province: "Aceh".to_string(),
            raw_name: None,
            note_keyword: None,
            note_boundary: None,
            district_note: None,
            kel_count: Some(0),
            desa_count: Some(21),
            keterangan: None,
        },
    ];
    let districts = extract_districts(&villages);
    assert_eq!(districts.len(), 2);
    assert_eq!(districts[0].code, "11.01.01");
    assert_eq!(districts[0].name, "Bakongan");
    assert_eq!(districts[0].kel_count, Some(0));
    assert_eq!(districts[0].desa_count, Some(7));
    assert_eq!(districts[1].code, "11.01.02");
    assert_eq!(districts[1].name, "Kluet Utara");
    assert_eq!(districts[1].desa_count, Some(21));
}
