use wilayah::builder::numbers::{parse_indonesian_int, recover_ocr_number};
use wilayah::builder::tables::{
    parse_c_city_headers, parse_c_province_headers, parse_section_a, parse_section_db,
    parse_section_e,
};

/// Reads an area written with `.` thousands separators and `,` as decimal mark.
fn indonesian_float(s: &str) -> Option<f64> {
    let cleaned: String = s
        .trim()
        .chars()
        .filter(|c| *c != '.')
        .map(|c| if c == ',' { '.' } else { c })
        .collect();
    cleaned.parse().ok()
}

#[test]
fn test_parse_indonesian_int() {
    assert_eq!(parse_indonesian_int("5.623.479"), Some(5623479));
    assert_eq!(parse_indonesian_int("290"), Some(290));
    assert_eq!(parse_indonesian_int("0"), Some(0));
    assert_eq!(parse_indonesian_int("2.028"), Some(2028));
    assert_eq!(parse_indonesian_int("1.470.518"), Some(1470518));
    assert_eq!(parse_indonesian_int("17.380"), Some(17380));
}

#[test]
fn test_recover_ocr_number() {
    assert_eq!(recover_ocr_number("292.552"), Some(292552));
    assert_eq!(recover_ocr_number("r42.968"), Some(142968));
    assert_eq!(recover_ocr_number("'t05.374"), Some(105374));
    assert_eq!(recover_ocr_number("723.511"), Some(723511));
    assert_eq!(recover_ocr_number(""), None);
}

#[test]
fn test_parse_section_a_sample() {
    let text = "  1     11    Aceh                                                   18             5         290         0    6.500       56.835,019         5.623.479            365\n  2     12    Sumatera Utara                                         25             8         455       693    5.417       72.437,755        15.640.905            228\n";
    let provinces = parse_section_a(text);
    assert_eq!(provinces.len(), 2);
    assert_eq!(provinces[0].code, "11");
    assert_eq!(provinces[0].name, "Aceh");
    assert_eq!(provinces[0].kab_count, 18);
    assert_eq!(provinces[0].kota_count, 5);
    assert_eq!(provinces[0].kec_count, 290);
    assert_eq!(provinces[0].kel_count, 0);
    assert_eq!(provinces[0].desa_count, 6500);
    assert_eq!(indonesian_float(&provinces[0].luas_km2), Some(56835.019));
    assert_eq!(provinces[0].penduduk, Some(5623479));
    assert_eq!(provinces[0].island_count, Some(365));

    assert_eq!(provinces[1].code, "12");
    assert_eq!(provinces[1].name, "Sumatera Utara");
    assert_eq!(provinces[1].kel_count, 693);
    assert_eq!(provinces[1].desa_count, 5417);
}

#[test]
fn test_parse_c_province_headers_roman() {
    let line = " I       11      Aceh                             Banda Aceh    18     5       290                6500     56.835     5.623.479   Undang-undang Nomor 11 Tahun 2006 tentang Pemerintahan Aceh\n";
    let headers = parse_c_province_headers(line);
    assert_eq!(headers.len(), 1);
    assert_eq!(headers[0].code, "11");
    assert_eq!(headers[0].name, "Aceh");
    assert_eq!(headers[0].ibukota.as_deref(), Some("Banda Aceh"));
    assert!(headers[0].keterangan.is_some());
}

#[test]
fn test_parse_c_province_headers_arabic() {
    let line = "        93      Papua Selatan                Kabupaten Merauke    4     0       82      13        677     117.859      562.220    Undang-Undang Nomor 14 Tahun 2022 tentang Provinsi Papua\n";
    let headers = parse_c_province_headers(line);
    assert_eq!(headers.len(), 1);
    assert_eq!(headers[0].code, "93");
    assert_eq!(headers[0].name, "Papua Selatan");
    assert_eq!(headers[0].ibukota.as_deref(), Some("Kabupaten Merauke"));
}

#[test]
fn test_parse_c_city_headers_basic() {
    let text = "       11.01     1      Kabupaten Aceh Selatan    Tapaktuan                    18       0         260      4.174      239.629     Perbaikan nama ibu kota semula Tapak Tuan menjadi Tapaktuan\n       11.02     2      Kabupaten Aceh Tenggara    Kutacane                    16           385      4.179,123         235.589\n";
    let cities = parse_c_city_headers(text);
    assert_eq!(cities.len(), 2);
    assert_eq!(cities[0].code, "11.01");
    assert_eq!(cities[0].name, "Kabupaten Aceh Selatan");
    assert_eq!(cities[0].ibukota.as_deref(), Some("Tapaktuan"));
    assert_eq!(cities[0].kec_count, 18);
    assert!(cities[0].keterangan.is_some());
}

#[test]
fn test_parse_section_e_basic() {
    let text = "     11    Aceh                                                     2.815.060              2.808.419           5.623.479\n   11.01   Kabupaten Aceh Selatan                                      120.041              119.588             239.629\n";
    let entries = parse_section_e(text);
    assert_eq!(entries.len(), 2);
    assert_eq!(entries[0].code, "11");
    assert_eq!(entries[0].male, Some(2815060));
    assert_eq!(entries[0].female, Some(2808419));
    assert_eq!(entries[0].total, Some(5623479));
    assert_eq!(entries[1].code, "11.01");
    assert_eq!(entries[1].male, Some(120041));
}

#[test]
fn test_parse_section_db_basic() {
    let text = "\
D.b. Rekapitulasi Jumlah Pulau Per Kabupaten/Kota Per Provinsi Seluruh Indonesia
 D.b.1) Provinsi Aceh

                                                        JUMLAH
 NO    KODE                             NAMA                            KETERANGAN
                                                         PULAU
  1    11.01   Kabupaten Aceh Selatan                             6
  2    11.03   Kabupaten Aceh Timur                               8
  3    11.06   Kabupaten Aceh Besar                              42
                                  TOTAL                     365
";
    let summaries = parse_section_db(text);
    assert_eq!(summaries.len(), 3);
    assert_eq!(summaries[0].code, "11.01");
    assert_eq!(summaries[0].name, "Kabupaten Aceh Selatan");
    assert_eq!(summaries[0].island_count, 6);
    assert_eq!(summaries[0].province, "Aceh");
    assert_eq!(summaries[1].island_count, 8);
    assert_eq!(summaries[2].island_count, 42);
}

#[test]
fn test_parse_section_db_skip_zero() {
    let text = "\
 D.b.1) Provinsi Test
  1    12.07   Kabupaten Deli Serdang                             0
  2    12.14   Kabupaten Nias Selatan                            87
";
    let summaries = parse_section_db(text);
    assert_eq!(summaries.len(), 1);
    assert_eq!(summaries[0].code, "12.14");
    assert_eq!(summaries[0].island_count, 87);
}
