use wilayah::builder::district::strip_district_note;
use wilayah::builder::lines::parse_section_header;
use wilayah::builder::notes::{find_note_boundary, has_reference_indicator, is_word_boundary};
use wilayah::builder::village::{
    capitalize_all_lowercase, extract_village_name, first_words_chars, is_keterangan_continuation,
    strip_trailing_period, word_list,
};

#[test]
fn test_parse_section_header_with_city_and_province() {
    let line = "C.Kabupaten.1) Kabupaten Bogor Provinsi Jawa Barat";
    let header = parse_section_header(line);
    assert!(header.is_some());
    let h = header.unwrap();
    assert_eq!(h.province, "Provinsi Jawa Barat");
    assert_eq!(h.city, "Kabupaten Bogor");
}

#[test]
fn test_parse_section_header_province_only() {
    let line = "C.Provinsi.1) Provinsi DKI Jakarta";
    let header = parse_section_header(line);
    assert!(header.is_some());
    let h = header.unwrap();
    assert_eq!(h.province, "Provinsi DKI Jakarta");
    assert_eq!(h.city, "");
}

#[test]
fn test_parse_section_header_no_provinsi() {
    let line = "C.Kabupaten.1) Some text without Provinsi";
    assert!(parse_section_header(line).is_none());
}

#[test]
fn test_parse_section_header_no_match() {
    let line = "31.12.24.2002 ABADMULIA KEC. BUKIT SARI";
    assert!(parse_section_header(line).is_none());
}

#[test]
fn test_parse_section_header_rejects_invalid_format() {
    let line = "C.Kabupaten.X) Kabupaten Bogor Provinsi Jawa Barat";
    assert!(parse_section_header(line).is_none());
}

#[test]
fn test_extract_village_name_basic() {
    let after_code = " 12 ABADIJAYA";
    let name = extract_village_name(after_code);
    assert_eq!(
        name.as_ref().map(|e| &e.name),
        Some(&"ABADIJAYA".to_string())
    );
}

#[test]
fn test_extract_village_name_multi_word() {
    let after_code = " 12 SUKA MAJU";
    let name = extract_village_name(after_code);
    assert_eq!(
        name.as_ref().map(|e| &e.name),
        Some(&"SUKA MAJU".to_string())
    );
}

#[test]
fn test_extract_village_name_keyword_stripping() {
    let after_code = " 15 SUKAMAJU KEMENANGAN Pemekaran menjadi SUKAMAJU";
    let name = extract_village_name(after_code);
    assert_eq!(
        name.as_ref().map(|e| &e.name),
        Some(&"SUKAMAJU KEMENANGAN".to_string())
    );
}

#[test]
fn test_extract_village_name_numeric_start() {
    let after_code = " 20 5SAFARI Some text";
    let name = extract_village_name(after_code);
    assert!(name.is_none());
}

#[test]
fn test_extract_village_name_empty() {
    let after_code = " 30 ";
    let name = extract_village_name(after_code);
    assert!(name.is_none());
}

#[test]
fn test_extract_village_name_truncate_to_five_words() {
    let after_code = " 10 DESA SUKAMAJU KECAMATAN BUKIT SARI LAINNYA";
    let name = extract_village_name(after_code);
    assert_eq!(
        name.as_ref().map(|e| &e.name),
        Some(&"DESA SUKAMAJU KECAMATAN BUKIT SARI".to_string())
    );
}

#[test]
fn test_extract_village_name_six_words_truncated() {
    let after_code = " 10 A B C D E F";
    let name = extract_village_name(after_code);
    assert_eq!(
        name.as_ref().map(|e| &e.name),
        Some(&"A B C D E".to_string())
    );
}

#[test]
fn test_extract_village_name_semula() {
    let after_code = " 2 RAMBONG Semula wil Kec. Bakongan Perda No. 3/2010";
    let name = extract_village_name(after_code);
    assert_eq!(name.as_ref().map(|e| &e.name), Some(&"RAMBONG".to_string()));
}

#[test]
fn test_extract_village_name_qanun() {
    let after_code = " 23 PIRAK TIMU Qanun No. 32/2005";
    let name = extract_village_name(after_code);
    assert_eq!(
        name.as_ref().map(|e| &e.name),
        Some(&"PIRAK TIMU".to_string())
    );
}

#[test]
fn test_extract_village_name_uu_with_reference() {
    let after_code = " 5 SUKAMAKMUR UU No. 4/2002";
    let name = extract_village_name(after_code);
    assert_eq!(
        name.as_ref().map(|e| &e.name),
        Some(&"SUKAMAKMUR".to_string())
    );
}

#[test]
fn test_extract_village_name_uu_without_reference_not_stripped() {
    let after_code = " 5 UU JAYA";
    let name = extract_village_name(after_code);
    assert_eq!(name.as_ref().map(|e| &e.name), Some(&"UU JAYA".to_string()));
}

#[test]
fn test_extract_village_name_hasil_in_name_not_stripped() {
    let after_code = " 18 HASIL JAYA";
    let name = extract_village_name(after_code);
    assert_eq!(
        name.as_ref().map(|e| &e.name),
        Some(&"HASIL JAYA".to_string())
    );
}

#[test]
fn test_extract_village_name_hal_hasil_with_reference() {
    let after_code = " 18 LIYA BAHARI Hal Hasil Klarifikasi Nama Desa";
    let name = extract_village_name(after_code);
    assert_eq!(
        name.as_ref().map(|e| &e.name),
        Some(&"LIYA BAHARI".to_string())
    );
}

#[test]
fn test_extract_village_name_amar_with_reference() {
    let after_code = " 12 MERDEKA Amar Putusan Mahkamah Agung RI Nomor 395K";
    let name = extract_village_name(after_code);
    assert_eq!(name.as_ref().map(|e| &e.name), Some(&"MERDEKA".to_string()));
}

#[test]
fn test_extract_village_name_perda_with_number() {
    let after_code = " 9 LEUBOK PASI Perda No. 3/2010 tentang pemekaran";
    let name = extract_village_name(after_code);
    assert_eq!(
        name.as_ref().map(|e| &e.name),
        Some(&"LEUBOK PASI".to_string())
    );
}

#[test]
fn test_extract_village_name_five_word_name_preserved() {
    let after_code = " 7 TANAH SIRAH PIAI NAN XX";
    let name = extract_village_name(after_code);
    assert_eq!(
        name.as_ref().map(|e| &e.name),
        Some(&"TANAH SIRAH PIAI NAN XX".to_string())
    );
}

#[test]
fn test_extract_village_name_perbaikan_with_nama() {
    let after_code = " 2 UJONG MANGKI Perbaikan nama sesuai Surat Pemkab";
    let name = extract_village_name(after_code);
    assert_eq!(
        name.as_ref().map(|e| &e.name),
        Some(&"UJONG MANGKI".to_string())
    );
}

#[test]
fn test_extract_village_name_nd_with_reference() {
    let after_code = " 5 SUKAJADI ND Rekom No 140/4495/BPD";
    let name = extract_village_name(after_code);
    assert_eq!(
        name.as_ref().map(|e| &e.name),
        Some(&"SUKAJADI".to_string())
    );
}

#[test]
fn test_has_reference_indicator_digit() {
    assert!(has_reference_indicator("qanun no. 32/2005", 6, 30));
}

#[test]
fn test_has_reference_indicator_nomor() {
    assert!(has_reference_indicator("perbaikan nama desa", 10, 30));
}

#[test]
fn test_has_reference_indicator_no_match() {
    assert!(!has_reference_indicator("uu jaya sejahtera", 3, 30));
}

#[test]
fn test_find_note_boundary_self_validating() {
    let raw = "RAMBONG Semula wil Kec. Bakongan";
    let raw_lower = raw.to_lowercase();
    let m = find_note_boundary(&raw_lower).unwrap();
    assert_eq!(m.pos, 8);
    assert_eq!(m.keyword, "Semula");
}

#[test]
fn test_find_note_boundary_with_reference() {
    let raw = "SUKAMAKMUR UU No. 4/2002";
    let raw_lower = raw.to_lowercase();
    let m = find_note_boundary(&raw_lower).unwrap();
    assert_eq!(m.pos, 11);
    assert_eq!(m.keyword, "UU");
}

#[test]
fn test_find_note_boundary_without_reference() {
    let raw = "UU JAYA";
    let raw_lower = raw.to_lowercase();
    assert!(find_note_boundary(&raw_lower).is_none());
}

#[test]
fn test_pmd_self_validating_without_reference() {
    let raw = "desa jaya pmd";
    let raw_lower = raw.to_lowercase();
    let m = find_note_boundary(&raw_lower).unwrap();
    assert_eq!(m.keyword, "PMD");
}

#[test]
fn test_semula_ocr_typo_semual() {
    let after_code = " 2 RAMBONG Semual wil Kec. Bakongan Perda No. 3/2010";
    let name = extract_village_name(after_code);
    assert_eq!(name.as_ref().map(|e| &e.name), Some(&"RAMBONG".to_string()));
}

#[test]
fn test_pp_with_reference() {
    let after_code = " 2 MEKAR JAYA PP No. 6/2010";
    let name = extract_village_name(after_code);
    assert_eq!(
        name.as_ref().map(|e| &e.name),
        Some(&"MEKAR JAYA".to_string())
    );
}

#[test]
fn test_berdasarkan_with_reference() {
    let after_code = " 3 SUKAMAJU Berdasarkan Perda No. 3/2010";
    let name = extract_village_name(after_code);
    assert_eq!(
        name.as_ref().map(|e| &e.name),
        Some(&"SUKAMAJU".to_string())
    );
}

#[test]
fn test_is_word_boundary_at_start() {
    assert!(is_word_boundary("ND Rekom", 0, 2));
}

#[test]
fn test_is_word_boundary_at_end() {
    assert!(is_word_boundary("foo UU", 4, 2));
}

#[test]
fn test_is_word_boundary_inside_word() {
    assert!(!is_word_boundary("poNDok", 2, 2));
    assert!(!is_word_boundary("bandar", 2, 2));
}

#[test]
fn test_find_note_boundary_nd_inside_word_not_matched() {
    let raw = "pondok kahuru";
    let raw_lower = raw.to_lowercase();
    assert!(find_note_boundary(&raw_lower).is_none());
}

#[test]
fn test_find_note_boundary_uu_inside_word_not_matched() {
    let raw = "puuk indah";
    let raw_lower = raw.to_lowercase();
    assert!(find_note_boundary(&raw_lower).is_none());
}

#[test]
fn test_find_note_boundary_nd_at_word_boundary_still_matched() {
    let raw = "sukajadi nd rekom no 140/4495/bpd";
    let raw_lower = raw.to_lowercase();
    let m = find_note_boundary(&raw_lower);
    assert!(m.is_some());
    assert_eq!(m.unwrap().keyword, "ND");
}

#[test]
fn test_village_code_at_end_of_line() {
    let after_code = " 5 CIPAGARANTU";
    let name = extract_village_name(after_code);
    assert_eq!(
        name.as_ref().map(|e| &e.name),
        Some(&"CIPAGARANTU".to_string())
    );
}

#[test]
fn test_extracted_name_metadata_with_note() {
    let after_code = " 2 RAMBONG Semula wil Kec. Bakongan";
    let extracted = extract_village_name(after_code).unwrap();
    assert_eq!(extracted.name, "RAMBONG");
    assert_eq!(
        extracted.raw_name.as_deref(),
        Some("RAMBONG Semula wil Kec. Bakongan")
    );
    assert_eq!(extracted.note_keyword.as_deref(), Some("Semula"));
    assert_eq!(extracted.note_boundary, Some(8));
}

#[test]
fn test_extracted_name_metadata_no_note() {
    let after_code = " 12 ABADIJAYA";
    let extracted = extract_village_name(after_code).unwrap();
    assert_eq!(extracted.name, "ABADIJAYA");
    assert!(extracted.raw_name.is_none());
    assert!(extracted.note_keyword.is_none());
    assert!(extracted.note_boundary.is_none());
}

#[test]
fn test_extracted_name_raw_name_from_truncation() {
    let after_code = " 10 A B C D E F";
    let extracted = extract_village_name(after_code).unwrap();
    assert_eq!(extracted.name, "A B C D E");
    assert_eq!(extracted.raw_name.as_deref(), Some("A B C D E F"));
    assert!(extracted.note_keyword.is_none());
}

#[test]
fn test_extract_village_name_gap_with_known_keyword() {
    let after_code =
        " 1 Ujong Mangki                             Perbaikan nama sesuai Surat Pemkab";
    let extracted = extract_village_name(after_code).unwrap();
    assert_eq!(extracted.name, "Ujong Mangki");
    assert_eq!(extracted.note_keyword.as_deref(), Some("Perbaikan"));
}

#[test]
fn test_extract_village_name_gap_with_nagari_suffix() {
    let after_code =
        " 1 Pakan Sinayan                                       Nagari Koto Nan IV";
    let extracted = extract_village_name(after_code).unwrap();
    assert_eq!(extracted.name, "Pakan Sinayan");
    assert!(extracted.note_keyword.is_none());
}

#[test]
fn test_extract_village_name_gap_with_ordinal() {
    let after_code =
        " 1 Pasirdoton                         1. Surat Bupati Sukabumi No. 100/609";
    let extracted = extract_village_name(after_code).unwrap();
    assert_eq!(extracted.name, "Pasirdoton");
    assert_eq!(extracted.note_keyword.as_deref(), Some("Surat"));
}

#[test]
fn test_extract_village_name_gap_with_surat_prefix() {
    let after_code =
        " 1 Rancaran                      Surat Bup. Padang Lawas Utara No. 141/1154";
    let extracted = extract_village_name(after_code).unwrap();
    assert_eq!(extracted.name, "Rancaran");
    assert_eq!(extracted.note_keyword.as_deref(), Some("Surat"));
}

#[test]
fn test_extract_village_name_gap_keyword_in_name_column() {
    let after_code =
        " 2 Matang Rayeuk PP                   Semula wil. Kec Idi Rayeuk, Perbaikan nama";
    let extracted = extract_village_name(after_code).unwrap();
    assert_eq!(extracted.name, "Matang Rayeuk");
}

#[test]
fn test_extract_village_name_gap_no_keyword_clean_name() {
    let after_code = " 1 Gelombang                    Semua wil. Kec. Takeran";
    let extracted = extract_village_name(after_code).unwrap();
    assert_eq!(extracted.name, "Gelombang");
}

#[test]
fn test_extract_village_name_gap_with_penggabungan() {
    let after_code =
        " 1 Tanjuanggodang                                Penggabungan Kel. Tanjuang Gadang dan Kel. Sungai Pinago";
    let extracted = extract_village_name(after_code).unwrap();
    assert_eq!(extracted.name, "Tanjuanggodang");
}

#[test]
fn test_extract_village_name_no_gap_keyword_only() {
    let after_code = " 2 RAMBONG Semula wil Kec. Bakongan";
    let extracted = extract_village_name(after_code).unwrap();
    assert_eq!(extracted.name, "RAMBONG");
    assert_eq!(extracted.note_keyword.as_deref(), Some("Semula"));
}

#[test]
fn test_extract_village_name_no_gap_no_keyword() {
    let after_code = " 12 ABADIJAYA";
    let extracted = extract_village_name(after_code).unwrap();
    assert_eq!(extracted.name, "ABADIJAYA");
    assert!(extracted.note_keyword.is_none());
}

#[test]
fn test_extract_village_name_gap_preserves_existing_keyword_detection() {
    let after_code =
        " 1 Seuneubok Keuranji                  Semula wil Kec.Bakongan Perda No.3/2010";
    let extracted = extract_village_name(after_code).unwrap();
    assert_eq!(extracted.name, "Seuneubok Keuranji");
    assert_eq!(extracted.note_keyword.as_deref(), Some("Semula"));
}

#[test]
fn test_extract_village_name_gap_lowercase_perbaikan() {
    let after_code =
        " 1 Teluk Latak                            Perbaikan Spasi, Berdasarka Ketua KPU Bengkalis No Surat";
    let extracted = extract_village_name(after_code).unwrap();
    assert_eq!(extracted.name, "Teluk Latak");
    assert!(extracted.note_keyword.is_none());
}

#[test]
fn test_strip_trailing_period_long_word() {
    let mut s = String::from("Air Sialang Hilir.");
    strip_trailing_period(&mut s);
    assert_eq!(s, "Air Sialang Hilir");
}

#[test]
fn test_strip_trailing_period_four_char_word() {
    let mut s = String::from("U Baro.");
    strip_trailing_period(&mut s);
    assert_eq!(s, "U Baro");
}

#[test]
fn test_strip_trailing_period_preserves_short_abbreviation() {
    let mut s = String::from("Papuyu I Sei.");
    strip_trailing_period(&mut s);
    assert_eq!(s, "Papuyu I Sei.");
}

#[test]
fn test_strip_trailing_period_preserves_single_char() {
    let mut s = String::from("Pardomuan J.");
    strip_trailing_period(&mut s);
    assert_eq!(s, "Pardomuan J.");
}

#[test]
fn test_strip_trailing_period_preserves_two_char() {
    let mut s = String::from("Bedeng SS.");
    strip_trailing_period(&mut s);
    assert_eq!(s, "Bedeng SS.");
}

#[test]
fn test_strip_trailing_period_no_period() {
    let mut s = String::from("Suka Maju");
    strip_trailing_period(&mut s);
    assert_eq!(s, "Suka Maju");
}

#[test]
fn test_capitalize_all_lowercase_single_word() {
    let mut s = String::from("lamuk");
    capitalize_all_lowercase(&mut s);
    assert_eq!(s, "Lamuk");
}

#[test]
fn test_capitalize_all_lowercase_multi_word() {
    let mut s = String::from("suka maju");
    capitalize_all_lowercase(&mut s);
    assert_eq!(s, "Suka Maju");
}

#[test]
fn test_capitalize_all_lowercase_preserves_mixed_case() {
    let mut s = String::from("Suka Maju");
    capitalize_all_lowercase(&mut s);
    assert_eq!(s, "Suka Maju");
}

#[test]
fn test_capitalize_all_lowercase_preserves_uppercase() {
    let mut s = String::from("ABADIJAYA");
    capitalize_all_lowercase(&mut s);
    assert_eq!(s, "ABADIJAYA");
}

#[test]
fn test_capitalize_all_lowercase_empty() {
    let mut s = String::from("");
    capitalize_all_lowercase(&mut s);
    assert_eq!(s, "");
}

#[test]
fn test_strip_district_note_word_boundary() {
    let (name, note) = strip_district_note("Banyuurip");
    assert_eq!(name, "Banyuurip");
    assert!(note.is_none());

    let (name, note) = strip_district_note("Mappakasunggu");
    assert_eq!(name, "Mappakasunggu");
    assert!(note.is_none());

    let (name, note) = strip_district_note("Abenaho Semula wil Prov.");
    assert_eq!(name, "Abenaho");
    assert_eq!(note.as_deref(), Some("Semula wil Prov."));

    let (name, note) = strip_district_note("Makbon Semula Berdasarkan PP 22");
    assert_eq!(name, "Makbon");
    assert!(note.is_some());
}

#[test]
fn test_is_keterangan_continuation_deep_indent() {
    let line = "                                                                     tgl 14 okt 2016 dan Rekomedasi Ditjen Bina Pemdes No. 146/3672/BPD";
    let result = is_keterangan_continuation(line);
    assert!(result.is_some());
    assert_eq!(
        result.unwrap(),
        "tgl 14 okt 2016 dan Rekomedasi Ditjen Bina Pemdes No. 146/3672/BPD"
    );
}

#[test]
fn test_is_keterangan_continuation_shallow_indent() {
    let line = "   not deep enough";
    assert!(is_keterangan_continuation(line).is_none());
}

#[test]
fn test_is_keterangan_continuation_village_code() {
    let line =
        "                                                                     11.01.01.2003";
    assert!(is_keterangan_continuation(line).is_none());
}

#[test]
fn test_is_keterangan_continuation_empty() {
    assert!(is_keterangan_continuation("").is_none());
    assert!(is_keterangan_continuation("                    ").is_none());
}

#[test]
fn test_extract_village_name_keterangan() {
    let result = extract_village_name(
        "   2   Ujong Mangki                             Perbaikan nama sesuai Surat Pemkab Aceh Selatan No.140/819/2016",
    );
    assert!(result.is_some());
    let r = result.unwrap();
    assert_eq!(r.name, "Ujong Mangki");
    assert_eq!(
        r.keterangan.as_deref(),
        Some("Perbaikan nama sesuai Surat Pemkab Aceh Selatan No.140/819/2016")
    );
}

#[test]
fn test_extract_village_name_no_keterangan() {
    let result = extract_village_name("   1   Keude Bakongan");
    assert!(result.is_some());
    let r = result.unwrap();
    assert_eq!(r.name, "Keude Bakongan");
    assert!(r.keterangan.is_none());
}

#[test]
fn first_words_keeps_the_first_words() {
    let s: Vec<char> = "  Sungai\tRaya  Dalam Ujung Baru Sekali ".chars().collect();
    let cut: String = first_words_chars(&s, 5).into_iter().collect();
    assert_eq!(cut, "Sungai Raya Dalam Ujung Baru");
    let cut_chars: Vec<char> = cut.chars().collect();
    let words: Vec<String> = word_list(&cut_chars)
        .into_iter()
        .map(|w| w.into_iter().collect())
        .collect();
    assert_eq!(words, vec!["Sungai", "Raya", "Dalam", "Ujung", "Baru"]);
    let short: Vec<char> = "Kota  Baru".chars().collect();
    let cut: String = first_words_chars(&short, 5).into_iter().collect();
    assert_eq!(cut, "Kota Baru");
}
