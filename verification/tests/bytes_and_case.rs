use wilayah::builder::columns::{find_column_gap, split_on_column_gap};
use wilayah::builder::district::{
    extract_suffix_note, strip_district_note, strip_trailing_count, try_extract_suffix_note,
    try_strip_district_note,
};
use wilayah::builder::notes::{
    find_earliest_keyword, find_note_boundary, has_reference_indicator, is_word_boundary,
};
use wilayah::builder::parse::{
    extract_districts, fixup_district_notes, try_parse_villages, VillageRecord,
};
use wilayah::builder::village::{
    capitalize_all_lowercase, extract_village_name, strip_trailing_period, try_extract_village_name,
};

fn village(code: &str, district: &str, note: Option<&str>) -> VillageRecord {
    VillageRecord {
        code: code.to_string(),
        name: "Desa".to_string(),
        district: district.to_string(),
        city: "Kota".to_string(),
        province: "Prov".to_string(),
        raw_name: None,
        note_keyword: None,
        note_boundary: None,
        district_note: note.map(|s| s.to_string()),
        kel_count: None,
        desa_count: None,
        keterangan: None,
    }
}

#[test]
fn count_glued_to_a_word_stays() {
    assert_eq!(strip_trailing_count("BALEENDAH7"), "BALEENDAH7");
    assert_eq!(strip_trailing_count("BALEENDAH 7"), "BALEENDAH");
    assert_eq!(strip_trailing_count("BALEENDAH-7"), "BALEENDAH");
    assert_eq!(strip_trailing_count("BALEENDAH - 12  "), "BALEENDAH");
    assert_eq!(strip_trailing_count("BALEENDAH 1234"), "BALEENDAH 1234");
}

#[test]
fn column_gap_at_the_end_and_in_bytes() {
    assert_eq!(find_column_gap("abc   "), Some(3));
    assert_eq!(find_column_gap("Hello  World"), None);
    assert_eq!(find_column_gap("é   x"), Some(2));
}

#[test]
fn reference_window_counts_bytes() {
    assert!(!has_reference_indicator("éé1", 0, 4));
    assert!(has_reference_indicator("éé1", 0, 5));
    assert!(has_reference_indicator("nd no 4", 2, 30));
}

#[test]
fn word_boundary_on_bytes() {
    assert!(is_word_boundary("é nd x", 3, 2));
    assert!(!is_word_boundary("pondok", 2, 2));
}

#[test]
fn keywords_fold_unicode_and_report_bytes() {
    assert_eq!(
        find_earliest_keyword("peme\u{212A}aran", &["PEMEKARAN"], false),
        Some((0, "PEMEKARAN"))
    );
    assert_eq!(find_earliest_keyword("é uu", &["UU"], false), Some((3, "UU")));
}

#[test]
fn note_boundary_tries_later_occurrences() {
    let m = find_note_boundary("pondok nd rekom no 1").unwrap();
    assert_eq!(m.pos, 7);
    assert_eq!(m.keyword, "ND");
}

#[test]
fn period_strip_counts_characters() {
    let mut s = "Séé.".to_string();
    strip_trailing_period(&mut s);
    assert_eq!(s, "Séé.");
    let mut t = "U Baro.".to_string();
    strip_trailing_period(&mut t);
    assert_eq!(t, "U Baro");
}

#[test]
fn fixup_folds_unicode_case() {
    let mut vs = vec![
        village("11.01.01.2001", "Bakongan", Some("peme\u{212A}aran wil")),
        village("11.01.01.2002", "Bakongan", Some("timur")),
    ];
    fixup_district_notes(&mut vs);
    assert_eq!(vs[0].district, "Bakongan");
    assert_eq!(vs[0].district_note.as_deref(), Some("peme\u{212A}aran wil"));
    assert_eq!(vs[1].district, "Bakongantimur");
    assert_eq!(vs[1].district_note, None);
}

#[test]
fn districts_group_by_eight_bytes() {
    let vs = vec![
        village("11.01.01.2001", "A", None),
        village("11.01.01.2002", "A", None),
        village("11.01.02.2001", "B", None),
    ];
    let ds = extract_districts(&vs);
    assert_eq!(ds.len(), 2);
    assert_eq!(ds[0].code, "11.01.01");
    assert_eq!(ds[1].code, "11.01.02");
    let odd = vec![village("é1.01.01.2001", "C", None)];
    let ds = extract_districts(&odd);
    assert_eq!(ds[0].code, "é1.01.0");
}

#[test]
fn columns_keep_every_visible_character() {
    let text = "  Bakongan Timur     Semula wil   7  ";
    let parts = split_on_column_gap(text);
    assert_eq!(parts, vec!["Bakongan Timur", "Semula wil", "7"]);
    let joined: String = parts.concat().chars().filter(|c| !c.is_whitespace()).collect();
    let orig: String = text.chars().filter(|c| !c.is_whitespace()).collect();
    assert_eq!(joined, orig);
}

#[test]
fn note_boundary_of_a_name_is_a_byte_offset() {
    let e = extract_village_name("   1 Désa Semula wil Kec").unwrap();
    assert_eq!(e.name, "Désa");
    assert_eq!(e.note_boundary, Some(6));
    assert_eq!(e.note_keyword.as_deref(), Some("Semula"));
}

#[test]
fn district_notes_fold_unicode_case() {
    use_district_functions();
}

fn use_district_functions() {
    assert_eq!(
        strip_district_note("Bakongan peme\u{212A}aran wil"),
        ("Bakongan".to_string(), Some("peme\u{212A}aran wil".to_string()))
    );
    assert_eq!(
        try_strip_district_note("\u{2126}\u{2126}\u{2126} Koreksi batas"),
        None
    );
    assert_eq!(
        try_strip_district_note("Bakongan Koreksi batas"),
        Some(("Bakongan".to_string(), Some("Koreksi batas".to_string())))
    );
    assert_eq!(
        extract_suffix_note("7  \u{212A}oreksi batas".to_string()),
        Some("\u{212A}oreksi batas".to_string())
    );
    assert_eq!(try_extract_suffix_note("\u{2126}\u{2126}\u{2126} Koreksi".to_string()), None);
}

#[test]
fn parse_refuses_only_what_would_panic() {
    assert!(try_parse_villages("no kecamatan here\n").is_some());
}

#[test]
fn village_notes_fold_unicode_case() {
    let e = extract_village_name("   1 Desa Peng\u{212A}atan x").unwrap();
    assert_eq!(e.name, "Desa");
    assert_eq!(e.note_keyword.as_deref(), Some("Pengkatan"));
    assert_eq!(e.note_boundary, Some(5));
    assert!(try_extract_village_name("   1 \u{2126}\u{2126}\u{2126} Semula x").is_none());
    assert!(try_parse_villages("11.01.01.2001   1 \u{2126}\u{2126}\u{2126} Semula x\n").is_none());
    let vs = try_parse_villages("11.01.01.2001   1 Desa Semula x\n").unwrap();
    assert_eq!(vs.len(), 1);
    assert_eq!(vs[0].name, "Desa");
}

#[test]
fn capitalizing_twice_changes_nothing() {
    let mut s = "suka maju".to_string();
    capitalize_all_lowercase(&mut s);
    assert_eq!(s, "Suka Maju");
    capitalize_all_lowercase(&mut s);
    assert_eq!(s, "Suka Maju");
    let mut t = "123 456".to_string();
    capitalize_all_lowercase(&mut t);
    assert_eq!(t, "123 456");
}

#[test]
fn single_column_and_first_three_spaces() {
    assert_eq!(split_on_column_gap("  Kota  Baru "), vec!["Kota  Baru"]);
    assert_eq!(split_on_column_gap("   "), Vec::<String>::new());
    assert_eq!(find_column_gap("a  b    c   d"), "a  b    c   d".find("   "));
}
