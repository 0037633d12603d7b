use wilayah::builder::islands::{
    extract_islands, parse_island_fields, parse_island_tail, parse_section_dc, IslandCoords,
};

/// Decimal degrees of a coordinate, south and west negative.
fn latitude(c: &IslandCoords) -> f64 {
    let deg: f64 = c.lat_deg.parse().unwrap();
    let min: f64 = c.lat_min.parse().unwrap();
    let sec: f64 = c.lat_sec.parse().unwrap();
    let v = deg + min / 60.0 + sec / 3600.0;
    if c.lat_dir == 'S' {
        -v
    } else {
        v
    }
}

#[test]
fn test_parse_section_dc_basic() {
    let text = "\
D.c. Rincian Kode dan Data Pulau Per Kabupaten/Kota Per Provinsi Seluruh Indonesia
D.c.1) Provinsi Aceh
 11.01           Kabupaten Aceh Selatan                              6
 11.01.40001      Pulau Batukapal                                              03°19'03.44\" U 097°07'41.73\" T   0.0006     TBP
 11.01.40002      Pulau Batutunggal                                            03°24'55.00\" U 097°04'21.00\" T   0.0078     TBP
 11.01.40004      Pulau Mangki                                                 02°54'25.11\" U 097°26'18.51\" T              TBP
 11.01.40006      Pulau Trumon                                                 02°48'34.67\" U 097°35'36.51\" T              TBP
 11.06.40017      Pulau Breueh                                                 05°37'28.89\" U 095°09'18.31\" T   27.2422     BP
 11.06.40018      Pulau Bukulah Utara                                          05°37'29.97\" U 095°03'04.38\" T    0.0019
 11.06.40034      Pulau Rusa                                    05°16'39.00\" U 095°12'20.00\" T    0.2744    TBP     (PPKT)
";
    let islands = parse_section_dc(text);
    assert!(
        islands.len() >= 6,
        "expected at least 6 islands, got {}",
        islands.len()
    );

    let batukapal = islands.iter().find(|i| i.code == "11.01.40001").unwrap();
    assert_eq!(batukapal.name, "Pulau Batukapal");
    assert_eq!(batukapal.kabupaten_code, "11.01");
    assert!(batukapal.coords.is_some());
    assert!(batukapal.area_km2.is_some());
    assert_eq!(batukapal.status.as_deref(), Some("TBP"));
    assert!(batukapal.keterangan.is_none());

    let breueh = islands.iter().find(|i| i.code == "11.06.40017").unwrap();
    assert_eq!(breueh.name, "Pulau Breueh");
    assert_eq!(breueh.status.as_deref(), Some("BP"));
    assert!(breueh.area_km2.is_some());
    let area: f64 = breueh.area_km2.as_ref().unwrap().parse().unwrap();
    assert!((area - 27.2422).abs() < 0.01);

    let bukulah = islands.iter().find(|i| i.code == "11.06.40018").unwrap();
    assert_eq!(bukulah.name, "Pulau Bukulah Utara");
    assert!(bukulah.area_km2.is_some());
    assert!(bukulah.status.is_none());

    let rusa = islands.iter().find(|i| i.code == "11.06.40034").unwrap();
    assert_eq!(rusa.status.as_deref(), Some("TBP"));
    assert_eq!(rusa.keterangan.as_deref(), Some("(PPKT)"));
}

#[test]
fn test_parse_section_dc_southern_hemisphere() {
    let text = "\
 96.01           Kabupaten Sorong                                   122
 96.01.40063      Pulau Mokon                                   01°10'13.01\" S 130°37'37.80\" T   0.0582     TBP
";
    let islands = parse_section_dc(text);
    assert_eq!(islands.len(), 1);
    let mokon = &islands[0];
    assert_eq!(mokon.code, "96.01.40063");
    let lat = latitude(mokon.coords.as_ref().unwrap());
    assert!(
        lat < 0.0,
        "Southern hemisphere latitude should be negative, got {}",
        lat
    );
}

#[test]
fn test_parse_island_tail_with_area_and_status() {
    let tail = "03°19'03.44\" U 097°07'41.73\" T   0.0006     TBP";
    let t = parse_island_tail(tail);
    assert!(t.coords.is_some());
    assert!(t.fields.area_km2.is_some());
    assert_eq!(t.fields.status.as_deref(), Some("TBP"));
    assert!(t.fields.keterangan.is_none());
}

#[test]
fn test_parse_island_tail_no_area() {
    let tail = "02°54'25.11\" U 097°26'18.51\" T              TBP";
    let t = parse_island_tail(tail);
    assert!(t.coords.is_some());
    assert!(t.fields.area_km2.is_none());
    assert_eq!(t.fields.status.as_deref(), Some("TBP"));
    assert!(t.fields.keterangan.is_none());
}

#[test]
fn test_parse_island_tail_with_keterangan() {
    let tail = "05°16'39.00\" U 095°12'20.00\" T    0.2744    TBP     (PPKT)";
    let t = parse_island_tail(tail);
    assert!(t.fields.area_km2.is_some());
    assert_eq!(t.fields.status.as_deref(), Some("TBP"));
    assert_eq!(t.fields.keterangan.as_deref(), Some("(PPKT)"));
}

#[test]
fn test_parse_island_tail_only_coords() {
    let tail = "01°26'12.52\" S 131°58'41.87\" T";
    let t = parse_island_tail(tail);
    assert!(t.coords.is_some());
    assert!(t.fields.area_km2.is_none());
    assert!(t.fields.status.is_none());
    assert!(t.fields.keterangan.is_none());
}

#[test]
fn test_parse_island_fields_area_then_status() {
    let f = parse_island_fields("0.0006     TBP");
    assert!(f.area_km2.is_some());
    assert_eq!(f.status.as_deref(), Some("TBP"));
    assert!(f.keterangan.is_none());
}

#[test]
fn test_parse_island_fields_status_only() {
    let f = parse_island_fields("TBP");
    assert!(f.area_km2.is_none());
    assert_eq!(f.status.as_deref(), Some("TBP"));
    assert!(f.keterangan.is_none());
}

#[test]
fn test_parse_island_fields_status_then_keterangan() {
    let f = parse_island_fields("TBP     Alokasi pulau pindah ke Kota Sibolga");
    assert!(f.area_km2.is_none());
    assert_eq!(f.status.as_deref(), Some("TBP"));
    assert_eq!(f.keterangan.as_deref(), Some("Alokasi pulau pindah ke Kota Sibolga"));
}

#[test]
fn test_parse_island_fields_empty() {
    let f = parse_island_fields("");
    assert!(f.area_km2.is_none());
    assert!(f.status.is_none());
    assert!(f.keterangan.is_none());
}

#[test]
fn test_island_coordinates_parts() {
    let t = parse_island_tail("pre 03°19'03.44\" U 097°07'41.73\" T");
    let c = t.coords.unwrap();
    assert_eq!(c.lat_deg, "03");
    assert_eq!(c.lat_min, "19");
    assert_eq!(c.lat_sec, "03.44");
    assert_eq!(c.lat_dir, 'U');
    assert_eq!(c.lon_deg, "097");
    assert_eq!(c.lon_min, "07");
    assert_eq!(c.lon_sec, "41.73");
    assert_eq!(c.lon_dir, 'T');
}

#[test]
fn test_island_tail_without_coordinates() {
    let t = parse_island_tail("0.5 TBP");
    assert!(t.coords.is_none());
    assert!(t.fields.area_km2.is_none());
    assert!(t.fields.status.is_none());
}

#[test]
fn test_island_fields_float_forms() {
    assert_eq!(parse_island_fields("1e3 x").area_km2.as_deref(), Some("1e3"));
    assert_eq!(parse_island_fields(".5").area_km2.as_deref(), Some(".5"));
    assert_eq!(parse_island_fields("inf").area_km2.as_deref(), Some("inf"));
    assert!(parse_island_fields("1.2.3").area_km2.is_none());
    assert_eq!(parse_island_fields("1.2.3").keterangan.as_deref(), Some("1.2.3"));
    assert!(parse_island_fields("e5").area_km2.is_none());
}

#[test]
fn test_codeless_island_line() {
    let text = "\
 11.01           Kabupaten Aceh Selatan                              6
                  Pulau Tanpa Kode                              03°19'03.44\" U 097°07'41.73\" T   0.5
";
    let islands = parse_section_dc(text);
    assert_eq!(islands.len(), 1);
    assert_eq!(islands[0].code, "11.01.XXXXX");
    assert_eq!(islands[0].name, "Pulau Tanpa Kode");
    assert_eq!(islands[0].kabupaten_code, "11.01");
    assert_eq!(islands[0].area_km2.as_deref(), Some("0.5"));
}

#[test]
fn test_extract_islands_both_sections() {
    let text = "\
 D.b.1) Provinsi Aceh
  1    11.01   Kabupaten Aceh Selatan                             6
 11.01           Kabupaten Aceh Selatan                              6
 11.01.40001      Pulau Batukapal                                              03°19'03.44\" U 097°07'41.73\" T   0.0006     TBP
";
    let (summaries, islands) = extract_islands(text);
    assert_eq!(summaries.len(), 1);
    assert_eq!(summaries[0].province, "Aceh");
    assert_eq!(islands.len(), 1);
    assert_eq!(islands[0].code, "11.01.40001");
}
