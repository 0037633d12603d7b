use wilayah::builder::parse::{
    append_keterangan, fixup_district_notes, villages_for_output, ParseOutputDetail,
    VillageRecord,
};

fn record(code: &str, district: &str, note: Option<&str>, ket: Option<&str>) -> VillageRecord {
    VillageRecord {
        code: code.to_string(),
        name: "RAMBONG".to_string(),
        district: district.to_string(),
        city: "Aceh Selatan".to_string(),
        province: "Aceh".to_string(),
        raw_name: Some("RAMBONG Semula wil Kec. Bakongan".to_string()),
        note_keyword: Some("Semula".to_string()),
        note_boundary: Some(8),
        district_note: note.map(|s| s.to_string()),
        kel_count: Some(0),
        desa_count: Some(7),
        keterangan: ket.map(|s| s.to_string()),
    }
}

#[test]
fn test_villages_for_output_minimal() {
    let vs = vec![record("31.71.03.1001", "Bakongan", None, Some("x"))];
    let out = villages_for_output(&vs, &ParseOutputDetail::Minimal);
    assert_eq!(out.len(), 1);
    assert_eq!(out[0].code, "31.71.03.1001");
    assert_eq!(out[0].name, "RAMBONG");
    assert!(out[0].raw_name.is_none());
    assert!(out[0].note_keyword.is_none());
    assert!(out[0].kel_count.is_none());
    assert!(out[0].keterangan.is_none());
}

#[test]
fn test_villages_for_output_with_raw_name() {
    let vs = vec![record("31.71.03.1001", "Bakongan", None, Some("Semula wil"))];
    let out = villages_for_output(&vs, &ParseOutputDetail::WithRawName);
    assert_eq!(out[0].raw_name.as_deref(), Some("RAMBONG Semula wil Kec. Bakongan"));
    assert!(out[0].note_keyword.is_none());
    assert!(out[0].note_boundary.is_none());
    assert_eq!(out[0].kel_count, Some(0));
    assert_eq!(out[0].desa_count, Some(7));
    assert_eq!(out[0].keterangan.as_deref(), Some("Semula wil"));
}

#[test]
fn test_villages_for_output_full() {
    let vs = vec![record("31.71.03.1001", "Bakongan", None, None)];
    let out = villages_for_output(&vs, &ParseOutputDetail::Full);
    assert_eq!(out[0].note_keyword.as_deref(), Some("Semula"));
    assert_eq!(out[0].note_boundary, Some(8));
}

#[test]
fn test_append_keterangan_extends_last_only() {
    let mut vs = vec![
        record("11.01.01.2001", "Bakongan", None, Some("first")),
        record("11.01.01.2002", "Bakongan", None, Some("Perbaikan nama")),
    ];
    append_keterangan(&mut vs, "tgl 14 okt 2016");
    assert_eq!(vs[0].keterangan.as_deref(), Some("first"));
    assert_eq!(vs[1].keterangan.as_deref(), Some("Perbaikan nama tgl 14 okt 2016"));
}

#[test]
fn test_append_keterangan_starts_note() {
    let mut vs = vec![record("11.01.01.2001", "Bakongan", None, None)];
    append_keterangan(&mut vs, "tgl 14 okt 2016");
    assert_eq!(vs[0].keterangan.as_deref(), Some("tgl 14 okt 2016"));
}

#[test]
fn test_append_keterangan_empty_list() {
    let mut vs: Vec<VillageRecord> = Vec::new();
    append_keterangan(&mut vs, "text");
    assert!(vs.is_empty());
}

#[test]
fn test_fixup_district_notes_merges_suffix() {
    let mut vs = vec![
        record("11.01.01.2001", "Kluet Utar", Some("a"), None),
        record("11.01.01.2002", "Abenaho", Some("semula wil Prov."), None),
        record("11.01.01.2003", "Makbon", Some("Semula wil."), None),
    ];
    fixup_district_notes(&mut vs);
    assert_eq!(vs[0].district, "Kluet Utara");
    assert!(vs[0].district_note.is_none());
    assert_eq!(vs[1].district, "Abenaho");
    assert_eq!(vs[1].district_note.as_deref(), Some("semula wil Prov."));
    assert_eq!(vs[2].district, "Makbon");
    assert_eq!(vs[2].district_note.as_deref(), Some("Semula wil."));
}
