//! Keyword tables used to tell administrative notes apart from names.
use vstd::prelude::*;

use crate::text::is_ascii_text;

verus! {

/// Keywords that always start a note, whatever follows them.
pub open spec fn self_validating_keywords() -> Seq<Seq<char>> {
    seq![
        "Semula"@,
        "Semual"@,
        "Semuila"@,
        "Smula"@,
        "Menjadi"@,
        "Berubah"@,
        "Penataan"@,
        "Pengkatan"@,
        "Penghapusan"@,
        "Lampiran"@,
        "Letak"@,
        "PMD"@,
    ]
}

/// The table of [`self_validating_keywords`] as string slices.
pub fn self_validating_keyword_list() -> (v: Vec<&'static str>)
    ensures
        v@.map_values(|s: &'static str| s@) == self_validating_keywords(),
{
    let v = vec![
        "Semula",
        "Semual",
        "Semuila",
        "Smula",
        "Menjadi",
        "Berubah",
        "Penataan",
        "Pengkatan",
        "Penghapusan",
        "Lampiran",
        "Letak",
        "PMD",
    ];
    assert(v@.map_values(|s: &'static str| s@) =~= self_validating_keywords());
    v
}

/// Keywords that start a note only when a reference-like pattern follows them
/// ("UU Jaya" is a name, "UU No. 4/2002" is a note).
pub open spec fn reference_validated_keywords() -> Seq<Seq<char>> {
    seq![
        "Perbaikan"@,
        "Pemekaran"@,
        "Qonun"@,
        "Qanun"@,
        "Koreksi"@,
        "Penggabungan"@,
        "Pembentukan"@,
        "Penetapan"@,
        "Perubahan"@,
        "Peningkatan"@,
        "Pemecahan"@,
        "Amar"@,
        "Perda"@,
        "Perbup"@,
        "Kepbup"@,
        "Berdasarkan"@,
        "PP"@,
        "UU"@,
        "ND"@,
        "Surat"@,
        "Srt"@,
        "Ds."@,
        "Afd."@,
        "wil. Kec"@,
        "wil Kec"@,
        "Nagari hasil"@,
        "Hal Hasil"@,
    ]
}

/// The table of [`reference_validated_keywords`] as string slices.
pub fn reference_validated_keyword_list() -> (v: Vec<&'static str>)
    ensures
        v@.map_values(|s: &'static str| s@) == reference_validated_keywords(),
{
    let v = vec![
        "Perbaikan",
        "Pemekaran",
        "Qonun",
        "Qanun",
        "Koreksi",
        "Penggabungan",
        "Pembentukan",
        "Penetapan",
        "Perubahan",
        "Peningkatan",
        "Pemecahan",
        "Amar",
        "Perda",
        "Perbup",
        "Kepbup",
        "Berdasarkan",
        "PP",
        "UU",
        "ND",
        "Surat",
        "Srt",
        "Ds.",
        "Afd.",
        "wil. Kec",
        "wil Kec",
        "Nagari hasil",
        "Hal Hasil",
    ];
    assert(v@.map_values(|s: &'static str| s@) =~= reference_validated_keywords());
    v
}

/// Patterns that confirm a keyword is followed by a reference and not part of a name.
pub open spec fn reference_indicators() -> Seq<Seq<char>> {
    seq![
        "no."@,
        "nomor"@,
        "nama"@,
        "wil"@,
        "menjadi"@,
        "sebagai"@,
        "desa"@,
        "gampong"@,
        "nagari"@,
        "kec."@,
        "kec "@,
        "dari"@,
        "perda"@,
        "perbup"@,
        "kepbup"@,
        "qanun"@,
        "qonun"@,
        "uu"@,
        "pmd"@,
        "pp"@,
        "pemekaran"@,
        "perbaikan"@,
        "penggabungan"@,
        "pembentukan"@,
        "penetapan"@,
        "perubahan"@,
        "koreksi"@,
        "amar"@,
        "putusan"@,
        "surat"@,
        "status"@,
        "hasil"@,
        "sebagian"@,
        "berdasarkan"@,
    ]
}

/// The table of [`reference_indicators`] as string slices.
pub fn reference_indicator_list() -> (v: Vec<&'static str>)
    ensures
        v@.map_values(|s: &'static str| s@) == reference_indicators(),
{
    let v = vec![
        "no.",
        "nomor",
        "nama",
        "wil",
        "menjadi",
        "sebagai",
        "desa",
        "gampong",
        "nagari",
        "kec.",
        "kec ",
        "dari",
        "perda",
        "perbup",
        "kepbup",
        "qanun",
        "qonun",
        "uu",
        "pmd",
        "pp",
        "pemekaran",
        "perbaikan",
        "penggabungan",
        "pembentukan",
        "penetapan",
        "perubahan",
        "koreksi",
        "amar",
        "putusan",
        "surat",
        "status",
        "hasil",
        "sebagian",
        "berdasarkan",
    ];
    assert(v@.map_values(|s: &'static str| s@) =~= reference_indicators());
    v
}

/// Note keywords that commonly appear in kecamatan annotation columns.
pub open spec fn district_note_keywords() -> Seq<Seq<char>> {
    seq![
        "Semula"@,
        "Semual"@,
        "Semuila"@,
        "Smula"@,
        "Menjadi"@,
        "Perbaikan"@,
        "Pemekaran"@,
        "Koreksi"@,
        "Perda"@,
        "Perbup"@,
        "Kepbup"@,
        "Berdasarkan"@,
        "PP"@,
        "UU"@,
        "Qanun"@,
        "Berubah"@,
        "Penataan"@,
        "Penghapusan"@,
        "Penggabungan"@,
        "Pembentukan"@,
    ]
}

/// The table of [`district_note_keywords`] as string slices.
pub fn district_note_keyword_list() -> (v: Vec<&'static str>)
    ensures
        v@.map_values(|s: &'static str| s@) == district_note_keywords(),
{
    let v = vec![
        "Semula",
        "Semual",
        "Semuila",
        "Smula",
        "Menjadi",
        "Perbaikan",
        "Pemekaran",
        "Koreksi",
        "Perda",
        "Perbup",
        "Kepbup",
        "Berdasarkan",
        "PP",
        "UU",
        "Qanun",
        "Berubah",
        "Penataan",
        "Penghapusan",
        "Penggabungan",
        "Pembentukan",
    ];
    assert(v@.map_values(|s: &'static str| s@) =~= district_note_keywords());
    v
}

/// The self-validating keywords are ASCII text.
pub proof fn lemma_self_validating_keywords_ascii()
    ensures
        forall|k: int| 0 <= k < self_validating_keywords().len() ==> is_ascii_text(#[trigger] self_validating_keywords()[k]),
{
    reveal_strlit("Semula");
    reveal_strlit("Semual");
    reveal_strlit("Semuila");
    reveal_strlit("Smula");
    reveal_strlit("Menjadi");
    reveal_strlit("Berubah");
    reveal_strlit("Penataan");
    reveal_strlit("Pengkatan");
    reveal_strlit("Penghapusan");
    reveal_strlit("Lampiran");
    reveal_strlit("Letak");
    reveal_strlit("PMD");
    assert forall|k: int| 0 <= k < self_validating_keywords().len() implies is_ascii_text(#[trigger] self_validating_keywords()[k]) by {
        let w = self_validating_keywords()[k];
        assert forall|i: int| 0 <= i < w.len() implies (#[trigger] w[i] as u32) < 0x80 by {}
    }
}

/// The reference-validated keywords are ASCII text.
pub proof fn lemma_reference_validated_keywords_ascii()
    ensures
        forall|k: int| 0 <= k < reference_validated_keywords().len() ==> is_ascii_text(#[trigger] reference_validated_keywords()[k]),
{
    reveal_strlit("Perbaikan");
    reveal_strlit("Pemekaran");
    reveal_strlit("Qonun");
    reveal_strlit("Qanun");
    reveal_strlit("Koreksi");
    reveal_strlit("Penggabungan");
    reveal_strlit("Pembentukan");
    reveal_strlit("Penetapan");
    reveal_strlit("Perubahan");
    reveal_strlit("Peningkatan");
    reveal_strlit("Pemecahan");
    reveal_strlit("Amar");
    reveal_strlit("Perda");
    reveal_strlit("Perbup");
    reveal_strlit("Kepbup");
    reveal_strlit("Berdasarkan");
    reveal_strlit("PP");
    reveal_strlit("UU");
    reveal_strlit("ND");
    reveal_strlit("Surat");
    reveal_strlit("Srt");
    reveal_strlit("Ds.");
    reveal_strlit("Afd.");
    reveal_strlit("wil. Kec");
    reveal_strlit("wil Kec");
    reveal_strlit("Nagari hasil");
    reveal_strlit("Hal Hasil");
    assert forall|k: int| 0 <= k < reference_validated_keywords().len() implies is_ascii_text(#[trigger] reference_validated_keywords()[k]) by {
        let w = reference_validated_keywords()[k];
        assert forall|i: int| 0 <= i < w.len() implies (#[trigger] w[i] as u32) < 0x80 by {}
    }
}

/// The district note keywords are ASCII text.
pub proof fn lemma_district_note_keywords_ascii()
    ensures
        forall|k: int| 0 <= k < district_note_keywords().len() ==> is_ascii_text(#[trigger] district_note_keywords()[k]),
{
    reveal_strlit("Semula");
    reveal_strlit("Semual");
    reveal_strlit("Semuila");
    reveal_strlit("Smula");
    reveal_strlit("Menjadi");
    reveal_strlit("Perbaikan");
    reveal_strlit("Pemekaran");
    reveal_strlit("Koreksi");
    reveal_strlit("Perda");
    reveal_strlit("Perbup");
    reveal_strlit("Kepbup");
    reveal_strlit("Berdasarkan");
    reveal_strlit("PP");
    reveal_strlit("UU");
    reveal_strlit("Qanun");
    reveal_strlit("Berubah");
    reveal_strlit("Penataan");
    reveal_strlit("Penghapusan");
    reveal_strlit("Penggabungan");
    reveal_strlit("Pembentukan");
    assert forall|k: int| 0 <= k < district_note_keywords().len() implies is_ascii_text(#[trigger] district_note_keywords()[k]) by {
        let w = district_note_keywords()[k];
        assert forall|i: int| 0 <= i < w.len() implies (#[trigger] w[i] as u32) < 0x80 by {}
    }
}

} // verus!
