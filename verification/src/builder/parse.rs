//! Parsing village records out of the decree text.
use vstd::prelude::*;

use crate::builder::district::{
    district_of, district_ok, extract_district_name, extract_district_name_checked, opt_view,
};
use crate::builder::keywords::{district_note_keyword_list, district_note_keywords};
use crate::builder::lines::{
    kecamatan_line, kecamatan_line_exec, section_header, section_header_chars, village_code_shape,
    village_line, village_line_exec,
};
use crate::builder::village::{
    continuation, continuation_chars, extract_village_name_chars, extracted_name, name_ok,
};
use crate::unicode::{str_to_lowercase, unicode_lower};
use crate::text::{
    chars_within, chars_within_exec, char_is_ascii_lower, is_ascii_text, copy_range, is_ascii_lower, is_byte_boundary,
    line_ranges, lines_from, lower, lower_chars,
    occurs_at, occurs_at_exec, push_char, string_of_chars, to_chars,
};

verus! {

/// A parsed village record from the decree text.
pub struct VillageRecord {
    pub code: String,
    pub name: String,
    pub district: String,
    pub city: String,
    pub province: String,
    pub raw_name: Option<String>,
    pub note_keyword: Option<String>,
    pub note_boundary: Option<usize>,
    pub district_note: Option<String>,
    pub kel_count: Option<u32>,
    pub desa_count: Option<u32>,
    pub keterangan: Option<String>,
}

/// The model of a village record.
pub struct VillageModel {
    pub code: Seq<char>,
    pub name: Seq<char>,
    pub district: Seq<char>,
    pub city: Seq<char>,
    pub province: Seq<char>,
    pub raw_name: Option<Seq<char>>,
    pub note_keyword: Option<Seq<char>>,
    pub note_boundary: Option<int>,
    pub district_note: Option<Seq<char>>,
    pub kel_count: Option<u32>,
    pub desa_count: Option<u32>,
    pub keterangan: Option<Seq<char>>,
}

impl View for VillageRecord {
    type V = VillageModel;

    open spec fn view(&self) -> VillageModel {
        VillageModel {
            code: self.code@,
            name: self.name@,
            district: self.district@,
            city: self.city@,
            province: self.province@,
            raw_name: opt_view(self.raw_name),
            note_keyword: opt_view(self.note_keyword),
            note_boundary: match self.note_boundary {
                Some(p) => Some(p as int),
                None => None,
            },
            district_note: opt_view(self.district_note),
            kel_count: self.kel_count,
            desa_count: self.desa_count,
            keterangan: opt_view(self.keterangan),
        }
    }
}

/// The models of a sequence of village records.
pub open spec fn village_models(vs: Seq<VillageRecord>) -> Seq<VillageModel> {
    vs.map_values(|v: VillageRecord| v@)
}

pub fn clone_opt_string(o: &Option<String>) -> (r: Option<String>)
    ensures
        opt_view(r) == opt_view(*o),
{
    match o {
        Some(s) => Some(s.clone()),
        None => None,
    }
}

// ---------------------------------------------------------------------------
// Continuation text
// ---------------------------------------------------------------------------
/// `keterangan` extended by `text`: joined with a space to what is there.
pub open spec fn extended_keterangan(k: Option<Seq<char>>, text: Seq<char>) -> Option<Seq<char>> {
    match k {
        Some(kt) => Some(kt + seq![' '] + text),
        None => Some(text),
    }
}

/// Continuation text appended to the annotation of the last record.
pub open spec fn append_to_last(vs: Seq<VillageModel>, text: Seq<char>) -> Seq<VillageModel> {
    if vs.len() == 0 {
        vs
    } else {
        let last = vs.last();
        vs.update(
            vs.len() - 1,
            VillageModel { keterangan: extended_keterangan(last.keterangan, text), ..last },
        )
    }
}

/// The annotation `k` with `text` appended after a space (or `text` alone).
pub fn extend_keterangan(k: Option<String>, text: &str) -> (r: Option<String>)
    ensures
        opt_view(r) == extended_keterangan(opt_view(k), text@),
{
    match k {
        Some(kt) => {
            let mut kt = kt;
            push_char(&mut kt, ' ');
            let tc = to_chars(text);
            crate::text::append_range(&mut kt, tc.as_slice(), 0, tc.len());
            proof {
                assert(tc@.subrange(0, tc@.len() as int) =~= tc@);
            }
            Some(kt)
        },
        None => {
            let tc = to_chars(text);
            Some(string_of_chars(tc.as_slice()))
        },
    }
}

/// Appends continuation text to the annotation of the last village record.
pub fn append_keterangan(items: &mut Vec<VillageRecord>, text: &str)
    ensures
        village_models(final(items)@) == append_to_last(village_models(old(items)@), text@),
{
    let ghost before = village_models(items@);
    if items.len() == 0 {
        return;
    }
    let ghost pre = items@;
    let mut last = items.pop().unwrap();
    proof {
        assert(last == pre.last());
        assert(village_models(items@) =~= before.drop_last());
    }
    let new_k = match last.keterangan {
        Some(kt) => {
            let mut kt = kt;
            push_char(&mut kt, ' ');
            let tc = to_chars(text);
            crate::text::append_range(&mut kt, tc.as_slice(), 0, tc.len());
            proof {
                assert(tc@.subrange(0, tc@.len() as int) =~= tc@);
            }
            Some(kt)
        },
        None => {
            let tc = to_chars(text);
            Some(string_of_chars(tc.as_slice()))
        },
    };
    proof {
        assert(opt_view(new_k) == extended_keterangan(before.last().keterangan, text@));
    }
    last.keterangan = new_k;
    let ghost mid = village_models(items@);
    items.push(last);
    proof {
        assert(village_models(items@) =~= mid.push(last@));
        assert(append_to_last(before, text@) =~= before.drop_last().push(last@));
    }
}

// ---------------------------------------------------------------------------
// District notes that are part of the name
// ---------------------------------------------------------------------------
/// The note starts with one of the district note keywords, both in Unicode
/// lowercase.
pub open spec fn is_real_note(note: Seq<char>) -> bool {
    exists|k: int|
        0 <= k < district_note_keywords().len() && {
            let kl = unicode_lower(#[trigger] district_note_keywords()[k]);
            let nl = unicode_lower(note);
            kl.len() <= nl.len() && nl.subrange(0, kl.len() as int) == kl
        }
}

/// A district note that starts in lowercase (or is empty) and does not start
/// with a note keyword is the tail of the district name: it is merged back.
pub open spec fn fixed_up(v: VillageModel) -> VillageModel {
    match v.district_note {
        Some(note) => if (note.len() == 0 || is_ascii_lower(note[0])) && !is_real_note(note) {
            VillageModel { district: v.district + note, district_note: None, ..v }
        } else {
            v
        },
        None => v,
    }
}

/// [`is_real_note`] with ASCII case folding.
pub open spec fn is_real_note_ascii(note: Seq<char>) -> bool {
    exists|k: int|
        0 <= k < district_note_keywords().len() && {
            let kl = lower(#[trigger] district_note_keywords()[k]);
            let nl = lower(note);
            kl.len() <= nl.len() && nl.subrange(0, kl.len() as int) == kl
        }
}

/// [`fixed_up`] with ASCII case folding: what the fix-up does to a record whose
/// note is ASCII text.
pub open spec fn fixed_up_ascii(v: VillageModel) -> VillageModel {
    match v.district_note {
        Some(note) => if (note.len() == 0 || is_ascii_lower(note[0])) && !is_real_note_ascii(note) {
            VillageModel { district: v.district + note, district_note: None, ..v }
        } else {
            v
        },
        None => v,
    }
}

/// The record's district note, if any, is ASCII text.
pub open spec fn ascii_note(v: VillageModel) -> bool {
    v.district_note matches Some(n) ==> is_ascii_text(n)
}

fn is_real_note_exec(note: &str) -> (b: bool)
    ensures
        b == is_real_note(note@),
        is_ascii_text(note@) ==> b == is_real_note_ascii(note@),
{
    let nls = str_to_lowercase(note);
    let nl = to_chars(nls.as_str());
    let kws = district_note_keyword_list();
    let kls = crate::builder::notes::unicode_lower_keywords(kws.as_slice());
    proof {
        crate::builder::keywords::lemma_district_note_keywords_ascii();
        let d = district_note_keywords();
        assert forall|k: int| 0 <= k < d.len() implies #[trigger] unicode_lower(d[k]) == lower(
            d[k],
        ) by {
            assert(kws@[k]@ == d[k]);
            assert(crate::builder::notes::char_views(kls@)[k] == kls@[k]@);
            assert(crate::builder::notes::unicode_lower_all(d)[k] == unicode_lower(d[k]));
        }
    }
    let mut k: usize = 0;
    while k < kls.len()
        invariant
            k <= kls@.len(),
            kls@.len() == district_note_keywords().len(),
            crate::builder::notes::char_views(kls@) == crate::builder::notes::unicode_lower_all(
                district_note_keywords(),
            ),
            nl@ == unicode_lower(note@),
            forall|j: int|
                0 <= j < k ==> !({
                    let kl = unicode_lower(#[trigger] district_note_keywords()[j]);
                    kl.len() <= nl@.len() && nl@.subrange(0, kl.len() as int) == kl
                }),
            forall|j: int|
                0 <= j < district_note_keywords().len() ==> #[trigger] unicode_lower(
                    district_note_keywords()[j],
                ) == lower(district_note_keywords()[j]),
            is_ascii_text(note@) ==> nl@ == lower(note@),
        decreases kls@.len() - k,
    {
        proof {
            let d = district_note_keywords();
            assert(crate::builder::notes::char_views(kls@)[k as int] == kls@[k as int]@);
            assert(crate::builder::notes::unicode_lower_all(d)[k as int] == unicode_lower(
                d[k as int],
            ));
        }
        if occurs_at_exec(nl.as_slice(), 0, kls[k].as_slice()) {
            proof {
                let d = district_note_keywords();
                assert(unicode_lower(d[k as int]) == lower(d[k as int]));
            }
            return true;
        }
        k = k + 1;
    }
    false
}

/// Merges district notes that are really the tail of the district name back into it.
pub fn fixup_district_notes(villages: &mut Vec<VillageRecord>)
    ensures
        village_models(final(villages)@) == village_models(old(villages)@).map_values(
            |v: VillageModel| fixed_up(v),
        ),
        forall|i: int|
            0 <= i < old(villages)@.len() && ascii_note(#[trigger] old(villages)@[i]@)
                ==> final(villages)@[i]@ == fixed_up_ascii(old(villages)@[i]@),
{
    let ghost before = village_models(villages@);
    let mut out: Vec<VillageRecord> = Vec::new();
    let mut rest: Vec<VillageRecord> = Vec::new();
    while villages.len() > 0
        invariant
            village_models(villages@) == before.subrange(0, villages@.len() as int),
            rest@.len() + villages@.len() == before.len(),
            forall|j: int|
                0 <= j < rest@.len() ==> (#[trigger] rest@[j])@ == before[before.len() - 1 - j],
        decreases villages@.len(),
    {
        let ghost pre = villages@;
        let v = villages.pop().unwrap();
        proof {
            assert(v == pre.last());
            assert(village_models(pre)[pre.len() - 1] == v@);
            assert(v@ == before[villages@.len() as int]);
            assert(village_models(villages@) =~= before.subrange(0, villages@.len() as int));
        }
        rest.push(v);
    }
    while rest.len() > 0
        invariant
            out@.len() + rest@.len() == before.len(),
            forall|j: int|
                0 <= j < rest@.len() ==> (#[trigger] rest@[j])@ == before[before.len() - 1 - j],
            forall|j: int| 0 <= j < out@.len() ==> (#[trigger] out@[j])@ == fixed_up(before[j]),
            forall|j: int|
                0 <= j < out@.len() && ascii_note(before[j]) ==> (#[trigger] out@[j])@
                    == fixed_up_ascii(before[j]),
        decreases rest@.len(),
    {
        let mut v = rest.pop().unwrap();
        let ghost idx = out@.len() as int;
        proof {
            assert(v@ == before[idx]);
        }
        let merge = match &v.district_note {
            Some(note) => {
                let nc = to_chars(note.as_str());
                (nc.len() == 0 || char_is_ascii_lower(nc[0])) && !is_real_note_exec(note.as_str())
            },
            None => false,
        };
        if merge {
            let note = match v.district_note {
                Some(n) => n,
                None => String::new(),
            };
            let nc = to_chars(note.as_str());
            let mut d = v.district;
            crate::text::append_range(&mut d, nc.as_slice(), 0, nc.len());
            proof {
                assert(nc@.subrange(0, nc@.len() as int) =~= nc@);
            }
            v.district = d;
            v.district_note = None;
        }
        proof {
            assert(v@ == fixed_up(before[idx]));
            assert(ascii_note(before[idx]) ==> v@ == fixed_up_ascii(before[idx]));
        }
        out.push(v);
    }
    *villages = out;
    proof {
        assert(village_models(villages@) =~= before.map_values(|v: VillageModel| fixed_up(v)));
        assert forall|i: int|
            0 <= i < before.len() && ascii_note(before[i]) implies villages@[i]@ == fixed_up_ascii(
            before[i],
        ) by {
            assert(village_models(villages@)[i] == villages@[i]@);
        }
    }
}

// ---------------------------------------------------------------------------
// The line-by-line parse
// ---------------------------------------------------------------------------
/// What the parser remembers between lines.
pub struct ParseState {
    pub province: Seq<char>,
    pub city: Seq<char>,
    pub district_code: Seq<char>,
    pub district_name: Seq<char>,
    pub district_note: Option<Seq<char>>,
    pub kel_count: Option<u32>,
    pub desa_count: Option<u32>,
    pub villages: Seq<VillageModel>,
}

pub open spec fn initial_state() -> ParseState {
    ParseState {
        province: Seq::empty(),
        city: Seq::empty(),
        district_code: Seq::empty(),
        district_name: Seq::empty(),
        district_note: None,
        kel_count: None,
        desa_count: None,
        villages: Seq::empty(),
    }
}

/// One line of the parse. A section header sets the province and city and
/// forgets the district; a kecamatan line sets the district; a village line
/// yields a record (when a name can be extracted) under the current district,
/// city and province; a continuation line extends the last record's annotation.
pub open spec fn parse_step(st: ParseState, line: Seq<char>) -> ParseState {
    match section_header(line) {
        Some(h) => ParseState {
            province: h.1,
            city: h.0,
            district_code: Seq::empty(),
            district_name: Seq::empty(),
            district_note: None,
            kel_count: None,
            desa_count: None,
            villages: st.villages,
        },
        None => match kecamatan_line(line) {
            Some(a) => {
                let d = district_of(line);
                ParseState {
                    district_code: line.subrange(a, a + 8),
                    district_name: d.name,
                    district_note: d.note,
                    kel_count: d.kel_count,
                    desa_count: d.desa_count,
                    ..st
                }
            },
            None => if village_line(line) {
                let code = line.subrange(0, 13);
                let dcode = code.subrange(0, 8);
                match extracted_name(line.subrange(13, line.len() as int)) {
                    Some(e) => ParseState {
                        district_code: dcode,
                        villages: st.villages.push(
                            VillageModel {
                                code,
                                name: e.name,
                                district: if st.district_name.len() == 0 {
                                    dcode
                                } else {
                                    st.district_name
                                },
                                city: st.city,
                                province: st.province,
                                raw_name: e.raw_name,
                                note_keyword: e.note_keyword,
                                note_boundary: e.note_boundary,
                                district_note: st.district_note,
                                kel_count: st.kel_count,
                                desa_count: st.desa_count,
                                keterangan: e.keterangan,
                            },
                        ),
                        ..st
                    },
                    None => ParseState { district_code: dcode, ..st },
                }
            } else {
                match continuation(line) {
                    Some(c) => ParseState { villages: append_to_last(st.villages, c), ..st },
                    None => st,
                }
            },
        },
    }
}

/// The parser state after the first `k` lines of `text`.
pub open spec fn parse_lines(text: Seq<char>, k: int) -> ParseState
    decreases k,
{
    if k <= 0 {
        initial_state()
    } else {
        let r = lines_from(text, 0)[k - 1];
        parse_step(parse_lines(text, k - 1), text.subrange(r.0, r.1))
    }
}

/// The village records parsed from `text`, with district notes fixed up.
pub open spec fn parsed_villages(text: Seq<char>) -> Seq<VillageModel> {
    parse_lines(text, lines_from(text, 0).len() as int).villages.map_values(
        |v: VillageModel| fixed_up(v),
    )
}

/// Parser for village records in the decree text.
pub struct VillageParser {}

impl VillageParser {
    /// Creates a new parser.
    pub fn new() -> (r: Self)
        ensures
            r == (VillageParser {  }),
    {
        VillageParser {  }
    }

    /// Parses village records from the decree text.
    pub fn parse(&self, text: &str) -> (r: Vec<VillageRecord>)
        requires
            kecamatan_lines_ok(text@),
        ensures
            village_models(r@) == parsed_villages(text@),
    {
        let s = to_chars(text);
        let ranges = line_ranges(s.as_slice());
        let ghost lr = lines_from(s@, 0);
        let mut province: Vec<char> = Vec::new();
        let mut city: Vec<char> = Vec::new();
        let mut dcode: Vec<char> = Vec::new();
        let mut dname: Vec<char> = Vec::new();
        let mut dnote: Option<Vec<char>> = None;
        let mut kel: Option<u32> = None;
        let mut desa: Option<u32> = None;
        let mut villages: Vec<VillageRecord> = Vec::new();
        let mut k: usize = 0;
        while k < ranges.len()
            invariant
                k <= ranges@.len(),
                s@ == text@,
                lr == lines_from(s@, 0),
                ranges@.len() == lr.len(),
                forall|j: int|
                    0 <= j < ranges@.len() ==> (#[trigger] ranges@[j]).0 == lr[j].0 && ranges@[j].1
                        == lr[j].1,
                forall|j: int| 0 <= j < ranges@.len() ==> (#[trigger] ranges@[j]).0 <= ranges@[j].1 <= s@.len(),
                kecamatan_lines_ok(s@),
                ({
                    let st = parse_lines(s@, k as int);
                    &&& st.province == province@
                    &&& st.city == city@
                    &&& st.district_code == dcode@
                    &&& st.district_name == dname@
                    &&& st.district_note == crate::builder::village::opt_vec_view(dnote)
                    &&& st.kel_count == kel
                    &&& st.desa_count == desa
                    &&& st.villages == village_models(villages@)
                }),
            decreases ranges@.len() - k,
        {
            let (a, b) = ranges[k];
            let line = copy_range(s.as_slice(), a, b);
            let ghost st = parse_lines(s@, k as int);
            proof {
                assert(parse_lines(s@, k + 1) == parse_step(st, line@));
            }
            match section_header_chars(line.as_slice()) {
                Some((c, p)) => {
                    province = p;
                    city = c;
                    dcode = Vec::new();
                    dname = Vec::new();
                    dnote = None;
                    kel = None;
                    desa = None;
                },
                None => match kecamatan_line_exec(line.as_slice()) {
                    Some(ca) => {
                        proof {
                            assert(kecamatan_line(line@) is Some);
                        }
                        dcode = copy_range(line.as_slice(), ca, ca + 8);
                        let ls = string_of_chars(line.as_slice());
                        proof {
                            assert(line_ok(s@, k as int));
                            assert(line@ == s@.subrange(lr[k as int].0, lr[k as int].1));
                        }
                        let d = extract_district_name(ls.as_str());
                        dname = to_chars(d.name.as_str());
                        dnote = match d.note {
                            Some(n) => Some(to_chars(n.as_str())),
                            None => None,
                        };
                        kel = d.kel_count;
                        desa = d.desa_count;
                    },
                    None => if village_line_exec(line.as_slice()) {
                        let code = copy_range(line.as_slice(), 0, 13);
                        let dc = copy_range(code.as_slice(), 0, 8);
                        let after = copy_range(line.as_slice(), 13, line.len());
                        dcode = dc;
                        proof {
                            assert(line_ok(s@, k as int));
                            assert(line@ == s@.subrange(lr[k as int].0, lr[k as int].1));
                        }
                        let en = match extract_village_name_chars(after.as_slice()) {
                            Some(x) => x,
                            None => {
                                proof {
                                    assert(false);
                                }
                                None
                            },
                        };
                        match en {
                            Some(e) => {
                                let district = if dname.len() == 0 {
                                    string_of_chars(dcode.as_slice())
                                } else {
                                    string_of_chars(dname.as_slice())
                                };
                                let district_note = match &dnote {
                                    Some(n) => Some(string_of_chars(n.as_slice())),
                                    None => None,
                                };
                                let rec = VillageRecord {
                                    code: string_of_chars(code.as_slice()),
                                    name: e.name,
                                    district,
                                    city: string_of_chars(city.as_slice()),
                                    province: string_of_chars(province.as_slice()),
                                    raw_name: e.raw_name,
                                    note_keyword: e.note_keyword,
                                    note_boundary: e.note_boundary,
                                    district_note,
                                    kel_count: kel,
                                    desa_count: desa,
                                    keterangan: e.keterangan,
                                };
                                let ghost before = village_models(villages@);
                                villages.push(rec);
                                proof {
                                    assert(village_models(villages@) =~= before.push(rec@));
                                }
                            },
                            None => {},
                        }
                    } else {
                        match continuation_chars(line.as_slice()) {
                            Some(c) => {
                                let cs = string_of_chars(c.as_slice());
                                append_keterangan(&mut villages, cs.as_str());
                            },
                            None => {},
                        }
                    },
                },
            }
            k = k + 1;
        }
        fixup_district_notes(&mut villages);
        villages
    }
}

/// The `k`-th line of `text` can have its notes cut: as a kecamatan line (see
/// [`district_ok`]) or as a village line (see [`name_ok`]).
pub open spec fn line_ok(text: Seq<char>, k: int) -> bool {
    let r = lines_from(text, 0)[k];
    let l = text.subrange(r.0, r.1);
    &&& (section_header(l) is None && kecamatan_line(l) is Some) ==> district_ok(l)
    &&& (section_header(l) is None && kecamatan_line(l) is None && village_line(l)) ==> name_ok(
        l.subrange(13, l.len() as int),
    )
}

/// Every kecamatan and village line of `text` can have its notes cut: the parse
/// does not panic.
pub open spec fn kecamatan_lines_ok(text: Seq<char>) -> bool {
    forall|k: int| 0 <= k < lines_from(text, 0).len() ==> #[trigger] line_ok(text, k)
}

/// Parses village records from the decree text.
pub fn parse_villages(text: &str) -> (r: Vec<VillageRecord>)
    requires
        kecamatan_lines_ok(text@),
    ensures
        village_models(r@) == parsed_villages(text@),
{
    VillageParser::new().parse(text)
}

/// [`parse_villages`] on any text: `None` where a note of a kecamatan or village
/// line would be cut inside a character.
pub fn try_parse_villages(text: &str) -> (r: Option<Vec<VillageRecord>>)
    ensures
        r is Some <==> kecamatan_lines_ok(text@),
        r matches Some(v) ==> village_models(v@) == parsed_villages(text@),
{
    let s = to_chars(text);
    let ranges = line_ranges(s.as_slice());
    let ghost lr = lines_from(s@, 0);
    let mut k: usize = 0;
    while k < ranges.len()
        invariant
            k <= ranges@.len(),
            s@ == text@,
            lr == lines_from(s@, 0),
            ranges@.len() == lr.len(),
            forall|j: int|
                0 <= j < ranges@.len() ==> (#[trigger] ranges@[j]).0 == lr[j].0 && ranges@[j].1
                    == lr[j].1,
            forall|j: int| 0 <= j < ranges@.len() ==> (#[trigger] ranges@[j]).0 <= ranges@[j].1 <= s@.len(),
            forall|j: int| 0 <= j < k ==> #[trigger] line_ok(s@, j),
        decreases ranges@.len() - k,
    {
        let (a, b) = ranges[k];
        let line = copy_range(s.as_slice(), a, b);
        let ok = match section_header_chars(line.as_slice()) {
            Some(_) => true,
            None => match kecamatan_line_exec(line.as_slice()) {
                Some(_) => {
                    let ls = string_of_chars(line.as_slice());
                    extract_district_name_checked(ls.as_str()).is_some()
                },
                None => if village_line_exec(line.as_slice()) {
                    let after = copy_range(line.as_slice(), 13, line.len());
                    extract_village_name_chars(after.as_slice()).is_some()
                } else {
                    true
                },
            },
        };
        proof {
            assert(line@ == s@.subrange(lr[k as int].0, lr[k as int].1));
        }
        if !ok {
            proof {
                assert(!line_ok(s@, k as int));
            }
            return None;
        }
        proof {
            assert(line_ok(s@, k as int));
        }
        k = k + 1;
    }
    Some(parse_villages(text))
}

// ---------------------------------------------------------------------------
// Laws of the village parse
// ---------------------------------------------------------------------------
/// Every record the parse state holds carries a village code of the
/// `XX.XX.XX.XXXX` shape.
pub open spec fn all_village_codes(vs: Seq<VillageModel>) -> bool {
    forall|i: int| 0 <= i < vs.len() ==> village_code_shape(#[trigger] vs[i].code)
}

proof fn lemma_parse_lines_codes(text: Seq<char>, k: int)
    requires
        0 <= k <= lines_from(text, 0).len(),
    ensures
        all_village_codes(parse_lines(text, k).villages),
    decreases k,
{
    if k > 0 {
        lemma_parse_lines_codes(text, k - 1);
        let st = parse_lines(text, k - 1);
        let r = lines_from(text, 0)[k - 1];
        let line = text.subrange(r.0, r.1);
        let nx = parse_step(st, line);
        assert(nx == parse_lines(text, k));
        if section_header(line) is None && kecamatan_line(line) is None && village_line(line) {
            assert forall|i: int| 0 <= i < nx.villages.len() implies village_code_shape(
                #[trigger] nx.villages[i].code,
            ) by {
                if i < st.villages.len() {
                    assert(nx.villages[i] == st.villages[i]);
                }
            }
        } else if section_header(line) is None && kecamatan_line(line) is None {
            match continuation(line) {
                Some(c) => {
                    assert forall|i: int| 0 <= i < nx.villages.len() implies village_code_shape(
                        #[trigger] nx.villages[i].code,
                    ) by {
                        assert(nx.villages[i].code == st.villages[i].code);
                    }
                },
                None => {},
            }
        }
    }
}

/// The `j`-th line of `text`.
pub open spec fn line_at(text: Seq<char>, j: int) -> Seq<char> {
    let r = lines_from(text, 0)[j];
    text.subrange(r.0, r.1)
}

/// The kelurahan and desa counts in force before line `j`: those that
/// `extract_district_name` reads from the last kecamatan line before it, unless
/// a section header comes after that line (or there is no such line).
pub open spec fn counts_before(text: Seq<char>, j: int) -> (Option<u32>, Option<u32>)
    decreases j,
{
    if j <= 0 {
        (None, None)
    } else {
        let l = line_at(text, j - 1);
        if section_header(l) is Some {
            (None, None)
        } else if kecamatan_line(l) is Some {
            (district_of(l).kel_count, district_of(l).desa_count)
        } else {
            counts_before(text, j - 1)
        }
    }
}

/// The regency/city and the province of the last section header before line
/// `j` (empty when there is none).
pub open spec fn header_before(text: Seq<char>, j: int) -> (Seq<char>, Seq<char>)
    decreases j,
{
    if j <= 0 {
        (Seq::empty(), Seq::empty())
    } else {
        match section_header(line_at(text, j - 1)) {
            Some(h) => (h.0, h.1),
            None => header_before(text, j - 1),
        }
    }
}

/// The district name and note in force before line `j`: those that
/// `extract_district_name` reads from the last kecamatan line before it, unless
/// a section header comes after that line (or there is no such line).
pub open spec fn district_before(text: Seq<char>, j: int) -> (Seq<char>, Option<Seq<char>>)
    decreases j,
{
    if j <= 0 {
        (Seq::empty(), None)
    } else {
        let l = line_at(text, j - 1);
        if section_header(l) is Some {
            (Seq::empty(), None)
        } else if kecamatan_line(l) is Some {
            (district_of(l).name, district_of(l).note)
        } else {
            district_before(text, j - 1)
        }
    }
}

/// A village record read from line `j`: the line is a village line; the
/// record's code is the line's first 13 characters; its name, raw name, note
/// keyword and note boundary are what `extract_village_name` gives for the rest
/// of the line; it carries the counts of the kecamatan and the regency/city and
/// province of the section header in force at that line; and its district is
/// the kecamatan's name (or the code's first eight characters when there is
/// none) with the kecamatan's note, or, when the note was merged back into the
/// name, the name followed by the note and no note.
pub open spec fn record_from_line(text: Seq<char>, v: VillageModel, j: int) -> bool {
    let l = line_at(text, j);
    let e = extracted_name(l.subrange(13, l.len() as int));
    let d = district_before(text, j);
    let dn = if d.0.len() == 0 {
        v.code.subrange(0, 8)
    } else {
        d.0
    };
    &&& 0 <= j < lines_from(text, 0).len()
    &&& village_line(l)
    &&& v.code == l.subrange(0, 13)
    &&& e is Some
    &&& v.name == e->0.name
    &&& v.raw_name == e->0.raw_name
    &&& v.note_keyword == e->0.note_keyword
    &&& v.note_boundary == e->0.note_boundary
    &&& v.kel_count == counts_before(text, j).0
    &&& v.desa_count == counts_before(text, j).1
    &&& v.city == header_before(text, j).0
    &&& v.province == header_before(text, j).1
    &&& {
        ||| v.district == dn && v.district_note == d.1
        ||| d.1 matches Some(n) && v.district == dn + n && v.district_note is None
    }
}

#[verifier::rlimit(80)]
#[verifier::spinoff_prover]
proof fn lemma_parse_lines_context(text: Seq<char>, k: int)
    requires
        0 <= k <= lines_from(text, 0).len(),
    ensures
        parse_lines(text, k).kel_count == counts_before(text, k).0,
        parse_lines(text, k).desa_count == counts_before(text, k).1,
        parse_lines(text, k).city == header_before(text, k).0,
        parse_lines(text, k).province == header_before(text, k).1,
        parse_lines(text, k).district_name == district_before(text, k).0,
        parse_lines(text, k).district_note == district_before(text, k).1,
        forall|i: int|
            0 <= i < parse_lines(text, k).villages.len() ==> read_before(
                text,
                #[trigger] parse_lines(text, k).villages[i],
                k,
            ),
    decreases k,
{
    if k > 0 {
        lemma_parse_lines_context(text, k - 1);
        let st = parse_lines(text, k - 1);
        let line = line_at(text, k - 1);
        let nx = parse_lines(text, k);
        assert(nx == parse_step(st, line));
        assert forall|i: int| 0 <= i < parse_lines(text, k).villages.len() implies read_before(
            text,
            #[trigger] parse_lines(text, k).villages[i],
            k,
        ) by {
            if i < parse_lines(text, k - 1).villages.len() {
                assert(read_before(text, parse_lines(text, k - 1).villages[i], k - 1));
                let j = choose|j: int|
                    0 <= j < k - 1 && #[trigger] record_from_line(
                        text,
                        parse_lines(text, k - 1).villages[i],
                        j,
                    );
                lemma_old_record(text, k, i, j);
                assert(record_from_line(text, parse_lines(text, k).villages[i], j));
            } else {
                lemma_new_record(text, k);
                assert(nx.villages[i] == nx.villages.last());
                assert(record_from_line(text, parse_lines(text, k).villages[i], k - 1));
            }
        }
    }
}

/// The record that line `k - 1` adds is read from that line.
#[verifier::spinoff_prover]
proof fn lemma_new_record(text: Seq<char>, k: int)
    requires
        1 <= k <= lines_from(text, 0).len(),
        parse_lines(text, k - 1).kel_count == counts_before(text, k - 1).0,
        parse_lines(text, k - 1).desa_count == counts_before(text, k - 1).1,
        parse_lines(text, k - 1).city == header_before(text, k - 1).0,
        parse_lines(text, k - 1).province == header_before(text, k - 1).1,
        parse_lines(text, k - 1).district_name == district_before(text, k - 1).0,
        parse_lines(text, k - 1).district_note == district_before(text, k - 1).1,
        parse_lines(text, k).villages.len() > parse_lines(text, k - 1).villages.len(),
    ensures
        parse_lines(text, k).villages.len() == parse_lines(text, k - 1).villages.len() + 1,
        record_from_line(text, parse_lines(text, k).villages.last(), k - 1),
{
    let st = parse_lines(text, k - 1);
    let line = line_at(text, k - 1);
    let nx = parse_lines(text, k);
    assert(nx == parse_step(st, line));
    let code = line.subrange(0, 13);
    assert(nx.villages.last().code == code);
    assert(code.subrange(0, 8) =~= nx.villages.last().code.subrange(0, 8));
}

/// A record read from line `j` before line `k - 1` is still read from it after.
#[verifier::spinoff_prover]
proof fn lemma_old_record(text: Seq<char>, k: int, i: int, j: int)
    requires
        1 <= k <= lines_from(text, 0).len(),
        0 <= i < parse_lines(text, k - 1).villages.len(),
        record_from_line(text, parse_lines(text, k - 1).villages[i], j),
    ensures
        i < parse_lines(text, k).villages.len(),
        record_from_line(text, parse_lines(text, k).villages[i], j),
{
    let st = parse_lines(text, k - 1);
    let line = line_at(text, k - 1);
    let nx = parse_lines(text, k);
    assert(nx == parse_step(st, line));
    if section_header(line) is None && kecamatan_line(line) is None && !village_line(line) {
        lemma_record_keterangan(text, st.villages[i], nx.villages[i], j);
    } else {
        assert(nx.villages[i] == st.villages[i]);
    }
}

proof fn lemma_record_keterangan(text: Seq<char>, w: VillageModel, v: VillageModel, j: int)
    requires
        record_from_line(text, w, j),
        v == (VillageModel { keterangan: v.keterangan, ..w }),
    ensures
        record_from_line(text, v, j),
{
}

pub proof fn lemma_villages_carry_their_context(text: Seq<char>)
    ensures
        forall|i: int|
            0 <= i < parsed_villages(text).len() ==> read_from_some_line(
                text,
                #[trigger] parsed_villages(text)[i],
            ),
{
    assert forall|i: int| 0 <= i < parsed_villages(text).len() implies read_from_some_line(
        text,
        #[trigger] parsed_villages(text)[i],
    ) by {
        let j = lemma_village_source(text, i);
        assert(record_from_line(text, parsed_villages(text)[i], j));
    }
}

/// The record was read from one of the first `k` lines of `text`.
pub open spec fn read_before(text: Seq<char>, v: VillageModel, k: int) -> bool {
    exists|j: int| 0 <= j < k && #[trigger] record_from_line(text, v, j)
}

/// The record was read from some line of `text` (see [`record_from_line`]).
pub open spec fn read_from_some_line(text: Seq<char>, v: VillageModel) -> bool {
    exists|j: int| #[trigger] record_from_line(text, v, j)
}

proof fn lemma_village_source(text: Seq<char>, i: int) -> (j: int)
    requires
        0 <= i < parsed_villages(text).len(),
    ensures
        0 <= j < lines_from(text, 0).len(),
        record_from_line(text, parsed_villages(text)[i], j),
{
    let n = lines_from(text, 0).len() as int;
    lemma_parse_lines_context(text, n);
    assert(parsed_villages(text)[i] == fixed_up(parse_lines(text, n).villages[i]));
    assert(0 <= i < parse_lines(text, n).villages.len());
    assert(read_before(text, parse_lines(text, n).villages[i], n));
    let j = choose|j: int|
        0 <= j < n && #[trigger] record_from_line(text, parse_lines(text, n).villages[i], j);
    assert(record_from_line(text, parsed_villages(text)[i], j));
    j
}

/// Every village record parsed from any text carries a code of the village
/// code shape `XX.XX.XX.XXXX`, so the records can always be grouped into
/// districts by the first eight bytes of their codes.
pub proof fn lemma_parsed_villages_have_village_codes(text: Seq<char>)
    ensures
        forall|i: int|
            0 <= i < parsed_villages(text).len() ==> village_code_shape(
                #[trigger] parsed_villages(text)[i].code,
            ),
        forall|i: int|
            0 <= i < parsed_villages(text).len() ==> is_byte_boundary(
                (#[trigger] parsed_villages(text)[i]).code,
                8,
            ),
{
    let n = lines_from(text, 0).len() as int;
    lemma_parse_lines_codes(text, n);
    let vs = parse_lines(text, n).villages;
    assert forall|i: int| 0 <= i < parsed_villages(text).len() implies village_code_shape(
        #[trigger] parsed_villages(text)[i].code,
    ) by {
        assert(parsed_villages(text)[i] == fixed_up(vs[i]));
        assert(village_code_shape(vs[i].code));
    }
    assert forall|i: int| 0 <= i < parsed_villages(text).len() implies is_byte_boundary(
        (#[trigger] parsed_villages(text)[i]).code,
        8,
    ) by {
        assert(parsed_villages(text)[i] == fixed_up(vs[i]));
        let c = vs[i].code;
        assert(village_code_shape(c));
        assert forall|j: int| 0 <= j < 8 implies (#[trigger] c[j] as u32) < 0x80 by {}
        crate::text::lemma_ascii_prefix(c, 8);
    }
}

/// Fixing up district notes a second time changes nothing.
pub proof fn lemma_fixed_up_idempotent(v: VillageModel)
    ensures
        fixed_up(fixed_up(v)) == fixed_up(v),
{
}

/// After the fix-up, a record keeps a district note only when the note is a real
/// annotation: it starts with a note keyword, or it does not start in lowercase.
pub proof fn lemma_fixed_up_notes_are_real(v: VillageModel)
    ensures
        fixed_up(v).district_note matches Some(note) ==> (is_real_note(note) || (note.len() > 0
            && !is_ascii_lower(note[0]))),
{
}

// ---------------------------------------------------------------------------
// Districts
// ---------------------------------------------------------------------------
/// A parsed district (kecamatan) record.
pub struct DistrictRecord {
    pub code: String,
    pub name: String,
    pub city: String,
    pub province: String,
    pub district_note: Option<String>,
    pub kel_count: Option<u32>,
    pub desa_count: Option<u32>,
}

/// The model of a district record.
pub struct DistrictRecordModel {
    pub code: Seq<char>,
    pub name: Seq<char>,
    pub city: Seq<char>,
    pub province: Seq<char>,
    pub district_note: Option<Seq<char>>,
    pub kel_count: Option<u32>,
    pub desa_count: Option<u32>,
}

impl View for DistrictRecord {
    type V = DistrictRecordModel;

    open spec fn view(&self) -> DistrictRecordModel {
        DistrictRecordModel {
            code: self.code@,
            name: self.name@,
            city: self.city@,
            province: self.province@,
            district_note: opt_view(self.district_note),
            kel_count: self.kel_count,
            desa_count: self.desa_count,
        }
    }
}

/// The district code of a village: the first eight bytes of its code.
pub open spec fn district_code(v: VillageModel) -> Seq<char> {
    v.code.subrange(0, chars_within(v.code, 8))
}

/// The district record that a village carries.
pub open spec fn district_record_of(v: VillageModel) -> DistrictRecordModel {
    DistrictRecordModel {
        code: district_code(v),
        name: v.district,
        city: v.city,
        province: v.province,
        district_note: v.district_note,
        kel_count: v.kel_count,
        desa_count: v.desa_count,
    }
}

/// An earlier village has the same district code as village `i`.
pub open spec fn district_seen_before(vs: Seq<VillageModel>, i: int) -> bool {
    exists|j: int| 0 <= j < i && district_code(#[trigger] vs[j]) == district_code(vs[i])
}

/// One district record per district code, taken from the first of the first `n`
/// villages that has it, in order of first appearance.
pub open spec fn districts_of(vs: Seq<VillageModel>, n: int) -> Seq<DistrictRecordModel>
    decreases n,
{
    if n <= 0 {
        Seq::empty()
    } else {
        let p = districts_of(vs, n - 1);
        if district_seen_before(vs, n - 1) {
            p
        } else {
            p.push(district_record_of(vs[n - 1]))
        }
    }
}

pub open spec fn district_models(ds: Seq<DistrictRecord>) -> Seq<DistrictRecordModel> {
    ds.map_values(|d: DistrictRecord| d@)
}

/// Every district code of the first `n` villages has a record, and every record
/// comes from one of them.
proof fn lemma_districts_of_codes(vs: Seq<VillageModel>, n: int)
    requires
        0 <= n <= vs.len(),
    ensures
        forall|j: int|
            0 <= j < n ==> exists|k: int|
                0 <= k < districts_of(vs, n).len() && (#[trigger] districts_of(vs, n)[k]).code
                    == district_code(#[trigger] vs[j]),
        forall|k: int|
            0 <= k < districts_of(vs, n).len() ==> exists|j: int|
                0 <= j < n && (#[trigger] districts_of(vs, n)[k]).code == district_code(
                    #[trigger] vs[j],
                ),
    decreases n,
{
    if n > 0 {
        lemma_districts_of_codes(vs, n - 1);
        let p = districts_of(vs, n - 1);
        let d = districts_of(vs, n);
        if district_seen_before(vs, n - 1) {
            assert forall|j: int| 0 <= j < n implies exists|k: int|
                0 <= k < d.len() && (#[trigger] d[k]).code == district_code(#[trigger] vs[j]) by {
                if j == n - 1 {
                    let jj = choose|jj: int|
                        0 <= jj < n - 1 && district_code(#[trigger] vs[jj]) == district_code(
                            vs[n - 1],
                        );
                    let k = choose|k: int|
                        0 <= k < p.len() && (#[trigger] p[k]).code == district_code(vs[jj]);
                    assert(d[k].code == district_code(vs[j]));
                } else {
                    let k = choose|k: int|
                        0 <= k < p.len() && (#[trigger] p[k]).code == district_code(vs[j]);
                    assert(d[k].code == district_code(vs[j]));
                }
            }
        } else {
            assert(d == p.push(district_record_of(vs[n - 1])));
            assert forall|j: int| 0 <= j < n implies exists|k: int|
                0 <= k < d.len() && (#[trigger] d[k]).code == district_code(#[trigger] vs[j]) by {
                if j == n - 1 {
                    assert(d[p.len() as int].code == district_code(vs[j]));
                } else {
                    let k = choose|k: int|
                        0 <= k < p.len() && (#[trigger] p[k]).code == district_code(vs[j]);
                    assert(d[k].code == district_code(vs[j]));
                }
            }
            assert forall|k: int| 0 <= k < d.len() implies exists|j: int|
                0 <= j < n && (#[trigger] d[k]).code == district_code(#[trigger] vs[j]) by {
                if k == p.len() {
                    assert(d[k].code == district_code(vs[n - 1]));
                } else {
                    let j = choose|j: int|
                        0 <= j < n - 1 && (#[trigger] p[k]).code == district_code(vs[j]);
                    assert(d[k].code == district_code(vs[j]));
                }
            }
        }
    }
}

/// The index of `c` in `codes`, if it occurs there.
fn position_of(codes: &Vec<Vec<char>>, c: &[char]) -> (r: Option<usize>)
    ensures
        match r {
            Some(k) => k < codes@.len() && codes@[k as int]@ == c@,
            None => forall|m: int| 0 <= m < codes@.len() ==> (#[trigger] codes@[m])@ != c@,
        },
{
    let mut k: usize = 0;
    while k < codes.len()
        invariant
            k <= codes@.len(),
            forall|m: int| 0 <= m < k ==> (#[trigger] codes@[m])@ != c@,
        decreases codes@.len() - k,
    {
        if crate::builder::village::vec_eq(codes[k].as_slice(), c) {
            return Some(k);
        }
        k = k + 1;
    }
    None
}

proof fn lemma_districts_of_unique(vs: Seq<VillageModel>, n: int)
    requires
        0 <= n <= vs.len(),
    ensures
        forall|a: int, b: int|
            0 <= a < b < districts_of(vs, n).len() ==> (#[trigger] districts_of(vs, n)[a]).code
                != (#[trigger] districts_of(vs, n)[b]).code,
    decreases n,
{
    if n > 0 {
        lemma_districts_of_unique(vs, n - 1);
        lemma_districts_of_codes(vs, n - 1);
        let p = districts_of(vs, n - 1);
        let d = districts_of(vs, n);
        if !district_seen_before(vs, n - 1) {
            assert(d == p.push(district_record_of(vs[n - 1])));
            assert forall|a: int, b: int| 0 <= a < b < d.len() implies (#[trigger] d[a]).code != (
            #[trigger] d[b]).code by {
                if b == p.len() {
                    if d[a].code == d[b].code {
                        assert(d[a] == p[a]);
                        let j = choose|j: int|
                            0 <= j < n - 1 && (#[trigger] p[a]).code == district_code(
                                #[trigger] vs[j],
                            );
                        assert(district_code(vs[j]) == district_code(vs[n - 1]));
                        assert(district_seen_before(vs, n - 1));
                    }
                } else {
                    assert(d[a] == p[a] && d[b] == p[b]);
                }
            }
        }
    }
}

proof fn lemma_districts_of_first(vs: Seq<VillageModel>, n: int)
    requires
        0 <= n <= vs.len(),
    ensures
        forall|k: int|
            0 <= k < districts_of(vs, n).len() ==> exists|j: int|
                0 <= j < n && (#[trigger] districts_of(vs, n)[k]) == district_record_of(
                    #[trigger] vs[j],
                ) && !district_seen_before(vs, j),
    decreases n,
{
    if n > 0 {
        lemma_districts_of_first(vs, n - 1);
        let p = districts_of(vs, n - 1);
        let d = districts_of(vs, n);
        if !district_seen_before(vs, n - 1) {
            assert(d == p.push(district_record_of(vs[n - 1])));
            assert forall|k: int| 0 <= k < d.len() implies exists|j: int|
                0 <= j < n && (#[trigger] d[k]) == district_record_of(#[trigger] vs[j])
                    && !district_seen_before(vs, j) by {
                if k == p.len() {
                    assert(d[k] == district_record_of(vs[n - 1]));
                } else {
                    assert(d[k] == p[k]);
                    let j = choose|j: int|
                        0 <= j < n - 1 && (#[trigger] p[k]) == district_record_of(#[trigger] vs[j])
                            && !district_seen_before(vs, j);
                    assert(d[k] == district_record_of(vs[j]));
                }
            }
        }
    }
}

/// The districts extracted from village records hold each district code once:
/// every village's district code has a record, no two records share a code,
/// and each record is the one of the first village with its code.
pub proof fn lemma_districts_once_each(vs: Seq<VillageModel>)
    ensures
        forall|j: int|
            0 <= j < vs.len() ==> exists|k: int|
                0 <= k < districts_of(vs, vs.len() as int).len() && (#[trigger] districts_of(
                    vs,
                    vs.len() as int,
                )[k]).code == district_code(#[trigger] vs[j]),
        forall|a: int, b: int|
            0 <= a < b < districts_of(vs, vs.len() as int).len() ==> (#[trigger] districts_of(
                vs,
                vs.len() as int,
            )[a]).code != (#[trigger] districts_of(vs, vs.len() as int)[b]).code,
        forall|k: int|
            0 <= k < districts_of(vs, vs.len() as int).len() ==> exists|j: int|
                0 <= j < vs.len() && (#[trigger] districts_of(vs, vs.len() as int)[k])
                    == district_record_of(#[trigger] vs[j]) && !district_seen_before(vs, j),
{
    lemma_districts_of_codes(vs, vs.len() as int);
    lemma_districts_of_unique(vs, vs.len() as int);
    lemma_districts_of_first(vs, vs.len() as int);
}

/// The index of the village that the `k`-th of the district records of the
/// first `n` villages comes from.
pub open spec fn district_source(vs: Seq<VillageModel>, n: int, k: int) -> int
    decreases n,
{
    if n <= 0 {
        -1
    } else if !district_seen_before(vs, n - 1) && k == districts_of(vs, n - 1).len() {
        n - 1
    } else {
        district_source(vs, n - 1, k)
    }
}

/// The district records come in the order in which their codes first appear:
/// each record is the one of the first village with its code, and a later
/// record comes from a later village.
pub proof fn lemma_districts_in_first_order(vs: Seq<VillageModel>, n: int)
    requires
        0 <= n <= vs.len(),
    ensures
        forall|k: int|
            0 <= k < districts_of(vs, n).len() ==> {
                let j = #[trigger] district_source(vs, n, k);
                &&& 0 <= j < n
                &&& districts_of(vs, n)[k] == district_record_of(vs[j])
                &&& !district_seen_before(vs, j)
            },
        forall|a: int, b: int|
            0 <= a < b < districts_of(vs, n).len() ==> #[trigger] district_source(vs, n, a)
                < #[trigger] district_source(vs, n, b),
    decreases n,
{
    if n > 0 {
        lemma_districts_in_first_order(vs, n - 1);
        let p = districts_of(vs, n - 1);
        let d = districts_of(vs, n);
        assert forall|k: int| 0 <= k < d.len() implies {
            let j = #[trigger] district_source(vs, n, k);
            &&& 0 <= j < n
            &&& d[k] == district_record_of(vs[j])
            &&& !district_seen_before(vs, j)
        } by {
            if k < p.len() {
                assert(district_source(vs, n, k) == district_source(vs, n - 1, k));
                assert(d[k] == p[k]);
            }
        }
        assert forall|a: int, b: int| 0 <= a < b < d.len() implies #[trigger] district_source(
            vs,
            n,
            a,
        ) < #[trigger] district_source(vs, n, b) by {
            assert(district_source(vs, n, a) == district_source(vs, n - 1, a));
            if b < p.len() {
                assert(district_source(vs, n, b) == district_source(vs, n - 1, b));
            }
        }
    }
}

/// Each district record holds, field by field, the data of the first village
/// with its district code: the code is that village's first eight bytes, and the
/// name, city, province, note and counts are the village's district name, city,
/// province, district note and counts.
pub proof fn lemma_district_records_hold_village_fields(vs: Seq<VillageModel>)
    ensures
        forall|k: int|
            0 <= k < districts_of(vs, vs.len() as int).len() ==> {
                let d = #[trigger] districts_of(vs, vs.len() as int)[k];
                let j = district_source(vs, vs.len() as int, k);
                &&& 0 <= j < vs.len()
                &&& !district_seen_before(vs, j)
                &&& d.code == vs[j].code.subrange(0, chars_within(vs[j].code, 8))
                &&& d.name == vs[j].district
                &&& d.city == vs[j].city
                &&& d.province == vs[j].province
                &&& d.district_note == vs[j].district_note
                &&& d.kel_count == vs[j].kel_count
                &&& d.desa_count == vs[j].desa_count
            },
{
    lemma_districts_in_first_order(vs, vs.len() as int);
    assert forall|k: int| 0 <= k < districts_of(vs, vs.len() as int).len() implies {
        let d = #[trigger] districts_of(vs, vs.len() as int)[k];
        let j = district_source(vs, vs.len() as int, k);
        &&& 0 <= j < vs.len()
        &&& !district_seen_before(vs, j)
        &&& d.code == vs[j].code.subrange(0, chars_within(vs[j].code, 8))
        &&& d.name == vs[j].district
        &&& d.city == vs[j].city
        &&& d.province == vs[j].province
        &&& d.district_note == vs[j].district_note
        &&& d.kel_count == vs[j].kel_count
        &&& d.desa_count == vs[j].desa_count
    } by {
        assert(district_source(vs, vs.len() as int, k) == district_source(vs, vs.len() as int, k));
    }
}

/// Village `i` repeats an earlier district code exactly when its code is among the
/// codes of the records taken from the villages before it.
proof fn lemma_seen_iff_listed(vs: Seq<VillageModel>, i: int, listed: Seq<Seq<char>>)
    requires
        0 <= i < vs.len(),
        listed.len() == districts_of(vs, i).len(),
        forall|k: int| 0 <= k < listed.len() ==> #[trigger] listed[k] == districts_of(vs, i)[k].code,
    ensures
        district_seen_before(vs, i) <==> exists|k: int|
            0 <= k < listed.len() && #[trigger] listed[k] == district_code(vs[i]),
{
    let d = districts_of(vs, i);
    lemma_districts_of_codes(vs, i);
    if district_seen_before(vs, i) {
        let j = choose|j: int| 0 <= j < i && district_code(#[trigger] vs[j]) == district_code(vs[i]);
        let k = choose|k: int| 0 <= k < d.len() && (#[trigger] d[k]).code == district_code(vs[j]);
        assert(listed[k] == district_code(vs[i]));
    }
    if exists|k: int| 0 <= k < listed.len() && #[trigger] listed[k] == district_code(vs[i]) {
        let k = choose|k: int| 0 <= k < listed.len() && #[trigger] listed[k] == district_code(vs[i]);
        assert(d[k].code == listed[k]);
        let j = choose|j: int| 0 <= j < i && (#[trigger] d[k]).code == district_code(#[trigger] vs[j]);
        assert(district_code(vs[j]) == district_code(vs[i]));
    }
}

/// Extracts unique district records from parsed village records.
pub fn extract_districts(villages: &[VillageRecord]) -> (r: Vec<DistrictRecord>)
    requires
        forall|i: int|
            0 <= i < villages@.len() ==> is_byte_boundary((#[trigger] villages@[i]).code@, 8),
    ensures
        district_models(r@) == districts_of(village_models(villages@), villages@.len() as int),
{
    let ghost vs = village_models(villages@);
    let mut out: Vec<DistrictRecord> = Vec::new();
    let mut codes: Vec<Vec<char>> = Vec::new();
    let mut i: usize = 0;
    while i < villages.len()
        invariant
            i <= villages@.len(),
            vs == village_models(villages@),
            district_models(out@) == districts_of(vs, i as int),
            codes@.len() == districts_of(vs, i as int).len(),
            forall|k: int|
                0 <= k < codes@.len() ==> (#[trigger] codes@[k])@ == districts_of(vs, i as int)[k].code,
        decreases villages@.len() - i,
    {
        let v = &villages[i];
        let vc = to_chars(v.code.as_str());
        let n8 = chars_within_exec(vc.as_slice(), 8);
        let c8 = copy_range(vc.as_slice(), 0, n8);
        let pos = position_of(&codes, c8.as_slice());
        let ghost listed = Seq::new(codes@.len(), |k: int| codes@[k]@);
        proof {
            assert(vs[i as int] == v@);
            assert(c8@ == district_code(vs[i as int]));
            lemma_seen_iff_listed(vs, i as int, listed);
            match pos {
                Some(k) => {
                    assert(listed[k as int] == district_code(vs[i as int]));
                },
                None => {
                    assert forall|k: int| 0 <= k < listed.len() implies #[trigger] listed[k]
                        != district_code(vs[i as int]) by {
                        assert(codes@[k]@ != c8@);
                    }
                },
            }
        }
        if pos.is_none() {
            let rec = DistrictRecord {
                code: string_of_chars(c8.as_slice()),
                name: v.district.clone(),
                city: v.city.clone(),
                province: v.province.clone(),
                district_note: clone_opt_string(&v.district_note),
                kel_count: v.kel_count,
                desa_count: v.desa_count,
            };
            let ghost before_out = district_models(out@);
            out.push(rec);
            codes.push(c8);
            proof {
                assert(district_models(out@) =~= before_out.push(district_record_of(vs[i as int])));
            }
        }
        i = i + 1;
    }
    out
}

// ---------------------------------------------------------------------------
// Output detail
// ---------------------------------------------------------------------------
/// How much detail to include when saving parsed village records.
#[derive(Debug, Clone, Copy, PartialEq, Eq, Structural)]
pub enum ParseOutputDetail {
    /// Code and cleaned name only (same as what goes into the database).
    Minimal,
    /// Code, cleaned name, and raw name before note stripping / truncation.
    WithRawName,
    /// Code, cleaned name, raw name, and note detection metadata.
    Full,
}

/// The fields of a record that are saved at a given detail level.
pub open spec fn output_fields(v: VillageModel, detail: ParseOutputDetail) -> VillageModel {
    match detail {
        ParseOutputDetail::Minimal => VillageModel {
            raw_name: None,
            note_keyword: None,
            note_boundary: None,
            district_note: None,
            kel_count: None,
            desa_count: None,
            keterangan: None,
            ..v
        },
        ParseOutputDetail::WithRawName => VillageModel {
            note_keyword: None,
            note_boundary: None,
            ..v
        },
        ParseOutputDetail::Full => v,
    }
}

/// The record as saved at the given detail level.
pub fn village_for_output(v: &VillageRecord, detail: &ParseOutputDetail) -> (r: VillageRecord)
    ensures
        r@ == output_fields(v@, *detail),
{
    match detail {
        ParseOutputDetail::Minimal => VillageRecord {
            code: v.code.clone(),
            name: v.name.clone(),
            district: v.district.clone(),
            city: v.city.clone(),
            province: v.province.clone(),
            raw_name: None,
            note_keyword: None,
            note_boundary: None,
            district_note: None,
            kel_count: None,
            desa_count: None,
            keterangan: None,
        },
        ParseOutputDetail::WithRawName => VillageRecord {
            code: v.code.clone(),
            name: v.name.clone(),
            district: v.district.clone(),
            city: v.city.clone(),
            province: v.province.clone(),
            raw_name: clone_opt_string(&v.raw_name),
            note_keyword: None,
            note_boundary: None,
            district_note: clone_opt_string(&v.district_note),
            kel_count: v.kel_count,
            desa_count: v.desa_count,
            keterangan: clone_opt_string(&v.keterangan),
        },
        ParseOutputDetail::Full => VillageRecord {
            code: v.code.clone(),
            name: v.name.clone(),
            district: v.district.clone(),
            city: v.city.clone(),
            province: v.province.clone(),
            raw_name: clone_opt_string(&v.raw_name),
            note_keyword: clone_opt_string(&v.note_keyword),
            note_boundary: v.note_boundary,
            district_note: clone_opt_string(&v.district_note),
            kel_count: v.kel_count,
            desa_count: v.desa_count,
            keterangan: clone_opt_string(&v.keterangan),
        },
    }
}

/// The records as saved at the given detail level.
pub fn villages_for_output(villages: &[VillageRecord], detail: &ParseOutputDetail) -> (r: Vec<
    VillageRecord,
>)
    ensures
        village_models(r@) == village_models(villages@).map_values(
            |v: VillageModel| output_fields(v, *detail),
        ),
{
    let mut out: Vec<VillageRecord> = Vec::new();
    let mut i: usize = 0;
    while i < villages.len()
        invariant
            i <= villages@.len(),
            out@.len() == i,
            forall|j: int| 0 <= j < i ==> (#[trigger] out@[j])@ == output_fields(villages@[j]@, *detail),
        decreases villages@.len() - i,
    {
        out.push(village_for_output(&villages[i], detail));
        i = i + 1;
    }
    proof {
        assert(village_models(out@) =~= village_models(villages@).map_values(
            |v: VillageModel| output_fields(v, *detail),
        ));
    }
    out
}

} // verus!
