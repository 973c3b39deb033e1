//! The manifest document: whole-document parse and compose, and the builder
//! through which new revisions are made.

use vstd::prelude::*;
use crate::record::{
    blank_soa, bump, fields_of, kind_is, lemma_parsed_wf, lemma_render_parses, origin_of,
    origin_prefix, parse_line_spec, plain, render_spec, ttl_of, ttl_prefix, wf_record,
    OriginRecord, RecordData, RecordDataView, SOARecord, SoaView, TTLRecord,
};
use crate::text::{
    chars_of, contains_seq, decimal, drop_char, join_chars, join_with, lacks,
    lemma_decimal_parses, lemma_digits_plain, lemma_drop_char_id, lemma_join_lacks,
    lemma_parse_decimal, lemma_remove_all_id, lemma_split_facts, lemma_split_join,
    lemma_tabs_facts, remove_all, replace_tabs, split_chars, split_on, string_of,
    tabs_to_spaces, views_of,
};

verus! {

/// The content of a manifest.
pub struct ManifestView {
    pub origin: Seq<char>,
    pub ttl: u32,
    pub soa: SoaView,
    pub records: Seq<RecordDataView>,
}

/// The views of a record list.
pub open spec fn records_view(v: Seq<RecordData>) -> Seq<RecordDataView> {
    v.map_values(|r: RecordData| r@)
}

/// A zone manifest: origin, default TTL, authority record and the ordered
/// list of the other records.
#[derive(Clone, Debug, PartialEq, Eq)]
pub struct Manifest {
    origin: OriginRecord,
    ttl: TTLRecord,
    soa: SOARecord,
    records: Vec<RecordData>,
}

impl View for Manifest {
    type V = ManifestView;

    closed spec fn view(&self) -> ManifestView {
        ManifestView {
            origin: self.origin.origin@,
            ttl: self.ttl.ttl,
            soa: self.soa@,
            records: records_view(self.records@),
        }
    }
}

/// The manifest of a blank document.
pub open spec fn blank_manifest() -> ManifestView {
    ManifestView {
        origin: seq!['e', 'x', 'a', 'm', 'p', 'l', 'e', '.', 'c', 'o', 'm'],
        ttl: 0,
        soa: blank_soa(),
        records: Seq::empty(),
    }
}

/// Why a document is not a manifest.
#[derive(Clone, Debug, PartialEq, Eq)]
pub enum DocumentError {
    /// The third line is missing or is not an authority record.
    ExpectedSOA,
    /// The bytes are not UTF-8 text.
    InvalidUtf8,
}

/// The lines of a document, once its tabs are spaces.
pub open spec fn doc_lines(t: Seq<char>) -> Seq<Seq<char>> {
    split_on(tabs_to_spaces(t), '\n')
}

/// The records of the lines that parse, in order; the others are left out.
pub open spec fn records_from(lines: Seq<Seq<char>>) -> Seq<RecordDataView>
    decreases lines.len(),
{
    if lines.len() == 0 {
        Seq::empty()
    } else {
        let init = records_from(lines.drop_last());
        match parse_line_spec(lines.last()) {
            Ok(r) => init.push(r),
            Err(_) => init,
        }
    }
}

/// The manifest that a document holds, or `None` where its third line is
/// missing or is not an authority record.
pub open spec fn parse_document_spec(t: Seq<char>) -> Option<ManifestView> {
    let lines = doc_lines(t);
    if lines.len() < 3 {
        None
    } else {
        match parse_line_spec(lines[2]) {
            Ok(RecordDataView::SOA(soa)) => Some(
                ManifestView {
                    origin: origin_of(lines[0]),
                    ttl: ttl_of(lines[1]),
                    soa,
                    records: records_from(lines.subrange(3, lines.len() as int)),
                },
            ),
            _ => None,
        }
    }
}

/// The lines of the document that a manifest composes to.
pub open spec fn document_lines(m: ManifestView) -> Seq<Seq<char>> {
    seq![
        origin_prefix() + m.origin,
        ttl_prefix() + decimal(m.ttl as nat),
        render_spec(RecordDataView::SOA(m.soa)),
    ] + m.records.map_values(|r: RecordDataView| render_spec(r))
}

/// The document that a manifest composes to.
pub open spec fn compose_spec(m: ManifestView) -> Seq<char> {
    join_with(document_lines(m), '\n')
}

impl Manifest {
    /// A blank manifest: origin `example.com`, TTL zero, a blank authority
    /// record and no other record.
    pub fn new() -> (r: Manifest)
        ensures
            r@ == blank_manifest(),
    {
        let m = Manifest {
            origin: OriginRecord::new(),
            ttl: TTLRecord::new(),
            soa: SOARecord::new(),
            records: Vec::new(),
        };
        assert(m@.records =~= Seq::<RecordDataView>::empty());
        m
    }

    /// A manifest of the given parts.
    pub fn from_parts(origin: OriginRecord, ttl: TTLRecord, soa: SOARecord, records: Vec<RecordData>) -> (r: Manifest)
        ensures
            r@ == (ManifestView {
                origin: origin.origin@,
                ttl: ttl.ttl,
                soa: soa@,
                records: records_view(records@),
            }),
    {
        Manifest { origin, ttl, soa, records }
    }

    pub fn origin(&self) -> (r: &OriginRecord)
        ensures
            r.origin@ == self@.origin,
    {
        &self.origin
    }

    pub fn ttl(&self) -> (r: &TTLRecord)
        ensures
            r.ttl == self@.ttl,
    {
        &self.ttl
    }

    pub fn soa(&self) -> (r: &SOARecord)
        ensures
            r@ == self@.soa,
    {
        &self.soa
    }

    pub fn records(&self) -> (r: &Vec<RecordData>)
        ensures
            records_view(r@) == self@.records,
    {
        &self.records
    }
}

/// Parses a whole manifest document. A record line that does not parse is
/// left out; a missing or malformed authority line fails the document.
pub fn parse_document(text: &str) -> (r: Result<Manifest, DocumentError>)
    ensures
        match r {
            Ok(m) => parse_document_spec(text@) == Some(m@),
            Err(e) => parse_document_spec(text@) is None && e == DocumentError::ExpectedSOA,
        },
{
    let lines = split_chars(&replace_tabs(&chars_of(text)), '\n');
    let ghost lv = views_of(lines@);
    assert(forall|i: int| 0 <= i < lines@.len() ==> #[trigger] lines@[i]@ == lv[i]);
    let n = lines.len();
    if n < 3 {
        return Err(DocumentError::ExpectedSOA);
    }
    let soa = match RecordData::from_str(string_of(&lines[2]).as_str()) {
        Ok(RecordData::SOA(s)) => s,
        _ => {
            return Err(DocumentError::ExpectedSOA);
        },
    };
    let origin = OriginRecord::from_str(string_of(&lines[0]).as_str());
    let ttl = TTLRecord::from_str(string_of(&lines[1]).as_str());
    let mut records: Vec<RecordData> = Vec::new();
    let mut i: usize = 3;
    assert(lv.subrange(3, 3) =~= Seq::<Seq<char>>::empty());
    assert(records_view(records@) =~= Seq::<RecordDataView>::empty());
    while i < n
        invariant
            3 <= i <= n,
            n == lines@.len(),
            lv == views_of(lines@),
            records_view(records@) == records_from(lv.subrange(3, i as int)),
        decreases n - i,
    {
        assert(lv.subrange(3, i + 1).drop_last() =~= lv.subrange(3, i as int));
        assert(lines@[i as int]@ == lv[i as int]);
        match RecordData::from_str(string_of(&lines[i]).as_str()) {
            Ok(rec) => {
                let ghost before = records@;
                records.push(rec);
                assert(records_view(records@) =~= records_view(before).push(rec@));
            },
            Err(_) => {},
        }
        i = i + 1;
    }
    let m = Manifest { origin, ttl, soa, records };
    Ok(m)
}

/// Relies on `String::from_utf8`: it accepts exactly the valid UTF-8 byte
/// strings and returns the text that they encode.
#[verifier::external_body]
fn text_of_utf8(b: Vec<u8>) -> (r: Option<String>)
    ensures
        r is Some <==> vstd::utf8::valid_utf8(b@),
        r matches Some(s) ==> s@ == vstd::utf8::decode_utf8(b@),
{
    String::from_utf8(b).ok()
}

impl Manifest {
    /// Parses a document given as UTF-8 bytes.
    pub fn _from_bytes(b: Vec<u8>) -> (r: Result<Manifest, DocumentError>)
        ensures
            !vstd::utf8::valid_utf8(b@) ==> r == Err::<Manifest, DocumentError>(DocumentError::InvalidUtf8),
            vstd::utf8::valid_utf8(b@) ==> match r {
                Ok(m) => parse_document_spec(vstd::utf8::decode_utf8(b@)) == Some(m@),
                Err(e) => parse_document_spec(vstd::utf8::decode_utf8(b@)) is None
                    && e == DocumentError::ExpectedSOA,
            },
    {
        match text_of_utf8(b) {
            Some(s) => parse_document(s.as_str()),
            None => Err(DocumentError::InvalidUtf8),
        }
    }

    /// The composed document as UTF-8 bytes.
    pub fn _to_bytes(&self) -> (r: Vec<u8>)
        ensures
            r@ == vstd::utf8::encode_utf8(compose_spec(self@)),
    {
        let s = compose_document(self);
        s.as_str().as_bytes_vec()
    }
}

/// Composes the document of a manifest: origin line, TTL line, authority
/// line, then each record's line in list order, joined by line breaks.
pub fn compose_document(m: &Manifest) -> (r: String)
    ensures
        r@ == compose_spec(m@),
{
    let mut lines: Vec<Vec<char>> = Vec::new();
    lines.push(chars_of(m.origin.render().as_str()));
    lines.push(chars_of(m.ttl.render().as_str()));
    lines.push(chars_of(m.soa.render().as_str()));
    let mut i: usize = 0;
    while i < m.records.len()
        invariant
            i <= m.records@.len(),
            lines@.len() == 3 + i,
            views_of(lines@) =~= document_lines(m@).subrange(0, 3 + i),
        decreases m.records@.len() - i,
    {
        lines.push(chars_of(m.records[i].render().as_str()));
        i = i + 1;
        assert(views_of(lines@) =~= document_lines(m@).subrange(0, 3 + i));
    }
    assert(document_lines(m@).subrange(0, 3 + i) =~= document_lines(m@));
    string_of(&join_chars(&lines, '\n'))
}

/// Whether `r` has the owner name `name` and the kind tag `kind`.
pub open spec fn matches(r: RecordDataView, name: Seq<char>, kind: Seq<char>) -> bool {
    r.name() == name && r.kind() == kind
}

/// The position of the first record of `s` with that name and kind, or the
/// length of `s` where none has them.
pub open spec fn first_match(s: Seq<RecordDataView>, name: Seq<char>, kind: Seq<char>) -> nat
    decreases s.len(),
{
    if s.len() == 0 {
        0
    } else if matches(s[0], name, kind) {
        0
    } else {
        1 + first_match(s.drop_first(), name, kind)
    }
}

proof fn lemma_first_match(s: Seq<RecordDataView>, name: Seq<char>, kind: Seq<char>, i: int)
    requires
        0 <= i <= s.len(),
        forall|j: int| 0 <= j < i ==> !matches(#[trigger] s[j], name, kind),
        i == s.len() || matches(s[i], name, kind),
    ensures
        first_match(s, name, kind) == i,
    decreases s.len(),
{
    if s.len() > 0 && i > 0 {
        assert(!matches(s[0], name, kind));
        let t = s.drop_first();
        assert forall|j: int| 0 <= j < i - 1 implies !matches(#[trigger] t[j], name, kind) by {
            assert(t[j] == s[j + 1]);
        }
        if i < s.len() {
            assert(t[i - 1] == s[i]);
        }
        lemma_first_match(t, name, kind, i - 1);
    }
}

/// The records after an upsert of `r`: it takes the place of the first record
/// with its name and kind, or goes at the end where there is none.
pub open spec fn upserted(s: Seq<RecordDataView>, r: RecordDataView) -> Seq<RecordDataView> {
    let i = first_match(s, r.name(), r.kind());
    if i < s.len() {
        s.update(i as int, r)
    } else {
        s.push(r)
    }
}

/// The records after an update of the record named `name` with `r`: it takes
/// the place of the first record of that name and `r`'s kind; where there is
/// none, nothing changes.
pub open spec fn updated(s: Seq<RecordDataView>, name: Seq<char>, r: RecordDataView) -> Seq<RecordDataView> {
    let i = first_match(s, name, r.kind());
    if i < s.len() {
        s.update(i as int, r)
    } else {
        s
    }
}

/// The records after the first of that name and kind is removed, if any.
pub open spec fn deleted(s: Seq<RecordDataView>, name: Seq<char>, kind: Seq<char>) -> Seq<RecordDataView> {
    let i = first_match(s, name, kind);
    if i < s.len() {
        s.remove(i as int)
    } else {
        s
    }
}

/// Builds new revisions of a manifest.
pub struct ManifestBuilder {
    manifest: Manifest,
}

impl View for ManifestBuilder {
    type V = ManifestView;

    closed spec fn view(&self) -> ManifestView {
        self.manifest@
    }
}

impl ManifestBuilder {
    /// A builder over a parsed or constructed manifest.
    pub fn _from(manifest: Manifest) -> (r: ManifestBuilder)
        ensures
            r@ == manifest@,
    {
        ManifestBuilder { manifest }
    }

    /// A builder over the manifest that a document holds.
    pub fn from_text(text: &str) -> (r: Result<ManifestBuilder, DocumentError>)
        ensures
            match r {
                Ok(b) => parse_document_spec(text@) == Some(b@),
                Err(e) => parse_document_spec(text@) is None && e == DocumentError::ExpectedSOA,
            },
    {
        match parse_document(text) {
            Ok(manifest) => Ok(ManifestBuilder { manifest }),
            Err(e) => Err(e),
        }
    }

    /// Hands out the manifest built so far and leaves a blank one behind.
    pub fn build(&mut self) -> (r: Manifest)
        ensures
            r@ == old(self)@,
            final(self)@ == blank_manifest(),
    {
        let mut m = Manifest::new();
        std::mem::swap(&mut self.manifest, &mut m);
        m
    }

    /// The position of the first record with that name and kind.
    pub fn get_record_by(&self, name: &str, _type: &str) -> (r: Option<usize>)
        ensures
            match r {
                Some(i) => i == first_match(self@.records, name@, _type@) && i < self@.records.len(),
                None => first_match(self@.records, name@, _type@) == self@.records.len(),
            },
    {
        let recs = &self.manifest.records;
        let ghost s = records_view(recs@);
        let wanted = name.to_owned();
        assert(s == self@.records);
        let mut i: usize = 0;
        while i < recs.len()
            invariant
                i <= recs@.len(),
                s == records_view(recs@),
                s == self@.records,
                wanted@ == name@,
                forall|j: int| 0 <= j < i ==> !matches(#[trigger] s[j], name@, _type@),
            decreases recs@.len() - i,
        {
            let rec_name = recs[i].get_name();
            let same_name = rec_name.eq(&wanted);
            assert(same_name == (rec_name@ == wanted@));
            let found = same_name && kind_is(&recs[i], _type);
            assert(s[i as int] == recs@[i as int]@);
            if found {
                proof {
                    lemma_first_match(s, name@, _type@, i as int);
                }
                return Some(i);
            }
            i = i + 1;
        }
        proof {
            lemma_first_match(s, name@, _type@, i as int);
        }
        None
    }

    /// Puts `record` in place of the first record with its name and kind, or
    /// appends it where there is none.
    pub fn add_record(&mut self, record: RecordData)
        ensures
            final(self)@ == (ManifestView { records: upserted(old(self)@.records, record@), ..old(self)@ }),
    {
        let name = record.get_name();
        let found = self.get_record_by(name.as_str(), record.get_type());
        let ghost before = self.manifest.records@;
        match found {
            Some(i) => {
                self.manifest.records.set(i, record);
                assert(records_view(self.manifest.records@) =~= records_view(before).update(i as int, record@));
            },
            None => {
                self.manifest.records.push(record);
                assert(records_view(self.manifest.records@) =~= records_view(before).push(record@));
            },
        }
    }

    /// Puts `record` in place of the first record named `name` of `record`'s
    /// kind; where there is none, nothing changes and `record` is dropped.
    pub fn update_record(&mut self, name: &str, record: RecordData)
        ensures
            final(self)@ == (ManifestView { records: updated(old(self)@.records, name@, record@), ..old(self)@ }),
    {
        let found = self.get_record_by(name, record.get_type());
        let ghost before = self.manifest.records@;
        match found {
            Some(i) => {
                self.manifest.records.set(i, record);
                assert(records_view(self.manifest.records@) =~= records_view(before).update(i as int, record@));
            },
            None => {},
        }
    }

    /// Removes the first record with that name and kind, if there is one.
    pub fn delete_record(&mut self, name: &str, record_type: &str)
        ensures
            final(self)@ == (ManifestView { records: deleted(old(self)@.records, name@, record_type@), ..old(self)@ }),
    {
        let found = self.get_record_by(name, record_type);
        let ghost before = self.manifest.records@;
        match found {
            Some(i) => {
                self.manifest.records.remove(i);
                assert(records_view(self.manifest.records@) =~= records_view(before).remove(i as int));
            },
            None => {},
        }
    }

    /// Bumps the authority record's serial by one, wrapping at 2^32.
    pub fn increment(&mut self)
        ensures
            final(self)@ == (ManifestView {
                soa: SoaView { serial: bump(old(self)@.soa.serial), ..old(self)@.soa },
                ..old(self)@
            }),
    {
        self.manifest.soa.increment();
    }
}

/// The records of two runs of lines are those of each run, in order.
pub proof fn lemma_records_from_concat(a: Seq<Seq<char>>, b: Seq<Seq<char>>)
    ensures
        records_from(a + b) == records_from(a) + records_from(b),
    decreases b.len(),
{
    if b.len() == 0 {
        assert(a + b =~= a);
        assert(records_from(a) + records_from(b) =~= records_from(a));
    } else {
        assert((a + b).drop_last() =~= a + b.drop_last());
        lemma_records_from_concat(a, b.drop_last());
        match parse_line_spec(b.last()) {
            Ok(r) => {
                assert(records_from(a + b) =~= records_from(a) + records_from(b));
            },
            Err(_) => {},
        }
    }
}

/// A document whose header lines are valid still parses when its fourth line
/// is not a record: that line is simply missing from the record list.
pub proof fn lemma_partial_tolerance(t: Seq<char>)
    requires
        doc_lines(t).len() >= 4,
        parse_line_spec(doc_lines(t)[2]) matches Ok(RecordDataView::SOA(_)),
        parse_line_spec(doc_lines(t)[3]) is Err,
    ensures
        parse_document_spec(t) matches Some(m)
            && m.records == records_from(doc_lines(t).subrange(4, doc_lines(t).len() as int)),
{
    let lines = doc_lines(t);
    let rest = lines.subrange(4, lines.len() as int);
    assert(lines.subrange(3, lines.len() as int) =~= seq![lines[3]] + rest);
    lemma_records_from_concat(seq![lines[3]], rest);
    assert(seq![lines[3]].drop_last() =~= Seq::<Seq<char>>::empty());
    assert(seq![lines[3]].last() == lines[3]);
    assert(records_from(Seq::<Seq<char>>::empty()) == Seq::<RecordDataView>::empty());
    assert(records_from(seq![lines[3]]) =~= Seq::<RecordDataView>::empty());
    assert(records_from(seq![lines[3]]) + records_from(rest) =~= records_from(rest));
}

/// `first_match` is the position of the first record that matches, if any.
pub proof fn lemma_first_match_found(s: Seq<RecordDataView>, name: Seq<char>, kind: Seq<char>)
    ensures
        first_match(s, name, kind) <= s.len(),
        first_match(s, name, kind) < s.len() ==> matches(s[first_match(s, name, kind) as int], name, kind),
        forall|j: int| 0 <= j < first_match(s, name, kind) ==> !matches(#[trigger] s[j], name, kind),
        (exists|j: int| 0 <= j < s.len() && matches(#[trigger] s[j], name, kind)) <==> first_match(s, name, kind) < s.len(),
    decreases s.len(),
{
    if s.len() > 0 && !matches(s[0], name, kind) {
        let t = s.drop_first();
        lemma_first_match_found(t, name, kind);
        assert forall|j: int| 0 <= j < first_match(s, name, kind) implies !matches(#[trigger] s[j], name, kind) by {
            if j > 0 {
                assert(s[j] == t[j - 1]);
            }
        }
        if exists|j: int| 0 <= j < s.len() && matches(#[trigger] s[j], name, kind) {
            let j = choose|j: int| 0 <= j < s.len() && matches(#[trigger] s[j], name, kind);
            assert(t[j - 1] == s[j]);
        }
        if first_match(s, name, kind) < s.len() {
            assert(s[first_match(s, name, kind) as int] == t[first_match(t, name, kind) as int]);
        }
    }
}

/// An upsert of a record whose name and kind are already present replaces
/// the first such record where it stands, and keeps the rest; one of a new
/// name and kind goes at the end.
pub proof fn lemma_upsert_determinism(s: Seq<RecordDataView>, r: RecordDataView)
    ensures
        (exists|j: int| 0 <= j < s.len() && matches(#[trigger] s[j], r.name(), r.kind())) ==> {
            let i = first_match(s, r.name(), r.kind()) as int;
            &&& 0 <= i < s.len()
            &&& matches(s[i], r.name(), r.kind())
            &&& forall|j: int| 0 <= j < i ==> !matches(#[trigger] s[j], r.name(), r.kind())
            &&& upserted(s, r).len() == s.len()
            &&& upserted(s, r)[i] == r
            &&& forall|j: int| 0 <= j < s.len() && j != i ==> #[trigger] upserted(s, r)[j] == s[j]
        },
        (forall|j: int| 0 <= j < s.len() ==> !matches(#[trigger] s[j], r.name(), r.kind()))
            ==> upserted(s, r) == s.push(r),
{
    lemma_first_match_found(s, r.name(), r.kind());
}

/// An update where no record has that name and the new record's kind, and a
/// delete where no record has that name and kind, leave the records as they
/// were, and with them the whole manifest and its document.
pub proof fn lemma_no_op(m: ManifestView, name: Seq<char>, r: RecordDataView, kind: Seq<char>)
    ensures
        (forall|j: int| 0 <= j < m.records.len() ==> !matches(#[trigger] m.records[j], name, r.kind()))
            ==> (ManifestView { records: updated(m.records, name, r), ..m }) == m,
        (forall|j: int| 0 <= j < m.records.len() ==> !matches(#[trigger] m.records[j], name, kind))
            ==> (ManifestView { records: deleted(m.records, name, kind), ..m }) == m,
{
    lemma_first_match_found(m.records, name, r.kind());
    lemma_first_match_found(m.records, name, kind);
}

/// The records that lines without line breaks parse to read back as
/// themselves.
pub proof fn lemma_records_from_wf(lines: Seq<Seq<char>>)
    requires
        forall|k: int| 0 <= k < lines.len() ==> lacks(#[trigger] lines[k], '\n'),
    ensures
        forall|j: int| 0 <= j < records_from(lines).len() ==> wf_record(#[trigger] records_from(lines)[j]),
    decreases lines.len(),
{
    if lines.len() > 0 {
        let init = lines.drop_last();
        assert forall|k: int| 0 <= k < init.len() implies lacks(#[trigger] init[k], '\n') by {
            assert(init[k] == lines[k]);
        }
        lemma_records_from_wf(init);
        if parse_line_spec(lines.last()) is Ok {
            lemma_parsed_wf(lines.last());
            let ri = records_from(init);
            let r = records_from(lines);
            assert forall|j: int| 0 <= j < r.len() implies wf_record(#[trigger] r[j]) by {
                if j < ri.len() {
                    assert(r[j] == ri[j]);
                }
            }
        }
    }
}

/// Parsing the lines of well-formed records gives those records back.
pub proof fn lemma_records_round(rs: Seq<RecordDataView>)
    requires
        forall|j: int| 0 <= j < rs.len() ==> wf_record(#[trigger] rs[j]),
    ensures
        records_from(rs.map_values(|r: RecordDataView| render_spec(r))) == rs,
    decreases rs.len(),
{
    let ls = rs.map_values(|r: RecordDataView| render_spec(r));
    if rs.len() > 0 {
        let init = rs.drop_last();
        assert forall|j: int| 0 <= j < init.len() implies wf_record(#[trigger] init[j]) by {
            assert(init[j] == rs[j]);
        }
        lemma_records_round(init);
        assert(ls.drop_last() =~= init.map_values(|r: RecordDataView| render_spec(r)));
        lemma_render_parses(rs.last());
        assert(init.push(rs.last()) =~= rs);
    } else {
        assert(ls.len() == 0);
        assert(rs =~= Seq::<RecordDataView>::empty());
    }
}

/// A manifest whose document reads back as itself: an origin without line
/// breaks or tabs, and well-formed records.
pub open spec fn wf_manifest(m: ManifestView) -> bool {
    &&& lacks(m.origin, '\n')
    &&& lacks(m.origin, '\t')
    &&& wf_record(RecordDataView::SOA(m.soa))
    &&& forall|j: int| 0 <= j < m.records.len() ==> wf_record(#[trigger] m.records[j])
}

proof fn lemma_parsed_manifest_wf(t: Seq<char>)
    requires
        parse_document_spec(t) is Some,
    ensures
        wf_manifest(parse_document_spec(t)->Some_0),
{
    let m = parse_document_spec(t)->Some_0;
    let lines = doc_lines(t);
    lemma_tabs_facts(t, '\n');
    lemma_split_facts(tabs_to_spaces(t), '\n', '\t');
    lemma_split_facts(tabs_to_spaces(t), '\n', '\n');
    lemma_parsed_wf(lines[2]);
    let body = lines.subrange(3, lines.len() as int);
    assert forall|k: int| 0 <= k < body.len() implies lacks(#[trigger] body[k], '\n') by {
        assert(body[k] == lines[k + 3]);
    }
    lemma_records_from_wf(body);
    let origin_line = lines[0];
    if origin_line.len() >= 8 && origin_line.subrange(0, 8) == origin_prefix() {
        assert forall|i: int| 0 <= i < m.origin.len() implies #[trigger] m.origin[i] != '\n' && m.origin[i] != '\t' by {
            assert(m.origin[i] == origin_line[i + 8]);
        }
    }
}

proof fn lemma_record_line_plain(d: RecordDataView)
    requires
        wf_record(d),
    ensures
        lacks(render_spec(d), '\n'),
        lacks(render_spec(d), '\t'),
{
    let f = fields_of(d);
    assert forall|j: int| 0 <= j < f.len() implies lacks(#[trigger] f[j], '\n') && lacks(f[j], '\t') by {
        assert(plain(f[j]));
    }
    lemma_join_lacks(f, ' ', '\n');
    lemma_join_lacks(f, ' ', '\t');
}

proof fn lemma_document_lines_plain(m: ManifestView)
    requires
        wf_manifest(m),
    ensures
        forall|k: int| 0 <= k < document_lines(m).len() ==> lacks(#[trigger] document_lines(m)[k], '\n')
            && lacks(document_lines(m)[k], '\t'),
{
    let dl = document_lines(m);
    let l0 = origin_prefix() + m.origin;
    let l1 = ttl_prefix() + decimal(m.ttl as nat);
    lemma_decimal_parses(m.ttl as nat);
    lemma_digits_plain(decimal(m.ttl as nat));
    assert forall|k: int| 0 <= k < dl.len() implies lacks(#[trigger] dl[k], '\n') && lacks(dl[k], '\t') by {
        if k == 0 {
            assert(dl[k] == l0);
            assert forall|i: int| 0 <= i < l0.len() implies #[trigger] l0[i] != '\n' && l0[i] != '\t' by {
                if i >= 8 {
                    assert(l0[i] == m.origin[i - 8]);
                }
            }
        } else if k == 1 {
            assert(dl[k] == l1);
            assert forall|i: int| 0 <= i < l1.len() implies #[trigger] l1[i] != '\n' && l1[i] != '\t' by {
                if i >= 5 {
                    assert(l1[i] == decimal(m.ttl as nat)[i - 5]);
                }
            }
        } else if k == 2 {
            lemma_record_line_plain(RecordDataView::SOA(m.soa));
        } else {
            assert(dl[k] == render_spec(m.records[k - 3]));
            lemma_record_line_plain(m.records[k - 3]);
        }
    }
}

proof fn lemma_origin_line(o: Seq<char>)
    ensures
        origin_of(origin_prefix() + o) == o,
{
    let l0 = origin_prefix() + o;
    assert(l0.subrange(0, 8) =~= origin_prefix());
    assert(l0.subrange(8, l0.len() as int) =~= o);
}

proof fn lemma_ttl_line(n: u32)
    ensures
        ttl_of(ttl_prefix() + decimal(n as nat)) == n,
{
    let d = decimal(n as nat);
    let p = ttl_prefix();
    let l1 = p + d;
    lemma_decimal_parses(n as nat);
    lemma_digits_plain(d);
    assert(l1.subrange(0, 0 + p.len() as int) =~= p);
    assert(contains_seq(l1, p));
    assert(l1.subrange(0, p.len() as int) =~= p);
    assert(l1.subrange(p.len() as int, l1.len() as int) =~= d);
    assert(remove_all(l1, p) == remove_all(d, p));
    lemma_remove_all_id(d, p);
    lemma_drop_char_id(d, ' ');
    lemma_parse_decimal(n);
    assert(drop_char(remove_all(l1, p), ' ') == d);
}

/// The document of a well-formed manifest parses back to that manifest.
pub proof fn lemma_compose_parses(m: ManifestView)
    requires
        wf_manifest(m),
    ensures
        parse_document_spec(compose_spec(m)) == Some(m),
{
    let dl = document_lines(m);
    let text = compose_spec(m);
    lemma_document_lines_plain(m);
    lemma_join_lacks(dl, '\n', '\t');
    lemma_tabs_facts(text, ' ');
    lemma_split_join(dl, '\n');
    let lines2 = doc_lines(text);
    assert(lines2 == dl);
    lemma_render_parses(RecordDataView::SOA(m.soa));
    lemma_origin_line(m.origin);
    lemma_ttl_line(m.ttl);
    assert(lines2.subrange(3, lines2.len() as int) =~= m.records.map_values(|r: RecordDataView| render_spec(r)));
    lemma_records_round(m.records);
}

/// Composing a parsed manifest and parsing the document again gives the same
/// manifest, field for field.
pub proof fn lemma_round_trip(t: Seq<char>)
    requires
        parse_document_spec(t) is Some,
    ensures
        parse_document_spec(compose_spec(parse_document_spec(t)->Some_0)) == parse_document_spec(t),
{
    lemma_parsed_manifest_wf(t);
    lemma_compose_parses(parse_document_spec(t)->Some_0);
}

} // verus!
