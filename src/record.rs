//! The record model and the codec for one manifest line.

use vstd::prelude::*;
use crate::text::{
    chars_of, clean_line, collapse_spaces_from, contains_chars, contains_seq, decimal,
    drop_char, drop_char_chars, join_chars, join_with, lacks, lemma_collapse_facts,
    lemma_collapse_id, lemma_decimal_parses, lemma_digits_plain, lemma_join_lacks,
    lemma_join_no_double, lemma_parse_decimal, lemma_split_facts, lemma_split_join,
    lemma_strip_id, lemma_strip_lacks, lemma_tabs_facts, matches_at, parse_u32, parse_u32_spec,
    push_all, remove_all, remove_all_chars, remove_comments, render_u32, replace_tabs,
    split_chars, split_on, squeeze_spaces, string_of, strip_comments_from, tabs_to_spaces,
    tokens_of, views_of,
};

verus! {

// Fallbacks for the four timers of an authority record that do not parse.
pub const DEFAULT_REFRESH: u32 = 7200;
pub const DEFAULT_RETRY: u32 = 3600;
pub const DEFAULT_EXPIRE: u32 = 604800;
pub const DEFAULT_MINIMUM: u32 = 300;

/// The kind tag of an address record.
pub open spec fn tag_a() -> Seq<char> {
    seq!['A']
}

/// The kind tag of a nameserver record.
pub open spec fn tag_ns() -> Seq<char> {
    seq!['N', 'S']
}

/// The kind tag of the authority record.
pub open spec fn tag_soa() -> Seq<char> {
    seq!['S', 'O', 'A']
}

/// A generic record: `name class kind value`.
#[derive(Clone, Debug, PartialEq, Eq)]
pub struct Record {
    pub name: String,
    pub class: String,
    pub record_type: String,
    pub value: String,
}

pub struct RecordView {
    pub name: Seq<char>,
    pub class: Seq<char>,
    pub record_type: Seq<char>,
    pub value: Seq<char>,
}

impl View for Record {
    type V = RecordView;

    open spec fn view(&self) -> RecordView {
        RecordView {
            name: self.name@,
            class: self.class@,
            record_type: self.record_type@,
            value: self.value@,
        }
    }
}

impl Record {
    pub fn new(name: String, class: String, record_type: String, value: String) -> (r: Record)
        ensures
            r@ == (RecordView { name: name@, class: class@, record_type: record_type@, value: value@ }),
    {
        Record { name, class, record_type, value }
    }
}

/// The zone's authority record.
#[derive(Clone, Debug, PartialEq, Eq)]
pub struct SOARecord {
    pub name: String,
    pub class: String,
    /// Primary nameserver of the zone.
    pub mname: String,
    /// Contact address of the zone's administrator.
    pub rname: String,
    /// Version counter of the zone.
    pub serial: u32,
    pub refresh: u32,
    pub retry: u32,
    pub expire: u32,
    pub minimum: u32,
}

pub struct SoaView {
    pub name: Seq<char>,
    pub class: Seq<char>,
    pub mname: Seq<char>,
    pub rname: Seq<char>,
    pub serial: u32,
    pub refresh: u32,
    pub retry: u32,
    pub expire: u32,
    pub minimum: u32,
}

impl View for SOARecord {
    type V = SoaView;

    open spec fn view(&self) -> SoaView {
        SoaView {
            name: self.name@,
            class: self.class@,
            mname: self.mname@,
            rname: self.rname@,
            serial: self.serial,
            refresh: self.refresh,
            retry: self.retry,
            expire: self.expire,
            minimum: self.minimum,
        }
    }
}

/// The authority record of a blank document.
pub open spec fn blank_soa() -> SoaView {
    SoaView {
        name: Seq::empty(),
        class: Seq::empty(),
        mname: Seq::empty(),
        rname: Seq::empty(),
        serial: 0,
        refresh: 0,
        retry: 0,
        expire: 0,
        minimum: 0,
    }
}

impl SOARecord {
    /// A blank authority record: empty names, all numbers zero.
    pub fn new() -> (r: SOARecord)
        ensures
            r@ == blank_soa(),
    {
        SOARecord {
            name: String::new(),
            class: String::new(),
            mname: String::new(),
            rname: String::new(),
            serial: 0,
            refresh: 0,
            retry: 0,
            expire: 0,
            minimum: 0,
        }
    }

    /// Bumps the serial by one, wrapping at 2^32.
    pub fn increment(&mut self)
        ensures
            final(self)@ == (SoaView { serial: bump(old(self).serial), ..old(self)@ }),
    {
        self.serial = self.serial.wrapping_add(1);
    }
}

/// The serial after one bump, modulo 2^32.
pub open spec fn bump(s: u32) -> u32 {
    if s == u32::MAX { 0 } else { (s + 1) as u32 }
}

/// One line of the record list.
#[derive(Clone, Debug, PartialEq, Eq)]
pub enum RecordData {
    A(Record),
    NS(Record),
    SOA(SOARecord),
}

pub enum RecordDataView {
    A(RecordView),
    NS(RecordView),
    SOA(SoaView),
}

impl View for RecordData {
    type V = RecordDataView;

    open spec fn view(&self) -> RecordDataView {
        match self {
            RecordData::A(r) => RecordDataView::A(r@),
            RecordData::NS(r) => RecordDataView::NS(r@),
            RecordData::SOA(r) => RecordDataView::SOA(r@),
        }
    }
}

impl RecordDataView {
    /// The owner name of the record.
    pub open spec fn name(self) -> Seq<char> {
        match self {
            RecordDataView::A(r) => r.name,
            RecordDataView::NS(r) => r.name,
            RecordDataView::SOA(r) => r.name,
        }
    }

    /// The kind tag that the variant stands for.
    pub open spec fn kind(self) -> Seq<char> {
        match self {
            RecordDataView::A(_) => tag_a(),
            RecordDataView::NS(_) => tag_ns(),
            RecordDataView::SOA(_) => tag_soa(),
        }
    }
}

/// Why a line is not a record.
#[derive(Clone, Debug, PartialEq, Eq)]
pub enum ParseError {
    /// Nothing is left of the line once its comment and blanks are gone.
    EmptyLine,
    /// The line has neither four nor ten fields.
    ArityMismatch { got: usize },
    /// The kind field names no record kind of that many fields.
    UnknownRecordType(String),
    /// The serial of an authority record is not an unsigned 32-bit number.
    InvalidSerial(String),
}

pub enum ParseErrorView {
    EmptyLine,
    ArityMismatch { got: nat },
    UnknownRecordType(Seq<char>),
    InvalidSerial(Seq<char>),
}

impl View for ParseError {
    type V = ParseErrorView;

    open spec fn view(&self) -> ParseErrorView {
        match self {
            ParseError::EmptyLine => ParseErrorView::EmptyLine,
            ParseError::ArityMismatch { got } => ParseErrorView::ArityMismatch { got: *got as nat },
            ParseError::UnknownRecordType(k) => ParseErrorView::UnknownRecordType(k@),
            ParseError::InvalidSerial(s) => ParseErrorView::InvalidSerial(s@),
        }
    }
}

/// The view of a line's parse outcome.
pub open spec fn outcome_view(r: Result<RecordData, ParseError>) -> Result<RecordDataView, ParseErrorView> {
    match r {
        Ok(d) => Ok(d@),
        Err(e) => Err(e@),
    }
}

/// A parsed number, or the fallback where there is none.
pub open spec fn or_default(v: Option<u32>, d: u32) -> u32 {
    match v {
        Some(n) => n,
        None => d,
    }
}

/// The record that the fields of a line make, or why they make none.
pub open spec fn parse_tokens(t: Seq<Seq<char>>) -> Result<RecordDataView, ParseErrorView> {
    if t.len() == 1 && t[0].len() == 0 {
        Err(ParseErrorView::EmptyLine)
    } else if t.len() != 4 && t.len() != 10 {
        Err(ParseErrorView::ArityMismatch { got: t.len() })
    } else if t.len() == 4 {
        let r = RecordView { name: t[0], class: t[1], record_type: t[2], value: t[3] };
        if t[2] == tag_a() {
            Ok(RecordDataView::A(r))
        } else if t[2] == tag_ns() {
            Ok(RecordDataView::NS(r))
        } else {
            Err(ParseErrorView::UnknownRecordType(t[2]))
        }
    } else if t[2] != tag_soa() {
        Err(ParseErrorView::UnknownRecordType(t[2]))
    } else {
        match parse_u32_spec(t[5]) {
            None => Err(ParseErrorView::InvalidSerial(t[5])),
            Some(serial) => Ok(
                RecordDataView::SOA(
                    SoaView {
                        name: t[0],
                        class: t[1],
                        mname: t[3],
                        rname: t[4],
                        serial,
                        refresh: or_default(parse_u32_spec(t[6]), DEFAULT_REFRESH),
                        retry: or_default(parse_u32_spec(t[7]), DEFAULT_RETRY),
                        expire: or_default(parse_u32_spec(t[8]), DEFAULT_EXPIRE),
                        minimum: or_default(parse_u32_spec(t[9]), DEFAULT_MINIMUM),
                    },
                ),
            ),
        }
    }
}

/// What a manifest line parses to.
pub open spec fn parse_line_spec(s: Seq<char>) -> Result<RecordDataView, ParseErrorView> {
    parse_tokens(tokens_of(s))
}

/// The fields of a record in the order in which its line holds them.
pub open spec fn fields_of(d: RecordDataView) -> Seq<Seq<char>> {
    match d {
        RecordDataView::A(r) => seq![r.name, r.class, r.record_type, r.value],
        RecordDataView::NS(r) => seq![r.name, r.class, r.record_type, r.value],
        RecordDataView::SOA(s) => seq![
            s.name,
            s.class,
            tag_soa(),
            s.mname,
            s.rname,
            decimal(s.serial as nat),
            decimal(s.refresh as nat),
            decimal(s.retry as nat),
            decimal(s.expire as nat),
            decimal(s.minimum as nat),
        ],
    }
}

/// The line that a record renders to.
pub open spec fn render_spec(d: RecordDataView) -> Seq<char> {
    join_with(fields_of(d), ' ')
}

/// A line made ready for tokenising: tabs become spaces, comments are cut, and
/// runs of spaces shrink to one.
pub fn clean_str(s: &str) -> (r: String)
    ensures
        r@ == clean_line(s@),
{
    let spaced = string_of(&replace_tabs(&chars_of(s)));
    let stripped = remove_comments(spaced.as_str());
    squeeze_spaces(stripped.as_str())
}

fn tokens(s: &str) -> (r: Vec<Vec<char>>)
    ensures
        views_of(r@) == tokens_of(s@),
{
    let c = clean_str(s);
    split_chars(&chars_of(c.as_str()), ' ')
}

/// The fields of a line, cut at single spaces once the line is cleaned.
pub fn split_str(s: &str) -> (r: Vec<String>)
    ensures
        r@.map_values(|t: String| t@) == tokens_of(s@),
{
    let parts = tokens(s);
    let mut out: Vec<String> = Vec::new();
    let mut i: usize = 0;
    while i < parts.len()
        invariant
            i <= parts.len(),
            out@.len() == i,
            forall|j: int| 0 <= j < i ==> #[trigger] out@[j]@ == parts@[j]@,
        decreases parts.len() - i,
    {
        out.push(string_of(&parts[i]));
        i = i + 1;
    }
    assert(out@.map_values(|t: String| t@) =~= views_of(parts@));
    out
}

fn is_tag_a(t: &Vec<char>) -> (r: bool)
    ensures
        r == (t@ == tag_a()),
{
    let r = t.len() == 1 && t[0] == 'A';
    assert(r ==> t@ =~= tag_a());
    r
}

fn is_tag_ns(t: &Vec<char>) -> (r: bool)
    ensures
        r == (t@ == tag_ns()),
{
    let r = t.len() == 2 && t[0] == 'N' && t[1] == 'S';
    assert(r ==> t@ =~= tag_ns());
    r
}

fn is_tag_soa(t: &Vec<char>) -> (r: bool)
    ensures
        r == (t@ == tag_soa()),
{
    let r = t.len() == 3 && t[0] == 'S' && t[1] == 'O' && t[2] == 'A';
    assert(r ==> t@ =~= tag_soa());
    r
}

fn number_or(t: &Vec<char>, d: u32) -> (r: u32)
    ensures
        r == or_default(parse_u32_spec(t@), d),
{
    match parse_u32(t) {
        Some(n) => n,
        None => d,
    }
}

/// Whether `kind` names the kind of `d`.
pub fn kind_is(d: &RecordData, kind: &str) -> (r: bool)
    ensures
        r == (d@.kind() == kind@),
{
    let k = chars_of(kind);
    match d {
        RecordData::A(_) => is_tag_a(&k),
        RecordData::NS(_) => is_tag_ns(&k),
        RecordData::SOA(_) => is_tag_soa(&k),
    }
}

impl RecordData {
    /// The owner name of the record.
    pub fn get_name(&self) -> (r: String)
        ensures
            r@ == self@.name(),
    {
        match self {
            RecordData::A(r) => r.name.clone(),
            RecordData::NS(r) => r.name.clone(),
            RecordData::SOA(r) => r.name.clone(),
        }
    }

    /// The kind tag of the record: `A`, `NS` or `SOA`.
    pub fn get_type(&self) -> (r: &'static str)
        ensures
            r@ == self@.kind(),
    {
        proof {
            reveal_strlit("A");
            reveal_strlit("NS");
            reveal_strlit("SOA");
        }
        match self {
            RecordData::A(_) => "A",
            RecordData::NS(_) => "NS",
            RecordData::SOA(_) => "SOA",
        }
    }

    /// Parses one manifest line.
    pub fn from_str(s: &str) -> (r: Result<RecordData, ParseError>)
        ensures
            outcome_view(r) == parse_line_spec(s@),
    {
        let t = tokens(s);
        let ghost tv = views_of(t@);
        assert(forall|i: int| 0 <= i < t@.len() ==> #[trigger] t@[i]@ == tv[i]);
        let n = t.len();
        if n == 1 && t[0].len() == 0 {
            return Err(ParseError::EmptyLine);
        }
        if n != 4 && n != 10 {
            return Err(ParseError::ArityMismatch { got: n });
        }
        if n == 4 {
            let rec = Record {
                name: string_of(&t[0]),
                class: string_of(&t[1]),
                record_type: string_of(&t[2]),
                value: string_of(&t[3]),
            };
            if is_tag_a(&t[2]) {
                Ok(RecordData::A(rec))
            } else if is_tag_ns(&t[2]) {
                Ok(RecordData::NS(rec))
            } else {
                Err(ParseError::UnknownRecordType(string_of(&t[2])))
            }
        } else if !is_tag_soa(&t[2]) {
            Err(ParseError::UnknownRecordType(string_of(&t[2])))
        } else {
            match parse_u32(&t[5]) {
                None => Err(ParseError::InvalidSerial(string_of(&t[5]))),
                Some(serial) => Ok(
                    RecordData::SOA(
                        SOARecord {
                            name: string_of(&t[0]),
                            class: string_of(&t[1]),
                            mname: string_of(&t[3]),
                            rname: string_of(&t[4]),
                            serial,
                            refresh: number_or(&t[6], DEFAULT_REFRESH),
                            retry: number_or(&t[7], DEFAULT_RETRY),
                            expire: number_or(&t[8], DEFAULT_EXPIRE),
                            minimum: number_or(&t[9], DEFAULT_MINIMUM),
                        },
                    ),
                ),
            }
        }
    }

    /// The line of the record: its fields joined by single spaces.
    pub fn render(&self) -> (r: String)
        ensures
            r@ == render_spec(self@),
    {
        match self {
            RecordData::A(r) | RecordData::NS(r) => {
                let mut f: Vec<Vec<char>> = Vec::new();
                f.push(chars_of(r.name.as_str()));
                f.push(chars_of(r.class.as_str()));
                f.push(chars_of(r.record_type.as_str()));
                f.push(chars_of(r.value.as_str()));
                assert(views_of(f@) =~= fields_of(self@));
                string_of(&join_chars(&f, ' '))
            },
            RecordData::SOA(s) => s.render(),
        }
    }
}

impl SOARecord {
    /// The line of the authority record: its ten fields joined by single spaces.
    pub fn render(&self) -> (r: String)
        ensures
            r@ == render_spec(RecordDataView::SOA(self@)),
    {
        let mut tag: Vec<char> = Vec::new();
        tag.push('S');
        tag.push('O');
        tag.push('A');
        let mut f: Vec<Vec<char>> = Vec::new();
        f.push(chars_of(self.name.as_str()));
        f.push(chars_of(self.class.as_str()));
        f.push(tag);
        f.push(chars_of(self.mname.as_str()));
        f.push(chars_of(self.rname.as_str()));
        f.push(render_u32(self.serial));
        f.push(render_u32(self.refresh));
        f.push(render_u32(self.retry));
        f.push(render_u32(self.expire));
        f.push(render_u32(self.minimum));
        assert(f@[2]@ =~= tag_soa());
        assert(views_of(f@) =~= fields_of(RecordDataView::SOA(self@)));
        string_of(&join_chars(&f, ' '))
    }
}

/// A line whose fields number neither four nor ten, and which is not blank,
/// is refused with `ArityMismatch` and its field count.
pub proof fn lemma_arity_rejection(line: Seq<char>)
    requires
        !(tokens_of(line).len() == 1 && tokens_of(line)[0].len() == 0),
        tokens_of(line).len() != 4,
        tokens_of(line).len() != 10,
    ensures
        parse_line_spec(line) == Err::<RecordDataView, ParseErrorView>(
            ParseErrorView::ArityMismatch { got: tokens_of(line).len() },
        ),
{
}

/// A field that a line can hold as one token: no space, line break, tab or `;`.
pub open spec fn plain(s: Seq<char>) -> bool {
    lacks(s, ' ') && lacks(s, '\n') && lacks(s, '\t') && lacks(s, ';')
}

/// A record whose line reads back as itself: plain fields, none empty but
/// the first and the last, and a kind field that agrees with the variant.
pub open spec fn wf_record(d: RecordDataView) -> bool {
    let f = fields_of(d);
    &&& forall|k: int| 0 <= k < f.len() ==> plain(#[trigger] f[k])
    &&& forall|k: int| 0 < k < f.len() - 1 ==> (#[trigger] f[k]).len() > 0
    &&& match d {
        RecordDataView::A(r) => r.record_type == tag_a(),
        RecordDataView::NS(r) => r.record_type == tag_ns(),
        RecordDataView::SOA(_) => true,
    }
}

/// What a line without line breaks parses to reads back as itself.
pub proof fn lemma_parsed_wf(line: Seq<char>)
    requires
        lacks(line, '\n'),
        parse_line_spec(line) is Ok,
    ensures
        parse_line_spec(line) matches Ok(d) && wf_record(d),
{
    let a = tabs_to_spaces(line);
    lemma_tabs_facts(line, '\n');
    let b = strip_comments_from(a, false);
    lemma_strip_lacks(a, false, '\t');
    lemma_strip_lacks(a, false, '\n');
    let c = collapse_spaces_from(b, false);
    lemma_collapse_facts(b, false, ';');
    lemma_collapse_facts(b, false, '\t');
    lemma_collapse_facts(b, false, '\n');
    let t = split_on(c, ' ');
    assert(t == tokens_of(line));
    lemma_split_facts(c, ' ', ';');
    lemma_split_facts(c, ' ', '\t');
    lemma_split_facts(c, ' ', '\n');
    let d = parse_line_spec(line)->Ok_0;
    let f = fields_of(d);
    assert forall|k: int| 0 <= k < t.len() implies plain(#[trigger] t[k]) by {}
    match d {
        RecordDataView::SOA(s) => {
            lemma_decimal_parses(s.serial as nat);
            lemma_decimal_parses(s.refresh as nat);
            lemma_decimal_parses(s.retry as nat);
            lemma_decimal_parses(s.expire as nat);
            lemma_decimal_parses(s.minimum as nat);
            lemma_digits_plain(decimal(s.serial as nat));
            lemma_digits_plain(decimal(s.refresh as nat));
            lemma_digits_plain(decimal(s.retry as nat));
            lemma_digits_plain(decimal(s.expire as nat));
            lemma_digits_plain(decimal(s.minimum as nat));
            assert(f.len() == 10);
            assert forall|k: int| 0 <= k < f.len() implies plain(#[trigger] f[k]) by {
                if k < 5 {
                    assert(f[k] == t[k]);
                }
            }
            assert forall|k: int| 0 < k < f.len() - 1 implies (#[trigger] f[k]).len() > 0 by {
                if k < 5 {
                    assert(f[k] == t[k]);
                }
            }
        },
        _ => {
            assert(f =~= t);
        },
    }
}

/// The line of a well-formed record parses back to that record.
pub proof fn lemma_render_parses(d: RecordDataView)
    requires
        wf_record(d),
    ensures
        parse_line_spec(render_spec(d)) == Ok::<RecordDataView, ParseErrorView>(d),
{
    let f = fields_of(d);
    let r = render_spec(d);
    lemma_join_lacks(f, ' ', '\t');
    lemma_join_lacks(f, ' ', ';');
    lemma_join_lacks(f, ' ', '\n');
    lemma_tabs_facts(r, ' ');
    lemma_strip_id(r);
    lemma_join_no_double(f);
    lemma_collapse_id(r, false);
    assert(clean_line(r) == r);
    lemma_split_join(f, ' ');
    assert(tokens_of(r) == f);
    match d {
        RecordDataView::A(rv) => {
            assert(f[2] == tag_a());
        },
        RecordDataView::NS(rv) => {
            assert(f[2] == tag_ns());
            assert(tag_ns().len() != tag_a().len());
        },
        RecordDataView::SOA(s) => {
            lemma_parse_decimal(s.serial);
            lemma_parse_decimal(s.refresh);
            lemma_parse_decimal(s.retry);
            lemma_parse_decimal(s.expire);
            lemma_parse_decimal(s.minimum);
        },
    }
}

/// The serial after `n` bumps.
pub open spec fn bumped(s: u32, n: nat) -> u32
    decreases n,
{
    if n == 0 {
        s
    } else {
        bump(bumped(s, (n - 1) as nat))
    }
}

/// `n` bumps of the serial add `n` modulo 2^32. Each call of `increment`, on
/// an authority record or on a builder, applies one `bump`.
pub proof fn lemma_serial_monotonic(s: u32, n: nat)
    ensures
        bumped(s, n) as int == (s as int + n as int) % 0x1_0000_0000,
    decreases n,
{
    if n > 0 {
        lemma_serial_monotonic(s, (n - 1) as nat);
        let p = (s as int + (n - 1) as int);
        assert((p % 0x1_0000_0000 + 1) % 0x1_0000_0000 == (p + 1) % 0x1_0000_0000) by (nonlinear_arith);
    } else {
        assert((s as int) % 0x1_0000_0000 == s as int) by (nonlinear_arith)
            requires 0 <= s < 0x1_0000_0000;
    }
}

/// The directive word that opens the origin line.
pub open spec fn origin_prefix() -> Seq<char> {
    seq!['$', 'O', 'R', 'I', 'G', 'I', 'N', ' ']
}

/// The directive word that opens the TTL line.
pub open spec fn ttl_prefix() -> Seq<char> {
    seq!['$', 'T', 'T', 'L', ' ']
}

/// The TTL of a document whose TTL line is missing or malformed.
pub const DEFAULT_TTL: u32 = 3600;

fn origin_prefix_chars() -> (r: Vec<char>)
    ensures
        r@ == origin_prefix(),
{
    let r = chars_of("$ORIGIN ");
    proof {
        reveal_strlit("$ORIGIN ");
    }
    assert(r@ =~= origin_prefix());
    r
}

fn ttl_prefix_chars() -> (r: Vec<char>)
    ensures
        r@ == ttl_prefix(),
{
    let r = chars_of("$TTL ");
    proof {
        reveal_strlit("$TTL ");
    }
    assert(r@ =~= ttl_prefix());
    r
}

/// The domain name that an origin line holds: the line, less a leading
/// `$ORIGIN ` where there is one.
pub open spec fn origin_of(line: Seq<char>) -> Seq<char> {
    if line.len() >= 8 && line.subrange(0, 8) == origin_prefix() {
        line.subrange(8, line.len() as int)
    } else {
        line
    }
}

/// The zone's domain name.
#[derive(Clone, Debug, PartialEq, Eq)]
pub struct OriginRecord {
    pub origin: String,
}

impl OriginRecord {
    /// The origin that a document's first line declares.
    pub fn from_str(s: &str) -> (r: OriginRecord)
        ensures
            r.origin@ == origin_of(s@),
    {
        let c = chars_of(s);
        let p = origin_prefix_chars();
        if matches_at(&c, &p, 0) {
            let mut rest: Vec<char> = Vec::new();
            let mut i: usize = 8;
            while i < c.len()
                invariant
                    8 <= i <= c.len(),
                    rest@ =~= c@.subrange(8, i as int),
                decreases c.len() - i,
            {
                rest.push(c[i]);
                i = i + 1;
            }
            OriginRecord { origin: string_of(&rest) }
        } else {
            OriginRecord { origin: s.to_owned() }
        }
    }

    /// The placeholder origin `example.com`.
    pub fn new() -> (r: OriginRecord)
        ensures
            r.origin@ == seq!['e', 'x', 'a', 'm', 'p', 'l', 'e', '.', 'c', 'o', 'm'],
    {
        let o = "example.com";
        proof {
            reveal_strlit("example.com");
        }
        OriginRecord { origin: o.to_owned() }
    }

    /// The origin line: `$ORIGIN <name>`.
    pub fn render(&self) -> (r: String)
        ensures
            r@ == origin_prefix() + self.origin@,
    {
        let mut out = origin_prefix_chars();
        push_all(&mut out, &chars_of(self.origin.as_str()));
        string_of(&out)
    }
}

/// The TTL that a TTL line declares: with `$TTL ` in the line, the number
/// left once every `$TTL ` and every space are taken out, if it is one;
/// otherwise the fallback.
pub open spec fn ttl_of(line: Seq<char>) -> u32 {
    if contains_seq(line, ttl_prefix()) {
        or_default(parse_u32_spec(drop_char(remove_all(line, ttl_prefix()), ' ')), DEFAULT_TTL)
    } else {
        DEFAULT_TTL
    }
}

/// Reads the TTL directive of a document's second line.
pub fn parse_ttl(s: &str) -> (r: u32)
    ensures
        r == ttl_of(s@),
{
    let c = chars_of(s);
    let p = ttl_prefix_chars();
    if contains_chars(&c, &p) {
        let rest = drop_char_chars(&remove_all_chars(&c, &p), ' ');
        number_or(&rest, DEFAULT_TTL)
    } else {
        DEFAULT_TTL
    }
}

/// The default lifetime of the zone's records, in seconds.
#[derive(Clone, Debug, PartialEq, Eq)]
pub struct TTLRecord {
    pub ttl: u32,
}

impl TTLRecord {
    /// The TTL that a document's second line declares.
    pub fn from_str(s: &str) -> (r: TTLRecord)
        ensures
            r.ttl == ttl_of(s@),
    {
        TTLRecord { ttl: parse_ttl(s) }
    }

    /// A TTL of zero.
    pub fn new() -> (r: TTLRecord)
        ensures
            r.ttl == 0,
    {
        TTLRecord { ttl: 0 }
    }

    /// The TTL line: `$TTL <seconds>`.
    pub fn render(&self) -> (r: String)
        ensures
            r@ == ttl_prefix() + decimal(self.ttl as nat),
    {
        let mut out = ttl_prefix_chars();
        push_all(&mut out, &render_u32(self.ttl));
        string_of(&out)
    }
}

} // verus!
