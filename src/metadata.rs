//! Document metadata: identity, languages, referenced standards, tags,
//! custom properties and a three-part version number.

use vstd::prelude::*;
use crate::clock::now_millis;
use crate::strings::{list_contains, seqs_of};

verus! {

#[derive(Debug, Clone, PartialEq, Eq)]
pub enum DocumentType {
    Technical,
    Standard,
    Drawing,
    Calculation,
    Manual,
    Report,
    Other(String),
}

#[derive(Debug, Clone, Copy, PartialEq, Eq, Structural)]
pub enum SecurityLevel {
    Public,
    Internal,
    Confidential,
    Restricted,
}

#[derive(Debug, Clone, Copy, PartialEq, Eq, Structural)]
pub enum ReviewStatus {
    Draft,
    InReview,
    Approved,
    Published,
    Archived,
}

pub struct DocumentMetadata {
    pub title: String,
    pub author: String,
    /// Milliseconds since the Unix epoch.
    pub created_date: i64,
    /// Milliseconds since the Unix epoch.
    pub modified_date: i64,
    /// "major.minor.patch".
    pub version: String,
    pub source_language: String,
    pub target_language: String,
    pub contains_technical_terms: bool,
    /// Distinct codes of referenced standards, in order of addition.
    pub standards: Vec<String>,
    pub certification_required: bool,
    pub document_type: DocumentType,
    pub security_level: SecurityLevel,
    pub review_status: ReviewStatus,
    /// Distinct tags, in order of addition.
    pub tags: Vec<String>,
    /// (key, value), one entry per key.
    pub custom_properties: Vec<(String, String)>,
}

pub open spec fn is_digit(c: char) -> bool {
    '0' <= c <= '9'
}

/// The number that a string of decimal digits denotes.
pub open spec fn digits_value(s: Seq<char>) -> nat
    decreases s.len(),
{
    if s.len() == 0 {
        0
    } else {
        digits_value(s.drop_last()) * 10 + ((s.last() as u32) - ('0' as u32)) as nat
    }
}

/// What `u32`'s `FromStr` accepts: an optional `+`, then one or more decimal
/// digits denoting at most `u32::MAX`.
pub open spec fn parsed_u32(s: Seq<char>) -> Option<u32> {
    let d = if s.len() > 0 && s[0] == '+' {
        s.drop_first()
    } else {
        s
    };
    if d.len() > 0 && (forall|i: int| 0 <= i < d.len() ==> is_digit(#[trigger] d[i])) && digits_value(d) <= u32::MAX {
        Some(digits_value(d) as u32)
    } else {
        None
    }
}

pub open spec fn digit_char(d: nat) -> char {
    (('0' as u32) + d) as char
}

/// Decimal digits of `n`, without sign or leading zeros.
pub open spec fn decimal(n: nat) -> Seq<char>
    decreases n,
{
    if n < 10 {
        seq![digit_char(n)]
    } else {
        decimal(n / 10).push(digit_char(n % 10))
    }
}

/// Relies on `u32`'s `FromStr` (`str::parse`): an optional plus sign and
/// decimal digits, with no other character, within the range of `u32`.
#[verifier::external_body]
fn parse_u32(s: &str) -> (r: Option<u32>)
    ensures
        r == parsed_u32(s@),
{
    s.parse::<u32>().ok()
}

/// Relies on `u32`'s `Display` (`ToString`): decimal digits without sign or
/// leading zeros.
#[verifier::external_body]
fn u32_text(n: u32) -> (r: String)
    ensures
        r@ == decimal(n as nat),
{
    n.to_string()
}

/// The dot-separated parts of `s`, after the part `cur` begun before it.
pub open spec fn parts_from(s: Seq<char>, cur: Seq<char>) -> Seq<Seq<char>>
    decreases s.len(),
{
    if s.len() == 0 {
        seq![cur]
    } else if s[0] == '.' {
        seq![cur] + parts_from(s.drop_first(), Seq::empty())
    } else {
        parts_from(s.drop_first(), cur.push(s[0]))
    }
}

/// The numbers among the dot-separated parts of a version, parts that are
/// no number left out.
pub open spec fn version_numbers(v: Seq<char>) -> Seq<u32> {
    parts_from(v, Seq::empty()).filter(|p: Seq<char>| parsed_u32(p) is Some).map_values(|p: Seq<char>| parsed_u32(p)->0)
}

/// The version with its third number one higher, when exactly three numbers
/// are found and the third can grow.
pub open spec fn next_version(v: Seq<char>) -> Option<Seq<char>> {
    let ns = version_numbers(v);
    if ns.len() == 3 && ns[2] < u32::MAX {
        Some(decimal(ns[0] as nat) + "."@ + decimal(ns[1] as nat) + "."@ + decimal((ns[2] + 1) as nat))
    } else {
        None
    }
}

fn version_parts(v: &str) -> (r: Vec<String>)
    ensures
        r@.map_values(|s: String| s@) == parts_from(v@, Seq::empty()),
{
    let n = v.unicode_len();
    let mut out: Vec<String> = Vec::new();
    let mut start: usize = 0;
    let mut i: usize = 0;
    assert(v@.subrange(0, n as int) =~= v@);
    assert(v@.subrange(0, 0) =~= Seq::<char>::empty());
    assert(out@.map_values(|s: String| s@) + parts_from(v@, Seq::empty()) =~= parts_from(v@, Seq::empty()));
    while i < n
        invariant
            n == v@.len(),
            start <= i <= n,
            out@.map_values(|s: String| s@) + parts_from(v@.subrange(i as int, n as int), v@.subrange(start as int, i as int))
                == parts_from(v@, Seq::empty()),
        decreases n - i,
    {
        let c = v.get_char(i);
        let ghost rest = v@.subrange(i as int, n as int);
        let ghost cur = v@.subrange(start as int, i as int);
        proof {
            assert(rest[0] == c);
            assert(rest.drop_first() =~= v@.subrange(i + 1, n as int));
        }
        if c == '.' {
            let ghost before = out@.map_values(|s: String| s@);
            let part = String::from_str(v.substring_char(start, i));
            out.push(part);
            assert(out@.map_values(|s: String| s@) =~= before.push(cur));
            assert(before.push(cur) + parts_from(rest.drop_first(), Seq::empty()) =~= before + (seq![cur] + parts_from(rest.drop_first(), Seq::empty())));
            start = i + 1;
            assert(v@.subrange(start as int, i + 1) =~= Seq::<char>::empty());
        } else {
            assert(v@.subrange(start as int, i + 1) =~= cur.push(c));
        }
        i = i + 1;
    }
    let ghost before = out@.map_values(|s: String| s@);
    let last = String::from_str(v.substring_char(start, n));
    out.push(last);
    proof {
        assert(v@.subrange(n as int, n as int) =~= Seq::<char>::empty());
        assert(out@.map_values(|s: String| s@) =~= before + seq![v@.subrange(start as int, n as int)]);
    }
    out
}

fn version_numbers_exec(v: &str) -> (r: Vec<u32>)
    ensures
        r@ == version_numbers(v@),
{
    let parts = version_parts(v);
    let ghost ps = parts@.map_values(|s: String| s@);
    let ghost pred = |p: Seq<char>| parsed_u32(p) is Some;
    let ghost f = |p: Seq<char>| parsed_u32(p)->0;
    let mut r: Vec<u32> = Vec::new();
    let mut i: usize = 0;
    while i < parts.len()
        invariant
            ps == parts@.map_values(|s: String| s@),
            i <= parts@.len(),
            pred == (|p: Seq<char>| parsed_u32(p) is Some),
            f == (|p: Seq<char>| parsed_u32(p)->0),
            r@ == ps.subrange(0, i as int).filter(pred).map_values(f),
        decreases parts.len() - i,
    {
        let p = parse_u32(parts[i].as_str());
        proof {
            assert(ps.subrange(0, i + 1) =~= ps.subrange(0, i as int).push(ps[i as int]));
            ps.subrange(0, i as int).lemma_filter_push(ps[i as int], pred);
        }
        match p {
            Some(x) => {
                let ghost before = r@;
                r.push(x);
                let ghost fl = ps.subrange(0, i as int).filter(pred);
                assert(fl.push(ps[i as int]).map_values(f) =~= fl.map_values(f).push(x));
            },
            None => {},
        }
        i = i + 1;
    }
    assert(ps.subrange(0, parts@.len() as int) =~= ps);
    r
}

impl DocumentMetadata {
    /// Metadata of a new Hebrew-to-Russian document, version 1.0.0, created at `now`.
    pub fn new_at(title: String, author: String, doc_type: DocumentType, now: i64) -> (r: DocumentMetadata)
        ensures
            r.title == title,
            r.author == author,
            r.document_type == doc_type,
            r.created_date == now,
            r.modified_date == now,
            r.version@ == "1.0.0"@,
            r.source_language@ == "he"@,
            r.target_language@ == "ru"@,
            !r.contains_technical_terms,
            !r.certification_required,
            r.standards@.len() == 0,
            r.tags@.len() == 0,
            r.custom_properties@.len() == 0,
            r.security_level == SecurityLevel::Internal,
            r.review_status == ReviewStatus::Draft,
    {
        DocumentMetadata {
            title,
            author,
            created_date: now,
            modified_date: now,
            version: String::from_str("1.0.0"),
            source_language: String::from_str("he"),
            target_language: String::from_str("ru"),
            contains_technical_terms: false,
            standards: Vec::new(),
            certification_required: false,
            document_type: doc_type,
            security_level: SecurityLevel::Internal,
            review_status: ReviewStatus::Draft,
            tags: Vec::new(),
            custom_properties: Vec::new(),
        }
    }

    /// Metadata of a new document, created now.
    pub fn new(title: String, author: String, doc_type: DocumentType) -> (r: DocumentMetadata)
        ensures
            r.title == title,
            r.author == author,
            r.document_type == doc_type,
            r.created_date == r.modified_date,
            r.version@ == "1.0.0"@,
    {
        DocumentMetadata::new_at(title, author, doc_type, now_millis())
    }

    pub fn update_modified_date_at(&mut self, now: i64)
        ensures
            *final(self) == (DocumentMetadata { modified_date: now, ..*old(self) }),
    {
        self.modified_date = now;
    }

    pub fn update_modified_date(&mut self)
        ensures
            final(self).modified_date >= 0,
    {
        self.update_modified_date_at(now_millis());
    }

    /// Adds a standard that is not listed yet, at `now`.
    pub fn add_standard_at(&mut self, standard: String, now: i64)
        ensures
            seqs_of(old(self).standards@).contains(standard@) ==> *final(self) == *old(self),
            !seqs_of(old(self).standards@).contains(standard@) ==> final(self).standards@ == old(self).standards@.push(standard)
                && final(self).modified_date == now
                && final(self).tags == old(self).tags
                && final(self).version == old(self).version,
    {
        if !list_contains(&self.standards, &standard) {
            self.standards.push(standard);
            self.modified_date = now;
        }
    }

    /// Adds a standard that is not listed yet, now.
    pub fn add_standard(&mut self, standard: String)
        ensures
            seqs_of(old(self).standards@).contains(standard@) ==> *final(self) == *old(self),
            !seqs_of(old(self).standards@).contains(standard@) ==> final(self).standards@ == old(self).standards@.push(standard),
    {
        self.add_standard_at(standard, now_millis());
    }

    /// Adds a tag that is not listed yet, at `now`.
    pub fn add_tag_at(&mut self, tag: String, now: i64)
        ensures
            seqs_of(old(self).tags@).contains(tag@) ==> *final(self) == *old(self),
            !seqs_of(old(self).tags@).contains(tag@) ==> final(self).tags@ == old(self).tags@.push(tag)
                && final(self).modified_date == now
                && final(self).standards == old(self).standards
                && final(self).version == old(self).version,
    {
        if !list_contains(&self.tags, &tag) {
            self.tags.push(tag);
            self.modified_date = now;
        }
    }

    /// Adds a tag that is not listed yet, now.
    pub fn add_tag(&mut self, tag: String)
        ensures
            seqs_of(old(self).tags@).contains(tag@) ==> *final(self) == *old(self),
            !seqs_of(old(self).tags@).contains(tag@) ==> final(self).tags@ == old(self).tags@.push(tag),
    {
        self.add_tag_at(tag, now_millis());
    }

    /// Sets a custom property, replacing the value of an existing key, at `now`.
    pub fn set_custom_property_at(&mut self, key: String, value: String, now: i64)
        ensures
            final(self).modified_date == now,
            ({
                let ps = old(self).custom_properties@;
                let ns = final(self).custom_properties@;
                &&& (exists|i: int| 0 <= i < ps.len() && ps[i].0@ == key@) ==> ns.len() == ps.len() && exists|i: int|
                    0 <= i < ps.len() && ps[i].0@ == key@ && (forall|j: int| 0 <= j < i ==> (#[trigger] ps[j]).0@ != key@)
                        && ns == ps.update(i, (ps[i].0, value))
                &&& !(exists|i: int| 0 <= i < ps.len() && ps[i].0@ == key@) ==> ns == ps.push((key, value))
            }),
    {
        let ghost ps = self.custom_properties@;
        let mut i: usize = 0;
        while i < self.custom_properties.len()
            invariant
                self.custom_properties@ == ps,
                ps == old(self).custom_properties@,
                i <= ps.len(),
                forall|j: int| 0 <= j < i ==> (#[trigger] ps[j]).0@ != key@,
            decreases self.custom_properties.len() - i,
        {
            if self.custom_properties[i].0 == key {
                let (k, _old) = self.custom_properties.remove(i);
                self.custom_properties.insert(i, (k, value));
                self.modified_date = now;
                proof {
                    assert(self.custom_properties@ =~= ps.update(i as int, (ps[i as int].0, value)));
                }
                return;
            }
            i = i + 1;
        }
        self.custom_properties.push((key, value));
        self.modified_date = now;
    }

    /// Sets a custom property, now.
    pub fn set_custom_property(&mut self, key: String, value: String)
        ensures
            final(self).custom_properties@.len() >= old(self).custom_properties@.len(),
    {
        self.set_custom_property_at(key, value, now_millis());
    }

    /// Raises the third number of a "major.minor.patch" version by one, at
    /// `now`. A version without exactly three numbers, or whose third number
    /// is already the largest, is left as it is.
    pub fn increment_version_at(&mut self, now: i64)
        ensures
            next_version(old(self).version@) is None ==> *final(self) == *old(self),
            next_version(old(self).version@) is Some ==> final(self).version@ == next_version(old(self).version@)->0
                && *final(self) == (DocumentMetadata { version: final(self).version, modified_date: now, ..*old(self) }),
    {
        let ns = version_numbers_exec(self.version.as_str());
        if ns.len() == 3 && ns[2] < u32::MAX {
            let mut v = u32_text(ns[0]);
            v.append(".");
            v.append(u32_text(ns[1]).as_str());
            v.append(".");
            v.append(u32_text(ns[2] + 1).as_str());
            self.version = v;
            self.modified_date = now;
        }
    }

    /// Raises the third version number by one, now.
    pub fn increment_version(&mut self)
        ensures
            next_version(old(self).version@) is None ==> *final(self) == *old(self),
            next_version(old(self).version@) is Some ==> final(self).version@ == next_version(old(self).version@)->0,
    {
        self.increment_version_at(now_millis());
    }
}

} // verus!
