//! Reading the report model out of an XML element tree, with the lenience
//! that real producers need.
use vstd::prelude::*;
use crate::model::{
    Alignment, AuthResult, DateRange, DkimAuthResult, DkimResult, Disposition, DmarcResult,
    Feedback, Identifier, PolicyEvaluated, PolicyOverride, PolicyOverrideReason, PolicyPublished,
    PolicyPublishedWrapper, Record, ReportMetadata, Row, SpfAuthResult, SpfDomainScope, SpfResult,
};
use crate::trusted::{ip_address_valid, is_ip_address, is_utc_timestamp, utc_representable};
use crate::xml::{lemma_nodes_of, nodes_of, XmlElement};

verus! {

/// Why a document does not fit the report schema.
#[derive(Debug, PartialEq, Eq, Structural, Clone, Copy)]
pub enum SchemaCause {
    /// A required element is absent.
    Missing,
    /// An element's text is not a value of the field's type.
    Invalid,
}

/// A schema error: the element that could not be read, and why.
#[derive(Debug, PartialEq)]
pub struct SchemaError {
    pub element: String,
    pub cause: SchemaCause,
}

/// The index of the first child at or after `k` named `n`.
pub open spec fn first_named_from(kids: Seq<XmlElement>, n: Seq<char>, k: int) -> Option<int>
    decreases kids.len() - k,
{
    if k < 0 || k >= kids.len() {
        None
    } else if kids[k].name@ == n {
        Some(k)
    } else {
        first_named_from(kids, n, k + 1)
    }
}

/// The first child of `e` named `n`.
pub open spec fn child(e: XmlElement, n: Seq<char>) -> Option<XmlElement> {
    match first_named_from(e.children@, n, 0) {
        Some(k) => Some(e.children@[k]),
        None => None,
    }
}

/// The text of the first child of `e` named `n`.
pub open spec fn child_text(e: XmlElement, n: Seq<char>) -> Option<Seq<char>> {
    match child(e, n) {
        Some(c) => Some(c.text@),
        None => None,
    }
}

/// The children of `e` named `n`, in document order.
pub open spec fn named(kids: Seq<XmlElement>, n: Seq<char>) -> Seq<XmlElement>
    decreases kids.len(),
{
    if kids.len() == 0 {
        Seq::empty()
    } else {
        let p = named(kids.drop_last(), n);
        if kids.last().name@ == n {
            p.push(kids.last())
        } else {
            p
        }
    }
}

fn error_at(element: &str, cause: SchemaCause) -> (r: SchemaError)
    ensures
        r.element@ == element@,
        r.cause == cause,
{
    SchemaError { element: String::from_str(element), cause }
}

fn text_is(t: &String, lit: &str) -> (r: bool)
    ensures
        r == (t@ == lit@),
{
    let l = String::from_str(lit);
    t.eq(&l)
}

/// The first child of `e` named `n`.
pub fn find_child<'a>(e: &'a XmlElement, n: &str) -> (r: Option<&'a XmlElement>)
    ensures
        match r {
            Some(c) => child(*e, n@) == Some(*c),
            None => child(*e, n@) is None,
        },
{
    let mut i: usize = 0;
    while i < e.children.len()
        invariant
            i <= e.children@.len(),
            first_named_from(e.children@, n@, 0) == first_named_from(e.children@, n@, i as int),
        decreases e.children.len() - i,
    {
        if text_is(&e.children[i].name, n) {
            return Some(&e.children[i]);
        }
        i = i + 1;
    }
    None
}

/// The text of a required child.
fn required_text(e: &XmlElement, n: &str) -> (r: Result<String, SchemaError>)
    ensures
        match r {
            Ok(t) => child_text(*e, n@) == Some(t@),
            Err(err) => child_text(*e, n@) is None && err.element@ == n@ && err.cause
                == SchemaCause::Missing,
        },
{
    match find_child(e, n) {
        Some(c) => Ok(c.text.clone()),
        None => Err(error_at(n, SchemaCause::Missing)),
    }
}

/// The text of an optional child.
fn optional_text(e: &XmlElement, n: &str) -> (r: Option<String>)
    ensures
        match r {
            Some(t) => child_text(*e, n@) == Some(t@),
            None => child_text(*e, n@) is None,
        },
{
    match find_child(e, n) {
        Some(c) => Some(c.text.clone()),
        None => None,
    }
}

pub open spec fn alignment_of(t: Seq<char>) -> Option<Alignment> {
    if t == "r"@ {
        Some(Alignment::Relaxed)
    } else if t == "s"@ {
        Some(Alignment::Strict)
    } else {
        None
    }
}

pub open spec fn disposition_of(t: Seq<char>) -> Option<Disposition> {
    if t == "none"@ {
        Some(Disposition::NoAction)
    } else if t == "quarantine"@ {
        Some(Disposition::Quarantine)
    } else if t == "reject"@ {
        Some(Disposition::Reject)
    } else {
        None
    }
}

pub open spec fn dmarc_result_of(t: Seq<char>) -> Option<DmarcResult> {
    if t == "pass"@ {
        Some(DmarcResult::Pass)
    } else if t == "fail"@ {
        Some(DmarcResult::Fail)
    } else {
        None
    }
}

/// Override kinds outside the closed set, and a missing kind, read as `Other`.
pub open spec fn override_of(t: Option<Seq<char>>) -> PolicyOverride {
    match t {
        Some(t) => if t == "forwarded"@ {
            PolicyOverride::Forwarded
        } else if t == "sampled_out"@ {
            PolicyOverride::SampledOut
        } else if t == "trusted_forwarder"@ {
            PolicyOverride::TrustedForwarder
        } else if t == "mailing_list"@ {
            PolicyOverride::MailingList
        } else if t == "local_policy"@ {
            PolicyOverride::LocalPolicy
        } else {
            PolicyOverride::Other
        },
        None => PolicyOverride::Other,
    }
}

pub open spec fn dkim_result_of(t: Seq<char>) -> Option<DkimResult> {
    if t == "none"@ {
        Some(DkimResult::NoSignature)
    } else if t == "pass"@ {
        Some(DkimResult::Pass)
    } else if t == "fail"@ {
        Some(DkimResult::Fail)
    } else if t == "policy"@ {
        Some(DkimResult::Policy)
    } else if t == "neutral"@ {
        Some(DkimResult::Neutral)
    } else if t == "temperror"@ {
        Some(DkimResult::TempError)
    } else if t == "permerror"@ {
        Some(DkimResult::PermError)
    } else {
        None
    }
}

pub open spec fn scope_of(t: Seq<char>) -> Option<SpfDomainScope> {
    if t == "helo"@ {
        Some(SpfDomainScope::Helo)
    } else if t == "mfrom"@ {
        Some(SpfDomainScope::MFrom)
    } else {
        None
    }
}

pub open spec fn spf_result_of(t: Seq<char>) -> Option<SpfResult> {
    if t == "none"@ {
        Some(SpfResult::NoRecord)
    } else if t == "neutral"@ {
        Some(SpfResult::Neutral)
    } else if t == "pass"@ {
        Some(SpfResult::Pass)
    } else if t == "fail"@ {
        Some(SpfResult::Fail)
    } else if t == "softfail"@ {
        Some(SpfResult::Softfail)
    } else if t == "temperror"@ {
        Some(SpfResult::TempError)
    } else if t == "permerror"@ {
        Some(SpfResult::PermError)
    } else {
        None
    }
}

pub fn parse_alignment(t: &String) -> (r: Option<Alignment>)
    ensures
        r == alignment_of(t@),
{
    if text_is(t, "r") {
        Some(Alignment::Relaxed)
    } else if text_is(t, "s") {
        Some(Alignment::Strict)
    } else {
        None
    }
}

pub fn parse_disposition(t: &String) -> (r: Option<Disposition>)
    ensures
        r == disposition_of(t@),
{
    if text_is(t, "none") {
        Some(Disposition::NoAction)
    } else if text_is(t, "quarantine") {
        Some(Disposition::Quarantine)
    } else if text_is(t, "reject") {
        Some(Disposition::Reject)
    } else {
        None
    }
}

pub fn parse_dmarc_result(t: &String) -> (r: Option<DmarcResult>)
    ensures
        r == dmarc_result_of(t@),
{
    if text_is(t, "pass") {
        Some(DmarcResult::Pass)
    } else if text_is(t, "fail") {
        Some(DmarcResult::Fail)
    } else {
        None
    }
}

pub fn parse_override(t: &Option<String>) -> (r: PolicyOverride)
    ensures
        r == override_of(
            match t {
                Some(s) => Some(s@),
                None => None,
            },
        ),
{
    match t {
        Some(t) => if text_is(t, "forwarded") {
            PolicyOverride::Forwarded
        } else if text_is(t, "sampled_out") {
            PolicyOverride::SampledOut
        } else if text_is(t, "trusted_forwarder") {
            PolicyOverride::TrustedForwarder
        } else if text_is(t, "mailing_list") {
            PolicyOverride::MailingList
        } else if text_is(t, "local_policy") {
            PolicyOverride::LocalPolicy
        } else {
            PolicyOverride::Other
        },
        None => PolicyOverride::default(),
    }
}

pub fn parse_dkim_result(t: &String) -> (r: Option<DkimResult>)
    ensures
        r == dkim_result_of(t@),
{
    if text_is(t, "none") {
        Some(DkimResult::NoSignature)
    } else if text_is(t, "pass") {
        Some(DkimResult::Pass)
    } else if text_is(t, "fail") {
        Some(DkimResult::Fail)
    } else if text_is(t, "policy") {
        Some(DkimResult::Policy)
    } else if text_is(t, "neutral") {
        Some(DkimResult::Neutral)
    } else if text_is(t, "temperror") {
        Some(DkimResult::TempError)
    } else if text_is(t, "permerror") {
        Some(DkimResult::PermError)
    } else {
        None
    }
}

pub fn parse_scope(t: &String) -> (r: Option<SpfDomainScope>)
    ensures
        r == scope_of(t@),
{
    if text_is(t, "helo") {
        Some(SpfDomainScope::Helo)
    } else if text_is(t, "mfrom") {
        Some(SpfDomainScope::MFrom)
    } else {
        None
    }
}

pub fn parse_spf_result(t: &String) -> (r: Option<SpfResult>)
    ensures
        r == spf_result_of(t@),
{
    if text_is(t, "none") {
        Some(SpfResult::NoRecord)
    } else if text_is(t, "neutral") {
        Some(SpfResult::Neutral)
    } else if text_is(t, "pass") {
        Some(SpfResult::Pass)
    } else if text_is(t, "fail") {
        Some(SpfResult::Fail)
    } else if text_is(t, "softfail") {
        Some(SpfResult::Softfail)
    } else if text_is(t, "temperror") {
        Some(SpfResult::TempError)
    } else if text_is(t, "permerror") {
        Some(SpfResult::PermError)
    } else {
        None
    }
}

pub open spec fn is_digit(c: char) -> bool {
    '0' <= c <= '9'
}

/// The value of a string of decimal digits.
pub open spec fn decimal_value(t: Seq<char>) -> int
    decreases t.len(),
{
    if t.len() == 0 {
        0
    } else {
        decimal_value(t.drop_last()) * 10 + (t.last() as int - '0' as int)
    }
}

/// The value of the decimal digits `t` if it is no greater than `max`.
pub open spec fn digits_of(t: Seq<char>, max: int) -> Option<int> {
    if t.len() > 0 && (forall|i: int| 0 <= i < t.len() ==> is_digit(#[trigger] t[i]))
        && decimal_value(t) <= max {
        Some(decimal_value(t))
    } else {
        None
    }
}

/// The value of `t` read as an unsigned decimal number no greater than `max`,
/// with an optional leading plus sign.
pub open spec fn unsigned_of(t: Seq<char>, max: int) -> Option<int> {
    if t.len() > 0 && t[0] == '+' {
        digits_of(t.drop_first(), max)
    } else {
        digits_of(t, max)
    }
}

/// The value of `t` read as a decimal number that fits in an `i64`, with an
/// optional leading sign.
pub open spec fn signed_of(t: Seq<char>) -> Option<int> {
    if t.len() > 0 && t[0] == '-' {
        match digits_of(t.drop_first(), 0x8000_0000_0000_0000) {
            Some(v) => Some(-v),
            None => None,
        }
    } else {
        unsigned_of(t, 0x7fff_ffff_ffff_ffff)
    }
}

proof fn lemma_decimal_nonneg(t: Seq<char>)
    requires
        forall|k: int| 0 <= k < t.len() ==> is_digit(#[trigger] t[k]),
    ensures
        decimal_value(t) >= 0,
    decreases t.len(),
{
    if t.len() > 0 {
        lemma_decimal_nonneg(t.drop_last());
        assert(is_digit(t[t.len() - 1]));
    }
}

proof fn lemma_decimal_grows(t: Seq<char>, i: int, j: int)
    requires
        0 <= i <= j <= t.len(),
        forall|k: int| 0 <= k < t.len() ==> is_digit(#[trigger] t[k]),
    ensures
        decimal_value(t.subrange(0, j)) >= decimal_value(t.subrange(0, i)),
    decreases j - i,
{
    if i < j {
        lemma_decimal_grows(t, i, j - 1);
        assert(t.subrange(0, j).drop_last() =~= t.subrange(0, j - 1));
        assert(is_digit(t[j - 1]));
        assert(t.subrange(0, j).last() == t[j - 1]);
        lemma_decimal_nonneg(t.subrange(0, j - 1));
    }
}

/// Reads the characters of `t` from `start` on as an unsigned decimal number
/// no greater than `max`.
fn parse_unsigned_from(t: &str, start: usize, max: u64) -> (r: Option<u64>)
    requires
        start <= t@.len(),
        max <= 0x8000_0000_0000_0000,
    ensures
        match digits_of(t@.subrange(start as int, t@.len() as int), max as int) {
            Some(v) => r is Some && r->Some_0 as int == v,
            None => r is None,
        },
{
    let ghost s = t@.subrange(start as int, t@.len() as int);
    let n = t.unicode_len();
    if start >= n {
        return None;
    }
    let mut acc: u64 = 0;
    let mut i: usize = start;
    while i < n
        invariant
            start <= i <= n,
            n == t@.len(),
            s == t@.subrange(start as int, n as int),
            max <= 0x8000_0000_0000_0000,
            acc <= max,
            forall|k: int| 0 <= k < i - start ==> is_digit(#[trigger] s[k]),
            acc as int == decimal_value(s.subrange(0, i - start)),
        decreases n - i,
    {
        let c = t.get_char(i);
        if c < '0' || c > '9' {
            assert(!is_digit(s[i - start]));
            return None;
        }
        let d = (c as u32 - '0' as u32) as u64;
        assert(s.subrange(0, i - start + 1).drop_last() =~= s.subrange(0, i - start));
        let next: u128 = acc as u128 * 10 + d as u128;
        if next > max as u128 {
            proof {
                if forall|k: int| 0 <= k < s.len() ==> is_digit(#[trigger] s[k]) {
                    lemma_decimal_grows(s, i - start + 1, s.len() as int);
                    assert(s.subrange(0, s.len() as int) =~= s);
                }
            }
            return None;
        }
        acc = acc * 10 + d;
        i = i + 1;
    }
    assert(s.subrange(0, s.len() as int) =~= s);
    Some(acc)
}

/// The value of `t` read as a count of seconds since the epoch that names a
/// representable UTC instant.
pub open spec fn timestamp_of(t: Seq<char>) -> Option<int> {
    match signed_of(t) {
        Some(v) => if utc_representable(v as i64) {
            Some(v)
        } else {
            None
        },
        None => None,
    }
}

/// Reads `t` as an unsigned decimal number no greater than `max`, with an
/// optional leading plus sign.
pub fn parse_unsigned(t: &str, max: u64) -> (r: Option<u64>)
    requires
        max <= 0x8000_0000_0000_0000,
    ensures
        match unsigned_of(t@, max as int) {
            Some(v) => r is Some && r->Some_0 as int == v,
            None => r is None,
        },
{
    let n = t.unicode_len();
    if n > 0 && t.get_char(0) == '+' {
        proof {
            assert(t@.subrange(1, t@.len() as int) =~= t@.drop_first());
        }
        parse_unsigned_from(t, 1, max)
    } else {
        proof {
            assert(t@.subrange(0, t@.len() as int) =~= t@);
        }
        parse_unsigned_from(t, 0, max)
    }
}

/// Whether `t` is a schema version.
pub fn version_text_valid(t: &str) -> (r: bool)
    ensures
        r == is_version_text(t@),
{
    let n = t.unicode_len();
    let mut dot: Option<usize> = None;
    let mut digit = false;
    let mut k: usize = 0;
    while k < n
        invariant
            n == t@.len(),
            k <= n,
            forall|i: int| 0 <= i < k ==> is_digit(#[trigger] t@[i]) || t@[i] == '.',
            match dot {
                Some(d) => d < k && t@[d as int] == '.' && forall|i: int|
                    0 <= i < k && #[trigger] t@[i] == '.' ==> i == d,
                None => forall|i: int| 0 <= i < k ==> #[trigger] t@[i] != '.',
            },
            digit <==> exists|i: int| 0 <= i < k && is_digit(#[trigger] t@[i]),
        decreases n - k,
    {
        let c = t.get_char(k);
        if c == '.' {
            if dot.is_some() {
                proof {
                    let d = dot->Some_0;
                    assert(t@[d as int] == '.' && t@[k as int] == '.');
                }
                return false;
            }
            dot = Some(k);
        } else if '0' <= c && c <= '9' {
            digit = true;
        } else {
            assert(!(is_digit(t@[k as int]) || t@[k as int] == '.'));
            return false;
        }
        k = k + 1;
    }
    digit
}

pub fn parse_signed(t: &str) -> (r: Option<i64>)
    ensures
        match signed_of(t@) {
            Some(v) => r is Some && r->Some_0 as int == v,
            None => r is None,
        },
{
    let n = t.unicode_len();
    if n > 0 && t.get_char(0) == '-' {
        proof {
            assert(t@.subrange(1, t@.len() as int) =~= t@.drop_first());
        }
        match parse_unsigned_from(t, 1, 0x8000_0000_0000_0000) {
            Some(v) => {
                assert(v <= 0x8000_0000_0000_0000);
                if v == 0x8000_0000_0000_0000 {
                    Some(i64::MIN)
                } else {
                    Some(-(v as i64))
                }
            },
            None => None,
        }
    } else {
        match parse_unsigned(t, 0x7fff_ffff_ffff_ffff) {
            Some(v) => {
                assert(v <= 0x7fff_ffff_ffff_ffff);
                Some(v as i64)
            },
            None => None,
        }
    }
}

pub fn parse_timestamp(t: &str) -> (r: Option<i64>)
    ensures
        match timestamp_of(t@) {
            Some(v) => r is Some && r->Some_0 as int == v,
            None => r is None,
        },
{
    match parse_signed(t) {
        Some(v) => if is_utc_timestamp(v) {
            Some(v)
        } else {
            None
        },
        None => None,
    }
}

pub open spec fn opt_text(o: Option<String>) -> Option<Seq<char>> {
    match o {
        Some(s) => Some(s@),
        None => None,
    }
}

pub open spec fn alignment_in(e: XmlElement, n: Seq<char>) -> Option<Alignment> {
    match child_text(e, n) {
        Some(t) => alignment_of(t),
        None => None,
    }
}

pub open spec fn disposition_in(e: XmlElement, n: Seq<char>) -> Option<Disposition> {
    match child_text(e, n) {
        Some(t) => disposition_of(t),
        None => None,
    }
}

pub open spec fn dmarc_result_in(e: XmlElement, n: Seq<char>) -> Option<DmarcResult> {
    match child_text(e, n) {
        Some(t) => dmarc_result_of(t),
        None => None,
    }
}

pub open spec fn dkim_result_in(e: XmlElement, n: Seq<char>) -> Option<DkimResult> {
    match child_text(e, n) {
        Some(t) => dkim_result_of(t),
        None => None,
    }
}

pub open spec fn scope_in(e: XmlElement, n: Seq<char>) -> Option<SpfDomainScope> {
    match child_text(e, n) {
        Some(t) => scope_of(t),
        None => None,
    }
}

pub open spec fn spf_result_in(e: XmlElement, n: Seq<char>) -> Option<SpfResult> {
    match child_text(e, n) {
        Some(t) => spf_result_of(t),
        None => None,
    }
}

pub open spec fn unsigned_in(e: XmlElement, n: Seq<char>, max: int) -> Option<int> {
    match child_text(e, n) {
        Some(t) => unsigned_of(t, max),
        None => None,
    }
}

pub open spec fn timestamp_in(e: XmlElement, n: Seq<char>) -> Option<int> {
    match child_text(e, n) {
        Some(t) => timestamp_of(t),
        None => None,
    }
}

/// The date range element, under its own name or under the misspelling some
/// producers use.
pub open spec fn date_range_element(e: XmlElement) -> Option<XmlElement> {
    match child(e, "date_range"@) {
        Some(c) => Some(c),
        None => child(e, "data_range"@),
    }
}

pub open spec fn date_range_ok(e: XmlElement) -> bool {
    &&& timestamp_in(e, "begin"@) is Some
    &&& timestamp_in(e, "end"@) is Some
}

pub open spec fn date_range_read(e: XmlElement, d: DateRange) -> bool {
    &&& d.begin as int == timestamp_in(e, "begin"@)->Some_0
    &&& d.end as int == timestamp_in(e, "end"@)->Some_0
}

pub open spec fn metadata_ok(e: XmlElement) -> bool {
    &&& child_text(e, "org_name"@) is Some
    &&& child_text(e, "email"@) is Some
    &&& child_text(e, "report_id"@) is Some
    &&& date_range_element(e) matches Some(d) && date_range_ok(d)
}

pub open spec fn metadata_read(e: XmlElement, m: ReportMetadata) -> bool {
    let errors = named(e.children@, "error"@);
    &&& Some(m.org_name@) == child_text(e, "org_name"@)
    &&& Some(m.email@) == child_text(e, "email"@)
    &&& opt_text(m.extra_contact_info) == child_text(e, "extra_contact_info"@)
    &&& Some(m.report_id@) == child_text(e, "report_id"@)
    &&& date_range_read(date_range_element(e)->Some_0, m.date_range)
    &&& m.errors@.len() == errors.len()
    &&& forall|k: int| 0 <= k < errors.len() ==> (#[trigger] m.errors@[k])@ == errors[k].text@
}

pub open spec fn policy_ok(e: XmlElement) -> bool {
    &&& child_text(e, "domain"@) is Some
    &&& child_text(e, "adkim"@) is Some ==> alignment_in(e, "adkim"@) is Some
    &&& child_text(e, "aspf"@) is Some ==> alignment_in(e, "aspf"@) is Some
    &&& disposition_in(e, "p"@) is Some
    &&& child_text(e, "sp"@) is Some ==> disposition_in(e, "sp"@) is Some
    &&& unsigned_in(e, "pct"@, 255) is Some
}

/// The first field of the published policy `e` that cannot be read, in the
/// order domain, adkim, aspf, p, sp, pct, with why.
pub open spec fn policy_error(e: XmlElement) -> Option<(Seq<char>, SchemaCause)> {
    if child_text(e, "domain"@) is None {
        Some(("domain"@, SchemaCause::Missing))
    } else if child_text(e, "adkim"@) is Some && alignment_in(e, "adkim"@) is None {
        Some(("adkim"@, SchemaCause::Invalid))
    } else if child_text(e, "aspf"@) is Some && alignment_in(e, "aspf"@) is None {
        Some(("aspf"@, SchemaCause::Invalid))
    } else if child_text(e, "p"@) is None {
        Some(("p"@, SchemaCause::Missing))
    } else if disposition_in(e, "p"@) is None {
        Some(("p"@, SchemaCause::Invalid))
    } else if child_text(e, "sp"@) is Some && disposition_in(e, "sp"@) is None {
        Some(("sp"@, SchemaCause::Invalid))
    } else if child_text(e, "pct"@) is None {
        Some(("pct"@, SchemaCause::Missing))
    } else if unsigned_in(e, "pct"@, 255) is None {
        Some(("pct"@, SchemaCause::Invalid))
    } else {
        None
    }
}

/// The element that could not be read, and why.
pub type Fault = (Seq<char>, SchemaCause);

/// The fault of a required field whose value is `v`: missing when there is
/// no such child, invalid when its text does not read.
pub open spec fn field_fault<T>(e: XmlElement, n: Seq<char>, v: Option<T>) -> Option<Fault> {
    if child_text(e, n) is None {
        Some((n, SchemaCause::Missing))
    } else if v is None {
        Some((n, SchemaCause::Invalid))
    } else {
        None
    }
}

/// The fault of an optional field whose value is `v`: invalid when the child
/// is there but its text does not read.
pub open spec fn optional_fault<T>(e: XmlElement, n: Seq<char>, v: Option<T>) -> Option<Fault> {
    if child_text(e, n) is Some && v is None {
        Some((n, SchemaCause::Invalid))
    } else {
        None
    }
}

/// The first fault among `a` and `b`.
pub open spec fn first_fault(a: Option<Fault>, b: Option<Fault>) -> Option<Fault> {
    match a {
        Some(x) => Some(x),
        None => b,
    }
}

/// The fault of a required child element read by `fault`: missing when it is
/// absent.
pub open spec fn child_fault(e: XmlElement, n: Seq<char>, inner: Option<Fault>) -> Option<Fault> {
    if child(e, n) is None {
        Some((n, SchemaCause::Missing))
    } else {
        inner
    }
}

pub open spec fn date_range_error(e: XmlElement) -> Option<Fault> {
    first_fault(
        field_fault(e, "begin"@, timestamp_in(e, "begin"@)),
        field_fault(e, "end"@, timestamp_in(e, "end"@)),
    )
}

pub open spec fn metadata_error(e: XmlElement) -> Option<Fault> {
    first_fault(
        field_fault(e, "org_name"@, child_text(e, "org_name"@)),
        first_fault(
            field_fault(e, "email"@, child_text(e, "email"@)),
            first_fault(
                field_fault(e, "report_id"@, child_text(e, "report_id"@)),
                match date_range_element(e) {
                    Some(d) => date_range_error(d),
                    None => Some(("date_range"@, SchemaCause::Missing)),
                },
            ),
        ),
    )
}

pub open spec fn evaluated_error(e: XmlElement) -> Option<Fault> {
    first_fault(
        field_fault(e, "disposition"@, disposition_in(e, "disposition"@)),
        first_fault(
            field_fault(e, "dkim"@, dmarc_result_in(e, "dkim"@)),
            field_fault(e, "spf"@, dmarc_result_in(e, "spf"@)),
        ),
    )
}

pub open spec fn ip_in(e: XmlElement) -> Option<Seq<char>> {
    match child_text(e, "source_ip"@) {
        Some(ip) => if is_ip_address(ip) {
            Some(ip)
        } else {
            None
        },
        None => None,
    }
}

pub open spec fn row_error(e: XmlElement) -> Option<Fault> {
    first_fault(
        field_fault(e, "source_ip"@, ip_in(e)),
        first_fault(
            field_fault(e, "count"@, unsigned_in(e, "count"@, 0xffff_ffff)),
            child_fault(e, "policy_evaluated"@, evaluated_error(child(e, "policy_evaluated"@)->Some_0)),
        ),
    )
}

pub open spec fn identifier_error(e: XmlElement) -> Option<Fault> {
    field_fault(e, "header_from"@, child_text(e, "header_from"@))
}

pub open spec fn dkim_auth_error(e: XmlElement) -> Option<Fault> {
    first_fault(
        field_fault(e, "domain"@, child_text(e, "domain"@)),
        field_fault(e, "result"@, dkim_result_in(e, "result"@)),
    )
}

pub open spec fn spf_auth_error(e: XmlElement) -> Option<Fault> {
    first_fault(
        field_fault(e, "domain"@, child_text(e, "domain"@)),
        first_fault(
            optional_fault(e, "scope"@, scope_in(e, "scope"@)),
            field_fault(e, "result"@, spf_result_in(e, "result"@)),
        ),
    )
}

/// The first fault among `s` from `k` on.
pub open spec fn first_dkim_error(s: Seq<XmlElement>, k: int) -> Option<Fault>
    decreases s.len() - k,
{
    if k < 0 || k >= s.len() {
        None
    } else {
        first_fault(dkim_auth_error(s[k]), first_dkim_error(s, k + 1))
    }
}

/// The first fault among `s` from `k` on.
pub open spec fn first_spf_error(s: Seq<XmlElement>, k: int) -> Option<Fault>
    decreases s.len() - k,
{
    if k < 0 || k >= s.len() {
        None
    } else {
        first_fault(spf_auth_error(s[k]), first_spf_error(s, k + 1))
    }
}

/// The first fault among `s` from `k` on.
pub open spec fn first_record_error(s: Seq<XmlElement>, k: int) -> Option<Fault>
    decreases s.len() - k,
{
    if k < 0 || k >= s.len() {
        None
    } else {
        first_fault(record_error(s[k]), first_record_error(s, k + 1))
    }
}


pub open spec fn auth_error(e: XmlElement) -> Option<Fault> {
    first_fault(
        first_dkim_error(named(e.children@, "dkim"@), 0),
        first_fault(
            first_spf_error(named(e.children@, "spf"@), 0),
            if named(e.children@, "spf"@).len() == 0 {
                Some(("spf"@, SchemaCause::Missing))
            } else {
                None
            },
        ),
    )
}

pub open spec fn record_error(e: XmlElement) -> Option<Fault> {
    first_fault(
        child_fault(e, "row"@, row_error(child(e, "row"@)->Some_0)),
        first_fault(
            child_fault(e, "identifiers"@, identifier_error(child(e, "identifiers"@)->Some_0)),
            child_fault(e, "auth_results"@, auth_error(child(e, "auth_results"@)->Some_0)),
        ),
    )
}

/// The element that the schema reader names when it rejects the report `e`,
/// with why: the first fault in document reading order (version, metadata,
/// policy, then the records in order), `None` when it accepts the report.
pub open spec fn feedback_error(e: XmlElement) -> Option<Fault> {
    first_fault(
        optional_fault(
            e,
            "version"@,
            match child_text(e, "version"@) {
                Some(v) => if is_version_text(v) {
                    Some(v)
                } else {
                    None
                },
                None => None,
            },
        ),
        first_fault(
            child_fault(e, "report_metadata"@, metadata_error(child(e, "report_metadata"@)->Some_0)),
            first_fault(
                child_fault(e, "policy_published"@, policy_error(child(e, "policy_published"@)->Some_0)),
                first_record_error(named(e.children@, "record"@), 0),
            ),
        ),
    )
}

/// The published policy as read, before defaults.
pub open spec fn policy_wrapper_read(e: XmlElement, w: PolicyPublishedWrapper) -> bool {
    &&& Some(w.domain@) == child_text(e, "domain"@)
    &&& w.adkim == alignment_in(e, "adkim"@)
    &&& w.aspf == alignment_in(e, "aspf"@)
    &&& Some(w.p) == disposition_in(e, "p"@)
    &&& w.sp == disposition_in(e, "sp"@)
    &&& Some(w.pct as int) == unsigned_in(e, "pct"@, 255)
    &&& opt_text(w.fo) == child_text(e, "fo"@)
}

/// The published policy after defaults: `sp` inherits `p`, `fo` defaults to
/// the empty string.
pub open spec fn policy_read(e: XmlElement, p: PolicyPublished) -> bool {
    &&& Some(p.domain@) == child_text(e, "domain"@)
    &&& p.adkim == alignment_in(e, "adkim"@)
    &&& p.aspf == alignment_in(e, "aspf"@)
    &&& Some(p.p) == disposition_in(e, "p"@)
    &&& p.sp == match disposition_in(e, "sp"@) {
        Some(sp) => sp,
        None => p.p,
    }
    &&& Some(p.pct as int) == unsigned_in(e, "pct"@, 255)
    &&& p.fo@ == match child_text(e, "fo"@) {
        Some(fo) => fo,
        None => Seq::<char>::empty(),
    }
}

pub open spec fn reason_read(e: XmlElement, r: PolicyOverrideReason) -> bool {
    &&& r.typ == override_of(child_text(e, "type"@))
    &&& opt_text(r.comment) == child_text(e, "comment"@)
}

pub open spec fn evaluated_ok(e: XmlElement) -> bool {
    &&& disposition_in(e, "disposition"@) is Some
    &&& dmarc_result_in(e, "dkim"@) is Some
    &&& dmarc_result_in(e, "spf"@) is Some
}

pub open spec fn evaluated_read(e: XmlElement, p: PolicyEvaluated) -> bool {
    let reasons = named(e.children@, "reason"@);
    &&& Some(p.disposition) == disposition_in(e, "disposition"@)
    &&& Some(p.dkim) == dmarc_result_in(e, "dkim"@)
    &&& Some(p.spf) == dmarc_result_in(e, "spf"@)
    &&& p.reasons@.len() == reasons.len()
    &&& forall|k: int| 0 <= k < reasons.len() ==> reason_read(reasons[k], #[trigger] p.reasons@[k])
}

pub open spec fn row_ok(e: XmlElement) -> bool {
    &&& child_text(e, "source_ip"@) matches Some(ip) && is_ip_address(ip)
    &&& unsigned_in(e, "count"@, 0xffff_ffff) is Some
    &&& child(e, "policy_evaluated"@) matches Some(c) && evaluated_ok(c)
}

pub open spec fn row_read(e: XmlElement, r: Row) -> bool {
    &&& Some(r.source_ip@) == child_text(e, "source_ip"@)
    &&& Some(r.count as int) == unsigned_in(e, "count"@, 0xffff_ffff)
    &&& evaluated_read(child(e, "policy_evaluated"@)->Some_0, r.policy_evaluated)
}

pub open spec fn identifier_ok(e: XmlElement) -> bool {
    child_text(e, "header_from"@) is Some
}

pub open spec fn identifier_read(e: XmlElement, i: Identifier) -> bool {
    &&& opt_text(i.envelope_to) == child_text(e, "envelope_to"@)
    &&& opt_text(i.envelope_from) == child_text(e, "envelope_from"@)
    &&& Some(i.header_from@) == child_text(e, "header_from"@)
}

pub open spec fn dkim_auth_ok(e: XmlElement) -> bool {
    &&& child_text(e, "domain"@) is Some
    &&& dkim_result_in(e, "result"@) is Some
}

pub open spec fn dkim_auth_read(e: XmlElement, d: DkimAuthResult) -> bool {
    &&& Some(d.domain@) == child_text(e, "domain"@)
    &&& opt_text(d.selector) == child_text(e, "selector"@)
    &&& Some(d.result) == dkim_result_in(e, "result"@)
    &&& opt_text(d.human_result) == child_text(e, "human_result"@)
}

pub open spec fn spf_auth_ok(e: XmlElement) -> bool {
    &&& child_text(e, "domain"@) is Some
    &&& child_text(e, "scope"@) is Some ==> scope_in(e, "scope"@) is Some
    &&& spf_result_in(e, "result"@) is Some
}

pub open spec fn spf_auth_read(e: XmlElement, s: SpfAuthResult) -> bool {
    &&& Some(s.domain@) == child_text(e, "domain"@)
    &&& s.scope == scope_in(e, "scope"@)
    &&& Some(s.result) == spf_result_in(e, "result"@)
}

pub open spec fn auth_ok(e: XmlElement) -> bool {
    let dkim = named(e.children@, "dkim"@);
    let spf = named(e.children@, "spf"@);
    &&& forall|k: int| 0 <= k < dkim.len() ==> dkim_auth_ok(#[trigger] dkim[k])
    &&& spf.len() > 0
    &&& forall|k: int| 0 <= k < spf.len() ==> spf_auth_ok(#[trigger] spf[k])
}

pub open spec fn auth_read(e: XmlElement, a: AuthResult) -> bool {
    let dkim = named(e.children@, "dkim"@);
    let spf = named(e.children@, "spf"@);
    &&& a.dkim@.len() == dkim.len()
    &&& forall|k: int| 0 <= k < dkim.len() ==> dkim_auth_read(dkim[k], #[trigger] a.dkim@[k])
    &&& a.spf@.len() == spf.len()
    &&& forall|k: int| 0 <= k < spf.len() ==> spf_auth_read(spf[k], #[trigger] a.spf@[k])
}

pub open spec fn record_ok(e: XmlElement) -> bool {
    &&& child(e, "row"@) matches Some(c) && row_ok(c)
    &&& child(e, "identifiers"@) matches Some(c) && identifier_ok(c)
    &&& child(e, "auth_results"@) matches Some(c) && auth_ok(c)
}

pub open spec fn record_read(e: XmlElement, r: Record) -> bool {
    &&& row_read(child(e, "row"@)->Some_0, r.row)
    &&& identifier_read(child(e, "identifiers"@)->Some_0, r.identifiers)
    &&& auth_read(child(e, "auth_results"@)->Some_0, r.auth_results)
}

/// Whether `t` is a schema version: decimal digits with at most one point
/// among them, and at least one digit.
pub open spec fn is_version_text(t: Seq<char>) -> bool {
    &&& forall|i: int| 0 <= i < t.len() ==> is_digit(#[trigger] t[i]) || t[i] == '.'
    &&& forall|i: int, j: int|
        0 <= i < t.len() && 0 <= j < t.len() && #[trigger] t[i] == '.' && #[trigger] t[j] == '.'
            ==> i == j
    &&& exists|i: int| 0 <= i < t.len() && is_digit(#[trigger] t[i])
}

/// Whether the element tree `e` is an aggregate report that the lenient
/// schema accepts.
pub open spec fn feedback_ok(e: XmlElement) -> bool {
    let records = named(e.children@, "record"@);
    &&& child_text(e, "version"@) matches Some(v) ==> is_version_text(v)
    &&& child(e, "report_metadata"@) matches Some(c) && metadata_ok(c)
    &&& child(e, "policy_published"@) matches Some(c) && policy_ok(c)
    &&& forall|k: int| 0 <= k < records.len() ==> record_ok(#[trigger] records[k])
}

/// Whether `f` is what the lenient schema reads out of the element tree `e`.
pub open spec fn feedback_read(e: XmlElement, f: Feedback) -> bool {
    let records = named(e.children@, "record"@);
    &&& opt_text(f.version) == child_text(e, "version"@)
    &&& metadata_read(child(e, "report_metadata"@)->Some_0, f.report_metadata)
    &&& policy_read(child(e, "policy_published"@)->Some_0, f.policy_published)
    &&& f.records@.len() == records.len()
    &&& forall|k: int| 0 <= k < records.len() ==> record_read(records[k], #[trigger] f.records@[k])
}

fn alignment_child(e: &XmlElement, n: &str) -> (r: Result<Option<Alignment>, SchemaError>)
    ensures
        r is Ok <==> (child_text(*e, n@) is Some ==> alignment_in(*e, n@) is Some),
        r matches Ok(v) ==> v == alignment_in(*e, n@),
        r matches Err(err) ==> err.element@ == n@ && err.cause == SchemaCause::Invalid,
{
    match find_child(e, n) {
        Some(c) => match parse_alignment(&c.text) {
            Some(v) => Ok(Some(v)),
            None => Err(error_at(n, SchemaCause::Invalid)),
        },
        None => Ok(None),
    }
}

fn disposition_child(e: &XmlElement, n: &str) -> (r: Result<Option<Disposition>, SchemaError>)
    ensures
        r is Ok <==> (child_text(*e, n@) is Some ==> disposition_in(*e, n@) is Some),
        r matches Ok(v) ==> v == disposition_in(*e, n@),
        r matches Err(err) ==> err.element@ == n@ && err.cause == SchemaCause::Invalid,
{
    match find_child(e, n) {
        Some(c) => match parse_disposition(&c.text) {
            Some(v) => Ok(Some(v)),
            None => Err(error_at(n, SchemaCause::Invalid)),
        },
        None => Ok(None),
    }
}

fn dmarc_result_child(e: &XmlElement, n: &str) -> (r: Result<Option<DmarcResult>, SchemaError>)
    ensures
        r is Ok <==> (child_text(*e, n@) is Some ==> dmarc_result_in(*e, n@) is Some),
        r matches Ok(v) ==> v == dmarc_result_in(*e, n@),
        r matches Err(err) ==> err.element@ == n@ && err.cause == SchemaCause::Invalid,
{
    match find_child(e, n) {
        Some(c) => match parse_dmarc_result(&c.text) {
            Some(v) => Ok(Some(v)),
            None => Err(error_at(n, SchemaCause::Invalid)),
        },
        None => Ok(None),
    }
}

fn dkim_result_child(e: &XmlElement, n: &str) -> (r: Result<Option<DkimResult>, SchemaError>)
    ensures
        r is Ok <==> (child_text(*e, n@) is Some ==> dkim_result_in(*e, n@) is Some),
        r matches Ok(v) ==> v == dkim_result_in(*e, n@),
        r matches Err(err) ==> err.element@ == n@ && err.cause == SchemaCause::Invalid,
{
    match find_child(e, n) {
        Some(c) => match parse_dkim_result(&c.text) {
            Some(v) => Ok(Some(v)),
            None => Err(error_at(n, SchemaCause::Invalid)),
        },
        None => Ok(None),
    }
}

fn scope_child(e: &XmlElement, n: &str) -> (r: Result<Option<SpfDomainScope>, SchemaError>)
    ensures
        r is Ok <==> (child_text(*e, n@) is Some ==> scope_in(*e, n@) is Some),
        r matches Ok(v) ==> v == scope_in(*e, n@),
        r matches Err(err) ==> err.element@ == n@ && err.cause == SchemaCause::Invalid,
{
    match find_child(e, n) {
        Some(c) => match parse_scope(&c.text) {
            Some(v) => Ok(Some(v)),
            None => Err(error_at(n, SchemaCause::Invalid)),
        },
        None => Ok(None),
    }
}

fn spf_result_child(e: &XmlElement, n: &str) -> (r: Result<Option<SpfResult>, SchemaError>)
    ensures
        r is Ok <==> (child_text(*e, n@) is Some ==> spf_result_in(*e, n@) is Some),
        r matches Ok(v) ==> v == spf_result_in(*e, n@),
        r matches Err(err) ==> err.element@ == n@ && err.cause == SchemaCause::Invalid,
{
    match find_child(e, n) {
        Some(c) => match parse_spf_result(&c.text) {
            Some(v) => Ok(Some(v)),
            None => Err(error_at(n, SchemaCause::Invalid)),
        },
        None => Ok(None),
    }
}

/// The value of an optional field that must be present.
fn present<T>(v: Result<Option<T>, SchemaError>, n: &str) -> (r: Result<T, SchemaError>)
    ensures
        r is Ok <==> v matches Ok(Some(_)),
        r matches Ok(x) ==> v == Ok::<Option<T>, SchemaError>(Some(x)),
        r matches Err(err) ==> match v {
            Err(inner) => err == inner,
            _ => err.element@ == n@ && err.cause == SchemaCause::Missing,
        },
{
    match v {
        Ok(Some(x)) => Ok(x),
        Ok(None) => Err(error_at(n, SchemaCause::Missing)),
        Err(err) => Err(err),
    }
}

fn unsigned_child(e: &XmlElement, n: &str, max: u64) -> (r: Result<u64, SchemaError>)
    requires
        max <= 0x8000_0000_0000_0000,
    ensures
        r is Ok <==> unsigned_in(*e, n@, max as int) is Some,
        r matches Ok(v) ==> v as int == unsigned_in(*e, n@, max as int)->Some_0,
        r matches Err(err) ==> err.element@ == n@ && (err.cause == SchemaCause::Missing
            <==> child_text(*e, n@) is None),
{
    match find_child(e, n) {
        Some(c) => {
            match parse_unsigned(c.text.as_str(), max) {
                Some(v) => Ok(v),
                None => Err(error_at(n, SchemaCause::Invalid)),
            }
        },
        None => Err(error_at(n, SchemaCause::Missing)),
    }
}

fn timestamp_child(e: &XmlElement, n: &str) -> (r: Result<i64, SchemaError>)
    ensures
        r is Ok <==> timestamp_in(*e, n@) is Some,
        r matches Ok(v) ==> v as int == timestamp_in(*e, n@)->Some_0,
        r matches Err(err) ==> err.element@ == n@ && (err.cause == SchemaCause::Missing
            <==> child_text(*e, n@) is None),
{
    match find_child(e, n) {
        Some(c) => match parse_timestamp(c.text.as_str()) {
            Some(v) => Ok(v),
            None => Err(error_at(n, SchemaCause::Invalid)),
        },
        None => Err(error_at(n, SchemaCause::Missing)),
    }
}

proof fn lemma_named_prefix(kids: Seq<XmlElement>, n: Seq<char>, j: int)
    requires
        0 <= j <= kids.len(),
    ensures
        named(kids.subrange(0, j), n).len() <= named(kids, n).len(),
        forall|k: int|
            0 <= k < named(kids.subrange(0, j), n).len() ==> #[trigger] named(
                kids.subrange(0, j),
                n,
            )[k] == named(kids, n)[k],
    decreases kids.len(),
{
    if j == kids.len() {
        assert(kids.subrange(0, j) =~= kids);
    } else {
        assert(kids.drop_last().subrange(0, j) =~= kids.subrange(0, j));
        lemma_named_prefix(kids.drop_last(), n, j);
    }
}

proof fn lemma_named_step(kids: Seq<XmlElement>, n: Seq<char>, i: int)
    requires
        0 <= i < kids.len(),
    ensures
        named(kids.subrange(0, i + 1), n) == if kids[i].name@ == n {
            named(kids.subrange(0, i), n).push(kids[i])
        } else {
            named(kids.subrange(0, i), n)
        },
{
    assert(kids.subrange(0, i + 1).drop_last() =~= kids.subrange(0, i));
}

/// Whether `s` is the text of the element `e`.
pub open spec fn text_read(e: XmlElement, s: String) -> bool {
    s@ == e.text@
}

proof fn lemma_first_dkim_error(s: Seq<XmlElement>, j: int, m: int)
    requires
        0 <= j <= m <= s.len(),
        forall|k: int| j <= k < m ==> dkim_auth_error(#[trigger] s[k]) is None,
    ensures
        first_dkim_error(s, j) == first_dkim_error(s, m),
    decreases m - j,
{
    if j < m {
        lemma_first_dkim_error(s, j + 1, m);
    }
}

proof fn lemma_first_spf_error(s: Seq<XmlElement>, j: int, m: int)
    requires
        0 <= j <= m <= s.len(),
        forall|k: int| j <= k < m ==> spf_auth_error(#[trigger] s[k]) is None,
    ensures
        first_spf_error(s, j) == first_spf_error(s, m),
    decreases m - j,
{
    if j < m {
        lemma_first_spf_error(s, j + 1, m);
    }
}

proof fn lemma_first_record_error(s: Seq<XmlElement>, j: int, m: int)
    requires
        0 <= j <= m <= s.len(),
        forall|k: int| j <= k < m ==> record_error(#[trigger] s[k]) is None,
    ensures
        first_record_error(s, j) == first_record_error(s, m),
    decreases m - j,
{
    if j < m {
        lemma_first_record_error(s, j + 1, m);
    }
}

fn read_date_range(e: &XmlElement) -> (r: Result<DateRange, SchemaError>)
    ensures
        r is Ok <==> date_range_ok(*e),
        r matches Ok(d) ==> date_range_read(*e, d),
        r is Ok ==> date_range_error(*e) is None,
        r matches Err(err) ==> date_range_error(*e) == Some((err.element@, err.cause)),
{
    let begin = timestamp_child(e, "begin")?;
    let end = timestamp_child(e, "end")?;
    Ok(DateRange { begin, end })
}

/// Reads an override reason; its kind falls back to `Other`.
pub fn reason_from_element(e: &XmlElement) -> (r: PolicyOverrideReason)
    ensures
        reason_read(*e, r),
{
    let typ = parse_override(&optional_text(e, "type"));
    let comment = optional_text(e, "comment");
    PolicyOverrideReason { typ, comment }
}

fn read_dkim_auth(e: &XmlElement) -> (r: Result<DkimAuthResult, SchemaError>)
    ensures
        r is Ok <==> dkim_auth_ok(*e),
        r matches Ok(d) ==> dkim_auth_read(*e, d),
        r is Ok ==> dkim_auth_error(*e) is None,
        r matches Err(err) ==> dkim_auth_error(*e) == Some((err.element@, err.cause)),
{
    let domain = required_text(e, "domain")?;
    let selector = optional_text(e, "selector");
    let result = present(dkim_result_child(e, "result"), "result")?;
    let human_result = optional_text(e, "human_result");
    Ok(DkimAuthResult { domain, selector, result, human_result })
}

fn read_spf_auth(e: &XmlElement) -> (r: Result<SpfAuthResult, SchemaError>)
    ensures
        r is Ok <==> spf_auth_ok(*e),
        r matches Ok(s) ==> spf_auth_read(*e, s),
        r is Ok ==> spf_auth_error(*e) is None,
        r matches Err(err) ==> spf_auth_error(*e) == Some((err.element@, err.cause)),
{
    let domain = required_text(e, "domain")?;
    let scope = scope_child(e, "scope")?;
    let result = present(spf_result_child(e, "result"), "result")?;
    Ok(SpfAuthResult { domain, scope, result })
}

fn read_errors(e: &XmlElement) -> (r: Result<Vec<String>, SchemaError>)
    ensures
        r is Ok,
        r matches Ok(v) ==> v@.len() == named(e.children@, "error"@).len() && forall|k: int|
            0 <= k < v@.len() ==> text_read(named(e.children@, "error"@)[k], #[trigger] v@[k]),
{
    let ghost kids = e.children@;
    let ghost n = "error"@;
    let mut out: Vec<String> = Vec::new();
    let mut i: usize = 0;
    while i < e.children.len()
        invariant
            kids == e.children@,
            n == "error"@,
            i <= kids.len(),
            out@.len() == named(kids.subrange(0, i as int), n).len(),
            forall|k: int|
                0 <= k < out@.len() ==> text_read(
                    named(kids.subrange(0, i as int), n)[k],
                    #[trigger] out@[k],
                ),
            
        decreases kids.len() - i,
    {
        proof {
            lemma_named_step(kids, n, i as int);
        }
        let c = &e.children[i];
        if text_is(&c.name, "error") {
            let x = c.text.clone();
            out.push(x);
        }
        i = i + 1;
    }
    proof {
        assert(kids.subrange(0, kids.len() as int) =~= kids);
    }
    Ok(out)
}

fn read_reasons(e: &XmlElement) -> (r: Result<Vec<PolicyOverrideReason>, SchemaError>)
    ensures
        r is Ok,
        r matches Ok(v) ==> v@.len() == named(e.children@, "reason"@).len() && forall|k: int|
            0 <= k < v@.len() ==> reason_read(named(e.children@, "reason"@)[k], #[trigger] v@[k]),
{
    let ghost kids = e.children@;
    let ghost n = "reason"@;
    let mut out: Vec<PolicyOverrideReason> = Vec::new();
    let mut i: usize = 0;
    while i < e.children.len()
        invariant
            kids == e.children@,
            n == "reason"@,
            i <= kids.len(),
            out@.len() == named(kids.subrange(0, i as int), n).len(),
            forall|k: int|
                0 <= k < out@.len() ==> reason_read(
                    named(kids.subrange(0, i as int), n)[k],
                    #[trigger] out@[k],
                ),
            
        decreases kids.len() - i,
    {
        proof {
            lemma_named_step(kids, n, i as int);
        }
        let c = &e.children[i];
        if text_is(&c.name, "reason") {
            let x = reason_from_element(c);
            out.push(x);
        }
        i = i + 1;
    }
    proof {
        assert(kids.subrange(0, kids.len() as int) =~= kids);
    }
    Ok(out)
}

fn read_dkim_list(e: &XmlElement) -> (r: Result<Vec<DkimAuthResult>, SchemaError>)
    ensures
        r is Ok <==> (forall|k: int| 0 <= k < named(e.children@, "dkim"@).len() ==> dkim_auth_ok(#[trigger] named(e.children@, "dkim"@)[k])),
        r matches Ok(v) ==> v@.len() == named(e.children@, "dkim"@).len() && forall|k: int|
            0 <= k < v@.len() ==> dkim_auth_read(named(e.children@, "dkim"@)[k], #[trigger] v@[k]),
        r is Ok ==> first_dkim_error(named(e.children@, "dkim"@), 0) is None,
        r matches Err(err) ==> first_dkim_error(named(e.children@, "dkim"@), 0) == Some((err.element@, err.cause)),
{
    let ghost kids = e.children@;
    let ghost n = "dkim"@;
    let mut out: Vec<DkimAuthResult> = Vec::new();
    let mut i: usize = 0;
    while i < e.children.len()
        invariant
            kids == e.children@,
            n == "dkim"@,
            i <= kids.len(),
            out@.len() == named(kids.subrange(0, i as int), n).len(),
            forall|k: int|
                0 <= k < out@.len() ==> dkim_auth_read(
                    named(kids.subrange(0, i as int), n)[k],
                    #[trigger] out@[k],
                ),
            forall|k: int| 0 <= k < out@.len() ==> dkim_auth_ok(#[trigger] named(kids.subrange(0, i as int), n)[k]),
            forall|k: int| 0 <= k < out@.len() ==> dkim_auth_error(#[trigger] named(kids.subrange(0, i as int), n)[k]) is None,
        decreases kids.len() - i,
    {
        proof {
            lemma_named_step(kids, n, i as int);
        }
        let c = &e.children[i];
        if text_is(&c.name, "dkim") {
            match read_dkim_auth(c) {
                Ok(x) => {
                    out.push(x);
                },
                Err(err) => {
                    proof {
                        lemma_named_prefix(kids, n, i + 1);
                        assert(named(kids.subrange(0, i + 1), n)[out@.len() as int] == kids[i as int]);
                        assert(named(kids, n)[out@.len() as int] == kids[i as int]);
                        assert forall|k: int| 0 <= k < out@.len() implies dkim_auth_error(#[trigger] named(kids, n)[k]) is None by {
                            assert(named(kids.subrange(0, i as int + 1), n)[k] == named(kids.subrange(0, i as int), n)[k]);
                        }
                        lemma_first_dkim_error(named(kids, n), 0, out@.len() as int);
                    }
                    return Err(err);
                },
            }
        }
        i = i + 1;
    }
    proof {
        assert(kids.subrange(0, kids.len() as int) =~= kids);
        lemma_first_dkim_error(named(kids, n), 0, named(kids, n).len() as int);
    }
    Ok(out)
}

fn read_spf_list(e: &XmlElement) -> (r: Result<Vec<SpfAuthResult>, SchemaError>)
    ensures
        r is Ok <==> (forall|k: int| 0 <= k < named(e.children@, "spf"@).len() ==> spf_auth_ok(#[trigger] named(e.children@, "spf"@)[k])),
        r matches Ok(v) ==> v@.len() == named(e.children@, "spf"@).len() && forall|k: int|
            0 <= k < v@.len() ==> spf_auth_read(named(e.children@, "spf"@)[k], #[trigger] v@[k]),
        r is Ok ==> first_spf_error(named(e.children@, "spf"@), 0) is None,
        r matches Err(err) ==> first_spf_error(named(e.children@, "spf"@), 0) == Some((err.element@, err.cause)),
{
    let ghost kids = e.children@;
    let ghost n = "spf"@;
    let mut out: Vec<SpfAuthResult> = Vec::new();
    let mut i: usize = 0;
    while i < e.children.len()
        invariant
            kids == e.children@,
            n == "spf"@,
            i <= kids.len(),
            out@.len() == named(kids.subrange(0, i as int), n).len(),
            forall|k: int|
                0 <= k < out@.len() ==> spf_auth_read(
                    named(kids.subrange(0, i as int), n)[k],
                    #[trigger] out@[k],
                ),
            forall|k: int| 0 <= k < out@.len() ==> spf_auth_ok(#[trigger] named(kids.subrange(0, i as int), n)[k]),
            forall|k: int| 0 <= k < out@.len() ==> spf_auth_error(#[trigger] named(kids.subrange(0, i as int), n)[k]) is None,
        decreases kids.len() - i,
    {
        proof {
            lemma_named_step(kids, n, i as int);
        }
        let c = &e.children[i];
        if text_is(&c.name, "spf") {
            match read_spf_auth(c) {
                Ok(x) => {
                    out.push(x);
                },
                Err(err) => {
                    proof {
                        lemma_named_prefix(kids, n, i + 1);
                        assert(named(kids.subrange(0, i + 1), n)[out@.len() as int] == kids[i as int]);
                        assert(named(kids, n)[out@.len() as int] == kids[i as int]);
                        assert forall|k: int| 0 <= k < out@.len() implies spf_auth_error(#[trigger] named(kids, n)[k]) is None by {
                            assert(named(kids.subrange(0, i as int + 1), n)[k] == named(kids.subrange(0, i as int), n)[k]);
                        }
                        lemma_first_spf_error(named(kids, n), 0, out@.len() as int);
                    }
                    return Err(err);
                },
            }
        }
        i = i + 1;
    }
    proof {
        assert(kids.subrange(0, kids.len() as int) =~= kids);
        lemma_first_spf_error(named(kids, n), 0, named(kids, n).len() as int);
    }
    Ok(out)
}

fn read_records(e: &XmlElement) -> (r: Result<Vec<Record>, SchemaError>)
    ensures
        r is Ok <==> (forall|k: int| 0 <= k < named(e.children@, "record"@).len() ==> record_ok(#[trigger] named(e.children@, "record"@)[k])),
        r matches Ok(v) ==> v@.len() == named(e.children@, "record"@).len() && forall|k: int|
            0 <= k < v@.len() ==> record_read(named(e.children@, "record"@)[k], #[trigger] v@[k]),
        r is Ok ==> first_record_error(named(e.children@, "record"@), 0) is None,
        r matches Err(err) ==> first_record_error(named(e.children@, "record"@), 0) == Some((err.element@, err.cause)),
{
    let ghost kids = e.children@;
    let ghost n = "record"@;
    let mut out: Vec<Record> = Vec::new();
    let mut i: usize = 0;
    while i < e.children.len()
        invariant
            kids == e.children@,
            n == "record"@,
            i <= kids.len(),
            out@.len() == named(kids.subrange(0, i as int), n).len(),
            forall|k: int|
                0 <= k < out@.len() ==> record_read(
                    named(kids.subrange(0, i as int), n)[k],
                    #[trigger] out@[k],
                ),
            forall|k: int| 0 <= k < out@.len() ==> record_ok(#[trigger] named(kids.subrange(0, i as int), n)[k]),
            forall|k: int| 0 <= k < out@.len() ==> record_error(#[trigger] named(kids.subrange(0, i as int), n)[k]) is None,
        decreases kids.len() - i,
    {
        proof {
            lemma_named_step(kids, n, i as int);
        }
        let c = &e.children[i];
        if text_is(&c.name, "record") {
            match read_record(c) {
                Ok(x) => {
                    out.push(x);
                },
                Err(err) => {
                    proof {
                        lemma_named_prefix(kids, n, i + 1);
                        assert(named(kids.subrange(0, i + 1), n)[out@.len() as int] == kids[i as int]);
                        assert(named(kids, n)[out@.len() as int] == kids[i as int]);
                        assert forall|k: int| 0 <= k < out@.len() implies record_error(#[trigger] named(kids, n)[k]) is None by {
                            assert(named(kids.subrange(0, i as int + 1), n)[k] == named(kids.subrange(0, i as int), n)[k]);
                        }
                        lemma_first_record_error(named(kids, n), 0, out@.len() as int);
                    }
                    return Err(err);
                },
            }
        }
        i = i + 1;
    }
    proof {
        assert(kids.subrange(0, kids.len() as int) =~= kids);
        lemma_first_record_error(named(kids, n), 0, named(kids, n).len() as int);
    }
    Ok(out)
}

fn read_metadata(e: &XmlElement) -> (r: Result<ReportMetadata, SchemaError>)
    ensures
        r is Ok <==> metadata_ok(*e),
        r matches Ok(m) ==> metadata_read(*e, m),
        r is Ok ==> metadata_error(*e) is None,
        r matches Err(err) ==> metadata_error(*e) == Some((err.element@, err.cause)),
{
    let org_name = required_text(e, "org_name")?;
    let email = required_text(e, "email")?;
    let extra_contact_info = optional_text(e, "extra_contact_info");
    let report_id = required_text(e, "report_id")?;
    let range_element = match find_child(e, "date_range") {
        Some(c) => c,
        None => match find_child(e, "data_range") {
            Some(c) => c,
            None => {
                return Err(error_at("date_range", SchemaCause::Missing));
            },
        },
    };
    let date_range = read_date_range(range_element)?;
    let errors = read_errors(e)?;
    Ok(ReportMetadata { org_name, email, extra_contact_info, report_id, date_range, errors })
}

impl PolicyPublishedWrapper {
    /// Reads a published policy, leaving absent `sp` and `fo` absent.
    pub fn from_element(e: &XmlElement) -> (r: Result<PolicyPublishedWrapper, SchemaError>)
        ensures
            r is Ok <==> policy_ok(*e),
            r matches Ok(w) ==> policy_wrapper_read(*e, w),
            r is Ok ==> policy_error(*e) is None,
            r matches Err(err) ==> policy_error(*e) == Some((err.element@, err.cause)),
    {
        let domain = required_text(e, "domain")?;
        let adkim = alignment_child(e, "adkim")?;
        let aspf = alignment_child(e, "aspf")?;
        let p = present(disposition_child(e, "p"), "p")?;
        let sp = disposition_child(e, "sp")?;
        let pct = unsigned_child(e, "pct", 255)?;
        let fo = optional_text(e, "fo");
        Ok(PolicyPublishedWrapper { domain, adkim, aspf, p, sp, pct: pct as u8, fo })
    }
}

impl PolicyPublished {
    /// Reads a published policy and applies its defaults: a missing `sp`
    /// inherits `p`, a missing `fo` is the empty string.
    pub fn deserialize_from_wrapper(e: &XmlElement) -> (r: Result<PolicyPublished, SchemaError>)
        ensures
            r is Ok <==> policy_ok(*e),
            r matches Ok(p) ==> policy_read(*e, p),
            r is Ok ==> policy_error(*e) is None,
            r matches Err(err) ==> policy_error(*e) == Some((err.element@, err.cause)),
    {
        let wrapper = PolicyPublishedWrapper::from_element(e)?;
        Ok(PolicyPublished::from_wrapper(wrapper))
    }
}

fn read_evaluated(e: &XmlElement) -> (r: Result<PolicyEvaluated, SchemaError>)
    ensures
        r is Ok <==> evaluated_ok(*e),
        r matches Ok(p) ==> evaluated_read(*e, p),
        r is Ok ==> evaluated_error(*e) is None,
        r matches Err(err) ==> evaluated_error(*e) == Some((err.element@, err.cause)),
{
    let disposition = present(disposition_child(e, "disposition"), "disposition")?;
    let dkim = present(dmarc_result_child(e, "dkim"), "dkim")?;
    let spf = present(dmarc_result_child(e, "spf"), "spf")?;
    let reasons = read_reasons(e)?;
    Ok(PolicyEvaluated { disposition, dkim, spf, reasons })
}

fn read_row(e: &XmlElement) -> (r: Result<Row, SchemaError>)
    ensures
        r is Ok <==> row_ok(*e),
        r matches Ok(x) ==> row_read(*e, x),
        r is Ok ==> row_error(*e) is None,
        r matches Err(err) ==> row_error(*e) == Some((err.element@, err.cause)),
{
    let source_ip = required_text(e, "source_ip")?;
    if !ip_address_valid(source_ip.as_str()) {
        return Err(error_at("source_ip", SchemaCause::Invalid));
    }
    let count = unsigned_child(e, "count", 0xffff_ffff)?;
    let policy_evaluated = match find_child(e, "policy_evaluated") {
        Some(c) => read_evaluated(c)?,
        None => {
            return Err(error_at("policy_evaluated", SchemaCause::Missing));
        },
    };
    Ok(Row { source_ip, count: count as u32, policy_evaluated })
}

fn read_identifier(e: &XmlElement) -> (r: Result<Identifier, SchemaError>)
    ensures
        r is Ok <==> identifier_ok(*e),
        r matches Ok(x) ==> identifier_read(*e, x),
        r is Ok ==> identifier_error(*e) is None,
        r matches Err(err) ==> identifier_error(*e) == Some((err.element@, err.cause)),
{
    let envelope_to = optional_text(e, "envelope_to");
    let envelope_from = optional_text(e, "envelope_from");
    let header_from = required_text(e, "header_from")?;
    Ok(Identifier { envelope_to, envelope_from, header_from })
}

fn read_auth(e: &XmlElement) -> (r: Result<AuthResult, SchemaError>)
    ensures
        r is Ok <==> auth_ok(*e),
        r matches Ok(x) ==> auth_read(*e, x),
        r is Ok ==> auth_error(*e) is None,
        r matches Err(err) ==> auth_error(*e) == Some((err.element@, err.cause)),
{
    let dkim = read_dkim_list(e)?;
    let spf = read_spf_list(e)?;
    if spf.len() == 0 {
        return Err(error_at("spf", SchemaCause::Missing));
    }
    Ok(AuthResult { dkim, spf })
}

fn read_record(e: &XmlElement) -> (r: Result<Record, SchemaError>)
    ensures
        r is Ok <==> record_ok(*e),
        r matches Ok(x) ==> record_read(*e, x),
        r is Ok ==> record_error(*e) is None,
        r matches Err(err) ==> record_error(*e) == Some((err.element@, err.cause)),
{
    let row = match find_child(e, "row") {
        Some(c) => read_row(c)?,
        None => {
            return Err(error_at("row", SchemaCause::Missing));
        },
    };
    let identifiers = match find_child(e, "identifiers") {
        Some(c) => read_identifier(c)?,
        None => {
            return Err(error_at("identifiers", SchemaCause::Missing));
        },
    };
    let auth_results = match find_child(e, "auth_results") {
        Some(c) => read_auth(c)?,
        None => {
            return Err(error_at("auth_results", SchemaCause::Missing));
        },
    };
    Ok(Record { row, identifiers, auth_results })
}

/// Reads an aggregate report out of its element tree, with the lenience
/// rules of the schema: optional version, contact, envelope domains, DKIM
/// selector and details, SPF scope and `fo`; empty error and reason lists
/// when absent; the date range under its misspelled name; `sp` inheriting
/// `p`; unknown override kinds read as `Other`.
pub fn feedback_from_element(e: &XmlElement) -> (r: Result<Feedback, SchemaError>)
    ensures
        r is Ok <==> feedback_ok(*e),
        r matches Ok(f) ==> feedback_read(*e, f),
        r is Ok ==> feedback_error(*e) is None,
        r matches Err(err) ==> feedback_error(*e) == Some((err.element@, err.cause)),
{
    let version = optional_text(e, "version");
    match &version {
        Some(v) => {
            if !version_text_valid(v.as_str()) {
                return Err(error_at("version", SchemaCause::Invalid));
            }
        },
        None => {},
    }
    let report_metadata = match find_child(e, "report_metadata") {
        Some(c) => read_metadata(c)?,
        None => {
            return Err(error_at("report_metadata", SchemaCause::Missing));
        },
    };
    let policy_published = match find_child(e, "policy_published") {
        Some(c) => PolicyPublished::deserialize_from_wrapper(c)?,
        None => {
            return Err(error_at("policy_published", SchemaCause::Missing));
        },
    };
    let records = read_records(e)?;
    Ok(Feedback { version, report_metadata, policy_published, records })
}

/// Whether `t` names one of the override kinds of the closed set.
pub open spec fn is_override_name(t: Seq<char>) -> bool {
    ||| t == "forwarded"@
    ||| t == "sampled_out"@
    ||| t == "trusted_forwarder"@
    ||| t == "mailing_list"@
    ||| t == "local_policy"@
    ||| t == "other"@
}

/// A report whose published policy has no `sp` gets the subdomain policy of
/// its domain policy `p`.
pub proof fn lemma_missing_sp_inherits_p(doc: XmlElement, f: Feedback)
    requires
        feedback_ok(doc),
        feedback_read(doc, f),
        child(child(doc, "policy_published"@)->Some_0, "sp"@) is None,
    ensures
        f.policy_published.sp == f.policy_published.p,
{
}

/// A report whose published policy has no `fo` gets the empty string as its
/// failure reporting options.
pub proof fn lemma_missing_fo_is_empty(doc: XmlElement, f: Feedback)
    requires
        feedback_ok(doc),
        feedback_read(doc, f),
        child(child(doc, "policy_published"@)->Some_0, "fo"@) is None,
    ensures
        f.policy_published.fo@ == Seq::<char>::empty(),
{
}

/// A published policy without `sp` that is read gets `sp` equal to `p`.
pub proof fn lemma_policy_without_sp(e: XmlElement, p: PolicyPublished)
    requires
        policy_ok(e),
        policy_read(e, p),
        child(e, "sp"@) is None,
    ensures
        p.sp == p.p,
{
}

/// A published policy without `fo` that is read gets the empty string as `fo`.
pub proof fn lemma_policy_without_fo(e: XmlElement, p: PolicyPublished)
    requires
        policy_ok(e),
        policy_read(e, p),
        child(e, "fo"@) is None,
    ensures
        p.fo@ == Seq::<char>::empty(),
{
}

/// Metadata that spells its date range element `data_range` is accepted
/// exactly when the same metadata with a `date_range` element is, and reads
/// the same date range.
pub proof fn lemma_date_range_alias(
    misspelled: XmlElement,
    correct: XmlElement,
    range: XmlElement,
    m1: ReportMetadata,
    m2: ReportMetadata,
)
    requires
        child(misspelled, "date_range"@) is None,
        child(misspelled, "data_range"@) == Some(range),
        child(correct, "date_range"@) == Some(range),
        child_text(misspelled, "org_name"@) == child_text(correct, "org_name"@),
        child_text(misspelled, "email"@) == child_text(correct, "email"@),
        child_text(misspelled, "report_id"@) == child_text(correct, "report_id"@),
        metadata_read(misspelled, m1),
        metadata_read(correct, m2),
    ensures
        metadata_ok(misspelled) <==> metadata_ok(correct),
        metadata_ok(misspelled) ==> m1.date_range == m2.date_range,
{
}

/// An override reason whose kind is missing or outside the closed set reads
/// as `Other`.
pub proof fn lemma_unknown_override_is_other(e: XmlElement, r: PolicyOverrideReason)
    requires
        reason_read(e, r),
        child_text(e, "type"@) matches Some(t) ==> !is_override_name(t),
    ensures
        r.typ == PolicyOverride::Other,
{
}

/// Whether two sequences of trees have the same values, position by position.
pub open spec fn same_nodes(a: Seq<XmlElement>, b: Seq<XmlElement>) -> bool {
    &&& a.len() == b.len()
    &&& forall|i: int| 0 <= i < a.len() ==> (#[trigger] a[i]).node() == b[i].node()
}

proof fn lemma_same_first(a: Seq<XmlElement>, b: Seq<XmlElement>, n: Seq<char>, k: int)
    requires
        same_nodes(a, b),
        0 <= k,
    ensures
        first_named_from(a, n, k) == first_named_from(b, n, k),
    decreases a.len() - k,
{
    if k < a.len() {
        assert(a[k].node() == b[k].node());
        lemma_same_first(a, b, n, k + 1);
    }
}

proof fn lemma_same_named(a: Seq<XmlElement>, b: Seq<XmlElement>, n: Seq<char>)
    requires
        same_nodes(a, b),
    ensures
        same_nodes(named(a, n), named(b, n)),
    decreases a.len(),
{
    if a.len() > 0 {
        assert(same_nodes(a.drop_last(), b.drop_last())) by {
            assert forall|i: int| 0 <= i < a.len() - 1 implies (#[trigger] a.drop_last()[i]).node()
                == b.drop_last()[i].node() by {
                assert(a[i].node() == b[i].node());
            }
        }
        lemma_same_named(a.drop_last(), b.drop_last(), n);
        assert(a.last().node() == b.last().node());
        let pa = named(a.drop_last(), n);
        let pb = named(b.drop_last(), n);
        if a.last().name@ == n {
            assert forall|i: int| 0 <= i < pa.len() + 1 implies (#[trigger] pa.push(a.last())[i]).node()
                == pb.push(b.last())[i].node() by {
                if i < pa.len() {
                    assert(pa[i].node() == pb[i].node());
                }
            }
        }
    }
}

proof fn lemma_same_lookups(x: XmlElement, y: XmlElement)
    requires
        x.node() == y.node(),
    ensures
        x.text@ == y.text@,
        forall|n: Seq<char>| #[trigger] child_text(x, n) == child_text(y, n),
        forall|n: Seq<char>| (#[trigger] child(x, n)) is Some <==> child(y, n) is Some,
        forall|n: Seq<char>|
            (#[trigger] child(x, n)) is Some ==> child(x, n)->Some_0.node() == child(
                y,
                n,
            )->Some_0.node(),
        forall|n: Seq<char>| same_nodes(#[trigger] named(x.children@, n), named(y.children@, n)),
{
    let a = x.children@;
    let b = y.children@;
    lemma_nodes_of(a);
    lemma_nodes_of(b);
    assert(same_nodes(a, b)) by {
        assert forall|i: int| 0 <= i < a.len() implies (#[trigger] a[i]).node() == b[i].node() by {
            assert(nodes_of(a)[i] == nodes_of(b)[i]);
        }
    }
    assert forall|n: Seq<char>| #[trigger] child_text(x, n) == child_text(y, n) by {
        lemma_same_first(a, b, n, 0);
        lemma_first_named_bounds(a, n, 0);
    }
    assert forall|n: Seq<char>| (#[trigger] child(x, n)) is Some <==> child(y, n) is Some by {
        lemma_same_first(a, b, n, 0);
    }
    assert forall|n: Seq<char>|
        (#[trigger] child(x, n)) is Some implies child(x, n)->Some_0.node() == child(
            y,
            n,
        )->Some_0.node() by {
        lemma_same_first(a, b, n, 0);
        lemma_first_named_bounds(a, n, 0);
    }
    assert forall|n: Seq<char>| same_nodes(#[trigger] named(a, n), named(b, n)) by {
        lemma_same_named(a, b, n);
    }
}

proof fn lemma_first_named_bounds(kids: Seq<XmlElement>, n: Seq<char>, k: int)
    requires
        0 <= k,
    ensures
        first_named_from(kids, n, k) matches Some(j) ==> k <= j < kids.len(),
    decreases kids.len() - k,
{
    if k < kids.len() && kids[k].name@ != n {
        lemma_first_named_bounds(kids, n, k + 1);
    }
}

proof fn lemma_same_date_range(x: XmlElement, y: XmlElement)
    requires
        x.node() == y.node(),
    ensures
        date_range_error(x) == date_range_error(y),
        date_range_ok(x) == date_range_ok(y),
        forall|v: DateRange| #[trigger] date_range_read(x, v) == date_range_read(y, v),
{
    lemma_same_lookups(x, y);
}

proof fn lemma_same_text_list(x: XmlElement, y: XmlElement, tag: Seq<char>)
    requires
        x.node() == y.node(),
    ensures
        forall|k: int|
            0 <= k < named(x.children@, tag).len() ==> (#[trigger] named(x.children@, tag)[k]).text@
                == named(y.children@, tag)[k].text@,
{
    lemma_same_lookups(x, y);
}

proof fn lemma_same_metadata(x: XmlElement, y: XmlElement)
    requires
        x.node() == y.node(),
    ensures
        metadata_error(x) == metadata_error(y),
        metadata_ok(x) == metadata_ok(y),
        forall|v: ReportMetadata| #[trigger] metadata_read(x, v) == metadata_read(y, v),
{
    lemma_same_lookups(x, y);
    if date_range_element(x) is Some {
        lemma_same_date_range(date_range_element(x)->Some_0, date_range_element(y)->Some_0);
    }
    lemma_same_text_list(x, y, "error"@);
}

proof fn lemma_same_policy(x: XmlElement, y: XmlElement)
    requires
        x.node() == y.node(),
    ensures
        policy_error(x) == policy_error(y),
        policy_ok(x) == policy_ok(y),
        forall|v: PolicyPublished| #[trigger] policy_read(x, v) == policy_read(y, v),
{
    lemma_same_lookups(x, y);
}

proof fn lemma_same_reason(x: XmlElement, y: XmlElement)
    requires
        x.node() == y.node(),
    ensures
        forall|v: PolicyOverrideReason| #[trigger] reason_read(x, v) == reason_read(y, v),
{
    lemma_same_lookups(x, y);
}

proof fn lemma_same_evaluated(x: XmlElement, y: XmlElement)
    requires
        x.node() == y.node(),
    ensures
        evaluated_error(x) == evaluated_error(y),
        evaluated_ok(x) == evaluated_ok(y),
        forall|v: PolicyEvaluated| #[trigger] evaluated_read(x, v) == evaluated_read(y, v),
{
    lemma_same_lookups(x, y);
    let nx = named(x.children@, "reason"@);
    let ny = named(y.children@, "reason"@);
    assert forall|k: int| #![trigger nx[k]] #![trigger ny[k]] 0 <= k < nx.len() implies (forall|v: PolicyOverrideReason|
        reason_read(nx[k], v) == reason_read(ny[k], v)) by {
        lemma_same_reason(nx[k], ny[k]);
    }
}

proof fn lemma_same_row(x: XmlElement, y: XmlElement)
    requires
        x.node() == y.node(),
    ensures
        row_error(x) == row_error(y),
        row_ok(x) == row_ok(y),
        forall|v: Row| #[trigger] row_read(x, v) == row_read(y, v),
{
    lemma_same_lookups(x, y);
    if child(x, "policy_evaluated"@) is Some {
        lemma_same_evaluated(child(x, "policy_evaluated"@)->Some_0, child(y, "policy_evaluated"@)->Some_0);
    }
}

proof fn lemma_same_identifier(x: XmlElement, y: XmlElement)
    requires
        x.node() == y.node(),
    ensures
        identifier_error(x) == identifier_error(y),
        identifier_ok(x) == identifier_ok(y),
        forall|v: Identifier| #[trigger] identifier_read(x, v) == identifier_read(y, v),
{
    lemma_same_lookups(x, y);
}

proof fn lemma_same_dkim_auth(x: XmlElement, y: XmlElement)
    requires
        x.node() == y.node(),
    ensures
        dkim_auth_error(x) == dkim_auth_error(y),
        dkim_auth_ok(x) == dkim_auth_ok(y),
        forall|v: DkimAuthResult| #[trigger] dkim_auth_read(x, v) == dkim_auth_read(y, v),
{
    lemma_same_lookups(x, y);
}

proof fn lemma_same_spf_auth(x: XmlElement, y: XmlElement)
    requires
        x.node() == y.node(),
    ensures
        spf_auth_error(x) == spf_auth_error(y),
        spf_auth_ok(x) == spf_auth_ok(y),
        forall|v: SpfAuthResult| #[trigger] spf_auth_read(x, v) == spf_auth_read(y, v),
{
    lemma_same_lookups(x, y);
}

proof fn lemma_same_auth(x: XmlElement, y: XmlElement)
    requires
        x.node() == y.node(),
    ensures
        auth_error(x) == auth_error(y),
        auth_ok(x) == auth_ok(y),
        forall|v: AuthResult| #[trigger] auth_read(x, v) == auth_read(y, v),
{
    lemma_same_lookups(x, y);
    let nx = named(x.children@, "dkim"@);
    let ny = named(y.children@, "dkim"@);
    assert forall|k: int| #![trigger nx[k]] #![trigger ny[k]] 0 <= k < nx.len() implies dkim_auth_ok(nx[k]) == dkim_auth_ok(ny[k]) && (forall|v: DkimAuthResult|
        dkim_auth_read(nx[k], v) == dkim_auth_read(ny[k], v)) by {
        lemma_same_dkim_auth(nx[k], ny[k]);
    }
    let sx = named(x.children@, "spf"@);
    let sy = named(y.children@, "spf"@);
    assert forall|k: int| #![trigger sx[k]] #![trigger sy[k]] 0 <= k < sx.len() implies spf_auth_ok(sx[k]) == spf_auth_ok(sy[k]) && (forall|v: SpfAuthResult|
        spf_auth_read(sx[k], v) == spf_auth_read(sy[k], v)) by {
        lemma_same_spf_auth(sx[k], sy[k]);
    }
    lemma_same_first_dkim_error(nx, ny, 0);
    lemma_same_first_spf_error(sx, sy, 0);
}

proof fn lemma_same_record(x: XmlElement, y: XmlElement)
    requires
        x.node() == y.node(),
    ensures
        record_error(x) == record_error(y),
        record_ok(x) == record_ok(y),
        forall|v: Record| #[trigger] record_read(x, v) == record_read(y, v),
{
    lemma_same_lookups(x, y);
    if child(x, "row"@) is Some {
        lemma_same_row(child(x, "row"@)->Some_0, child(y, "row"@)->Some_0);
    }
    if child(x, "identifiers"@) is Some {
        lemma_same_identifier(child(x, "identifiers"@)->Some_0, child(y, "identifiers"@)->Some_0);
    }
    if child(x, "auth_results"@) is Some {
        lemma_same_auth(child(x, "auth_results"@)->Some_0, child(y, "auth_results"@)->Some_0);
    }
}

proof fn lemma_same_first_dkim_error(a: Seq<XmlElement>, b: Seq<XmlElement>, k: int)
    requires
        same_nodes(a, b),
        0 <= k,
    ensures
        first_dkim_error(a, k) == first_dkim_error(b, k),
    decreases a.len() - k,
{
    if k < a.len() {
        lemma_same_dkim_auth(a[k], b[k]);
        lemma_same_first_dkim_error(a, b, k + 1);
    }
}

proof fn lemma_same_first_spf_error(a: Seq<XmlElement>, b: Seq<XmlElement>, k: int)
    requires
        same_nodes(a, b),
        0 <= k,
    ensures
        first_spf_error(a, k) == first_spf_error(b, k),
    decreases a.len() - k,
{
    if k < a.len() {
        lemma_same_spf_auth(a[k], b[k]);
        lemma_same_first_spf_error(a, b, k + 1);
    }
}

proof fn lemma_same_first_record_error(a: Seq<XmlElement>, b: Seq<XmlElement>, k: int)
    requires
        same_nodes(a, b),
        0 <= k,
    ensures
        first_record_error(a, k) == first_record_error(b, k),
    decreases a.len() - k,
{
    if k < a.len() {
        lemma_same_record(a[k], b[k]);
        lemma_same_first_record_error(a, b, k + 1);
    }
}

/// Trees with the same value are read alike: the schema accepts both or
/// neither, reads the same report out of both, and names the same fault.
pub proof fn lemma_same_tree_same_report(x: XmlElement, y: XmlElement)
    requires
        x.node() == y.node(),
    ensures
        feedback_ok(x) == feedback_ok(y),
        feedback_error(x) == feedback_error(y),
        forall|f: Feedback| #[trigger] feedback_read(x, f) == feedback_read(y, f),
{
    lemma_same_lookups(x, y);
    if child(x, "report_metadata"@) is Some {
        lemma_same_metadata(child(x, "report_metadata"@)->Some_0, child(y, "report_metadata"@)->Some_0);
    }
    if child(x, "policy_published"@) is Some {
        lemma_same_policy(child(x, "policy_published"@)->Some_0, child(y, "policy_published"@)->Some_0);
    }
    let nx = named(x.children@, "record"@);
    let ny = named(y.children@, "record"@);
    assert forall|k: int| #![trigger nx[k]] #![trigger ny[k]] 0 <= k < nx.len() implies record_ok(nx[k]) == record_ok(ny[k]) && (forall|v: Record|
        record_read(nx[k], v) == record_read(ny[k], v)) by {
        lemma_same_record(nx[k], ny[k]);
    }
    lemma_same_first_record_error(nx, ny, 0);
}

} // verus!
