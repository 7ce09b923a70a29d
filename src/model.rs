//! The typed report model: one `Feedback` per aggregate report.
use vstd::prelude::*;

verus! {

/// One parsed aggregate report.
#[derive(Debug, PartialEq)]
pub struct Feedback {
    /// The schema version as written by the producer, absent in some reports.
    pub version: Option<String>,
    pub report_metadata: ReportMetadata,
    pub policy_published: PolicyPublished,
    pub records: Vec<Record>,
}

/// The time range covered by a report, in seconds since the Unix epoch (UTC).
#[derive(Debug, PartialEq, Eq, Structural, Clone, Copy)]
pub struct DateRange {
    pub begin: i64,
    pub end: i64,
}

/// Report generator metadata.
#[derive(Debug, PartialEq)]
pub struct ReportMetadata {
    pub org_name: String,
    pub email: String,
    pub extra_contact_info: Option<String>,
    /// Two feedbacks with equal identifiers are the same report.
    pub report_id: String,
    pub date_range: DateRange,
    pub errors: Vec<String>,
}

/// Alignment mode (relaxed or strict) for DKIM and SPF.
#[derive(Debug, PartialEq, Eq, Structural, Clone, Copy)]
pub enum Alignment {
    Relaxed,
    Strict,
}

/// The policy actions specified by p and sp in the DMARC record.
#[derive(Debug, PartialEq, Eq, Structural, Clone, Copy)]
pub enum Disposition {
    /// `none`: no action is requested.
    NoAction,
    Quarantine,
    Reject,
}

/// The DMARC policy that applied to the messages in a report.
#[derive(Debug, PartialEq)]
pub struct PolicyPublished {
    /// The domain at which the DMARC record was found.
    pub domain: String,
    /// The DKIM alignment mode.
    pub adkim: Option<Alignment>,
    /// The SPF alignment mode.
    pub aspf: Option<Alignment>,
    /// The policy to apply to messages from the domain.
    pub p: Disposition,
    /// The policy to apply to messages from subdomains.
    pub sp: Disposition,
    /// The percent of messages to which policy applies.
    pub pct: u8,
    /// Failure reporting options in effect.
    pub fo: String,
}

/// The published policy as it is read, before the subdomain policy and the
/// failure options get their defaults.
#[derive(Debug, PartialEq)]
pub struct PolicyPublishedWrapper {
    pub domain: String,
    pub adkim: Option<Alignment>,
    pub aspf: Option<Alignment>,
    pub p: Disposition,
    /// Absent when the producer leaves it to inherit `p`.
    pub sp: Option<Disposition>,
    pub pct: u8,
    /// Absent in some producers' reports.
    pub fo: Option<String>,
}

/// The DMARC-aligned authentication result.
#[derive(Debug, PartialEq, Eq, Structural, Clone, Copy)]
pub enum DmarcResult {
    Pass,
    Fail,
}

/// Reasons that may affect DMARC disposition or execution thereof.
#[derive(Debug, PartialEq, Eq, Structural, Clone, Copy)]
pub enum PolicyOverride {
    Forwarded,
    SampledOut,
    TrustedForwarder,
    MailingList,
    LocalPolicy,
    Other,
}

impl Default for PolicyOverride {
    fn default() -> (r: Self)
        ensures
            r == PolicyOverride::Other,
    {
        PolicyOverride::Other
    }
}

/// Why the applied disposition differs from what the policy alone dictates.
#[derive(Debug, PartialEq)]
pub struct PolicyOverrideReason {
    pub typ: PolicyOverride,
    pub comment: Option<String>,
}

/// Taking into account everything else in the record, the results of applying DMARC.
#[derive(Debug, PartialEq)]
pub struct PolicyEvaluated {
    pub disposition: Disposition,
    pub dkim: DmarcResult,
    pub spf: DmarcResult,
    pub reasons: Vec<PolicyOverrideReason>,
}

#[derive(Debug, PartialEq)]
pub struct Row {
    /// The connecting IP, in its textual form.
    pub source_ip: String,
    /// The number of matching messages.
    pub count: u32,
    /// The DMARC disposition applying to matching messages.
    pub policy_evaluated: PolicyEvaluated,
}

#[derive(Debug, PartialEq)]
pub struct Identifier {
    /// The envelope recipient domain.
    pub envelope_to: Option<String>,
    /// The RFC5321.MailFrom domain.
    pub envelope_from: Option<String>,
    /// The RFC5322.From domain.
    pub header_from: String,
}

/// DKIM verification result, according to RFC 7001 Section 2.6.1.
#[derive(Debug, PartialEq, Eq, Structural, Clone, Copy)]
pub enum DkimResult {
    /// `none`: the message was not signed.
    NoSignature,
    Pass,
    Fail,
    Policy,
    Neutral,
    TempError,
    PermError,
}

#[derive(Debug, PartialEq)]
pub struct DkimAuthResult {
    /// The "d=" parameter in the signature.
    pub domain: String,
    /// The "s=" parameter in the signature.
    pub selector: Option<String>,
    /// The DKIM verification result.
    pub result: DkimResult,
    /// Any extra information (e.g., from Authentication-Results).
    pub human_result: Option<String>,
}

#[derive(Debug, PartialEq, Eq, Structural, Clone, Copy)]
pub enum SpfDomainScope {
    Helo,
    MFrom,
}

/// SPF verification result, according to RFC 7001 Section 2.6.2.
#[derive(Debug, PartialEq, Eq, Structural, Clone, Copy)]
pub enum SpfResult {
    /// `none`: no SPF record was found, or no domain could be checked.
    NoRecord,
    Neutral,
    Pass,
    Fail,
    Softfail,
    TempError,
    PermError,
}

#[derive(Debug, PartialEq)]
pub struct SpfAuthResult {
    /// The checked domain.
    pub domain: String,
    /// The scope of the checked domain.
    pub scope: Option<SpfDomainScope>,
    /// The SPF verification result.
    pub result: SpfResult,
}

/// DKIM and SPF results, uninterpreted with respect to DMARC.
#[derive(Debug, PartialEq)]
pub struct AuthResult {
    /// There may be no DKIM signatures, or several.
    pub dkim: Vec<DkimAuthResult>,
    /// There is always at least one SPF result.
    pub spf: Vec<SpfAuthResult>,
}

/// All the authentication results evaluated by the receiving system for one
/// set of messages.
#[derive(Debug, PartialEq)]
pub struct Record {
    pub row: Row,
    pub identifiers: Identifier,
    pub auth_results: AuthResult,
}

/// Whether `r` is the normalized form of the policy `v` as read: a missing
/// subdomain policy inherits the domain policy, missing failure options
/// become the empty string, every other field is carried over.
pub open spec fn normalizes_to(v: PolicyPublishedWrapper, r: PolicyPublished) -> bool {
    &&& r.domain == v.domain
    &&& r.adkim == v.adkim
    &&& r.aspf == v.aspf
    &&& r.p == v.p
    &&& r.sp == match v.sp {
        Some(sp) => sp,
        None => v.p,
    }
    &&& r.pct == v.pct
    &&& r.fo@ == match v.fo {
        Some(fo) => fo@,
        None => Seq::<char>::empty(),
    }
}

impl PolicyPublished {
    /// Applies the defaults of the published policy.
    pub fn from_wrapper(value: PolicyPublishedWrapper) -> (r: PolicyPublished)
        ensures
            normalizes_to(value, r),
    {
        let sp = match value.sp {
            Some(sp) => sp,
            None => value.p,
        };
        let fo = match value.fo {
            Some(fo) => fo,
            None => String::new(),
        };
        PolicyPublished {
            domain: value.domain,
            adkim: value.adkim,
            aspf: value.aspf,
            p: value.p,
            sp,
            pct: value.pct,
            fo,
        }
    }
}

} // verus!
