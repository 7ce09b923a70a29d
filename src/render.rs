//! The texts shown for reports: variant names, authentication result
//! details, and the cells of one record's table row.
use vstd::prelude::*;
use crate::model::{
    Disposition, DkimAuthResult, DkimResult, DmarcResult, PolicyOverride, PolicyOverrideReason,
    Record, SpfAuthResult, SpfDomainScope, SpfResult,
};

verus! {

pub open spec fn disposition_name(d: Disposition) -> Seq<char> {
    match d {
        Disposition::NoAction => "None"@,
        Disposition::Quarantine => "Quarantine"@,
        Disposition::Reject => "Reject"@,
    }
}

pub open spec fn dmarc_result_name(r: DmarcResult) -> Seq<char> {
    match r {
        DmarcResult::Pass => "Pass"@,
        DmarcResult::Fail => "Fail"@,
    }
}

pub open spec fn override_name(o: PolicyOverride) -> Seq<char> {
    match o {
        PolicyOverride::Forwarded => "Forwarded"@,
        PolicyOverride::SampledOut => "SampledOut"@,
        PolicyOverride::TrustedForwarder => "TrustedForwarder"@,
        PolicyOverride::MailingList => "MailingList"@,
        PolicyOverride::LocalPolicy => "LocalPolicy"@,
        PolicyOverride::Other => "Other"@,
    }
}

pub open spec fn dkim_result_name(r: DkimResult) -> Seq<char> {
    match r {
        DkimResult::NoSignature => "None"@,
        DkimResult::Pass => "Pass"@,
        DkimResult::Fail => "Fail"@,
        DkimResult::Policy => "Policy"@,
        DkimResult::Neutral => "Neutral"@,
        DkimResult::TempError => "TempError"@,
        DkimResult::PermError => "PermError"@,
    }
}

pub open spec fn spf_result_name(r: SpfResult) -> Seq<char> {
    match r {
        SpfResult::NoRecord => "None"@,
        SpfResult::Neutral => "Neutral"@,
        SpfResult::Pass => "Pass"@,
        SpfResult::Fail => "Fail"@,
        SpfResult::Softfail => "Softfail"@,
        SpfResult::TempError => "TempError"@,
        SpfResult::PermError => "PermError"@,
    }
}

pub open spec fn scope_name(s: SpfDomainScope) -> Seq<char> {
    match s {
        SpfDomainScope::Helo => "Helo"@,
        SpfDomainScope::MFrom => "MFrom"@,
    }
}

/// `label` followed by the value, or nothing when there is no value.
pub open spec fn optional_part(label: Seq<char>, value: Option<String>) -> Seq<char> {
    match value {
        Some(v) => label + v@,
        None => Seq::empty(),
    }
}

/// `Pass (d=example.com, selector=s1, human_result=...)`.
pub open spec fn dkim_auth_text(d: DkimAuthResult) -> Seq<char> {
    dkim_result_name(d.result) + " (d="@ + d.domain@ + optional_part(", selector="@, d.selector)
        + optional_part(", human_result="@, d.human_result) + ")"@
}

/// `Pass (d=example.com, scope=MFrom)`.
pub open spec fn spf_auth_text(s: SpfAuthResult) -> Seq<char> {
    spf_result_name(s.result) + " (d="@ + s.domain@ + match s.scope {
        Some(scope) => ", scope="@ + scope_name(scope),
        None => Seq::empty(),
    } + ")"@
}

/// `Forwarded (comment)`, or the kind alone when there is no comment.
pub open spec fn reason_text(r: PolicyOverrideReason) -> Seq<char> {
    override_name(r.typ) + match r.comment {
        Some(c) => " ("@ + c@ + ")"@,
        None => Seq::empty(),
    }
}

/// The texts of `parts` with `sep` between each two.
pub open spec fn joined(parts: Seq<Seq<char>>, sep: Seq<char>) -> Seq<char>
    decreases parts.len(),
{
    if parts.len() == 0 {
        Seq::empty()
    } else if parts.len() == 1 {
        parts[0]
    } else {
        joined(parts.drop_last(), sep) + sep + parts.last()
    }
}

pub open spec fn digit_char(d: nat) -> char {
    ('0' as nat + d) as char
}

/// The decimal digits of `n`, without leading zeros.
pub open spec fn decimal_digits(n: nat) -> Seq<char>
    decreases n,
{
    if n < 10 {
        seq![digit_char(n)]
    } else {
        decimal_digits(n / 10) + seq![digit_char(n % 10)]
    }
}

pub fn disposition_label(x: Disposition) -> (r: &'static str)
    ensures
        r@ == disposition_name(x),
{
    match x {
        Disposition::NoAction => "None",
        Disposition::Quarantine => "Quarantine",
        Disposition::Reject => "Reject",
    }
}

pub fn dmarc_result_label(x: DmarcResult) -> (r: &'static str)
    ensures
        r@ == dmarc_result_name(x),
{
    match x {
        DmarcResult::Pass => "Pass",
        DmarcResult::Fail => "Fail",
    }
}

pub fn override_label(x: PolicyOverride) -> (r: &'static str)
    ensures
        r@ == override_name(x),
{
    match x {
        PolicyOverride::Forwarded => "Forwarded",
        PolicyOverride::SampledOut => "SampledOut",
        PolicyOverride::TrustedForwarder => "TrustedForwarder",
        PolicyOverride::MailingList => "MailingList",
        PolicyOverride::LocalPolicy => "LocalPolicy",
        PolicyOverride::Other => "Other",
    }
}

pub fn dkim_result_label(x: DkimResult) -> (r: &'static str)
    ensures
        r@ == dkim_result_name(x),
{
    match x {
        DkimResult::NoSignature => "None",
        DkimResult::Pass => "Pass",
        DkimResult::Fail => "Fail",
        DkimResult::Policy => "Policy",
        DkimResult::Neutral => "Neutral",
        DkimResult::TempError => "TempError",
        DkimResult::PermError => "PermError",
    }
}

pub fn spf_result_label(x: SpfResult) -> (r: &'static str)
    ensures
        r@ == spf_result_name(x),
{
    match x {
        SpfResult::NoRecord => "None",
        SpfResult::Neutral => "Neutral",
        SpfResult::Pass => "Pass",
        SpfResult::Fail => "Fail",
        SpfResult::Softfail => "Softfail",
        SpfResult::TempError => "TempError",
        SpfResult::PermError => "PermError",
    }
}

pub fn scope_label(x: SpfDomainScope) -> (r: &'static str)
    ensures
        r@ == scope_name(x),
{
    match x {
        SpfDomainScope::Helo => "Helo",
        SpfDomainScope::MFrom => "MFrom",
    }
}

fn append_optional(s: &mut String, label: &str, value: &Option<String>)
    ensures
        final(s)@ == old(s)@ + optional_part(label@, *value),
{
    match value {
        Some(v) => {
            s.append(label);
            s.append(v.as_str());
        },
        None => {
            assert(old(s)@ + Seq::<char>::empty() =~= old(s)@);
        },
    }
}

pub fn dkim_auth_result_text(d: &DkimAuthResult) -> (r: String)
    ensures
        r@ == dkim_auth_text(*d),
{
    let mut s = String::from_str(dkim_result_label(d.result));
    s.append(" (d=");
    s.append(d.domain.as_str());
    append_optional(&mut s, ", selector=", &d.selector);
    append_optional(&mut s, ", human_result=", &d.human_result);
    s.append(")");
    s
}

pub fn spf_auth_result_text(a: &SpfAuthResult) -> (r: String)
    ensures
        r@ == spf_auth_text(*a),
{
    let mut s = String::from_str(spf_result_label(a.result));
    s.append(" (d=");
    s.append(a.domain.as_str());
    match a.scope {
        Some(scope) => {
            s.append(", scope=");
            s.append(scope_label(scope));
        },
        None => {},
    }
    s.append(")");
    proof {
        let tail = match a.scope {
            Some(scope) => ", scope="@ + scope_name(scope),
            None => Seq::<char>::empty(),
        };
        assert(s@ =~= spf_result_name(a.result) + " (d="@ + a.domain@ + tail + ")"@);
    }
    s
}

pub fn reason_text_of(r: &PolicyOverrideReason) -> (t: String)
    ensures
        t@ == reason_text(*r),
{
    let mut s = String::from_str(override_label(r.typ));
    match &r.comment {
        Some(c) => {
            s.append(" (");
            s.append(c.as_str());
            s.append(")");
            assert(s@ =~= override_name(r.typ) + (" ("@ + c@ + ")"@));
        },
        None => {
            assert(s@ =~= override_name(r.typ) + Seq::<char>::empty());
        },
    }
    s
}

/// The texts of `parts`, with `sep` between each two.
pub fn join_texts(parts: &Vec<String>, sep: &str) -> (r: String)
    ensures
        r@ == joined(parts@.map_values(|p: String| p@), sep@),
{
    let ghost views = parts@.map_values(|p: String| p@);
    let mut s = String::new();
    let mut i: usize = 0;
    proof {
        assert(views.subrange(0, 0) =~= Seq::<Seq<char>>::empty());
    }
    while i < parts.len()
        invariant
            i <= parts@.len(),
            views == parts@.map_values(|p: String| p@),
            s@ == joined(views.subrange(0, i as int), sep@),
        decreases parts.len() - i,
    {
        proof {
            assert(views.subrange(0, i + 1).drop_last() =~= views.subrange(0, i as int));
            assert(views.subrange(0, i + 1).last() == parts@[i as int]@);
        }
        if i == 0 {
            proof {
                assert(s@ =~= Seq::<char>::empty());
            }
            s = parts[i].clone();
        } else {
            s.append(sep);
            s.append(parts[i].as_str());
        }
        i = i + 1;
    }
    proof {
        assert(views.subrange(0, parts@.len() as int) =~= views);
    }
    s
}

fn digit_text(d: u32) -> (r: &'static str)
    requires
        d < 10,
    ensures
        r@ == seq![digit_char(d as nat)],
{
    proof {
        reveal_strlit("0");
        reveal_strlit("1");
        reveal_strlit("2");
        reveal_strlit("3");
        reveal_strlit("4");
        reveal_strlit("5");
        reveal_strlit("6");
        reveal_strlit("7");
        reveal_strlit("8");
        reveal_strlit("9");
    }
    if d == 0 {
        "0"
    } else if d == 1 {
        "1"
    } else if d == 2 {
        "2"
    } else if d == 3 {
        "3"
    } else if d == 4 {
        "4"
    } else if d == 5 {
        "5"
    } else if d == 6 {
        "6"
    } else if d == 7 {
        "7"
    } else if d == 8 {
        "8"
    } else {
        "9"
    }
}

/// The decimal text of `n`.
pub fn decimal_text(n: u64) -> (r: String)
    ensures
        r@ == decimal_digits(n as nat),
    decreases n,
{
    if n < 10 {
        String::from_str(digit_text(n as u32))
    } else {
        let mut s = decimal_text(n / 10);
        s.append(digit_text((n % 10) as u32));
        s
    }
}

pub open spec fn reason_texts(s: Seq<PolicyOverrideReason>) -> Seq<Seq<char>> {
    s.map_values(|x: PolicyOverrideReason| reason_text(x))
}

fn reasons_text(items: &Vec<PolicyOverrideReason>) -> (r: String)
    ensures
        r@ == joined(reason_texts(items@), ", "@),
{
    let mut texts: Vec<String> = Vec::new();
    let mut i: usize = 0;
    while i < items.len()
        invariant
            i <= items@.len(),
            texts@.len() == i,
            forall|k: int| 0 <= k < i ==> (#[trigger] texts@[k])@ == reason_text(items@[k]),
        decreases items.len() - i,
    {
        let t = reason_text_of(&items[i]);
        texts.push(t);
        i = i + 1;
    }
    proof {
        assert(texts@.map_values(|p: String| p@) =~= reason_texts(items@));
    }
    join_texts(&texts, ", ")
}

pub open spec fn dkim_auth_texts(s: Seq<DkimAuthResult>) -> Seq<Seq<char>> {
    s.map_values(|x: DkimAuthResult| dkim_auth_text(x))
}

fn dkim_results_text(items: &Vec<DkimAuthResult>) -> (r: String)
    ensures
        r@ == joined(dkim_auth_texts(items@), ", "@),
{
    let mut texts: Vec<String> = Vec::new();
    let mut i: usize = 0;
    while i < items.len()
        invariant
            i <= items@.len(),
            texts@.len() == i,
            forall|k: int| 0 <= k < i ==> (#[trigger] texts@[k])@ == dkim_auth_text(items@[k]),
        decreases items.len() - i,
    {
        let t = dkim_auth_result_text(&items[i]);
        texts.push(t);
        i = i + 1;
    }
    proof {
        assert(texts@.map_values(|p: String| p@) =~= dkim_auth_texts(items@));
    }
    join_texts(&texts, ", ")
}

pub open spec fn spf_auth_texts(s: Seq<SpfAuthResult>) -> Seq<Seq<char>> {
    s.map_values(|x: SpfAuthResult| spf_auth_text(x))
}

fn spf_results_text(items: &Vec<SpfAuthResult>) -> (r: String)
    ensures
        r@ == joined(spf_auth_texts(items@), ", "@),
{
    let mut texts: Vec<String> = Vec::new();
    let mut i: usize = 0;
    while i < items.len()
        invariant
            i <= items@.len(),
            texts@.len() == i,
            forall|k: int| 0 <= k < i ==> (#[trigger] texts@[k])@ == spf_auth_text(items@[k]),
        decreases items.len() - i,
    {
        let t = spf_auth_result_text(&items[i]);
        texts.push(t);
        i = i + 1;
    }
    proof {
        assert(texts@.map_values(|p: String| p@) =~= spf_auth_texts(items@));
    }
    join_texts(&texts, ", ")
}

/// The cells of a record's row in the records table: header-from domain,
/// source IP, count, disposition, override reasons, DKIM verdict, SPF
/// verdict, DKIM results, SPF results.
pub open spec fn record_cells(r: Record) -> Seq<Seq<char>> {
    let e = r.row.policy_evaluated;
    seq![
        r.identifiers.header_from@,
        r.row.source_ip@,
        decimal_digits(r.row.count as nat),
        disposition_name(e.disposition),
        joined(reason_texts(e.reasons@), ", "@),
        dmarc_result_name(e.dkim),
        dmarc_result_name(e.spf),
        joined(dkim_auth_texts(r.auth_results.dkim@), ", "@),
        joined(spf_auth_texts(r.auth_results.spf@), ", "@),
    ]
}

/// The cells of a record's row in the records table.
pub fn record_row(r: &Record) -> (cells: Vec<String>)
    ensures
        cells@.map_values(|c: String| c@) == record_cells(*r),
{
    let e = &r.row.policy_evaluated;
    let mut cells: Vec<String> = Vec::new();
    cells.push(r.identifiers.header_from.clone());
    cells.push(r.row.source_ip.clone());
    cells.push(decimal_text(r.row.count as u64));
    cells.push(String::from_str(disposition_label(e.disposition)));
    cells.push(reasons_text(&e.reasons));
    cells.push(String::from_str(dmarc_result_label(e.dkim)));
    cells.push(String::from_str(dmarc_result_label(e.spf)));
    cells.push(dkim_results_text(&r.auth_results.dkim));
    cells.push(spf_results_text(&r.auth_results.spf));
    assert(cells@.map_values(|c: String| c@) =~= record_cells(*r));
    cells
}

/// How a DMARC verdict is highlighted.
#[derive(Debug, PartialEq, Eq, Structural, Clone, Copy)]
pub enum Highlight {
    Good,
    Bad,
}

pub fn verdict_highlight(r: DmarcResult) -> (h: Highlight)
    ensures
        h == (match r {
            DmarcResult::Pass => Highlight::Good,
            DmarcResult::Fail => Highlight::Bad,
        }),
{
    match r {
        DmarcResult::Pass => Highlight::Good,
        DmarcResult::Fail => Highlight::Bad,
    }
}

} // verus!
