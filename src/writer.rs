//! Writing a report back as an element tree that the schema reader accepts
//! and reads as the same report.
use vstd::prelude::*;
use crate::render::{decimal_digits, decimal_text, digit_char};
use crate::model::{
    Alignment, AuthResult, DateRange, DkimAuthResult, DkimResult, Disposition, DmarcResult,
    Feedback, Identifier, PolicyEvaluated, PolicyOverride, PolicyOverrideReason, PolicyPublished,
    Record, ReportMetadata, Row, SpfAuthResult, SpfDomainScope, SpfResult,
};
use crate::schema::{
    alignment_of, auth_ok, auth_read, child, child_text, date_range_ok, date_range_read,
    dkim_auth_ok, dkim_auth_read, evaluated_ok, evaluated_read, feedback_ok, feedback_read,
    identifier_ok, identifier_read, metadata_ok, metadata_read, policy_ok, policy_read,
    reason_read, record_ok, record_read, row_ok, row_read, spf_auth_ok, spf_auth_read, decimal_value, disposition_of, dkim_result_of,
    dmarc_result_of, first_named_from, is_digit, named, override_of, scope_of, signed_of,
    spf_result_of, unsigned_of, is_version_text,
};
use crate::trusted::{is_ip_address, utc_representable};
use crate::xml::XmlElement;

verus! {

proof fn lemma_digits_value(n: nat)
    ensures
        decimal_digits(n).len() > 0,
        forall|i: int| 0 <= i < decimal_digits(n).len() ==> is_digit(#[trigger] decimal_digits(n)[i]),
        decimal_value(decimal_digits(n)) == n,
    decreases n,
{
    assert(digit_char(n % 10) as int == '0' as int + n % 10);
    if n < 10 {
        let s = decimal_digits(n);
        assert(s.drop_last() =~= Seq::<char>::empty());
        assert(digit_char(n) as int == '0' as int + n);
        assert(decimal_value(s.drop_last()) == 0);
        assert(decimal_value(s) == decimal_value(s.drop_last()) * 10 + (s.last() as int - '0' as int));
    } else {
        lemma_digits_value(n / 10);
        let p = decimal_digits(n / 10);
        let s = decimal_digits(n);
        assert(s.drop_last() =~= p);
        assert(s.last() == digit_char(n % 10));
        assert(n == (n / 10) * 10 + n % 10);
        assert(decimal_value(s) == decimal_value(p) * 10 + (s.last() as int - '0' as int));
        assert(decimal_value(s) == (n / 10) * 10 + n % 10);
        assert forall|i: int| 0 <= i < s.len() implies is_digit(#[trigger] s[i]) by {
            if i < p.len() {
                assert(s[i] == p[i]);
            }
        }
    }
}

/// The decimal text of a non-negative number reads back as that number.
pub proof fn lemma_unsigned_round_trip(n: nat, max: int)
    requires
        n <= max,
    ensures
        unsigned_of(decimal_digits(n), max) == Some(n as int),
{
    lemma_digits_value(n);
    assert(is_digit(decimal_digits(n)[0]));
}

/// The decimal text of `v`, with a leading minus sign when it is negative.
pub open spec fn signed_text(v: int) -> Seq<char> {
    if v >= 0 {
        decimal_digits(v as nat)
    } else {
        seq!['-'] + decimal_digits((-v) as nat)
    }
}

/// The text of an `i64` reads back as that number.
pub proof fn lemma_signed_round_trip(v: i64)
    ensures
        signed_of(signed_text(v as int)) == Some(v as int),
{
    if v >= 0 {
        lemma_digits_value(v as nat);
        assert(is_digit(decimal_digits(v as nat)[0]));
    } else {
        let t = signed_text(v as int);
        lemma_digits_value((-v) as nat);
        assert(t.drop_first() =~= decimal_digits((-v) as nat));
    }
}

pub fn signed_decimal_text(v: i64) -> (r: String)
    ensures
        r@ == signed_text(v as int),
{
    if v >= 0 {
        decimal_text(v as u64)
    } else {
        let magnitude: u64 = (0i128 - v as i128) as u64;
        let mut s = String::from_str("-");
        s.append(decimal_text(magnitude).as_str());
        proof {
            reveal_strlit("-");
        }
        s
    }
}

proof fn lemma_push_first(kids: Seq<XmlElement>, x: XmlElement, n: Seq<char>, m: int)
    requires
        0 <= m <= kids.len(),
    ensures
        first_named_from(kids.push(x), n, m) == match first_named_from(kids, n, m) {
            Some(k) => Some(k),
            None => if x.name@ == n {
                Some(kids.len() as int)
            } else {
                None
            },
        },
    decreases kids.len() - m,
{
    if m < kids.len() {
        assert(kids.push(x)[m] == kids[m]);
        lemma_push_first(kids, x, n, m + 1);
    } else {
        assert(kids.push(x)[m] == x);
        assert(first_named_from(kids.push(x), n, m + 1) is None);
    }
}

/// Appends a child, saying what that does to the lookups of the schema.
fn push_child(kids: &mut Vec<XmlElement>, x: XmlElement)
    ensures
        final(kids)@ == old(kids)@.push(x),
        forall|n: Seq<char>|
            #[trigger] first_named_from(final(kids)@, n, 0) == match first_named_from(
                old(kids)@,
                n,
                0,
            ) {
                Some(k) => Some(k),
                None => if x.name@ == n {
                    Some(old(kids)@.len() as int)
                } else {
                    None
                },
            },
        forall|n: Seq<char>|
            #[trigger] named(final(kids)@, n) == if x.name@ == n {
                named(old(kids)@, n).push(x)
            } else {
                named(old(kids)@, n)
            },
{
    let ghost before = kids@;
    kids.push(x);
    proof {
        assert(kids@.drop_last() =~= before);
        assert forall|n: Seq<char>|
            #[trigger] first_named_from(kids@, n, 0) == match first_named_from(before, n, 0) {
                Some(k) => Some(k),
                None => if x.name@ == n {
                    Some(before.len() as int)
                } else {
                    None
                },
            } by {
            lemma_push_first(before, x, n, 0);
        }
    }
}

/// An element with text and no children.
fn leaf(name: &str, text: String) -> (e: XmlElement)
    ensures
        e.name@ == name@,
        e.text@ == text@,
        e.children@.len() == 0,
{
    XmlElement { name: String::from_str(name), text, children: Vec::new() }
}

/// An element with children and no text.
fn parent(name: &str, children: Vec<XmlElement>) -> (e: XmlElement)
    ensures
        e.name@ == name@,
        e.text@.len() == 0,
        e.children == children,
{
    XmlElement { name: String::from_str(name), text: String::new(), children }
}

/// The text that the schema reader reads as `x`.
fn alignment_text(x: Alignment) -> (r: &'static str)
    ensures
        alignment_of(r@) == Some(x),
{
    proof {
        reveal_strlit("r");
        reveal_strlit("s");
    }
    match x {
        Alignment::Relaxed => {
            assert("r"@[0] != "s"@[0]);
            assert(alignment_of("r"@) == Some(Alignment::Relaxed));
            "r"
        },
        Alignment::Strict => {
            assert("s"@[0] != "r"@[0]);
            assert(alignment_of("s"@) == Some(Alignment::Strict));
            "s"
        },
    }
}

/// The text that the schema reader reads as `x`.
fn disposition_text(x: Disposition) -> (r: &'static str)
    ensures
        disposition_of(r@) == Some(x),
{
    proof {
        reveal_strlit("none");
        reveal_strlit("quarantine");
        reveal_strlit("reject");
    }
    match x {
        Disposition::NoAction => {
            assert("none"@.len() != "quarantine"@.len());
            assert("none"@.len() != "reject"@.len());
            assert(disposition_of("none"@) == Some(Disposition::NoAction));
            "none"
        },
        Disposition::Quarantine => {
            assert("quarantine"@.len() != "none"@.len());
            assert("quarantine"@.len() != "reject"@.len());
            assert(disposition_of("quarantine"@) == Some(Disposition::Quarantine));
            "quarantine"
        },
        Disposition::Reject => {
            assert("reject"@.len() != "none"@.len());
            assert("reject"@.len() != "quarantine"@.len());
            assert(disposition_of("reject"@) == Some(Disposition::Reject));
            "reject"
        },
    }
}

/// The text that the schema reader reads as `x`.
fn dmarc_result_text(x: DmarcResult) -> (r: &'static str)
    ensures
        dmarc_result_of(r@) == Some(x),
{
    proof {
        reveal_strlit("pass");
        reveal_strlit("fail");
    }
    match x {
        DmarcResult::Pass => {
            assert("pass"@[0] != "fail"@[0]);
            assert(dmarc_result_of("pass"@) == Some(DmarcResult::Pass));
            "pass"
        },
        DmarcResult::Fail => {
            assert("fail"@[0] != "pass"@[0]);
            assert(dmarc_result_of("fail"@) == Some(DmarcResult::Fail));
            "fail"
        },
    }
}

/// The text that the schema reader reads as `x`.
fn override_text(x: PolicyOverride) -> (r: &'static str)
    ensures
        override_of(Some(r@)) == x,
{
    proof {
        reveal_strlit("forwarded");
        reveal_strlit("sampled_out");
        reveal_strlit("trusted_forwarder");
        reveal_strlit("mailing_list");
        reveal_strlit("local_policy");
        reveal_strlit("other");
    }
    match x {
        PolicyOverride::Forwarded => {
            assert("forwarded"@.len() != "sampled_out"@.len());
            assert("forwarded"@.len() != "trusted_forwarder"@.len());
            assert("forwarded"@.len() != "mailing_list"@.len());
            assert("forwarded"@.len() != "local_policy"@.len());
            assert("forwarded"@.len() != "other"@.len());
            assert(override_of(Some("forwarded"@)) == PolicyOverride::Forwarded);
            "forwarded"
        },
        PolicyOverride::SampledOut => {
            assert("sampled_out"@.len() != "forwarded"@.len());
            assert("sampled_out"@.len() != "trusted_forwarder"@.len());
            assert("sampled_out"@.len() != "mailing_list"@.len());
            assert("sampled_out"@.len() != "local_policy"@.len());
            assert("sampled_out"@.len() != "other"@.len());
            assert(override_of(Some("sampled_out"@)) == PolicyOverride::SampledOut);
            "sampled_out"
        },
        PolicyOverride::TrustedForwarder => {
            assert("trusted_forwarder"@.len() != "forwarded"@.len());
            assert("trusted_forwarder"@.len() != "sampled_out"@.len());
            assert("trusted_forwarder"@.len() != "mailing_list"@.len());
            assert("trusted_forwarder"@.len() != "local_policy"@.len());
            assert("trusted_forwarder"@.len() != "other"@.len());
            assert(override_of(Some("trusted_forwarder"@)) == PolicyOverride::TrustedForwarder);
            "trusted_forwarder"
        },
        PolicyOverride::MailingList => {
            assert("mailing_list"@.len() != "forwarded"@.len());
            assert("mailing_list"@.len() != "sampled_out"@.len());
            assert("mailing_list"@.len() != "trusted_forwarder"@.len());
            assert("mailing_list"@[0] != "local_policy"@[0]);
            assert("mailing_list"@.len() != "other"@.len());
            assert(override_of(Some("mailing_list"@)) == PolicyOverride::MailingList);
            "mailing_list"
        },
        PolicyOverride::LocalPolicy => {
            assert("local_policy"@.len() != "forwarded"@.len());
            assert("local_policy"@.len() != "sampled_out"@.len());
            assert("local_policy"@.len() != "trusted_forwarder"@.len());
            assert("local_policy"@[0] != "mailing_list"@[0]);
            assert("local_policy"@.len() != "other"@.len());
            assert(override_of(Some("local_policy"@)) == PolicyOverride::LocalPolicy);
            "local_policy"
        },
        PolicyOverride::Other => {
            assert("other"@.len() != "forwarded"@.len());
            assert("other"@.len() != "sampled_out"@.len());
            assert("other"@.len() != "trusted_forwarder"@.len());
            assert("other"@.len() != "mailing_list"@.len());
            assert("other"@.len() != "local_policy"@.len());
            assert(override_of(Some("other"@)) == PolicyOverride::Other);
            "other"
        },
    }
}

/// The text that the schema reader reads as `x`.
fn dkim_result_text(x: DkimResult) -> (r: &'static str)
    ensures
        dkim_result_of(r@) == Some(x),
{
    proof {
        reveal_strlit("none");
        reveal_strlit("pass");
        reveal_strlit("fail");
        reveal_strlit("policy");
        reveal_strlit("neutral");
        reveal_strlit("temperror");
        reveal_strlit("permerror");
    }
    match x {
        DkimResult::NoSignature => {
            assert("none"@[0] != "pass"@[0]);
            assert("none"@[0] != "fail"@[0]);
            assert("none"@.len() != "policy"@.len());
            assert("none"@.len() != "neutral"@.len());
            assert("none"@.len() != "temperror"@.len());
            assert("none"@.len() != "permerror"@.len());
            assert(dkim_result_of("none"@) == Some(DkimResult::NoSignature));
            "none"
        },
        DkimResult::Pass => {
            assert("pass"@[0] != "none"@[0]);
            assert("pass"@[0] != "fail"@[0]);
            assert("pass"@.len() != "policy"@.len());
            assert("pass"@.len() != "neutral"@.len());
            assert("pass"@.len() != "temperror"@.len());
            assert("pass"@.len() != "permerror"@.len());
            assert(dkim_result_of("pass"@) == Some(DkimResult::Pass));
            "pass"
        },
        DkimResult::Fail => {
            assert("fail"@[0] != "none"@[0]);
            assert("fail"@[0] != "pass"@[0]);
            assert("fail"@.len() != "policy"@.len());
            assert("fail"@.len() != "neutral"@.len());
            assert("fail"@.len() != "temperror"@.len());
            assert("fail"@.len() != "permerror"@.len());
            assert(dkim_result_of("fail"@) == Some(DkimResult::Fail));
            "fail"
        },
        DkimResult::Policy => {
            assert("policy"@.len() != "none"@.len());
            assert("policy"@.len() != "pass"@.len());
            assert("policy"@.len() != "fail"@.len());
            assert("policy"@.len() != "neutral"@.len());
            assert("policy"@.len() != "temperror"@.len());
            assert("policy"@.len() != "permerror"@.len());
            assert(dkim_result_of("policy"@) == Some(DkimResult::Policy));
            "policy"
        },
        DkimResult::Neutral => {
            assert("neutral"@.len() != "none"@.len());
            assert("neutral"@.len() != "pass"@.len());
            assert("neutral"@.len() != "fail"@.len());
            assert("neutral"@.len() != "policy"@.len());
            assert("neutral"@.len() != "temperror"@.len());
            assert("neutral"@.len() != "permerror"@.len());
            assert(dkim_result_of("neutral"@) == Some(DkimResult::Neutral));
            "neutral"
        },
        DkimResult::TempError => {
            assert("temperror"@.len() != "none"@.len());
            assert("temperror"@.len() != "pass"@.len());
            assert("temperror"@.len() != "fail"@.len());
            assert("temperror"@.len() != "policy"@.len());
            assert("temperror"@.len() != "neutral"@.len());
            assert("temperror"@[0] != "permerror"@[0]);
            assert(dkim_result_of("temperror"@) == Some(DkimResult::TempError));
            "temperror"
        },
        DkimResult::PermError => {
            assert("permerror"@.len() != "none"@.len());
            assert("permerror"@.len() != "pass"@.len());
            assert("permerror"@.len() != "fail"@.len());
            assert("permerror"@.len() != "policy"@.len());
            assert("permerror"@.len() != "neutral"@.len());
            assert("permerror"@[0] != "temperror"@[0]);
            assert(dkim_result_of("permerror"@) == Some(DkimResult::PermError));
            "permerror"
        },
    }
}

/// The text that the schema reader reads as `x`.
fn scope_text(x: SpfDomainScope) -> (r: &'static str)
    ensures
        scope_of(r@) == Some(x),
{
    proof {
        reveal_strlit("helo");
        reveal_strlit("mfrom");
    }
    match x {
        SpfDomainScope::Helo => {
            assert("helo"@.len() != "mfrom"@.len());
            assert(scope_of("helo"@) == Some(SpfDomainScope::Helo));
            "helo"
        },
        SpfDomainScope::MFrom => {
            assert("mfrom"@.len() != "helo"@.len());
            assert(scope_of("mfrom"@) == Some(SpfDomainScope::MFrom));
            "mfrom"
        },
    }
}

/// The text that the schema reader reads as `x`.
fn spf_result_text(x: SpfResult) -> (r: &'static str)
    ensures
        spf_result_of(r@) == Some(x),
{
    proof {
        reveal_strlit("none");
        reveal_strlit("neutral");
        reveal_strlit("pass");
        reveal_strlit("fail");
        reveal_strlit("softfail");
        reveal_strlit("temperror");
        reveal_strlit("permerror");
    }
    match x {
        SpfResult::NoRecord => {
            assert("none"@.len() != "neutral"@.len());
            assert("none"@[0] != "pass"@[0]);
            assert("none"@[0] != "fail"@[0]);
            assert("none"@.len() != "softfail"@.len());
            assert("none"@.len() != "temperror"@.len());
            assert("none"@.len() != "permerror"@.len());
            assert(spf_result_of("none"@) == Some(SpfResult::NoRecord));
            "none"
        },
        SpfResult::Neutral => {
            assert("neutral"@.len() != "none"@.len());
            assert("neutral"@.len() != "pass"@.len());
            assert("neutral"@.len() != "fail"@.len());
            assert("neutral"@.len() != "softfail"@.len());
            assert("neutral"@.len() != "temperror"@.len());
            assert("neutral"@.len() != "permerror"@.len());
            assert(spf_result_of("neutral"@) == Some(SpfResult::Neutral));
            "neutral"
        },
        SpfResult::Pass => {
            assert("pass"@[0] != "none"@[0]);
            assert("pass"@.len() != "neutral"@.len());
            assert("pass"@[0] != "fail"@[0]);
            assert("pass"@.len() != "softfail"@.len());
            assert("pass"@.len() != "temperror"@.len());
            assert("pass"@.len() != "permerror"@.len());
            assert(spf_result_of("pass"@) == Some(SpfResult::Pass));
            "pass"
        },
        SpfResult::Fail => {
            assert("fail"@[0] != "none"@[0]);
            assert("fail"@.len() != "neutral"@.len());
            assert("fail"@[0] != "pass"@[0]);
            assert("fail"@.len() != "softfail"@.len());
            assert("fail"@.len() != "temperror"@.len());
            assert("fail"@.len() != "permerror"@.len());
            assert(spf_result_of("fail"@) == Some(SpfResult::Fail));
            "fail"
        },
        SpfResult::Softfail => {
            assert("softfail"@.len() != "none"@.len());
            assert("softfail"@.len() != "neutral"@.len());
            assert("softfail"@.len() != "pass"@.len());
            assert("softfail"@.len() != "fail"@.len());
            assert("softfail"@.len() != "temperror"@.len());
            assert("softfail"@.len() != "permerror"@.len());
            assert(spf_result_of("softfail"@) == Some(SpfResult::Softfail));
            "softfail"
        },
        SpfResult::TempError => {
            assert("temperror"@.len() != "none"@.len());
            assert("temperror"@.len() != "neutral"@.len());
            assert("temperror"@.len() != "pass"@.len());
            assert("temperror"@.len() != "fail"@.len());
            assert("temperror"@.len() != "softfail"@.len());
            assert("temperror"@[0] != "permerror"@[0]);
            assert(spf_result_of("temperror"@) == Some(SpfResult::TempError));
            "temperror"
        },
        SpfResult::PermError => {
            assert("permerror"@.len() != "none"@.len());
            assert("permerror"@.len() != "neutral"@.len());
            assert("permerror"@.len() != "pass"@.len());
            assert("permerror"@.len() != "fail"@.len());
            assert("permerror"@.len() != "softfail"@.len());
            assert("permerror"@[0] != "temperror"@[0]);
            assert(spf_result_of("permerror"@) == Some(SpfResult::PermError));
            "permerror"
        },
    }
}

/// Writes the element that the schema reader reads back as its argument.
fn write_date_range(d: DateRange) -> (e: XmlElement)
    requires
        utc_representable(d.begin),
        utc_representable(d.end),
    ensures
        e.name@ == "date_range"@,
        date_range_ok(e),
        date_range_read(e, d),
{
    let mut kids: Vec<XmlElement> = Vec::new();
    push_child(&mut kids, leaf("begin", signed_decimal_text(d.begin)));
    push_child(&mut kids, leaf("end", signed_decimal_text(d.end)));
    proof {
        reveal_strlit("begin");
        reveal_strlit("end");
        lemma_signed_round_trip(d.begin);
        lemma_signed_round_trip(d.end);
        assert("begin"@.len() != "end"@.len());
    }
    let e = parent("date_range", kids);
    assert(child_text(e, "begin"@) == Some(signed_text(d.begin as int)));
    assert(child_text(e, "end"@) == Some(signed_text(d.end as int)));
    e
}

proof fn lemma_named_append(base: Seq<XmlElement>, items: Seq<XmlElement>, n: Seq<char>)
    requires
        forall|k: int| 0 <= k < items.len() ==> (#[trigger] items[k]).name@ == n,
    ensures
        named(base + items, n) == named(base, n) + items,
        forall|m: Seq<char>| m != n ==> #[trigger] named(base + items, m) == named(base, m),
    decreases items.len(),
{
    if items.len() == 0 {
        assert(base + items =~= base);
        assert(named(base, n) + items =~= named(base, n));
    } else {
        let front = items.drop_last();
        lemma_named_append(base, front, n);
        assert((base + items).drop_last() =~= base + front);
        assert((base + items).last() == items.last());
        assert(named(base, n) + items =~= (named(base, n) + front).push(items.last()));
        assert forall|m: Seq<char>| m != n implies #[trigger] named(base + items, m) == named(
            base,
            m,
        ) by {
            assert(named(base + front, m) == named(base, m));
        }
    }
}

proof fn lemma_first_named_append(base: Seq<XmlElement>, items: Seq<XmlElement>, n: Seq<char>, m: Seq<char>, j: int)
    requires
        forall|k: int| 0 <= k < items.len() ==> (#[trigger] items[k]).name@ == n,
        m != n,
        0 <= j <= base.len(),
    ensures
        first_named_from(base + items, m, j) == first_named_from(base, m, j),
    decreases base.len() + items.len() - j,
{
    if j < base.len() {
        assert((base + items)[j] == base[j]);
        lemma_first_named_append(base, items, n, m, j + 1);
    } else if j < base.len() + items.len() {
        lemma_first_named_after(base, items, n, m, j);
    }
}

proof fn lemma_first_named_after(base: Seq<XmlElement>, items: Seq<XmlElement>, n: Seq<char>, m: Seq<char>, j: int)
    requires
        forall|k: int| 0 <= k < items.len() ==> (#[trigger] items[k]).name@ == n,
        m != n,
        base.len() <= j,
    ensures
        first_named_from(base + items, m, j) is None,
    decreases base.len() + items.len() - j,
{
    if j < base.len() + items.len() {
        assert((base + items)[j] == items[j - base.len()]);
        lemma_first_named_after(base, items, n, m, j + 1);
    }
}

/// Appends elements that all share the name `n`.
fn append_all(kids: &mut Vec<XmlElement>, items: Vec<XmlElement>, Ghost(n): Ghost<Seq<char>>)
    requires
        forall|k: int| 0 <= k < items@.len() ==> (#[trigger] items@[k]).name@ == n,
    ensures
        final(kids)@ == old(kids)@ + items@,
        named(final(kids)@, n) == named(old(kids)@, n) + items@,
        forall|m: Seq<char>| m != n ==> #[trigger] named(final(kids)@, m) == named(old(kids)@, m),
        forall|m: Seq<char>|
            m != n ==> #[trigger] first_named_from(final(kids)@, m, 0) == first_named_from(
                old(kids)@,
                m,
                0,
            ),
{
    let ghost base = kids@;
    let mut items = items;
    let ghost added = items@;
    kids.append(&mut items);
    proof {
        lemma_named_append(base, added, n);
        assert forall|m: Seq<char>| m != n implies #[trigger] first_named_from(kids@, m, 0)
            == first_named_from(base, m, 0) by {
            lemma_first_named_append(base, added, n, m, 0);
        }
    }
}

/// Leaves named `name` holding the given texts, in order.
fn text_leaves(name: &str, texts: &Vec<String>) -> (r: Vec<XmlElement>)
    ensures
        r@.len() == texts@.len(),
        forall|k: int|
            0 <= k < r@.len() ==> (#[trigger] r@[k]).name@ == name@ && r@[k].text@ == texts@[k]@,
{
    let mut r: Vec<XmlElement> = Vec::new();
    let mut i: usize = 0;
    while i < texts.len()
        invariant
            i <= texts@.len(),
            r@.len() == i,
            forall|k: int|
                0 <= k < i ==> (#[trigger] r@[k]).name@ == name@ && r@[k].text@ == texts@[k]@,
        decreases texts.len() - i,
    {
        r.push(leaf(name, texts[i].clone()));
        i = i + 1;
    }
    r
}

/// Writes the element that the schema reader reads back as its argument.
fn write_metadata(m: &ReportMetadata) -> (e: XmlElement)
    requires
        utc_representable(m.date_range.begin),
        utc_representable(m.date_range.end),
    ensures
        e.name@ == "report_metadata"@,
        metadata_ok(e),
        metadata_read(e, *m),
{
    let mut kids: Vec<XmlElement> = Vec::new();
    push_child(&mut kids, leaf("org_name", m.org_name.clone()));
    push_child(&mut kids, leaf("email", m.email.clone()));
    match &m.extra_contact_info {
        Some(v) => push_child(&mut kids, leaf("extra_contact_info", v.clone())),
        None => {},
    }
    push_child(&mut kids, leaf("report_id", m.report_id.clone()));
    push_child(&mut kids, write_date_range(m.date_range));
    let errors = text_leaves("error", &m.errors);
    append_all(&mut kids, errors, Ghost("error"@));
    proof {
        reveal_strlit("org_name");
        reveal_strlit("email");
        reveal_strlit("extra_contact_info");
        reveal_strlit("report_id");
        reveal_strlit("date_range");
        reveal_strlit("error");
        assert("org_name"@.len() != "email"@.len());
        assert("org_name"@.len() != "extra_contact_info"@.len());
        assert("org_name"@.len() != "report_id"@.len());
        assert("org_name"@.len() != "date_range"@.len());
        assert("org_name"@.len() != "error"@.len());
        assert("email"@.len() != "extra_contact_info"@.len());
        assert("email"@.len() != "report_id"@.len());
        assert("email"@.len() != "date_range"@.len());
        assert("email"@[1] != "error"@[1]);
        assert("extra_contact_info"@.len() != "report_id"@.len());
        assert("extra_contact_info"@.len() != "date_range"@.len());
        assert("extra_contact_info"@.len() != "error"@.len());
        assert("report_id"@.len() != "date_range"@.len());
        assert("report_id"@.len() != "error"@.len());
        assert("date_range"@.len() != "error"@.len());
    }
    let e = parent("report_metadata", kids);
    assert(named(e.children@, "error"@) =~= errors@);
    e
}

/// Writes the element that the schema reader reads back as its argument.
fn write_policy(p: &PolicyPublished) -> (e: XmlElement)
    ensures
        e.name@ == "policy_published"@,
        policy_ok(e),
        policy_read(e, *p),
{
    let mut kids: Vec<XmlElement> = Vec::new();
    push_child(&mut kids, leaf("domain", p.domain.clone()));
    match p.adkim {
        Some(a) => push_child(&mut kids, leaf("adkim", String::from_str(alignment_text(a)))),
        None => {},
    }
    match p.aspf {
        Some(a) => push_child(&mut kids, leaf("aspf", String::from_str(alignment_text(a)))),
        None => {},
    }
    push_child(&mut kids, leaf("p", String::from_str(disposition_text(p.p))));
    push_child(&mut kids, leaf("sp", String::from_str(disposition_text(p.sp))));
    push_child(&mut kids, leaf("pct", decimal_text(p.pct as u64)));
    push_child(&mut kids, leaf("fo", p.fo.clone()));
    proof {
        reveal_strlit("domain");
        reveal_strlit("adkim");
        reveal_strlit("aspf");
        reveal_strlit("p");
        reveal_strlit("sp");
        reveal_strlit("pct");
        reveal_strlit("fo");
        assert("domain"@.len() != "adkim"@.len());
        assert("domain"@.len() != "aspf"@.len());
        assert("domain"@.len() != "p"@.len());
        assert("domain"@.len() != "sp"@.len());
        assert("domain"@.len() != "pct"@.len());
        assert("domain"@.len() != "fo"@.len());
        assert("adkim"@.len() != "aspf"@.len());
        assert("adkim"@.len() != "p"@.len());
        assert("adkim"@.len() != "sp"@.len());
        assert("adkim"@.len() != "pct"@.len());
        assert("adkim"@.len() != "fo"@.len());
        assert("aspf"@.len() != "p"@.len());
        assert("aspf"@.len() != "sp"@.len());
        assert("aspf"@.len() != "pct"@.len());
        assert("aspf"@.len() != "fo"@.len());
        assert("p"@.len() != "sp"@.len());
        assert("p"@.len() != "pct"@.len());
        assert("p"@.len() != "fo"@.len());
        assert("sp"@.len() != "pct"@.len());
        assert("sp"@[0] != "fo"@[0]);
        assert("pct"@.len() != "fo"@.len());
        lemma_unsigned_round_trip(p.pct as nat, 255);
    }
    parent("policy_published", kids)
}

/// Writes the element that the schema reader reads back as its argument.
fn write_reason(r: &PolicyOverrideReason) -> (e: XmlElement)
    ensures
        e.name@ == "reason"@,
        reason_read(e, *r),
{
    let mut kids: Vec<XmlElement> = Vec::new();
    push_child(&mut kids, leaf("type", String::from_str(override_text(r.typ))));
    match &r.comment {
        Some(c) => push_child(&mut kids, leaf("comment", c.clone())),
        None => {},
    }
    proof {
        reveal_strlit("type");
        reveal_strlit("comment");
        assert("type"@.len() != "comment"@.len());
    }
    parent("reason", kids)
}

/// Writes one element per item, in order.
fn write_reasons(xs: &Vec<PolicyOverrideReason>) -> (r: Vec<XmlElement>)
    ensures
        r@.len() == xs@.len(),
        forall|k: int|
            0 <= k < r@.len() ==> (#[trigger] r@[k]).name@ == "reason"@ && reason_read(
                r@[k],
                xs@[k],
            ),
{
    let mut r: Vec<XmlElement> = Vec::new();
    let mut i: usize = 0;
    while i < xs.len()
        invariant
            i <= xs@.len(),
            r@.len() == i,
            forall|k: int|
                0 <= k < i ==> (#[trigger] r@[k]).name@ == "reason"@ && reason_read(
                    r@[k],
                    xs@[k],
                ),
        decreases xs.len() - i,
    {
        r.push(write_reason(&xs[i]));
        i = i + 1;
    }
    r
}

/// Writes the element that the schema reader reads back as its argument.
fn write_evaluated(p: &PolicyEvaluated) -> (e: XmlElement)
    ensures
        e.name@ == "policy_evaluated"@,
        evaluated_ok(e),
        evaluated_read(e, *p),
{
    let mut kids: Vec<XmlElement> = Vec::new();
    push_child(&mut kids, leaf("disposition", String::from_str(disposition_text(p.disposition))));
    push_child(&mut kids, leaf("dkim", String::from_str(dmarc_result_text(p.dkim))));
    push_child(&mut kids, leaf("spf", String::from_str(dmarc_result_text(p.spf))));
    let reasons = write_reasons(&p.reasons);
    append_all(&mut kids, reasons, Ghost("reason"@));
    proof {
        reveal_strlit("disposition");
        reveal_strlit("dkim");
        reveal_strlit("spf");
        reveal_strlit("reason");
        assert("disposition"@.len() != "dkim"@.len());
        assert("disposition"@.len() != "spf"@.len());
        assert("disposition"@.len() != "reason"@.len());
        assert("dkim"@.len() != "spf"@.len());
        assert("dkim"@.len() != "reason"@.len());
        assert("spf"@.len() != "reason"@.len());
    }
    let e = parent("policy_evaluated", kids);
    assert(named(e.children@, "reason"@) =~= reasons@);
    e
}

/// Writes the element that the schema reader reads back as its argument.
fn write_row(r: &Row) -> (e: XmlElement)
    requires
        is_ip_address(r.source_ip@),
    ensures
        e.name@ == "row"@,
        row_ok(e),
        row_read(e, *r),
{
    let mut kids: Vec<XmlElement> = Vec::new();
    push_child(&mut kids, leaf("source_ip", r.source_ip.clone()));
    push_child(&mut kids, leaf("count", decimal_text(r.count as u64)));
    push_child(&mut kids, write_evaluated(&r.policy_evaluated));
    proof {
        reveal_strlit("source_ip");
        reveal_strlit("count");
        reveal_strlit("policy_evaluated");
        assert("source_ip"@.len() != "count"@.len());
        assert("source_ip"@.len() != "policy_evaluated"@.len());
        assert("count"@.len() != "policy_evaluated"@.len());
        lemma_unsigned_round_trip(r.count as nat, 0xffff_ffff);
    }
    parent("row", kids)
}

/// Writes the element that the schema reader reads back as its argument.
fn write_identifier(i: &Identifier) -> (e: XmlElement)
    ensures
        e.name@ == "identifiers"@,
        identifier_ok(e),
        identifier_read(e, *i),
{
    let mut kids: Vec<XmlElement> = Vec::new();
    match &i.envelope_to {
        Some(v) => push_child(&mut kids, leaf("envelope_to", v.clone())),
        None => {},
    }
    match &i.envelope_from {
        Some(v) => push_child(&mut kids, leaf("envelope_from", v.clone())),
        None => {},
    }
    push_child(&mut kids, leaf("header_from", i.header_from.clone()));
    proof {
        reveal_strlit("envelope_to");
        reveal_strlit("envelope_from");
        reveal_strlit("header_from");
        assert("envelope_to"@.len() != "envelope_from"@.len());
        assert("envelope_to"@[0] != "header_from"@[0]);
        assert("envelope_from"@.len() != "header_from"@.len());
    }
    parent("identifiers", kids)
}

/// Writes the element that the schema reader reads back as its argument.
fn write_dkim_auth(d: &DkimAuthResult) -> (e: XmlElement)
    ensures
        e.name@ == "dkim"@,
        dkim_auth_ok(e),
        dkim_auth_read(e, *d),
{
    let mut kids: Vec<XmlElement> = Vec::new();
    push_child(&mut kids, leaf("domain", d.domain.clone()));
    match &d.selector {
        Some(v) => push_child(&mut kids, leaf("selector", v.clone())),
        None => {},
    }
    push_child(&mut kids, leaf("result", String::from_str(dkim_result_text(d.result))));
    match &d.human_result {
        Some(v) => push_child(&mut kids, leaf("human_result", v.clone())),
        None => {},
    }
    proof {
        reveal_strlit("domain");
        reveal_strlit("selector");
        reveal_strlit("result");
        reveal_strlit("human_result");
        assert("domain"@.len() != "selector"@.len());
        assert("domain"@[0] != "result"@[0]);
        assert("domain"@.len() != "human_result"@.len());
        assert("selector"@.len() != "result"@.len());
        assert("selector"@.len() != "human_result"@.len());
        assert("result"@.len() != "human_result"@.len());
    }
    parent("dkim", kids)
}

/// Writes the element that the schema reader reads back as its argument.
fn write_spf_auth(a: &SpfAuthResult) -> (e: XmlElement)
    ensures
        e.name@ == "spf"@,
        spf_auth_ok(e),
        spf_auth_read(e, *a),
{
    let mut kids: Vec<XmlElement> = Vec::new();
    push_child(&mut kids, leaf("domain", a.domain.clone()));
    match a.scope {
        Some(s) => push_child(&mut kids, leaf("scope", String::from_str(scope_text(s)))),
        None => {},
    }
    push_child(&mut kids, leaf("result", String::from_str(spf_result_text(a.result))));
    proof {
        reveal_strlit("domain");
        reveal_strlit("scope");
        reveal_strlit("result");
        assert("domain"@.len() != "scope"@.len());
        assert("domain"@[0] != "result"@[0]);
        assert("scope"@.len() != "result"@.len());
    }
    parent("spf", kids)
}

/// Writes one element per item, in order.
fn write_dkim_list(xs: &Vec<DkimAuthResult>) -> (r: Vec<XmlElement>)
    ensures
        r@.len() == xs@.len(),
        forall|k: int|
            0 <= k < r@.len() ==> (#[trigger] r@[k]).name@ == "dkim"@ && dkim_auth_ok(r@[k]) && dkim_auth_read(
                r@[k],
                xs@[k],
            ),
{
    let mut r: Vec<XmlElement> = Vec::new();
    let mut i: usize = 0;
    while i < xs.len()
        invariant
            i <= xs@.len(),
            r@.len() == i,
            forall|k: int|
                0 <= k < i ==> (#[trigger] r@[k]).name@ == "dkim"@ && dkim_auth_ok(r@[k]) && dkim_auth_read(
                    r@[k],
                    xs@[k],
                ),
        decreases xs.len() - i,
    {
        r.push(write_dkim_auth(&xs[i]));
        i = i + 1;
    }
    r
}

/// Writes one element per item, in order.
fn write_spf_list(xs: &Vec<SpfAuthResult>) -> (r: Vec<XmlElement>)
    ensures
        r@.len() == xs@.len(),
        forall|k: int|
            0 <= k < r@.len() ==> (#[trigger] r@[k]).name@ == "spf"@ && spf_auth_ok(r@[k]) && spf_auth_read(
                r@[k],
                xs@[k],
            ),
{
    let mut r: Vec<XmlElement> = Vec::new();
    let mut i: usize = 0;
    while i < xs.len()
        invariant
            i <= xs@.len(),
            r@.len() == i,
            forall|k: int|
                0 <= k < i ==> (#[trigger] r@[k]).name@ == "spf"@ && spf_auth_ok(r@[k]) && spf_auth_read(
                    r@[k],
                    xs@[k],
                ),
        decreases xs.len() - i,
    {
        r.push(write_spf_auth(&xs[i]));
        i = i + 1;
    }
    r
}

/// Writes the element that the schema reader reads back as its argument.
fn write_auth(a: &AuthResult) -> (e: XmlElement)
    requires
        a.spf@.len() > 0,
    ensures
        e.name@ == "auth_results"@,
        auth_ok(e),
        auth_read(e, *a),
{
    let mut kids: Vec<XmlElement> = Vec::new();
    let dkim = write_dkim_list(&a.dkim);
    let spf = write_spf_list(&a.spf);
    append_all(&mut kids, dkim, Ghost("dkim"@));
    append_all(&mut kids, spf, Ghost("spf"@));
    proof {
        reveal_strlit("dkim");
        reveal_strlit("spf");
        assert("dkim"@.len() != "spf"@.len());
    }
    let e = parent("auth_results", kids);
    assert(named(e.children@, "dkim"@) =~= dkim@);
    assert(named(e.children@, "spf"@) =~= spf@);
    e
}

/// Writes the element that the schema reader reads back as its argument.
fn write_record(r: &Record) -> (e: XmlElement)
    requires
        is_ip_address(r.row.source_ip@),
        r.auth_results.spf@.len() > 0,
    ensures
        e.name@ == "record"@,
        record_ok(e),
        record_read(e, *r),
{
    let mut kids: Vec<XmlElement> = Vec::new();
    push_child(&mut kids, write_row(&r.row));
    push_child(&mut kids, write_identifier(&r.identifiers));
    push_child(&mut kids, write_auth(&r.auth_results));
    proof {
        reveal_strlit("row");
        reveal_strlit("identifiers");
        reveal_strlit("auth_results");
        assert("row"@.len() != "identifiers"@.len());
        assert("row"@.len() != "auth_results"@.len());
        assert("identifiers"@.len() != "auth_results"@.len());
    }
    parent("record", kids)
}

/// Writes one element per item, in order.
fn write_records(xs: &Vec<Record>) -> (r: Vec<XmlElement>)
    requires
        forall|k: int| 0 <= k < xs@.len() ==> (#[trigger] xs@[k]).auth_results.spf@.len() > 0,
        forall|k: int| 0 <= k < xs@.len() ==> is_ip_address((#[trigger] xs@[k]).row.source_ip@),
    ensures
        r@.len() == xs@.len(),
        forall|k: int|
            0 <= k < r@.len() ==> (#[trigger] r@[k]).name@ == "record"@ && record_ok(r@[k]) && record_read(
                r@[k],
                xs@[k],
            ),
{
    let mut r: Vec<XmlElement> = Vec::new();
    let mut i: usize = 0;
    while i < xs.len()
        invariant
            i <= xs@.len(),
            r@.len() == i,
            forall|k: int| 0 <= k < xs@.len() ==> (#[trigger] xs@[k]).auth_results.spf@.len() > 0,
            forall|k: int| 0 <= k < xs@.len() ==> is_ip_address((#[trigger] xs@[k]).row.source_ip@),
            forall|k: int|
                0 <= k < i ==> (#[trigger] r@[k]).name@ == "record"@ && record_ok(r@[k]) && record_read(
                    r@[k],
                    xs@[k],
                ),
        decreases xs.len() - i,
    {
        r.push(write_record(&xs[i]));
        i = i + 1;
    }
    r
}

/// Whether a feedback can be written out and read back: its version is
/// decimal text, its instants are
/// representable and each of its records has an IP address as its source and
/// an SPF result, as holds of every feedback that the schema reader produces.
pub open spec fn writable(f: Feedback) -> bool {
    &&& f.version matches Some(v) ==> is_version_text(v@)
    &&& utc_representable(f.report_metadata.date_range.begin)
    &&& utc_representable(f.report_metadata.date_range.end)
    &&& forall|k: int|
        0 <= k < f.records@.len() ==> (#[trigger] f.records@[k]).auth_results.spf@.len() > 0
            && is_ip_address(f.records@[k].row.source_ip@)
}

/// Writes a feedback as an element tree. The schema reader accepts the tree
/// and reads exactly `f` back out of it: no field is lost or defaulted.
pub fn feedback_to_element(f: &Feedback) -> (e: XmlElement)
    requires
        writable(*f),
    ensures
        e.name@ == "feedback"@,
        feedback_ok(e),
        feedback_read(e, *f),
{
    let mut kids: Vec<XmlElement> = Vec::new();
    match &f.version {
        Some(v) => push_child(&mut kids, leaf("version", v.clone())),
        None => {},
    }
    push_child(&mut kids, write_metadata(&f.report_metadata));
    push_child(&mut kids, write_policy(&f.policy_published));
    let records = write_records(&f.records);
    append_all(&mut kids, records, Ghost("record"@));
    proof {
        reveal_strlit("version");
        reveal_strlit("report_metadata");
        reveal_strlit("policy_published");
        reveal_strlit("record");
        assert("version"@.len() != "report_metadata"@.len());
        assert("version"@.len() != "policy_published"@.len());
        assert("version"@.len() != "record"@.len());
        assert("report_metadata"@.len() != "policy_published"@.len());
        assert("report_metadata"@.len() != "record"@.len());
        assert("policy_published"@.len() != "record"@.len());
    }
    let e = parent("feedback", kids);
    assert(named(e.children@, "record"@) =~= records@);
    e
}

} // verus!
