use dagger::model::{
    AuthResult, Disposition, DkimAuthResult, DkimResult, DmarcResult, Identifier,
    PolicyEvaluated, PolicyOverride, PolicyOverrideReason, Record, Row, SpfAuthResult,
    SpfDomainScope, SpfResult,
};
use dagger::render::{
    decimal_text, dkim_auth_result_text, join_texts, reason_text_of, record_row,
    spf_auth_result_text, verdict_highlight, Highlight,
};

#[test]
fn decimal_texts() {
    assert_eq!(decimal_text(0), "0");
    assert_eq!(decimal_text(7), "7");
    assert_eq!(decimal_text(1234567), "1234567");
    assert_eq!(decimal_text(u32::MAX as u64), "4294967295");
    assert_eq!(decimal_text(u64::MAX), "18446744073709551615");
}

#[test]
fn auth_result_texts() {
    let d = DkimAuthResult {
        domain: "example.com".into(),
        selector: Some("s1".into()),
        result: DkimResult::PermError,
        human_result: None,
    };
    assert_eq!(dkim_auth_result_text(&d), "PermError (d=example.com, selector=s1)");
    let d = DkimAuthResult {
        domain: "example.com".into(),
        selector: None,
        result: DkimResult::NoSignature,
        human_result: Some("no key".into()),
    };
    assert_eq!(dkim_auth_result_text(&d), "None (d=example.com, human_result=no key)");
    let s = SpfAuthResult { domain: "example.com".into(), scope: Some(SpfDomainScope::MFrom), result: SpfResult::Softfail };
    assert_eq!(spf_auth_result_text(&s), "Softfail (d=example.com, scope=MFrom)");
    let s = SpfAuthResult { domain: "example.com".into(), scope: None, result: SpfResult::NoRecord };
    assert_eq!(spf_auth_result_text(&s), "None (d=example.com)");
}

#[test]
fn reason_texts() {
    let r = PolicyOverrideReason { typ: PolicyOverride::MailingList, comment: Some("list".into()) };
    assert_eq!(reason_text_of(&r), "MailingList (list)");
    let r = PolicyOverrideReason { typ: PolicyOverride::SampledOut, comment: None };
    assert_eq!(reason_text_of(&r), "SampledOut");
}

#[test]
fn joined_texts() {
    assert_eq!(join_texts(&vec![], ", "), "");
    assert_eq!(join_texts(&vec!["a".to_string()], ", "), "a");
    assert_eq!(join_texts(&vec!["a".to_string(), "b".to_string(), "c".to_string()], ", "), "a, b, c");
}

#[test]
fn record_row_cells() {
    let r = Record {
        row: Row {
            source_ip: "2001:db8::1".into(),
            count: 42,
            policy_evaluated: PolicyEvaluated {
                disposition: Disposition::Quarantine,
                dkim: DmarcResult::Fail,
                spf: DmarcResult::Pass,
                reasons: vec![
                    PolicyOverrideReason { typ: PolicyOverride::Forwarded, comment: None },
                    PolicyOverrideReason { typ: PolicyOverride::Other, comment: Some("x".into()) },
                ],
            },
        },
        identifiers: Identifier { envelope_to: None, envelope_from: None, header_from: "example.com".into() },
        auth_results: AuthResult {
            dkim: vec![],
            spf: vec![
                SpfAuthResult { domain: "a.example".into(), scope: None, result: SpfResult::Pass },
                SpfAuthResult { domain: "b.example".into(), scope: Some(SpfDomainScope::Helo), result: SpfResult::Fail },
            ],
        },
    };
    assert_eq!(
        record_row(&r),
        vec![
            "example.com",
            "2001:db8::1",
            "42",
            "Quarantine",
            "Forwarded, Other (x)",
            "Fail",
            "Pass",
            "",
            "Pass (d=a.example), Fail (d=b.example, scope=Helo)",
        ]
    );
    assert_eq!(verdict_highlight(DmarcResult::Pass), Highlight::Good);
    assert_eq!(verdict_highlight(DmarcResult::Fail), Highlight::Bad);
}
