use dagger::loader::{parse_report, LoadError};
use dagger::model::{
    Alignment, Disposition, DkimResult, DmarcResult, PolicyOverride, PolicyOverrideReason,
    SpfDomainScope, SpfResult,
};
use dagger::schema::{feedback_from_element, parse_scope, reason_from_element, SchemaCause};
use dagger::writer::feedback_to_element;
use dagger::xml::parse_xml;

fn report(policy: &str, metadata_range: &str, reasons: &str) -> String {
    format!(
        "<?xml version=\"1.0\" encoding=\"UTF-8\" ?>
<feedback>
  <version>1.0</version>
  <report_metadata>
    <org_name>google.com</org_name>
    <email>noreply-dmarc-support@google.com</email>
    <report_id>1</report_id>
    {metadata_range}
    <error>first</error>
    <error>second</error>
  </report_metadata>
  <policy_published>
    {policy}
  </policy_published>
  <record>
    <row>
      <source_ip>192.0.2.1</source_ip>
      <count>2</count>
      <policy_evaluated>
        <disposition>none</disposition>
        <dkim>pass</dkim>
        <spf>fail</spf>
        {reasons}
      </policy_evaluated>
    </row>
    <identifiers>
      <envelope_to>example.net</envelope_to>
      <header_from>example.com</header_from>
    </identifiers>
    <auth_results>
      <dkim>
        <domain>example.com</domain>
        <result>temperror</result>
        <selector>s1</selector>
      </dkim>
      <spf>
        <domain>example.com</domain>
        <scope>mfrom</scope>
        <result>softfail</result>
      </spf>
    </auth_results>
  </record>
</feedback>"
    )
}

const RANGE: &str = "<date_range><begin>1700000000</begin><end>1700086399</end></date_range>";
const POLICY: &str = "<domain>example.com</domain><adkim>r</adkim><aspf>s</aspf><p>reject</p><pct>100</pct>";

fn reason(xml: &str) -> PolicyOverrideReason {
    let root = parse_xml(xml).unwrap();
    reason_from_element(&root)
}

#[test]
fn deserialize_spf_domain_scope() {
    let scope = parse_scope(&parse_xml("<mfrom></mfrom>").unwrap().name);
    assert_eq!(scope, Some(SpfDomainScope::MFrom));
    let scope = parse_scope(&parse_xml("<helo></helo>").unwrap().name);
    assert_eq!(scope, Some(SpfDomainScope::Helo));
}

#[test]
fn deserialize_policy_override_reason() {
    let por = reason("<reason> <type></type> <comment></comment> </reason>");
    assert_eq!(por, PolicyOverrideReason { typ: PolicyOverride::Other, comment: Some("".into()) });

    let por = reason("<reason> <type>other</type> <comment>some text</comment> </reason>");
    assert_eq!(
        por,
        PolicyOverrideReason { typ: PolicyOverride::Other, comment: Some("some text".into()) }
    );

    // `forwarded` belongs to the closed set of override kinds.
    let por = reason("<reason> <type>forwarded</type> </reason>");
    assert_eq!(por, PolicyOverrideReason { typ: PolicyOverride::Forwarded, comment: None });
}

#[test]
fn unknown_and_missing_override_kinds_read_as_other() {
    assert_eq!(reason("<reason><type>policy_test_mode</type></reason>").typ, PolicyOverride::Other);
    assert_eq!(reason("<reason><comment>x</comment></reason>").typ, PolicyOverride::Other);
    assert_eq!(reason("<reason><type>mailing_list</type></reason>").typ, PolicyOverride::MailingList);
    assert_eq!(reason("<reason><type>sampled_out</type></reason>").typ, PolicyOverride::SampledOut);
}

#[test]
fn full_report_is_read() {
    let f = parse_report(&report(POLICY, RANGE, "<reason><type>local_policy</type></reason>")).unwrap();
    assert_eq!(f.version.as_deref(), Some("1.0"));
    let m = &f.report_metadata;
    assert_eq!(m.org_name, "google.com");
    assert_eq!(m.email, "noreply-dmarc-support@google.com");
    assert_eq!(m.extra_contact_info, None);
    assert_eq!(m.report_id, "1");
    assert_eq!(m.date_range.begin, 1700000000);
    assert_eq!(m.date_range.end, 1700086399);
    assert_eq!(m.errors, vec!["first".to_string(), "second".to_string()]);
    let p = &f.policy_published;
    assert_eq!(p.domain, "example.com");
    assert_eq!(p.adkim, Some(Alignment::Relaxed));
    assert_eq!(p.aspf, Some(Alignment::Strict));
    assert_eq!(p.pct, 100);
    assert_eq!(f.records.len(), 1);
    let r = &f.records[0];
    assert_eq!(r.row.source_ip, "192.0.2.1");
    assert_eq!(r.row.count, 2);
    assert_eq!(r.row.policy_evaluated.disposition, Disposition::NoAction);
    assert_eq!(r.row.policy_evaluated.dkim, DmarcResult::Pass);
    assert_eq!(r.row.policy_evaluated.spf, DmarcResult::Fail);
    assert_eq!(r.row.policy_evaluated.reasons.len(), 1);
    assert_eq!(r.row.policy_evaluated.reasons[0].typ, PolicyOverride::LocalPolicy);
    assert_eq!(r.identifiers.envelope_to.as_deref(), Some("example.net"));
    assert_eq!(r.identifiers.envelope_from, None);
    assert_eq!(r.identifiers.header_from, "example.com");
    assert_eq!(r.auth_results.dkim.len(), 1);
    assert_eq!(r.auth_results.dkim[0].result, DkimResult::TempError);
    assert_eq!(r.auth_results.dkim[0].selector.as_deref(), Some("s1"));
    assert_eq!(r.auth_results.dkim[0].human_result, None);
    assert_eq!(r.auth_results.spf.len(), 1);
    assert_eq!(r.auth_results.spf[0].scope, Some(SpfDomainScope::MFrom));
    assert_eq!(r.auth_results.spf[0].result, SpfResult::Softfail);
}

#[test]
fn missing_sp_inherits_p() {
    let f = parse_report(&report(POLICY, RANGE, "")).unwrap();
    assert_eq!(f.policy_published.p, Disposition::Reject);
    assert_eq!(f.policy_published.sp, Disposition::Reject);
}

#[test]
fn present_sp_is_kept() {
    let policy = "<domain>example.com</domain><p>reject</p><sp>quarantine</sp><pct>50</pct><fo>1</fo>";
    let f = parse_report(&report(policy, RANGE, "")).unwrap();
    assert_eq!(f.policy_published.sp, Disposition::Quarantine);
    assert_eq!(f.policy_published.fo, "1");
    assert_eq!(f.policy_published.adkim, None);
}

#[test]
fn missing_fo_is_empty() {
    let f = parse_report(&report(POLICY, RANGE, "")).unwrap();
    assert_eq!(f.policy_published.fo, "");
}

#[test]
fn missing_reasons_are_empty() {
    let f = parse_report(&report(POLICY, RANGE, "")).unwrap();
    assert!(f.records[0].row.policy_evaluated.reasons.is_empty());
}

#[test]
fn misspelled_date_range_reads_the_same() {
    let alias = "<data_range><begin>1700000000</begin><end>1700086399</end></data_range>";
    let a = parse_report(&report(POLICY, alias, "")).unwrap();
    let b = parse_report(&report(POLICY, RANGE, "")).unwrap();
    assert_eq!(a.report_metadata.date_range, b.report_metadata.date_range);
    assert_eq!(a, b);
}

fn schema_error(xml: &str) -> (String, SchemaCause) {
    match parse_report(xml) {
        Err(LoadError::ParseDmarcReport(e)) => (e.element, e.cause),
        other => panic!("expected a schema error, got {:?}", other),
    }
}

#[test]
fn unknown_disposition_is_rejected() {
    let policy = "<domain>example.com</domain><p>discard</p><pct>100</pct>";
    assert_eq!(schema_error(&report(policy, RANGE, "")), ("p".to_string(), SchemaCause::Invalid));
}

#[test]
fn pct_out_of_range_is_rejected() {
    let policy = "<domain>example.com</domain><p>none</p><pct>256</pct>";
    assert_eq!(schema_error(&report(policy, RANGE, "")), ("pct".to_string(), SchemaCause::Invalid));
    let policy = "<domain>example.com</domain><p>none</p><pct>255</pct>";
    assert_eq!(parse_report(&report(policy, RANGE, "")).unwrap().policy_published.pct, 255);
}

#[test]
fn missing_date_range_is_rejected() {
    assert_eq!(
        schema_error(&report(POLICY, "", "")),
        ("date_range".to_string(), SchemaCause::Missing)
    );
}

#[test]
fn negative_timestamp_is_read() {
    let range = "<date_range><begin>-86400</begin><end>0</end></date_range>";
    let f = parse_report(&report(POLICY, range, "")).unwrap();
    assert_eq!(f.report_metadata.date_range.begin, -86400);
    assert_eq!(f.report_metadata.date_range.end, 0);
}

#[test]
fn unrepresentable_timestamp_is_rejected() {
    let range = "<date_range><begin>9223372036854775807</begin><end>0</end></date_range>";
    assert_eq!(schema_error(&report(POLICY, range, "")), ("begin".to_string(), SchemaCause::Invalid));
}

#[test]
fn missing_spf_result_is_rejected() {
    let xml = report(POLICY, RANGE, "").replace("<result>softfail</result>", "");
    assert_eq!(schema_error(&xml), ("result".to_string(), SchemaCause::Missing));
}

#[test]
fn escaped_text_is_unescaped() {
    let xml = report(POLICY, RANGE, "").replace(
        "<org_name>google.com</org_name>",
        "<org_name>A &amp; B</org_name>",
    );
    assert_eq!(parse_report(&xml).unwrap().report_metadata.org_name, "A & B");
}

#[test]
fn malformed_xml_is_rejected() {
    assert!(matches!(parse_report("<feedback><a></b></feedback>"), Err(LoadError::ReadXml(_))));
    assert!(matches!(parse_report("<feedback>"), Err(LoadError::ReadXml(_))));
}

#[test]
fn written_tree_reads_back_the_same() {
    let policy = "<domain>example.com</domain><adkim>s</adkim><p>quarantine</p><sp>none</sp><pct>7</pct>";
    let range = "<date_range><begin>-5</begin><end>1700086399</end></date_range>";
    let f = parse_report(&report(policy, range, "<reason><type>trusted_forwarder</type><comment>c</comment></reason><reason><type>x</type></reason>")).unwrap();
    let tree = feedback_to_element(&f);
    assert_eq!(tree.name, "feedback");
    let g = feedback_from_element(&tree).unwrap();
    assert_eq!(g, f);
    let f = parse_report(&report(POLICY, RANGE, "")).unwrap();
    assert_eq!(feedback_from_element(&feedback_to_element(&f)).unwrap(), f);
}

#[test]
fn invalid_source_ip_is_rejected() {
    let xml = report(POLICY, RANGE, "").replace("192.0.2.1", "not-an-address");
    assert_eq!(schema_error(&xml), ("source_ip".to_string(), SchemaCause::Invalid));
    let xml = report(POLICY, RANGE, "").replace("192.0.2.1", "256.0.0.1");
    assert_eq!(schema_error(&xml), ("source_ip".to_string(), SchemaCause::Invalid));
    let xml = report(POLICY, RANGE, "").replace("192.0.2.1", "2001:db8::17");
    assert_eq!(parse_report(&xml).unwrap().records[0].row.source_ip, "2001:db8::17");
}

#[test]
fn leading_plus_sign_is_accepted() {
    let policy = "<domain>example.com</domain><p>none</p><pct>+42</pct>";
    let range = "<date_range><begin>+10</begin><end>20</end></date_range>";
    let f = parse_report(&report(policy, range, "")).unwrap();
    assert_eq!(f.policy_published.pct, 42);
    assert_eq!(f.report_metadata.date_range.begin, 10);
    let policy = "<domain>example.com</domain><p>none</p><pct>+-1</pct>";
    assert_eq!(schema_error(&report(policy, RANGE, "")), ("pct".to_string(), SchemaCause::Invalid));
}

#[test]
fn version_must_be_decimal() {
    let xml = report(POLICY, RANGE, "").replace("<version>1.0</version>", "<version>one</version>");
    assert_eq!(schema_error(&xml), ("version".to_string(), SchemaCause::Invalid));
    let xml = report(POLICY, RANGE, "").replace("<version>1.0</version>", "<version>1.0.1</version>");
    assert_eq!(schema_error(&xml), ("version".to_string(), SchemaCause::Invalid));
    let xml = report(POLICY, RANGE, "").replace("<version>1.0</version>", "<version>2</version>");
    assert_eq!(parse_report(&xml).unwrap().version.as_deref(), Some("2"));
}
