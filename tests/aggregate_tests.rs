use dagger::aggregate::{aggregate, dedup_by_report_id, flatten_records, sort_by_begin, timeframe};
use dagger::model::{
    AuthResult, DateRange, Disposition, DmarcResult, Feedback, Identifier, PolicyEvaluated,
    PolicyPublished, Record, ReportMetadata, Row,
};

fn record(ip: &str) -> Record {
    Record {
        row: Row {
            source_ip: ip.to_string(),
            count: 1,
            policy_evaluated: PolicyEvaluated {
                disposition: Disposition::NoAction,
                dkim: DmarcResult::Pass,
                spf: DmarcResult::Pass,
                reasons: vec![],
            },
        },
        identifiers: Identifier { envelope_to: None, envelope_from: None, header_from: "example.com".into() },
        auth_results: AuthResult { dkim: vec![], spf: vec![] },
    }
}

fn feedback(id: &str, begin: i64, end: i64, ips: &[&str]) -> Feedback {
    Feedback {
        version: None,
        report_metadata: ReportMetadata {
            org_name: "org".into(),
            email: "a@b".into(),
            extra_contact_info: None,
            report_id: id.into(),
            date_range: DateRange { begin, end },
            errors: vec![],
        },
        policy_published: PolicyPublished {
            domain: "example.com".into(),
            adkim: None,
            aspf: None,
            p: Disposition::Reject,
            sp: Disposition::Reject,
            pct: 100,
            fo: String::new(),
        },
        records: ips.iter().map(|ip| record(ip)).collect(),
    }
}

fn ids(v: &[Feedback]) -> Vec<&str> {
    v.iter().map(|f| f.report_metadata.report_id.as_str()).collect()
}

#[test]
fn sort_is_ascending_and_stable() {
    let batch = vec![feedback("c", 30, 31, &[]), feedback("a", 10, 11, &[]), feedback("b", 30, 32, &[]), feedback("d", 20, 21, &[])];
    let sorted = sort_by_begin(batch);
    assert_eq!(ids(&sorted), vec!["a", "d", "c", "b"]);
}

#[test]
fn dedup_drops_adjacent_repeats_only() {
    let batch = vec![feedback("x", 1, 2, &["1"]), feedback("x", 2, 3, &["2"]), feedback("y", 3, 4, &[]), feedback("x", 4, 5, &[])];
    let kept = dedup_by_report_id(batch);
    assert_eq!(ids(&kept), vec!["x", "y", "x"]);
    assert_eq!(kept[0].records[0].row.source_ip, "1");
}

#[test]
fn aggregate_keeps_first_of_each_run() {
    let batch = vec![feedback("r1", 50, 60, &["late"]), feedback("r1", 10, 20, &["early"]), feedback("r2", 30, 40, &[]), feedback("r2", 35, 45, &[])];
    let kept = aggregate(batch);
    assert_eq!(ids(&kept), vec!["r1", "r2", "r1"]);
    assert_eq!(kept[0].records[0].row.source_ip, "early");
    assert_eq!(kept[1].report_metadata.date_range.begin, 30);
}

#[test]
fn timeframe_spans_the_batch() {
    let batch = vec![feedback("a", 20, 25, &[]), feedback("b", 10, 15, &[]), feedback("c", 12, 40, &[])];
    assert_eq!(timeframe(&batch), Some((10, 40)));
    assert_eq!(timeframe(&vec![]), None);
}

#[test]
fn records_are_flattened_in_order() {
    let batch = vec![feedback("a", 1, 2, &["1", "2"]), feedback("b", 3, 4, &[]), feedback("c", 5, 6, &["3"])];
    let records = flatten_records(batch);
    let ips: Vec<&str> = records.iter().map(|r| r.row.source_ip.as_str()).collect();
    assert_eq!(ips, vec!["1", "2", "3"]);
}
