use std::io::Write;

use dagger::aggregate::{aggregate, flatten_records, timeframe};
use dagger::loader::{
    attachment_kind, decode_attachment, feedbacks_from_mbox, select_attachment, AttachmentKind,
    LoadError,
};
use dagger::mbox::{message_spans, next_message};
use dagger::model::Disposition;

const XML: &str = "<?xml version=\"1.0\"?>
<feedback>
  <report_metadata>
    <org_name>example.org</org_name>
    <email>dmarc@example.org</email>
    <report_id>ID</report_id>
    <date_range><begin>BEGIN</begin><end>END</end></date_range>
  </report_metadata>
  <policy_published>
    <domain>example.com</domain>
    <p>reject</p>
    <pct>100</pct>
  </policy_published>
  <record>
    <row>
      <source_ip>192.0.2.1</source_ip>
      <count>1</count>
      <policy_evaluated><disposition>reject</disposition><dkim>fail</dkim><spf>fail</spf></policy_evaluated>
    </row>
    <identifiers><header_from>example.com</header_from></identifiers>
    <auth_results><spf><domain>example.com</domain><result>fail</result></spf></auth_results>
  </record>
</feedback>";

fn report_xml(id: &str, begin: i64, end: i64) -> String {
    XML.replace("ID", id).replace("BEGIN", &begin.to_string()).replace("END", &end.to_string())
}

fn base64(data: &[u8]) -> String {
    const ALPHABET: &[u8] = b"ABCDEFGHIJKLMNOPQRSTUVWXYZabcdefghijklmnopqrstuvwxyz0123456789+/";
    let mut out = String::new();
    for chunk in data.chunks(3) {
        let b = [chunk[0], *chunk.get(1).unwrap_or(&0), *chunk.get(2).unwrap_or(&0)];
        let n = ((b[0] as u32) << 16) | ((b[1] as u32) << 8) | b[2] as u32;
        for i in 0..4 {
            if i <= chunk.len() {
                out.push(ALPHABET[((n >> (18 - 6 * i)) & 63) as usize] as char);
            } else {
                out.push('=');
            }
        }
    }
    let mut wrapped = String::new();
    for (i, c) in out.chars().enumerate() {
        if i > 0 && i % 76 == 0 {
            wrapped.push('\n');
        }
        wrapped.push(c);
    }
    wrapped
}

fn gzip(text: &str) -> Vec<u8> {
    let mut encoder = flate2::write::GzEncoder::new(Vec::new(), flate2::Compression::default());
    encoder.write_all(text.as_bytes()).unwrap();
    encoder.finish().unwrap()
}

fn zip(text: &str) -> Vec<u8> {
    let mut writer = zip::ZipWriter::new(std::io::Cursor::new(Vec::new()));
    writer.start_file("report.xml", zip::write::FileOptions::default()).unwrap();
    writer.write_all(text.as_bytes()).unwrap();
    writer.finish().unwrap().into_inner()
}

fn message(subject: Option<&str>, mimetype: &str, body: &[u8]) -> String {
    let mut m = String::from("From dmarc@example.org Mon Jan  1 00:00:00 2024\n");
    if let Some(s) = subject {
        m.push_str(&format!("Subject: {s}\n"));
    }
    m.push_str("MIME-Version: 1.0\n");
    m.push_str("Content-Type: multipart/mixed; boundary=\"BOUNDARY\"\n\n");
    m.push_str("--BOUNDARY\nContent-Type: text/plain\n\nSee the attachment.\n");
    m.push_str(&format!(
        "--BOUNDARY\nContent-Type: {mimetype}\nContent-Transfer-Encoding: base64\n\n{}\n--BOUNDARY--\n\n",
        base64(body)
    ));
    m
}

#[test]
fn attachment_kinds() {
    assert_eq!(attachment_kind(&"application/zip".to_string()), Some(AttachmentKind::Zip));
    assert_eq!(attachment_kind(&"application/gzip".to_string()), Some(AttachmentKind::Gzip));
    assert_eq!(attachment_kind(&"application/x-gzip".to_string()), None);
    let types = vec!["text/plain".to_string(), "application/gzip".to_string(), "application/zip".to_string()];
    assert_eq!(select_attachment(&types), Some((1, AttachmentKind::Gzip)));
    assert_eq!(select_attachment(&vec!["text/plain".to_string()]), None);
}

#[test]
fn gzip_attachment_is_decompressed() {
    let text = report_xml("7", 10, 20);
    assert_eq!(decode_attachment(AttachmentKind::Gzip, &gzip(&text)).unwrap(), text);
}

#[test]
fn zip_attachment_is_decompressed() {
    let text = report_xml("7", 10, 20);
    assert_eq!(decode_attachment(AttachmentKind::Zip, &zip(&text)).unwrap(), text);
}

#[test]
fn corrupt_attachments_fail() {
    assert!(matches!(
        decode_attachment(AttachmentKind::Zip, b"not a zip"),
        Err(LoadError::ReadZipArchive(_))
    ));
    assert!(matches!(
        decode_attachment(AttachmentKind::Gzip, b"not a gzip"),
        Err(LoadError::ReadXmlFromGzip(_))
    ));
}

#[test]
fn empty_mbox_has_no_messages() {
    let report = feedbacks_from_mbox(b"no marker here\nat all\n").unwrap();
    assert!(report.feedbacks.is_empty());
    assert!(report.diagnostics.is_empty());
    let report = feedbacks_from_mbox(b"").unwrap();
    assert!(report.feedbacks.is_empty());
    assert!(report.diagnostics.is_empty());
}

#[test]
fn spans_split_on_line_starts_only() {
    let text = b"preamble\nFrom a\nbody From b\nFrom c";
    let spans = message_spans(text);
    assert_eq!(spans.len(), 2);
    assert_eq!(&text[spans[0].0..spans[0].1], b"a\nbody From b\n");
    assert_eq!(&text[spans[1].0..spans[1].1], b"c");
    assert!(message_spans(b"xFrom a").is_empty());
    assert_eq!(message_spans(b"From ").len(), 1);
}

#[test]
fn unsupported_attachment_is_skipped() {
    let mut mbox = String::new();
    mbox.push_str(&message(Some("first"), "application/gzip", &gzip(&report_xml("1", 100, 200))));
    mbox.push_str(&message(Some("second"), "application/pdf", b"%PDF-1.4"));
    mbox.push_str(&message(Some("third"), "application/zip", &zip(&report_xml("3", 300, 400))));
    let report = feedbacks_from_mbox(mbox.as_bytes()).unwrap();
    assert_eq!(report.feedbacks.len(), 2);
    assert_eq!(report.feedbacks[0].report_metadata.report_id, "1");
    assert_eq!(report.feedbacks[1].report_metadata.report_id, "3");
    assert_eq!(report.diagnostics.len(), 1);
    assert_eq!(report.diagnostics[0].subject.as_deref(), Some("second"));
    assert!(matches!(report.diagnostics[0].error, LoadError::NoSupportedAttachmentFound));
}

#[test]
fn missing_subject_is_skipped() {
    let mut mbox = message(None, "application/gzip", &gzip(&report_xml("1", 100, 200)));
    mbox.push_str(&message(Some("ok"), "application/gzip", &gzip(&report_xml("2", 100, 200))));
    let report = feedbacks_from_mbox(mbox.as_bytes()).unwrap();
    assert_eq!(report.feedbacks.len(), 1);
    assert_eq!(report.diagnostics.len(), 1);
    assert_eq!(report.diagnostics[0].subject, None);
    assert!(matches!(report.diagnostics[0].error, LoadError::MissingSubject));
}

#[test]
fn bad_report_is_skipped() {
    let mbox = message(Some("bad"), "application/gzip", &gzip("<feedback></feedback>"));
    let report = feedbacks_from_mbox(mbox.as_bytes()).unwrap();
    assert!(report.feedbacks.is_empty());
    assert!(matches!(report.diagnostics[0].error, LoadError::ParseDmarcReport(_)));
}

#[test]
fn end_to_end_single_report() {
    let mbox = message(Some("Report domain: example.com"), "application/zip", &zip(&report_xml("1", 1700000000, 1700086399)));
    let report = feedbacks_from_mbox(mbox.as_bytes()).unwrap();
    assert_eq!(report.feedbacks.len(), 1);
    assert!(report.diagnostics.is_empty());
    let f = &report.feedbacks[0];
    assert_eq!(f.report_metadata.report_id, "1");
    assert_eq!(f.policy_published.p, Disposition::Reject);
    assert_eq!(f.policy_published.sp, Disposition::Reject);
    let batch = aggregate(report.feedbacks);
    assert_eq!(timeframe(&batch), Some((1700000000, 1700086399)));
    let records = flatten_records(batch);
    assert_eq!(records.len(), 1);
    assert_eq!(records[0].identifiers.header_from, "example.com");
}

#[test]
fn broken_envelope_stops_the_run() {
    let mut mbox = message(Some("ok"), "application/gzip", &gzip(&report_xml("1", 100, 200)));
    mbox.push_str("From  an envelope line that starts with a space\nSubject: x\n\nbody\n");
    assert!(matches!(feedbacks_from_mbox(mbox.as_bytes()), Err(LoadError::ParseMail(_))));
}

#[test]
fn zip_entry_that_is_not_text_fails() {
    let mut writer = zip::ZipWriter::new(std::io::Cursor::new(Vec::new()));
    writer.start_file("report.xml", zip::write::FileOptions::default()).unwrap();
    writer.write_all(&[0xff, 0xfe, 0x00, 0x80]).unwrap();
    let bytes = writer.finish().unwrap().into_inner();
    assert!(matches!(
        decode_attachment(AttachmentKind::Zip, &bytes),
        Err(LoadError::ReadXmlFromZip(_))
    ));
}

#[test]
fn messages_can_be_walked_one_at_a_time() {
    let text = b"preamble\nFrom a\nbody From b\nFrom c";
    let mut spans = Vec::new();
    let mut pos = 0;
    while let Some((b, e)) = next_message(text, pos) {
        spans.push((b, e));
        pos = e;
    }
    assert_eq!(spans, message_spans(text));
    assert_eq!(next_message(b"no marker", 0), None);
}
