//! Loading the reports of an mbox text: each message's report attachment is
//! decompressed and read; a message that fails is reported and skipped.
use vstd::prelude::*;
use crate::mbox::{mbox_messages, message_spans};
use crate::model::Feedback;
use crate::schema::{
    feedback_error, feedback_from_element, feedback_ok, feedback_read, opt_text, Fault, SchemaError,
};
use crate::schema::lemma_same_tree_same_report;
use crate::trusted::{
    gunzip, gunzip_text, mail_header, mail_part_body, mail_part_types, mail_parses,
    message_header, message_part_body, message_part_types, unzip_first_entry, zip_first_entry,
    Message,
};
use crate::xml::{parse_xml, xml_document, XmlElement, XmlError, XmlNode};

verus! {

/// What can go wrong while loading a report.
#[derive(Debug)]
pub enum LoadError {
    /// A message, or a part's body, could not be parsed as mail.
    ParseMail(mailparse::MailParseError),
    /// A message has no Subject header.
    MissingSubject,
    /// A message has no part of a supported attachment type.
    NoSupportedAttachmentFound,
    /// The ZIP archive could not be opened, or has no first entry.
    ReadZipArchive(zip::result::ZipError),
    /// The first entry of the ZIP archive is not readable UTF-8 text.
    ReadXmlFromZip(std::io::Error),
    /// The GZIP stream is not readable UTF-8 text.
    ReadXmlFromGzip(std::io::Error),
    /// The attachment is not well-formed XML.
    ReadXml(XmlError),
    /// The XML does not fit the report schema.
    ParseDmarcReport(SchemaError),
}

/// The compressed attachment formats a report can come in.
#[derive(Debug, PartialEq, Eq, Structural, Clone, Copy)]
pub enum AttachmentKind {
    Zip,
    Gzip,
}

/// The attachment format of a MIME type, if it is a supported one.
pub open spec fn attachment_kind_of(mimetype: Seq<char>) -> Option<AttachmentKind> {
    if mimetype == "application/zip"@ {
        Some(AttachmentKind::Zip)
    } else if mimetype == "application/gzip"@ {
        Some(AttachmentKind::Gzip)
    } else {
        None
    }
}

/// The text an attachment of the given format decompresses to.
pub open spec fn decoded_text(kind: AttachmentKind, body: Seq<u8>) -> Option<Seq<char>> {
    match kind {
        AttachmentKind::Zip => zip_first_entry(body),
        AttachmentKind::Gzip => gunzip_text(body),
    }
}

/// The index of the first supported MIME type at or after `k`.
pub open spec fn first_supported_from(mimetypes: Seq<Seq<char>>, k: int) -> Option<int>
    decreases mimetypes.len() - k,
{
    if k < 0 || k >= mimetypes.len() {
        None
    } else if attachment_kind_of(mimetypes[k]) is Some {
        Some(k)
    } else {
        first_supported_from(mimetypes, k + 1)
    }
}

proof fn lemma_first_supported_from(mimetypes: Seq<Seq<char>>, k: int)
    requires
        0 <= k,
    ensures
        first_supported_from(mimetypes, k) matches Some(j) ==> k <= j < mimetypes.len()
            && attachment_kind_of(mimetypes[j]) is Some,
    decreases mimetypes.len() - k,
{
    if k < mimetypes.len() && attachment_kind_of(mimetypes[k]) is None {
        lemma_first_supported_from(mimetypes, k + 1);
    }
}

/// The attachment format of a MIME type, if it is a supported one.
pub fn attachment_kind(mimetype: &String) -> (r: Option<AttachmentKind>)
    ensures
        r == attachment_kind_of(mimetype@),
{
    let zip = String::from_str("application/zip");
    let gzip = String::from_str("application/gzip");
    if mimetype.eq(&zip) {
        Some(AttachmentKind::Zip)
    } else if mimetype.eq(&gzip) {
        Some(AttachmentKind::Gzip)
    } else {
        None
    }
}

/// The first part, given the parts' MIME types in order, that holds a
/// supported attachment, with its format.
pub fn select_attachment(mimetypes: &Vec<String>) -> (r: Option<(usize, AttachmentKind)>)
    ensures
        match first_supported_from(mimetypes@.map_values(|m: String| m@), 0) {
            Some(k) => r matches Some((i, kind)) && i == k && attachment_kind_of(mimetypes@[k]@)
                == Some(kind),
            None => r is None,
        },
{
    let ghost types = mimetypes@.map_values(|m: String| m@);
    let mut i: usize = 0;
    while i < mimetypes.len()
        invariant
            i <= mimetypes@.len(),
            types == mimetypes@.map_values(|m: String| m@),
            first_supported_from(types, 0) == first_supported_from(types, i as int),
        decreases mimetypes.len() - i,
    {
        match attachment_kind(&mimetypes[i]) {
            Some(kind) => {
                return Some((i, kind));
            },
            None => {},
        }
        i = i + 1;
    }
    None
}

/// The text of a compressed attachment.
pub fn decode_attachment(kind: AttachmentKind, body: &[u8]) -> (r: Result<String, LoadError>)
    ensures
        r is Ok <==> decoded_text(kind, body@) is Some,
        r matches Ok(t) ==> t@ == decoded_text(kind, body@)->Some_0,
        r matches Err(e) ==> match kind {
            AttachmentKind::Zip => e is ReadZipArchive || e is ReadXmlFromZip,
            AttachmentKind::Gzip => e is ReadXmlFromGzip,
        },
{
    match kind {
        AttachmentKind::Zip => unzip_first_entry(body),
        AttachmentKind::Gzip => gunzip(body),
    }
}

/// Whether the tree `d` is a report that the lenient schema accepts.
pub open spec fn document_accepted(d: XmlNode) -> bool {
    exists|e: XmlElement| e.node() == d && #[trigger] feedback_ok(e)
}

/// Whether `f` is what the lenient schema reads out of the tree `d`.
pub open spec fn document_reads(d: XmlNode, f: Feedback) -> bool {
    exists|e: XmlElement| e.node() == d && #[trigger] feedback_read(e, f)
}

/// Whether the schema names the fault `x` when it rejects the tree `d`.
pub open spec fn document_fault(d: XmlNode, x: Fault) -> bool {
    exists|e: XmlElement| e.node() == d && #[trigger] feedback_error(e) == Some(x)
}

/// What reading the XML text `xml` as a report gives: a read error when it
/// is not one well-formed element tree; otherwise the report the schema reads
/// from that tree, or the schema error naming its first fault when the schema
/// rejects it.
pub open spec fn report_outcome(xml: Seq<char>, r: Result<Feedback, LoadError>) -> bool {
    match xml_document(xml) {
        None => r matches Err(e) && e is ReadXml,
        Some(d) => if document_accepted(d) {
            r matches Ok(f) && document_reads(d, f)
        } else {
            r matches Err(LoadError::ParseDmarcReport(err)) && document_fault(
                d,
                (err.element@, err.cause),
            )
        },
    }
}

/// What processing the message `raw` gives: the report of its first part of
/// a supported type, decoded and read; an error when there is no such part,
/// or when its body, its decompression or its report fails.
pub open spec fn email_outcome(raw: Seq<u8>, r: Result<Feedback, LoadError>) -> bool {
    let types = mail_part_types(raw);
    match first_supported_from(types, 0) {
        None => r matches Err(e) && e is NoSupportedAttachmentFound,
        Some(i) => match mail_part_body(raw, i) {
            None => r matches Err(e) && e is ParseMail,
            Some(body) => match decoded_text(attachment_kind_of(types[i])->Some_0, body) {
                None => r matches Err(e) && (e is ReadZipArchive || e is ReadXmlFromZip
                    || e is ReadXmlFromGzip),
                Some(xml) => report_outcome(xml, r),
            },
        },
    }
}

/// What the message `raw` gives: a `MissingSubject` error when it has no
/// Subject header, else what processing it gives.
pub open spec fn message_outcome(raw: Seq<u8>, r: Result<Feedback, LoadError>) -> bool {
    match mail_header(raw, "Subject"@) {
        None => r matches Err(e) && e is MissingSubject,
        Some(_) => email_outcome(raw, r),
    }
}

/// The reports among the outcomes, in order.
pub open spec fn successes(outs: Seq<Result<Feedback, LoadError>>) -> Seq<Feedback>
    decreases outs.len(),
{
    if outs.len() == 0 {
        Seq::empty()
    } else {
        let p = successes(outs.drop_last());
        match outs.last() {
            Ok(f) => p.push(f),
            Err(_) => p,
        }
    }
}

/// The failed messages among `outs`, each with its subject and error, in
/// order; `outs[k]` is the outcome of `msgs[k]`.
pub open spec fn failures(msgs: Seq<Seq<u8>>, outs: Seq<Result<Feedback, LoadError>>) -> Seq<
    (Option<Seq<char>>, LoadError),
>
    decreases outs.len(),
{
    if outs.len() == 0 {
        Seq::empty()
    } else {
        let p = failures(msgs, outs.drop_last());
        match outs.last() {
            Ok(_) => p,
            Err(e) => p.push((mail_header(msgs[outs.len() - 1], "Subject"@), e)),
        }
    }
}

/// Whether `rep` collects the outcomes `outs` of the messages `msgs`.
pub open spec fn collects(
    msgs: Seq<Seq<u8>>,
    outs: Seq<Result<Feedback, LoadError>>,
    rep: LoadReport,
) -> bool {
    &&& outs.len() == msgs.len()
    &&& forall|k: int| 0 <= k < msgs.len() ==> message_outcome(msgs[k], #[trigger] outs[k])
    &&& rep.feedbacks@ == successes(outs)
    &&& rep.diagnostics@.map_values(|d: Diagnostic| (opt_text(d.subject), d.error)) == failures(
        msgs,
        outs,
    )
}

/// Whether `rep` is what loading the mbox text `mbox` gives: the messages'
/// outcomes, sorted into the reports in message order and the failed
/// messages with their subjects and errors in message order.
pub open spec fn loads(mbox: Seq<u8>, rep: LoadReport) -> bool {
    exists|outs: Seq<Result<Feedback, LoadError>>| #[trigger] collects(mbox_messages(mbox), outs, rep)
}

/// Reads one aggregate report from its XML text.
pub fn parse_report(xml: &str) -> (r: Result<Feedback, LoadError>)
    ensures
        report_outcome(xml@, r),
{
    let root = match parse_xml(xml) {
        Ok(root) => root,
        Err(e) => {
            return Err(LoadError::ReadXml(e));
        },
    };
    match feedback_from_element(&root) {
        Ok(f) => Ok(f),
        Err(e) => {
            proof {
                assert forall|other: XmlElement| other.node() == root.node() implies !#[trigger] feedback_ok(other) by {
                    lemma_same_tree_same_report(root, other);
                }
            }
            Err(LoadError::ParseDmarcReport(e))
        },
    }
}

/// A message that was skipped: its subject, if it has one, and why.
#[derive(Debug)]
pub struct Diagnostic {
    pub subject: Option<String>,
    pub error: LoadError,
}

/// The reports read from an mbox text, and the messages skipped, each in
/// the order of the messages.
#[derive(Debug)]
pub struct LoadReport {
    pub feedbacks: Vec<Feedback>,
    pub diagnostics: Vec<Diagnostic>,
}

/// The report attached to one parsed message: the first part of a supported
/// attachment type, decompressed and read.
fn process_email(m: &Message) -> (r: Result<Feedback, LoadError>)
    ensures
        email_outcome(m.source(), r),
{
    let types = message_part_types(m);
    proof {
        lemma_first_supported_from(types@.map_values(|t: String| t@), 0);
    }
    let (k, kind) = match select_attachment(&types) {
        Some(found) => found,
        None => {
            return Err(LoadError::NoSupportedAttachmentFound);
        },
    };
    let body = match message_part_body(m, k) {
        Ok(body) => body,
        Err(e) => {
            return Err(LoadError::ParseMail(e));
        },
    };
    let xml = decode_attachment(kind, body.as_slice())?;
    parse_report(xml.as_str())
}

/// Reads the reports of an mbox text. A message that mailparse cannot parse
/// stops the whole run; any other failure skips that message only and is
/// reported with its subject.
pub fn feedbacks_from_mbox(mbox: &[u8]) -> (r: Result<LoadReport, LoadError>)
    ensures
        r is Err <==> exists|k: int|
            0 <= k < mbox_messages(mbox@).len() && !mail_parses(#[trigger] mbox_messages(mbox@)[k]),
        r matches Err(e) ==> e is ParseMail,
        r matches Ok(rep) ==> loads(mbox@, rep),
{
    let ghost msgs = mbox_messages(mbox@);
    let spans = message_spans(mbox);
    let mut feedbacks: Vec<Feedback> = Vec::new();
    let mut diagnostics: Vec<Diagnostic> = Vec::new();
    let ghost mut outs: Seq<Result<Feedback, LoadError>> = Seq::empty();
    let mut i: usize = 0;
    while i < spans.len()
        invariant
            i <= spans@.len(),
            msgs == mbox_messages(mbox@),
            spans@.len() == msgs.len(),
            forall|k: int|
                0 <= k < spans@.len() ==> {
                    let (b, e) = #[trigger] spans@[k];
                    &&& b <= e <= mbox@.len()
                    &&& mbox@.subrange(b as int, e as int) == msgs[k]
                },
            forall|k: int| 0 <= k < i ==> mail_parses(#[trigger] msgs[k]),
            outs.len() == i,
            forall|k: int| 0 <= k < i ==> message_outcome(msgs[k], #[trigger] outs[k]),
            feedbacks@ == successes(outs),
            diagnostics@.map_values(|d: Diagnostic| (opt_text(d.subject), d.error)) == failures(
                msgs,
                outs,
            ),
        decreases spans.len() - i,
    {
        let (b, e) = spans[i];
        let raw = vstd::slice::slice_subrange(mbox, b, e);
        let mail = match Message::parse(raw) {
            Ok(mail) => mail,
            Err(err) => {
                return Err(LoadError::ParseMail(err));
            },
        };
        let subject = message_header(&mail, "Subject");
        let outcome = match &subject {
            Some(_) => process_email(&mail),
            None => Err(LoadError::MissingSubject),
        };
        let ghost before = outs;
        proof {
            outs = outs.push(outcome);
            assert(outs.drop_last() =~= before);
        }
        match outcome {
            Ok(f) => {
                feedbacks.push(f);
            },
            Err(error) => {
                let ghost old_diags = diagnostics@;
                diagnostics.push(Diagnostic { subject, error });
                proof {
                    assert(diagnostics@.map_values(|d: Diagnostic| (opt_text(d.subject), d.error))
                        =~= old_diags.map_values(|d: Diagnostic| (opt_text(d.subject), d.error)).push(
                        (mail_header(msgs[i as int], "Subject"@), outs.last()->Err_0),
                    ));
                }
            },
        }
        i = i + 1;
    }
    let rep = LoadReport { feedbacks, diagnostics };
    proof {
        assert(collects(mbox_messages(mbox@), outs, rep));
        assert(loads(mbox@, rep));
    }
    Ok(rep)
}

} // verus!
