//! The calls into outside crates that the library relies on, each with the
//! contract it is believed to meet.
use vstd::prelude::*;
use quick_xml::events::Event;
use crate::xml::XmlToken;
use crate::loader::LoadError;
use mailparse::MailHeaderMap;
use std::io::Read;

verus! {

/// Whether chrono can represent the instant `secs` seconds after the Unix
/// epoch, in UTC.
pub uninterp spec fn utc_representable(secs: i64) -> bool;

/// Relies on chrono's `DateTime::<Utc>::from_timestamp`, which returns `None`
/// exactly for a count of seconds out of its range; the answer depends on
/// `secs` alone.
#[verifier::external_body]
pub(crate) fn is_utc_timestamp(secs: i64) -> (r: bool)
    ensures
        r == utc_representable(secs),
{
    chrono::DateTime::from_timestamp(secs, 0).is_some()
}

/// Whether `s` is an IPv4 or IPv6 address in the text form that `core::net`
/// parses.
pub uninterp spec fn is_ip_address(s: Seq<char>) -> bool;

/// Relies on `<core::net::IpAddr as FromStr>::from_str`: whether `s` parses
/// as an IP address, which depends on `s` alone.
#[verifier::external_body]
pub(crate) fn ip_address_valid(s: &str) -> (r: bool)
    ensures
        r == is_ip_address(s@),
{
    s.parse::<core::net::IpAddr>().is_ok()
}

#[verifier::external_type_specification]
#[verifier::external_body]
#[verifier::reject_recursive_types(R)]
pub struct ExXmlReader<R>(quick_xml::Reader<R>);

#[verifier::external_type_specification]
#[verifier::external_body]
pub struct ExXmlError(quick_xml::Error);

/// The `k`-th event that a reader over `s` reports, counting from 0, as a
/// token; `None` when the reader fails there.
pub uninterp spec fn xml_event(s: Seq<char>, k: nat) -> Option<XmlToken>;

/// Relies on quick_xml's `Reader::from_str` and `trim_text(true)`: a reader
/// over `s` that trims whitespace around character data and drops what is
/// left empty.
#[verifier::external_body]
fn xml_reader(s: &str) -> (r: quick_xml::Reader<&[u8]>) {
    let mut reader = quick_xml::Reader::from_str(s);
    reader.trim_text(true);
    reader
}

/// A reader over a text, with the text and the number of events read so far.
pub struct XmlTokens<'a> {
    reader: quick_xml::Reader<&'a [u8]>,
    text: Ghost<Seq<char>>,
    read: Ghost<nat>,
}

impl<'a> XmlTokens<'a> {
    pub closed spec fn source(&self) -> Seq<char> {
        self.text@
    }

    pub closed spec fn position(&self) -> nat {
        self.read@
    }

    /// A reader at the start of `s`.
    pub fn new(s: &'a str) -> (r: XmlTokens<'a>)
        ensures
            r.source() == s@,
            r.position() == 0,
    {
        XmlTokens { reader: xml_reader(s), text: Ghost(s@), read: Ghost(0) }
    }
}

/// Relies on quick_xml's `Reader::read_event`, with `BytesText::unescape`
/// for character data: the next event of the text, its names and data as
/// strings. Which event comes depends on the text and on how many were read
/// before.
#[verifier::external_body]
pub(crate) fn next_xml_token(tokens: &mut XmlTokens) -> (r: Result<XmlToken, quick_xml::Error>)
    ensures
        final(tokens).source() == old(tokens).source(),
        final(tokens).position() == old(tokens).position() + 1,
        match xml_event(old(tokens).source(), old(tokens).position()) {
            Some(t) => r matches Ok(x) && x == t,
            None => r is Err,
        },
{
    Ok(match tokens.reader.read_event()? {
        Event::Start(e) => XmlToken::Open(String::from_utf8_lossy(e.local_name().as_ref()).into_owned()),
        Event::End(e) => XmlToken::Close(String::from_utf8_lossy(e.local_name().as_ref()).into_owned()),
        Event::Empty(e) => XmlToken::Leaf(String::from_utf8_lossy(e.local_name().as_ref()).into_owned()),
        Event::Text(e) => XmlToken::Text(e.unescape()?.into_owned()),
        Event::CData(e) => XmlToken::Text(String::from_utf8_lossy(&e).into_owned()),
        Event::Eof => XmlToken::End,
        _ => XmlToken::Skip,
    })
}

#[verifier::external_type_specification]
#[verifier::external_body]
pub struct ExParsedMail<'a>(mailparse::ParsedMail<'a>);

#[verifier::external_type_specification]
#[verifier::external_body]
pub struct ExMailParseError(mailparse::MailParseError);

#[verifier::external_type_specification]
#[verifier::external_body]
pub struct ExZipError(zip::result::ZipError);

#[verifier::external_type_specification]
#[verifier::external_body]
pub struct ExIoError(std::io::Error);

/// Whether mailparse parses the bytes `raw` as a message.
pub uninterp spec fn mail_parses(raw: Seq<u8>) -> bool;

/// The decoded value of the first header of the message `raw` whose name
/// matches `key` without regard to ASCII case.
pub uninterp spec fn mail_header(raw: Seq<u8>, key: Seq<char>) -> Option<Seq<char>>;

/// The MIME types of the parts of the message `raw`: the message itself,
/// then its subparts, depth first.
pub uninterp spec fn mail_part_types(raw: Seq<u8>) -> Seq<Seq<char>>;

/// The body of the `i`-th part of the message `raw`, its transfer encoding
/// undone, if that succeeds.
pub uninterp spec fn mail_part_body(raw: Seq<u8>, i: int) -> Option<Seq<u8>>;

/// Relies on `mailparse::parse_mail`, whose success depends on the bytes alone.
#[verifier::external_body]
fn parse_mail_bytes(raw: &[u8]) -> (r: Result<mailparse::ParsedMail<'_>, mailparse::MailParseError>)
    ensures
        r is Ok <==> mail_parses(raw@),
{
    mailparse::parse_mail(raw)
}

/// A message parsed from the bytes it keeps as its source.
pub struct Message<'a> {
    mail: mailparse::ParsedMail<'a>,
    raw: Ghost<Seq<u8>>,
}

impl<'a> Message<'a> {
    pub closed spec fn source(&self) -> Seq<u8> {
        self.raw@
    }

    /// Parses one message.
    pub fn parse(raw: &'a [u8]) -> (r: Result<Message<'a>, mailparse::MailParseError>)
        ensures
            r is Ok <==> mail_parses(raw@),
            r matches Ok(m) ==> m.source() == raw@,
    {
        match parse_mail_bytes(raw) {
            Ok(mail) => Ok(Message { mail, raw: Ghost(raw@) }),
            Err(e) => Err(e),
        }
    }
}

/// Relies on mailparse's `MailHeaderMap::get_first_value`.
#[verifier::external_body]
pub(crate) fn message_header(m: &Message, key: &str) -> (r: Option<String>)
    ensures
        match r {
            Some(v) => mail_header(m.source(), key@) == Some(v@),
            None => mail_header(m.source(), key@) is None,
        },
{
    m.mail.get_headers().get_first_value(key)
}

/// Relies on `ParsedMail::parts` and each part's parsed `Content-Type`.
#[verifier::external_body]
pub(crate) fn message_part_types(m: &Message) -> (r: Vec<String>)
    ensures
        r@.map_values(|t: String| t@) == mail_part_types(m.source()),
{
    m.mail.parts().map(|p| p.ctype.mimetype.clone()).collect()
}

/// Relies on `ParsedMail::parts` and `ParsedMail::get_body_raw`.
#[verifier::external_body]
pub(crate) fn message_part_body(m: &Message, i: usize) -> (r: Result<Vec<u8>, mailparse::MailParseError>)
    requires
        i < mail_part_types(m.source()).len(),
    ensures
        r is Ok <==> mail_part_body(m.source(), i as int) is Some,
        r matches Ok(b) ==> b@ == mail_part_body(m.source(), i as int)->Some_0,
{
    match m.mail.parts().nth(i) {
        Some(part) => part.get_body_raw(),
        None => Ok(Vec::new()),
    }
}

/// The text of the first entry of the ZIP archive `b`, if it can be read.
pub uninterp spec fn zip_first_entry(b: Seq<u8>) -> Option<Seq<char>>;

/// Relies on zip's `ZipArchive::new` and `by_index_decrypt(0, b"")`, and on
/// reading that entry to a string: the text of the archive's first entry,
/// which depends on the bytes alone. The empty password is dropped for an
/// entry that is not encrypted; an entry that needs one is refused.
#[verifier::external_body]
pub(crate) fn unzip_first_entry(body: &[u8]) -> (r: Result<String, LoadError>)
    ensures
        r is Ok <==> zip_first_entry(body@) is Some,
        r matches Ok(t) ==> t@ == zip_first_entry(body@)->Some_0,
        r matches Err(e) ==> e is ReadZipArchive || e is ReadXmlFromZip,
{
    let mut archive = zip::ZipArchive::new(std::io::Cursor::new(body)).map_err(LoadError::ReadZipArchive)?;
    let mut entry = archive.by_index_decrypt(0, b"").map_err(LoadError::ReadZipArchive)?.map_err(
        |_| LoadError::ReadZipArchive(zip::result::ZipError::UnsupportedArchive(zip::result::ZipError::PASSWORD_REQUIRED)),
    )?;
    let mut xml = String::new();
    entry.read_to_string(&mut xml).map_err(LoadError::ReadXmlFromZip)?;
    Ok(xml)
}

/// The text that the GZIP stream `b` decompresses to, if it can be read.
pub uninterp spec fn gunzip_text(b: Seq<u8>) -> Option<Seq<char>>;

/// Relies on flate2's `bufread::GzDecoder`, read to a string: the text the
/// stream decompresses to, which depends on the bytes alone.
#[verifier::external_body]
pub(crate) fn gunzip(body: &[u8]) -> (r: Result<String, LoadError>)
    ensures
        r is Ok <==> gunzip_text(body@) is Some,
        r matches Ok(t) ==> t@ == gunzip_text(body@)->Some_0,
        r matches Err(e) ==> e is ReadXmlFromGzip,
{
    let mut decoder = flate2::bufread::GzDecoder::new(body);
    let mut xml = String::new();
    decoder.read_to_string(&mut xml).map_err(LoadError::ReadXmlFromGzip)?;
    Ok(xml)
}

} // verus!
