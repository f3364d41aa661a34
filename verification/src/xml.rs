//! The XML event stream that the `pom.xml` parser reads, and the call into
//! `quick_xml` that produces it.
use vstd::prelude::*;

verus! {

/// The events of an XML document that the `pom.xml` reader looks at.
#[derive(Debug)]
pub enum XmlEvent {
    /// A start tag, with its qualified name as written (`ns:tag` or `tag`).
    Start(Vec<u8>),
    /// An end tag.
    End,
    /// Character data, trimmed and unescaped.
    Text(String),
    /// Anything else: empty-element tags, comments, CDATA, declarations,
    /// processing instructions, doctype.
    Other,
}

#[verifier::external_type_specification]
#[verifier::external_body]
pub struct ExXmlError(quick_xml::Error);

/// The events, up to the end of the document, that a `quick_xml::Reader`
/// made with `Reader::from_str(text)` and `trim_text(true)` yields, text
/// unescaped with `BytesText::unescape`; `None` where reading or unescaping
/// reports an error.
pub uninterp spec fn xml_event_stream(text: Seq<char>) -> Option<Seq<XmlEvent>>;

/// Reads every event of `text` with `quick_xml`. The result is named by
/// `xml_event_stream`; the XML grammar and its well-formedness checks are
/// not written out here.
#[verifier::external_body]
pub(crate) fn read_xml_events(text: &str) -> (r: Result<Vec<XmlEvent>, quick_xml::Error>)
    ensures
        match r {
            Ok(evs) => xml_event_stream(text@) == Some(evs@),
            Err(_) => xml_event_stream(text@) is None,
        },
{
    let mut reader = quick_xml::Reader::from_str(text);
    reader.config_mut().trim_text(true);
    let (mut buf, mut out) = (Vec::new(), Vec::new());
    loop {
        out.push(match reader.read_event_into(&mut buf)? {
            quick_xml::events::Event::Eof => return Ok(out),
            quick_xml::events::Event::Start(e) => XmlEvent::Start(e.name().as_ref().to_vec()),
            quick_xml::events::Event::End(_) => XmlEvent::End,
            quick_xml::events::Event::Text(t) => XmlEvent::Text(t.unescape()?.into_owned()),
            _ => XmlEvent::Other,
        });
        buf.clear();
    }
}

} // verus!
