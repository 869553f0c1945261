//! The XML tokenizer that the KML reader runs on: quick-xml's `Reader`,
//! seen through the events it hands out.
use vstd::prelude::*;
use quick_xml::events::BytesStart;
use quick_xml::events::Event::{Empty, End, Eof, Start, Text};
use self::XmlEvent::{Characters, Close, EndOfFile, Open, Other, SelfClosing};
use quick_xml::Reader;

verus! {

/// An opening or self-closing tag: its name and its attributes.
///
/// Names and attribute keys and values are the bytes of the document,
/// decoded as UTF-8 with invalid sequences replaced. Attribute values are
/// kept as written (not unescaped); an attribute that quick-xml could not
/// parse is `None`.
#[derive(Debug, Clone)]
pub struct Tag {
    /// The element name, with its namespace prefix
    pub name: String,
    /// The attributes, in order
    pub attributes: Vec<Option<(String, String)>>,
}

/// One event of an XML token stream.
#[derive(Debug, Clone)]
pub enum XmlEvent {
    /// An opening tag `<name ...>`
    Open(Tag),
    /// A closing tag `</name>`, with the element name
    Close(String),
    /// A self-closing tag `<name ... />`
    SelfClosing(Tag),
    /// Character data between tags: its unescaped text, or `None` where
    /// unescaping failed
    Characters(Option<String>),
    /// Any other event: comment, CDATA section, declaration, processing instruction or DOCTYPE
    Other,
    /// The end of the document
    EndOfFile,
}

/// A quick-xml reader over a string, held as an opaque value: its
/// parameter is bound by `std::io::BufRead`, so the reader type is not
/// declared on its own. What it still has to hand out is named by
/// `pending_events`.
#[verifier::external_body]
pub struct XmlTokenizer<'a> {
    reader: Reader<&'a [u8]>,
}

#[verifier::external_type_specification]
#[verifier::external_body]
pub struct ExXmlError(quick_xml::Error);

/// The results that a quick-xml reader over `content`, with text trimming
/// switched on, hands out from its first `read_event` call up to and
/// including the first `Eof` or error (`None` stands for an error).
pub uninterp spec fn xml_events(content: Seq<char>) -> Seq<Option<XmlEvent>>;

/// The results that the reader still has to hand out before it reaches its
/// end state (the first `Eof` or error); `None` stands for an error.
pub uninterp spec fn pending_events(tokenizer: XmlTokenizer) -> Seq<Option<XmlEvent>>;

/// Opens a quick-xml reader on `content` (`Reader::from_str`) and switches
/// text trimming on (`Reader::trim_text(true)`), as the KML reader needs
/// it. Claimed: the events still to come are those of `xml_events(content)`.
#[verifier::external_body]
pub(crate) fn open_tokenizer<'a>(content: &'a str) -> (r: XmlTokenizer<'a>)
    ensures
        pending_events(r) == xml_events(content@),
{
    let mut reader = Reader::from_str(content);
    reader.trim_text(true);
    XmlTokenizer { reader }
}

/// Reads the next event (`Reader::read_event`) and converts it.
///
/// Claimed: while events are pending, the first one is returned (an error
/// where it is `None`) and removed; once none is pending, quick-xml is in its
/// end state and returns `Eof` again and again. What an error holds is not
/// stated.
#[verifier::external_body]
pub(crate) fn read_event(tokenizer: &mut XmlTokenizer) -> (r: Result<XmlEvent, quick_xml::Error>)
    ensures
        pending_events(*old(tokenizer)).len() > 0 ==> {
            &&& pending_events(*final(tokenizer)) == pending_events(*old(tokenizer)).drop_first()
            &&& match r {
                Ok(e) => pending_events(*old(tokenizer))[0] == Some(e),
                Err(_) => pending_events(*old(tokenizer))[0] is None,
            }
        },
        pending_events(*old(tokenizer)).len() == 0 ==> {
            &&& pending_events(*final(tokenizer)).len() == 0
            &&& r matches Ok(XmlEvent::EndOfFile)
        },
{
    let text = |b: &[u8]| String::from_utf8_lossy(b).into_owned();
    let tag = |e: &BytesStart| Tag {
        name: text(e.name()),
        attributes: e.attributes().map(|a| a.ok().map(|a| (text(a.key), text(&a.value)))).collect(),
    };
    Ok(match tokenizer.reader.read_event(&mut vec![])? {
        Start(e) => Open(tag(&e)),
        End(e) => Close(text(e.name())),
        Empty(e) => SelfClosing(tag(&e)),
        Text(e) => Characters(e.unescaped().ok().map(|t| text(&t))),
        Eof => EndOfFile,
        _ => Other,
    })
}

} // verus!
