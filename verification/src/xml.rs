//! An XML document as the list of events `quick_xml` reads from it, in
//! plain values, and the attribute lookups done on those events.
use crate::urdf::opt_text;
use crate::text::{chars_of, spec_trim, trim};
use quick_xml::events::{BytesStart, Event};
use vstd::prelude::*;

verus! {

/// One attribute of a tag: its key and its unescaped value (or why it could
/// not be unescaped), or the error that stopped the attribute reader there.
#[derive(Debug)]
pub enum XmlAttribute {
    Item { key: Vec<u8>, value: Result<String, String> },
    Broken(String),
}

/// A start or self-closing tag: its name and its attributes in order.
#[derive(Debug)]
pub struct XmlTag {
    pub name: Vec<u8>,
    pub attributes: Vec<XmlAttribute>,
}

/// One event of the reader, with the text trimmed (`trim_text(true)`).
#[derive(Debug)]
pub enum XmlEvent {
    Start(XmlTag),
    Empty(XmlTag),
    End,
    Text(Vec<u8>),
    CData,
    /// A declaration, comment, processing instruction or doctype (the
    /// reader's end of file is not listed as an event).
    Other,
}

pub enum XmlAttributeV {
    Item(Seq<u8>, Result<Seq<char>, Seq<char>>),
    Broken(Seq<char>),
}

pub struct XmlTagV {
    pub name: Seq<u8>,
    pub attributes: Seq<XmlAttributeV>,
}

pub enum XmlEventV {
    Start(XmlTagV),
    Empty(XmlTagV),
    End,
    Text(Seq<u8>),
    CData,
    Other,
}

pub open spec fn result_text(r: Result<String, String>) -> Result<Seq<char>, Seq<char>> {
    match r {
        Ok(s) => Ok(s@),
        Err(e) => Err(e@),
    }
}

impl XmlAttribute {
    pub open spec fn view(&self) -> XmlAttributeV {
        match self {
            XmlAttribute::Item { key, value } => XmlAttributeV::Item(key@, result_text(*value)),
            XmlAttribute::Broken(m) => XmlAttributeV::Broken(m@),
        }
    }
}

impl XmlTag {
    pub open spec fn view(&self) -> XmlTagV {
        XmlTagV { name: self.name@, attributes: self.attributes@.map_values(|a: XmlAttribute| a.view()) }
    }
}

impl XmlEvent {
    pub open spec fn view(&self) -> XmlEventV {
        match self {
            XmlEvent::Start(t) => XmlEventV::Start(t.view()),
            XmlEvent::Empty(t) => XmlEventV::Empty(t.view()),
            XmlEvent::End => XmlEventV::End,
            XmlEvent::Text(b) => XmlEventV::Text(b@),
            XmlEvent::CData => XmlEventV::CData,
            XmlEvent::Other => XmlEventV::Other,
        }
    }
}

pub open spec fn events_view(events: Seq<XmlEvent>) -> Seq<XmlEventV> {
    events.map_values(|e: XmlEvent| e.view())
}

/// The events `quick_xml`'s `Reader` (with `trim_text(true)`) reads from
/// a text before its end or its first error, and that error's message.
pub uninterp spec fn xml_events_of(source: Seq<char>) -> (Seq<XmlEventV>, Option<Seq<char>>);

/// An event of `quick_xml`'s reader.
#[verifier::external_type_specification]
#[verifier::external_body]
pub struct ExXmlEvent<'a>(Event<'a>);

/// A start or self-closing tag as `quick_xml` reads it.
#[verifier::external_type_specification]
#[verifier::external_body]
pub struct ExBytesStart<'a>(BytesStart<'a>);

/// `tag` as plain values: its name, and each item of its attribute reader.
#[verifier::external_body]
fn tag_of(tag: &BytesStart<'_>) -> XmlTag {
    let attributes = tag.attributes().map(|item| match item {
        Ok(a) => XmlAttribute::Item {
            key: a.key.as_ref().to_vec(),
            value: a.unescape_value().map(|v| v.into_owned()).map_err(|e| e.to_string()),
        },
        Err(e) => XmlAttribute::Broken(e.to_string()),
    });
    XmlTag { name: tag.name().as_ref().to_vec(), attributes: attributes.collect() }
}

/// `event` as plain values.
#[verifier::external_body]
fn event_of(event: &Event<'_>) -> XmlEvent {
    match event {
        Event::Start(tag) => XmlEvent::Start(tag_of(tag)),
        Event::Empty(tag) => XmlEvent::Empty(tag_of(tag)),
        Event::End(_) => XmlEvent::End,
        Event::Text(text) => XmlEvent::Text(text.to_vec()),
        Event::CData(_) => XmlEvent::CData,
        Event::Comment(_) => XmlEvent::Other,
        Event::Decl(_) => XmlEvent::Other,
        Event::PI(_) => XmlEvent::Other,
        Event::DocType(_) => XmlEvent::Other,
        Event::Eof => XmlEvent::Other,
    }
}

/// Reads `source` with `quick_xml` (`Reader::from_str`, text trimmed):
/// the events before the end of the text or the first error, and that
/// error's message; both depend on the text alone.
#[verifier::external_body]
pub(crate) fn xml_events(source: &str) -> (r: (Vec<XmlEvent>, Option<String>))
    ensures
        (events_view(r.0@), opt_text(r.1)) == xml_events_of(source@),
{
    let mut reader = quick_xml::Reader::from_str(source);
    reader.trim_text(true);
    let mut events = Vec::new();
    loop {
        match reader.read_event() {
            Ok(Event::Eof) => return (events, None),
            Ok(event) => events.push(event_of(&event)),
            Err(error) => return (events, Some(error.to_string())),
        }
    }
}

/// The attribute `key` of a tag read from position `i` on, where `found`
/// is the value seen before: the last item keyed `key` gives the value;
/// the first broken item, or an item keyed `key` whose value cannot be
/// unescaped, is the error.
pub open spec fn lookup_from(attrs: Seq<XmlAttributeV>, key: Seq<u8>, i: int, found: Option<Seq<char>>) -> Result<
    Option<Seq<char>>,
    Seq<char>,
>
    decreases attrs.len() - i,
{
    if i < 0 || i >= attrs.len() {
        Ok(found)
    } else {
        match attrs[i] {
            XmlAttributeV::Broken(m) => Err(m),
            XmlAttributeV::Item(k, v) => if k == key {
                match v {
                    Err(m) => Err(m),
                    Ok(t) => lookup_from(attrs, key, i + 1, Some(t)),
                }
            } else {
                lookup_from(attrs, key, i + 1, found)
            },
        }
    }
}

/// The value of attribute `key` of a tag, `None` where it has none, or the
/// error met reading its attributes.
pub open spec fn spec_attribute(tag: XmlTagV, key: Seq<u8>) -> Result<Option<Seq<char>>, Seq<char>> {
    lookup_from(tag.attributes, key, 0, None)
}

/// The value of attribute `key` of `tag`; see [`spec_attribute`].
pub fn attribute(tag: &XmlTag, key: &[u8]) -> (r: Result<Option<String>, String>)
    ensures
        match r {
            Ok(v) => spec_attribute(tag.view(), key@) == Ok::<Option<Seq<char>>, Seq<char>>(opt_text(v)),
            Err(m) => spec_attribute(tag.view(), key@) == Err::<Option<Seq<char>>, Seq<char>>(m@),
        },
{
    let ghost attrs = tag.view().attributes;
    let mut found: Option<String> = None;
    let mut i: usize = 0;
    while i < tag.attributes.len()
        invariant
            i <= tag.attributes@.len(),
            attrs == tag.view().attributes,
            attrs.len() == tag.attributes@.len(),
            forall|j: int| 0 <= j < attrs.len() ==> #[trigger] attrs[j] == tag.attributes@[j].view(),
            spec_attribute(tag.view(), key@) == lookup_from(attrs, key@, i as int, opt_text(found)),
        decreases tag.attributes@.len() - i,
    {
        match &tag.attributes[i] {
            XmlAttribute::Broken(m) => {
                return Err(crate::json::copy_string(m));
            },
            XmlAttribute::Item { key: k, value } => {
                if crate::urdf::is_bytes(k.as_slice(), key) {
                    match value {
                        Err(m) => {
                            return Err(crate::json::copy_string(m));
                        },
                        Ok(t) => {
                            found = Some(crate::json::copy_string(t));
                        },
                    }
                }
            },
        }
        i = i + 1;
    }
    Ok(found)
}

/// The value of attribute `key` of a tag where it has one that is not
/// blank; `label` names it in the error otherwise.
pub open spec fn spec_required(tag: XmlTagV, key: Seq<u8>, label: Seq<char>) -> Result<Seq<char>, Seq<char>> {
    match spec_attribute(tag, key) {
        Err(m) => Err(m),
        Ok(Some(t)) => if spec_trim(t).len() > 0 {
            Ok(t)
        } else {
            Err(label + " is missing or empty"@)
        },
        Ok(None) => Err(label + " is missing or empty"@),
    }
}

/// The value of attribute `key` of `tag` where it is not blank; see
/// [`spec_required`].
pub fn required_attribute(tag: &XmlTag, key: &[u8], label: &str) -> (r: Result<String, String>)
    ensures
        match r {
            Ok(v) => spec_required(tag.view(), key@, label@) == Ok::<Seq<char>, Seq<char>>(v@),
            Err(m) => spec_required(tag.view(), key@, label@) == Err::<Seq<char>, Seq<char>>(m@),
        },
{
    match attribute(tag, key)? {
        Some(t) => {
            let chars = chars_of(t.as_str());
            let trimmed = trim(chars.as_slice());
            if trimmed.len() > 0 {
                return Ok(t);
            }
            let mut m = label.to_owned();
            crate::text::append_str(&mut m, " is missing or empty");
            Err(m)
        },
        None => {
            let mut m = label.to_owned();
            crate::text::append_str(&mut m, " is missing or empty");
            Err(m)
        },
    }
}

} // verus!
