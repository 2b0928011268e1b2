//! The streaming event model of a parsed XML document.
//!
//! A document is a flat sequence of events: opening tags, closing tags,
//! self-closing tags, and significant text runs.  Every transformation of
//! the library (node extraction, canonicalization, signature injection and
//! removal) is a verified function over this sequence; only the tokenizer
//! that produces it from raw text calls into the XML parser.

use vstd::prelude::*;
use crate::error::XmlSignError;
use crate::text::{is_blank, significant};

verus! {

/// One event of an XML document stream, with all content held as plain
/// strings.
///
/// For opening and self-closing tags, `raw` is the full undecoded tag body
/// as it stood between `<` and `>` in the source (tag name plus attribute
/// text, original spacing and escaping kept), `name` is the tag name alone,
/// and `attrs` are the decoded attribute pairs in document order.
pub enum XmlEvent {
    /// An opening tag `<name ...>`.
    Open { raw: String, name: String, attrs: Vec<(String, String)> },
    /// A self-closing tag `<name .../>`.
    SelfClosed { raw: String, name: String, attrs: Vec<(String, String)> },
    /// A closing tag `</name>`.
    Close { name: String },
    /// A run of character data, decoded but with entity references kept
    /// as they stood in the source.
    Text { text: String },
}

/// The mathematical form of one event: every string a sequence of
/// characters.
#[verifier::ext_equal]
pub enum EventV {
    Open { raw: Seq<char>, name: Seq<char>, attrs: Seq<(Seq<char>, Seq<char>)> },
    SelfClosed { raw: Seq<char>, name: Seq<char>, attrs: Seq<(Seq<char>, Seq<char>)> },
    Close { name: Seq<char> },
    Text { text: Seq<char> },
}

/// The view of an attribute list: each pair of strings as a pair of
/// character sequences.
pub open spec fn attrs_view(attrs: Seq<(String, String)>) -> Seq<(Seq<char>, Seq<char>)> {
    attrs.map_values(|p: (String, String)| (p.0@, p.1@))
}

impl View for XmlEvent {
    type V = EventV;

    open spec fn view(&self) -> EventV {
        match self {
            XmlEvent::Open { raw, name, attrs } => EventV::Open {
                raw: raw@,
                name: name@,
                attrs: attrs_view(attrs@),
            },
            XmlEvent::SelfClosed { raw, name, attrs } => EventV::SelfClosed {
                raw: raw@,
                name: name@,
                attrs: attrs_view(attrs@),
            },
            XmlEvent::Close { name } => EventV::Close { name: name@ },
            XmlEvent::Text { text } => EventV::Text { text: text@ },
        }
    }
}

/// The view of an event list: each event as its mathematical form.
pub open spec fn evs_view(s: Seq<XmlEvent>) -> Seq<EventV> {
    s.map_values(|e: XmlEvent| e@)
}

/// Whether an event, if it is a text run, holds significant content.
pub open spec fn significant_if_text(e: EventV) -> bool {
    match e {
        EventV::Text { text } => significant(text),
        _ => true,
    }
}

/// Every text event of the stream holds significant content.
pub open spec fn text_significant(evs: Seq<EventV>) -> bool {
    forall|i: int| 0 <= i < evs.len() ==> significant_if_text(#[trigger] evs[i])
}

/// The stream with its whitespace-only text runs dropped; every other
/// event is kept, in order.
pub open spec fn keep_significant(evs: Seq<EventV>) -> Seq<EventV>
    decreases evs.len(),
{
    if evs.len() == 0 {
        Seq::empty()
    } else {
        let rest = keep_significant(evs.drop_last());
        if significant_if_text(evs.last()) {
            rest.push(evs.last())
        } else {
            rest
        }
    }
}

/// The event stream that the XML parser yields on a text: tokenizing is a
/// function of the text alone, and yields nothing exactly when the text
/// is malformed.
pub uninterp spec fn tokens_of(s: Seq<char>) -> Option<Seq<EventV>>;

/// The event stream of a document's text as this library works on it:
/// the parser's tokenization with whitespace-only text runs dropped, or
/// nothing when the text is malformed.
pub open spec fn doc_events(s: Seq<char>) -> Option<Seq<EventV>> {
    match tokens_of(s) {
        Some(t) => Some(keep_significant(t)),
        None => None,
    }
}

/// Copies an attribute list.
pub fn clone_attrs(attrs: &Vec<(String, String)>) -> (r: Vec<(String, String)>)
    ensures
        attrs_view(r@) == attrs_view(attrs@),
{
    let n = attrs.len();
    let mut out: Vec<(String, String)> = Vec::new();
    let mut i: usize = 0;
    while i < n
        invariant
            n == attrs@.len(),
            0 <= i <= n,
            out@.len() == i,
            forall|j: int|
                0 <= j < i ==> (#[trigger] out@[j]).0@ == attrs@[j].0@ && out@[j].1@
                    == attrs@[j].1@,
        decreases n - i,
    {
        let pair = &attrs[i];
        out.push((pair.0.clone(), pair.1.clone()));
        i += 1;
    }
    proof {
        assert(attrs_view(out@) =~= attrs_view(attrs@));
    }
    out
}

/// Copies one event.
pub fn clone_event(e: &XmlEvent) -> (r: XmlEvent)
    ensures
        r@ == e@,
{
    match e {
        XmlEvent::Open { raw, name, attrs } => XmlEvent::Open {
            raw: raw.clone(),
            name: name.clone(),
            attrs: clone_attrs(attrs),
        },
        XmlEvent::SelfClosed { raw, name, attrs } => XmlEvent::SelfClosed {
            raw: raw.clone(),
            name: name.clone(),
            attrs: clone_attrs(attrs),
        },
        XmlEvent::Close { name } => XmlEvent::Close { name: name.clone() },
        XmlEvent::Text { text } => XmlEvent::Text { text: text.clone() },
    }
}

// ---------------------------------------------------------------------------
// The tokenizer: the only place where the XML parser is called
// ---------------------------------------------------------------------------
#[verifier::external_type_specification]
#[verifier::external_body]
#[verifier::reject_recursive_types(R)]
pub struct ExReader<R>(quick_xml::Reader<R>);

#[verifier::external_type_specification]
#[verifier::external_body]
pub struct ExBytesStart<'a>(quick_xml::events::BytesStart<'a>);

#[verifier::external_type_specification]
#[verifier::external_body]
pub struct ExQuickXmlError(quick_xml::Error);

/// One step of the tokenizer: a document event, a construct that the
/// event model does not carry (comment, declaration, processing
/// instruction, CDATA, doctype), or the end of the input.
pub enum Token {
    Event(XmlEvent),
    Skipped,
    End,
}

/// Relies on quick_xml's `Reader::from_str` and `read_event`: the reader,
/// configured to trim whitespace at the edges of text events, tokenizes a
/// text into its event stream deterministically — the outcome is a
/// function of the text alone, named `tokens_of` — and reports an error
/// exactly on malformed input.
#[verifier::external_body]
fn tokenize(content: &str) -> (r: Result<Vec<XmlEvent>, XmlSignError>)
    ensures
        r matches Ok(evs) ==> tokens_of(content@) == Some(evs_view(evs@)),
        r is Err <==> tokens_of(content@) is None,
        r matches Err(e) ==> e == XmlSignError::XmlError,
{
    let mut reader = quick_xml::Reader::from_str(content);
    let config = reader.config_mut();
    config.trim_text_start = true;
    config.trim_text_end = true;
    let mut events: Vec<XmlEvent> = Vec::new();
    loop {
        match next_token(&mut reader) {
            Err(_) => return Err(XmlSignError::XmlError),
            Ok(Token::End) => return Ok(events),
            Ok(Token::Skipped) => {},
            Ok(Token::Event(ev)) => events.push(ev),
        }
    }
}

/// Relies on quick_xml's `Reader::read_event`: the next event of the
/// document, or a parse error on malformed input.  Tag and text content
/// are taken over as the parser hands them out.
#[verifier::external_body]
fn next_token<'a>(r: &mut quick_xml::Reader<&'a [u8]>) -> (t: Result<Token, quick_xml::Error>) {
    match r.read_event() {
        Ok(quick_xml::events::Event::Start(e)) => tag_token(&e, false),
        Ok(quick_xml::events::Event::Empty(e)) => tag_token(&e, true),
        Ok(quick_xml::events::Event::End(e)) => Ok(Token::Event(XmlEvent::Close { name: String::from_utf8_lossy(e.name().as_ref()).into_owned() })),
        Ok(quick_xml::events::Event::Text(e)) => Ok(Token::Event(XmlEvent::Text { text: String::from_utf8_lossy(&e).into_owned() })),
        Ok(quick_xml::events::Event::Eof) => Ok(Token::End),
        Ok(_) => Ok(Token::Skipped),
        Err(e) => Err(e),
    }
}

/// Relies on quick_xml's `BytesStart` accessors (`name`, `attributes`,
/// `Attribute::unescape_value`): the raw tag body, the tag name, and the
/// decoded attribute pairs in document order.
#[verifier::external_body]
fn tag_token<'a>(e: &quick_xml::events::BytesStart<'a>, self_closing: bool) -> (t: Result<
    Token,
    quick_xml::Error,
>) {
    let raw = String::from_utf8_lossy(e).into_owned();
    let name = String::from_utf8_lossy(e.name().as_ref()).into_owned();
    let mut attrs: Vec<(String, String)> = Vec::new();
    for attr in e.attributes() {
        let attr = attr?;
        let key = String::from_utf8_lossy(attr.key.as_ref()).into_owned();
        attrs.push((key, attr.unescape_value()?.into_owned()));
    }
    let ev = if self_closing { XmlEvent::SelfClosed { raw, name, attrs } } else { XmlEvent::Open { raw, name, attrs } };
    Ok(Token::Event(ev))
}

/// Parses a document's text into the event stream this library works on:
/// the tokenization with whitespace-only text runs dropped.  Fails, with
/// `XmlError`, exactly when the XML parser rejects the text.
pub fn parse_events(content: &str) -> (r: Result<Vec<XmlEvent>, XmlSignError>)
    ensures
        r is Err <==> doc_events(content@) is None,
        r matches Err(e) ==> e == XmlSignError::XmlError,
        r matches Ok(evs) ==> doc_events(content@) == Some(evs_view(evs@)),
        r matches Ok(evs) ==> text_significant(evs_view(evs@)),
{
    let all = match tokenize(content) {
        Err(e) => {
            return Err(e);
        },
        Ok(all) => all,
    };
    let n = all.len();
    let mut events: Vec<XmlEvent> = Vec::new();
    let mut i: usize = 0;
    while i < n
        invariant
            n == all@.len(),
            0 <= i <= n,
            evs_view(events@) == keep_significant(evs_view(all@).take(i as int)),
            text_significant(evs_view(events@)),
        decreases n - i,
    {
        proof {
            assert(evs_view(all@).take(i as int + 1).drop_last() =~= evs_view(all@).take(i as int));
            assert(evs_view(all@).take(i as int + 1).last() == all@[i as int]@);
        }
        let ev = &all[i];
        let keep: bool = match ev {
            XmlEvent::Text { text } => !is_blank(text.as_str()),
            _ => true,
        };
        if keep {
            let ghost prev = evs_view(events@);
            events.push(clone_event(ev));
            proof {
                assert(evs_view(events@) =~= prev.push(all@[i as int]@));
                assert(significant_if_text(all@[i as int]@));
                assert forall|k: int|
                    0 <= k < evs_view(events@).len() implies significant_if_text(
                    evs_view(events@)[k],
                ) by {
                    if k < prev.len() {
                        assert(evs_view(events@)[k] == prev[k]);
                    } else {
                        assert(evs_view(events@)[k] == all@[i as int]@);
                    }
                }
            }
        } else {
            proof {
                assert(!significant_if_text(all@[i as int]@));
            }
        }
        i += 1;
    }
    proof {
        assert(evs_view(all@).take(n as int) =~= evs_view(all@));
    }
    Ok(events)
}

} // verus!
