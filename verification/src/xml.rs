//! Documents, node extraction, canonicalization, signing and verification.

use vstd::prelude::*;
use vstd::string::StrSliceExecFns;
use vstd::string::StringExecFns;
use crate::crypto::{
    b64_decode, b64_decoded, b64_encode, b64_of, rsa_sign, rsa_verifies, rsa_verify, sha512_of,
    sha512_str, sig_blob_of,
};
use crate::error::XmlSignError;
use crate::events::{
    attrs_view, clone_attrs, clone_event, doc_events, evs_view, parse_events, text_significant,
    EventV, XmlEvent,
};
use crate::text::{escape_text, escaped};

verus! {

/// The view of a node list: each node as its mathematical form.
pub open spec fn nodes_view(s: Seq<XmlNode>) -> Seq<NodeV> {
    s.map_values(|n: XmlNode| n@)
}

/// An XML document held as its raw source text.
#[derive(Debug, Clone)]
pub struct XmlDocument {
    pub content: String,
}

/// One element occurrence of a document: its tag name, its attributes in
/// document order, and the text run attached to it, if any.
#[derive(Debug, Clone)]
pub struct XmlNode {
    pub name: String,
    pub attributes: Vec<(String, String)>,
    pub text_content: Option<String>,
}

/// The mathematical form of a node.
#[verifier::ext_equal]
pub struct NodeV {
    pub name: Seq<char>,
    pub attributes: Seq<(Seq<char>, Seq<char>)>,
    pub text_content: Option<Seq<char>>,
}

impl View for XmlNode {
    type V = NodeV;

    open spec fn view(&self) -> NodeV {
        NodeV {
            name: self.name@,
            attributes: attrs_view(self.attributes@),
            text_content: match self.text_content {
                Some(t) => Some(t@),
                None => None,
            },
        }
    }
}

/// The value of the first attribute with the given key, if any.
pub open spec fn first_attr(attrs: Seq<(Seq<char>, Seq<char>)>, key: Seq<char>) -> Option<
    Seq<char>,
>
    decreases attrs.len(),
{
    if attrs.len() == 0 {
        None
    } else if attrs[0].0 == key {
        Some(attrs[0].1)
    } else {
        first_attr(attrs.drop_first(), key)
    }
}

impl XmlNode {
    /// The value of the first attribute named `key`, if the node has one.
    pub fn get_attribute(&self, key: &str) -> (r: Option<&String>)
        ensures
            match r {
                Some(v) => first_attr(self@.attributes, key@) == Some(v@),
                None => first_attr(self@.attributes, key@) is None,
            },
    {
        let n = self.attributes.len();
        let mut i: usize = 0;
        proof {
            assert(self@.attributes.skip(0) =~= self@.attributes);
        }
        while i < n
            invariant
                n == self.attributes@.len(),
                0 <= i <= n,
                first_attr(self@.attributes, key@) == first_attr(
                    self@.attributes.skip(i as int),
                    key@,
                ),
            decreases n - i,
        {
            proof {
                assert(self@.attributes.skip(i as int)[0] == self@.attributes[i as int]);
                assert(self@.attributes.skip(i as int).drop_first() =~= self@.attributes.skip(
                    i as int + 1,
                ));
            }
            let pair = &self.attributes[i];
            if str_eq(pair.0.as_str(), key) {
                return Some(&pair.1);
            }
            i += 1;
        }
        proof {
            assert(self@.attributes.skip(n as int) =~= Seq::<(Seq<char>, Seq<char>)>::empty());
        }
        None
    }
}

/// Whether two strings hold the same characters.
pub fn str_eq(a: &str, b: &str) -> (r: bool)
    ensures
        r == (a@ == b@),
{
    let an = a.unicode_len();
    let bn = b.unicode_len();
    if an != bn {
        proof {
            assert(a@ != b@);
        }
        return false;
    }
    let mut i: usize = 0;
    while i < an
        invariant
            an == a@.len(),
            an == b@.len(),
            0 <= i <= an,
            forall|j: int| 0 <= j < i ==> a@[j] == b@[j],
        decreases an - i,
    {
        if a.get_char(i) != b.get_char(i) {
            proof {
                assert(a@[i as int] != b@[i as int]);
            }
            return false;
        }
        i += 1;
    }
    proof {
        assert(a@ =~= b@);
    }
    true
}

// ---------------------------------------------------------------------------
// Node extraction
// ---------------------------------------------------------------------------
/// A fresh node for an opening or self-closing tag: no text attached yet.
pub open spec fn tag_node(name: Seq<char>, attrs: Seq<(Seq<char>, Seq<char>)>) -> NodeV {
    NodeV { name, attributes: attrs, text_content: None }
}

/// How one event extends the node list: a tag appends a fresh node, a text
/// run attaches itself to the most recently appended node (replacing any
/// earlier attachment), a closing tag changes nothing.
pub open spec fn nodes_step(ns: Seq<NodeV>, e: EventV) -> Seq<NodeV> {
    match e {
        EventV::Open { name, attrs, .. } => ns.push(tag_node(name, attrs)),
        EventV::SelfClosed { name, attrs, .. } => ns.push(tag_node(name, attrs)),
        EventV::Text { text } => {
            if ns.len() > 0 {
                ns.update(
                    ns.len() - 1,
                    NodeV {
                        name: ns.last().name,
                        attributes: ns.last().attributes,
                        text_content: Some(text),
                    },
                )
            } else {
                ns
            }
        },
        EventV::Close { .. } => ns,
    }
}

/// The flat node list of an event stream.
///
/// This is deliberately not a tree: text associates with the most recently
/// opened-or-self-closed element regardless of nesting depth.
pub open spec fn nodes_of(evs: Seq<EventV>) -> Seq<NodeV>
    decreases evs.len(),
{
    if evs.len() == 0 {
        Seq::empty()
    } else {
        nodes_step(nodes_of(evs.drop_last()), evs.last())
    }
}

/// Builds the flat node list of an event stream.
pub fn build_nodes(events: &Vec<XmlEvent>) -> (r: Vec<XmlNode>)
    ensures
        nodes_view(r@) == nodes_of(evs_view(events@)),
{
    let n = events.len();
    let mut nodes: Vec<XmlNode> = Vec::new();
    let mut i: usize = 0;
    while i < n
        invariant
            n == events@.len(),
            0 <= i <= n,
            nodes_view(nodes@) == nodes_of(evs_view(events@).take(i as int)),
        decreases n - i,
    {
        proof {
            assert(evs_view(events@).take(i as int + 1).drop_last() =~= evs_view(events@).take(
                i as int,
            ));
            assert(evs_view(events@).take(i as int + 1).last() == events@[i as int]@);
        }
        let ghost prev = nodes_view(nodes@);
        let ev = &events[i];
        match ev {
            XmlEvent::Open { raw: _, name, attrs } => {
                nodes.push(
                    XmlNode {
                        name: name.clone(),
                        attributes: clone_attrs(attrs),
                        text_content: None,
                    },
                );
                proof {
                    assert(nodes_view(nodes@) =~= prev.push(tag_node(name@, attrs_view(attrs@))));
                }
            },
            XmlEvent::SelfClosed { raw: _, name, attrs } => {
                nodes.push(
                    XmlNode {
                        name: name.clone(),
                        attributes: clone_attrs(attrs),
                        text_content: None,
                    },
                );
                proof {
                    assert(nodes_view(nodes@) =~= prev.push(tag_node(name@, attrs_view(attrs@))));
                }
            },
            XmlEvent::Text { text } => {
                let m = nodes.len();
                if m > 0 {
                    let mut last = nodes.pop().unwrap();
                    last.text_content = Some(text.clone());
                    nodes.push(last);
                    proof {
                        assert(nodes_view(nodes@) =~= prev.update(
                            prev.len() - 1,
                            NodeV {
                                name: prev.last().name,
                                attributes: prev.last().attributes,
                                text_content: Some(text@),
                            },
                        ));
                    }
                }
            },
            XmlEvent::Close { name: _ } => {},
        }
        proof {
            assert(nodes_view(nodes@) == nodes_of(evs_view(events@).take(i as int + 1)));
        }
        i += 1;
    }
    proof {
        assert(evs_view(events@).take(n as int) =~= evs_view(events@));
    }
    nodes
}

// ---------------------------------------------------------------------------
// Queries over node lists
// ---------------------------------------------------------------------------
/// The first node with the given tag name, if any.
pub open spec fn first_named(ns: Seq<NodeV>, name: Seq<char>) -> Option<NodeV>
    decreases ns.len(),
{
    if ns.len() == 0 {
        None
    } else if ns[0].name == name {
        Some(ns[0])
    } else {
        first_named(ns.drop_first(), name)
    }
}

/// All nodes with the given tag name, in document order.
pub open spec fn all_named(ns: Seq<NodeV>, name: Seq<char>) -> Seq<NodeV>
    decreases ns.len(),
{
    if ns.len() == 0 {
        Seq::empty()
    } else if ns.last().name == name {
        all_named(ns.drop_last(), name).push(ns.last())
    } else {
        all_named(ns.drop_last(), name)
    }
}

// ---------------------------------------------------------------------------
// Serialization: canonical form and signed form
// ---------------------------------------------------------------------------
/// The canonical text of one event.  Tags are re-emitted with their raw
/// bodies unchanged; text runs are re-escaped.
pub open spec fn canon1(e: EventV) -> Seq<char> {
    match e {
        EventV::Open { raw, .. } => "<"@ + raw + ">"@,
        EventV::SelfClosed { raw, .. } => "<"@ + raw + "/>"@,
        EventV::Close { name } => "</"@ + name + ">"@,
        EventV::Text { text } => escaped(text),
    }
}

/// The canonical text of an event stream: the deterministic form whose
/// digest is signed and verified.
pub open spec fn canon_of(evs: Seq<EventV>) -> Seq<char>
    decreases evs.len(),
{
    if evs.len() == 0 {
        Seq::empty()
    } else {
        canon_of(evs.drop_last()) + canon1(evs.last())
    }
}

/// The re-serialized text of one event, as written into a signed document:
/// text runs keep the exact form they had in the source.
pub open spec fn emit1(e: EventV) -> Seq<char> {
    match e {
        EventV::Open { raw, .. } => "<"@ + raw + ">"@,
        EventV::SelfClosed { raw, .. } => "<"@ + raw + "/>"@,
        EventV::Close { name } => "</"@ + name + ">"@,
        EventV::Text { text } => text,
    }
}

/// The re-serialized text of an event stream.
pub open spec fn emit_of(evs: Seq<EventV>) -> Seq<char>
    decreases evs.len(),
{
    if evs.len() == 0 {
        Seq::empty()
    } else {
        emit_of(evs.drop_last()) + emit1(evs.last())
    }
}

/// Renders the canonical text of an event stream.
pub fn render_canonical(events: &Vec<XmlEvent>) -> (r: String)
    ensures
        r@ == canon_of(evs_view(events@)),
{
    let n = events.len();
    let mut out = String::new();
    let mut i: usize = 0;
    while i < n
        invariant
            n == events@.len(),
            0 <= i <= n,
            out@ == canon_of(evs_view(events@).take(i as int)),
        decreases n - i,
    {
        proof {
            assert(evs_view(events@).take(i as int + 1).drop_last() =~= evs_view(events@).take(
                i as int,
            ));
            assert(evs_view(events@).take(i as int + 1).last() == events@[i as int]@);
        }
        let ev = &events[i];
        match ev {
            XmlEvent::Open { raw, name: _, attrs: _ } => {
                out.append("<");
                out.append(raw.as_str());
                out.append(">");
            },
            XmlEvent::SelfClosed { raw, name: _, attrs: _ } => {
                out.append("<");
                out.append(raw.as_str());
                out.append("/>");
            },
            XmlEvent::Close { name } => {
                out.append("</");
                out.append(name.as_str());
                out.append(">");
            },
            XmlEvent::Text { text } => {
                let es = escape_text(text.as_str());
                out.append(es.as_str());
            },
        }
        proof {
            assert(out@ =~= canon_of(evs_view(events@).take(i as int + 1)));
        }
        i += 1;
    }
    proof {
        assert(evs_view(events@).take(n as int) =~= evs_view(events@));
    }
    out
}

/// Renders the re-serialized text of an event stream, text runs kept as
/// they stood in the source.
pub fn render_events(events: &Vec<XmlEvent>) -> (r: String)
    ensures
        r@ == emit_of(evs_view(events@)),
{
    let n = events.len();
    let mut out = String::new();
    let mut i: usize = 0;
    while i < n
        invariant
            n == events@.len(),
            0 <= i <= n,
            out@ == emit_of(evs_view(events@).take(i as int)),
        decreases n - i,
    {
        proof {
            assert(evs_view(events@).take(i as int + 1).drop_last() =~= evs_view(events@).take(
                i as int,
            ));
            assert(evs_view(events@).take(i as int + 1).last() == events@[i as int]@);
        }
        let ev = &events[i];
        match ev {
            XmlEvent::Open { raw, name: _, attrs: _ } => {
                out.append("<");
                out.append(raw.as_str());
                out.append(">");
            },
            XmlEvent::SelfClosed { raw, name: _, attrs: _ } => {
                out.append("<");
                out.append(raw.as_str());
                out.append("/>");
            },
            XmlEvent::Close { name } => {
                out.append("</");
                out.append(name.as_str());
                out.append(">");
            },
            XmlEvent::Text { text } => {
                out.append(text.as_str());
            },
        }
        proof {
            assert(out@ =~= emit_of(evs_view(events@).take(i as int + 1)));
        }
        i += 1;
    }
    proof {
        assert(evs_view(events@).take(n as int) =~= evs_view(events@));
    }
    out
}

// ---------------------------------------------------------------------------
// Signature injection
// ---------------------------------------------------------------------------
/// The depth change of one event: opening tags descend, closing tags
/// ascend (never below the document level), self-closing tags and text
/// stay level.
pub open spec fn step_depth(d: nat, e: EventV) -> nat {
    match e {
        EventV::Open { .. } => d + 1,
        EventV::Close { .. } => if d > 0 {
            (d - 1) as nat
        } else {
            0
        },
        _ => d,
    }
}

/// The position of the closing tag of the outermost element: the first
/// `Close` event met at depth one.  `d` is the depth at the start of
/// `evs`.
pub open spec fn root_close_from(evs: Seq<EventV>, d: nat) -> Option<int>
    decreases evs.len(),
{
    if evs.len() == 0 {
        None
    } else if evs[0] is Close && d == 1 {
        Some(0)
    } else {
        match root_close_from(evs.drop_first(), step_depth(d, evs[0])) {
            Some(j) => Some(j + 1),
            None => None,
        }
    }
}

/// The position of the root element's closing tag, if the stream has one.
pub open spec fn root_close_of(evs: Seq<EventV>) -> Option<int> {
    root_close_from(evs, 0)
}

/// The signature subtree injected into a signed document: a `Signature`
/// element holding one `SignatureValue` element whose text is the base64
/// signature.
pub open spec fn sig_events(b64: Seq<char>) -> Seq<EventV> {
    seq![
        EventV::Open { raw: "Signature"@, name: "Signature"@, attrs: Seq::empty() },
        EventV::Open { raw: "SignatureValue"@, name: "SignatureValue"@, attrs: Seq::empty() },
        EventV::Text { text: b64 },
        EventV::Close { name: "SignatureValue"@ },
        EventV::Close { name: "Signature"@ },
    ]
}

/// The event stream with the signature subtree inserted as the last child
/// of the root element, directly before the root's closing tag.
pub open spec fn inject_events(evs: Seq<EventV>, b64: Seq<char>) -> Seq<EventV>
    recommends
        root_close_of(evs) is Some,
{
    match root_close_of(evs) {
        Some(i) => evs.take(i) + sig_events(b64) + evs.skip(i),
        None => evs,
    }
}

/// Finds the closing tag of the root element.
fn find_root_close(events: &Vec<XmlEvent>) -> (r: Option<usize>)
    ensures
        match r {
            Some(i) => root_close_of(evs_view(events@)) == Some(i as int) && i < events@.len(),
            None => root_close_of(evs_view(events@)) is None,
        },
{
    let n = events.len();
    let mut i: usize = 0;
    let mut d: usize = 0;
    proof {
        assert(evs_view(events@).skip(0) =~= evs_view(events@));
    }
    while i < n
        invariant
            n == events@.len(),
            0 <= i <= n,
            d <= i,
            match root_close_from(evs_view(events@).skip(i as int), d as nat) {
                Some(j) => root_close_of(evs_view(events@)) == Some(i + j),
                None => root_close_of(evs_view(events@)) is None,
            },
        decreases n - i,
    {
        proof {
            assert(evs_view(events@).skip(i as int)[0] == events@[i as int]@);
            assert(evs_view(events@).skip(i as int).drop_first() =~= evs_view(events@).skip(
                i as int + 1,
            ));
        }
        let ev = &events[i];
        match ev {
            XmlEvent::Close { name: _ } => {
                if d == 1 {
                    return Some(i);
                }
                if d > 0 {
                    d -= 1;
                }
            },
            XmlEvent::Open { raw: _, name: _, attrs: _ } => {
                d += 1;
            },
            _ => {},
        }
        i += 1;
    }
    proof {
        assert(evs_view(events@).skip(n as int) =~= Seq::<EventV>::empty());
    }
    None
}

/// Inserts the signature subtree carrying the given base64 text as the
/// last child of the root element.  Fails when the stream holds no root
/// element to inject into.
pub fn inject_signature_events(events: &Vec<XmlEvent>, signature_b64: &str) -> (r: Result<
    Vec<XmlEvent>,
    XmlSignError,
>)
    ensures
        r is Err <==> root_close_of(evs_view(events@)) is None,
        r matches Err(e) ==> e == XmlSignError::SignatureNotFound,
        r matches Ok(out) ==> evs_view(out@) == inject_events(evs_view(events@), signature_b64@),
{
    let idx = match find_root_close(events) {
        None => {
            return Err(XmlSignError::SignatureNotFound);
        },
        Some(idx) => idx,
    };
    let n = events.len();
    let mut out: Vec<XmlEvent> = Vec::new();
    let mut i: usize = 0;
    while i < idx
        invariant
            0 <= i <= idx,
            idx < n,
            n == events@.len(),
            evs_view(out@) == evs_view(events@).take(i as int),
        decreases idx - i,
    {
        let ghost prev = evs_view(out@);
        out.push(clone_event(&events[i]));
        proof {
            assert(evs_view(out@) =~= prev.push(events@[i as int]@));
            assert(prev.push(events@[i as int]@) =~= evs_view(events@).take(i as int + 1));
        }
        i += 1;
    }
    let ghost base = evs_view(out@);
    out.push(
        XmlEvent::Open { raw: "Signature".to_owned(), name: "Signature".to_owned(), attrs: Vec::new() },
    );
    out.push(
        XmlEvent::Open {
            raw: "SignatureValue".to_owned(),
            name: "SignatureValue".to_owned(),
            attrs: Vec::new(),
        },
    );
    out.push(XmlEvent::Text { text: signature_b64.to_owned() });
    out.push(XmlEvent::Close { name: "SignatureValue".to_owned() });
    out.push(XmlEvent::Close { name: "Signature".to_owned() });
    proof {
        assert(attrs_view(Seq::<(String, String)>::empty()) =~= Seq::<(Seq<char>, Seq<char>)>::empty());
        assert(evs_view(out@) =~~= base + sig_events(signature_b64@));
        assert(evs_view(events@).subrange(idx as int, idx as int) =~= Seq::<EventV>::empty());
        assert(base + sig_events(signature_b64@) + evs_view(events@).subrange(idx as int, idx as int)
            =~= base + sig_events(signature_b64@));
    }
    let mut j: usize = idx;
    while j < n
        invariant
            idx <= j <= n,
            n == events@.len(),
            evs_view(out@) == evs_view(events@).take(idx as int) + sig_events(signature_b64@)
                + evs_view(events@).subrange(idx as int, j as int),
        decreases n - j,
    {
        let ghost prev = evs_view(out@);
        out.push(clone_event(&events[j]));
        proof {
            assert(evs_view(out@) =~= prev.push(events@[j as int]@));
            assert(prev.push(events@[j as int]@) =~= evs_view(events@).take(idx as int)
                + sig_events(signature_b64@) + evs_view(events@).subrange(
                idx as int,
                j as int + 1,
            ));
        }
        j += 1;
    }
    proof {
        assert(evs_view(events@).subrange(idx as int, n as int) =~= evs_view(events@).skip(
            idx as int,
        ));
    }
    Ok(out)
}

// ---------------------------------------------------------------------------
// Signature removal
// ---------------------------------------------------------------------------
/// Whether an event is an opening tag named `Signature`.
pub open spec fn is_sig_open(e: EventV) -> bool {
    match e {
        EventV::Open { name, .. } => name == "Signature"@,
        _ => false,
    }
}

/// The nesting depth directly before the stream's `j`-th event, starting
/// from depth `d` at the stream's start.
pub open spec fn depth_before(evs: Seq<EventV>, j: int, d: nat) -> nat
    decreases j,
{
    if j <= 0 {
        d
    } else {
        step_depth(depth_before(evs, j - 1, d), evs[j - 1])
    }
}

/// The event stream with its root-level `Signature` subtree removed.
/// The first opening `Signature` tag that stands as a direct child of
/// the root element (depth one) starts suppression; every event is
/// dropped until its matching closing tag; tags nested inside only move
/// the suppression counter, so an inner element also named `Signature`
/// is consumed as plain nesting.  Later or deeper `Signature` elements
/// pass through untouched.  `depth` is the element depth at the start of
/// `evs`, `inside` is zero outside the suppressed region and the nesting
/// depth within it otherwise, and `done` records that a subtree was
/// already removed.
pub open spec fn strip_from(evs: Seq<EventV>, depth: nat, inside: nat, done: bool) -> Seq<EventV>
    decreases evs.len(),
{
    if evs.len() == 0 {
        Seq::empty()
    } else {
        let e = evs[0];
        let rest = evs.drop_first();
        if inside > 0 {
            match e {
                EventV::Open { .. } => strip_from(rest, depth, inside + 1, done),
                EventV::Close { .. } => strip_from(rest, depth, (inside - 1) as nat, done),
                _ => strip_from(rest, depth, inside, done),
            }
        } else if !done && depth == 1 && is_sig_open(e) {
            strip_from(rest, depth, 1, true)
        } else {
            seq![e] + strip_from(rest, step_depth(depth, e), 0, done)
        }
    }
}

/// The event stream with its root-level `Signature` subtree removed.
pub open spec fn strip_of(evs: Seq<EventV>) -> Seq<EventV> {
    strip_from(evs, 0, 0, false)
}

/// Removes the first `Signature` subtree that opens as a direct child of
/// the root element; later or deeper `Signature` elements are kept.
pub fn strip_signature_events(events: &Vec<XmlEvent>) -> (r: Vec<XmlEvent>)
    ensures
        evs_view(r@) == strip_of(evs_view(events@)),
{
    let n = events.len();
    let mut out: Vec<XmlEvent> = Vec::new();
    let mut depth: usize = 0;
    let mut inside: usize = 0;
    let mut done: bool = false;
    let mut i: usize = 0;
    proof {
        assert(evs_view(events@).skip(0) =~= evs_view(events@));
    }
    while i < n
        invariant
            n == events@.len(),
            0 <= i <= n,
            depth <= i,
            inside <= i,
            strip_of(evs_view(events@)) == evs_view(out@) + strip_from(
                evs_view(events@).skip(i as int),
                depth as nat,
                inside as nat,
                done,
            ),
        decreases n - i,
    {
        proof {
            assert(evs_view(events@).skip(i as int)[0] == events@[i as int]@);
            assert(evs_view(events@).skip(i as int).drop_first() =~= evs_view(events@).skip(
                i as int + 1,
            ));
        }
        let ghost prev = evs_view(out@);
        let ev = &events[i];
        if inside > 0 {
            match ev {
                XmlEvent::Open { raw: _, name: _, attrs: _ } => {
                    inside += 1;
                },
                XmlEvent::Close { name: _ } => {
                    inside -= 1;
                },
                _ => {},
            }
        } else {
            let mut sig = false;
            match ev {
                XmlEvent::Open { raw: _, name, attrs: _ } => {
                    sig = str_eq(name.as_str(), "Signature");
                },
                _ => {},
            }
            if !done && depth == 1 && sig {
                inside = 1;
                done = true;
            } else {
                out.push(clone_event(ev));
                match ev {
                    XmlEvent::Open { raw: _, name: _, attrs: _ } => {
                        depth += 1;
                    },
                    XmlEvent::Close { name: _ } => {
                        if depth > 0 {
                            depth -= 1;
                        }
                    },
                    _ => {},
                }
                proof {
                    assert(evs_view(out@) =~= prev + seq![events@[i as int]@]);
                    assert(prev + (seq![events@[i as int]@] + strip_from(
                        evs_view(events@).skip(i as int + 1),
                        depth as nat,
                        0,
                        done,
                    )) =~= (prev + seq![events@[i as int]@]) + strip_from(
                        evs_view(events@).skip(i as int + 1),
                        depth as nat,
                        0,
                        done,
                    ));
                }
            }
        }
        i += 1;
    }
    proof {
        assert(evs_view(events@).skip(n as int) =~= Seq::<EventV>::empty());
        assert(evs_view(out@) + strip_from(
            Seq::<EventV>::empty(),
            depth as nat,
            inside as nat,
            done,
        ) =~= evs_view(out@));
    }
    out
}

// ---------------------------------------------------------------------------
// Laws of injection and stripping
// ---------------------------------------------------------------------------
/// How many opening or self-closing tags of the stream carry the given
/// name.
pub open spec fn count_open_named(evs: Seq<EventV>, name: Seq<char>) -> nat
    decreases evs.len(),
{
    if evs.len() == 0 {
        0
    } else {
        count_open_named(evs.drop_last(), name) + (if opens_named(evs.last(), name) {
            1nat
        } else {
            0nat
        })
    }
}

/// Whether an event opens an element of the given name.
pub open spec fn opens_named(e: EventV, name: Seq<char>) -> bool {
    match e {
        EventV::Open { name: n, .. } => n == name,
        EventV::SelfClosed { name: n, .. } => n == name,
        _ => false,
    }
}

/// How many nodes of the list carry the given name.
pub open spec fn count_nodes_named(ns: Seq<NodeV>, name: Seq<char>) -> nat
    decreases ns.len(),
{
    if ns.len() == 0 {
        0
    } else {
        count_nodes_named(ns.drop_last(), name) + (if ns.last().name == name {
            1nat
        } else {
            0nat
        })
    }
}

/// Node extraction creates exactly one node per opening or self-closing
/// tag, so the nodes of a given name are as many as the tags of that
/// name.
pub proof fn lemma_nodes_count(evs: Seq<EventV>, name: Seq<char>)
    ensures
        count_nodes_named(nodes_of(evs), name) == count_open_named(evs, name),
    decreases evs.len(),
{
    if evs.len() == 0 {
    } else {
        lemma_nodes_count(evs.drop_last(), name);
        let ns = nodes_of(evs.drop_last());
        let e = evs.last();
        match e {
            EventV::Open { name: n, attrs, .. } => {
                assert(ns.push(tag_node(n, attrs)).drop_last() =~= ns);
            },
            EventV::SelfClosed { name: n, attrs, .. } => {
                assert(ns.push(tag_node(n, attrs)).drop_last() =~= ns);
            },
            EventV::Text { text } => {
                if ns.len() > 0 {
                    let m = NodeV {
                        name: ns.last().name,
                        attributes: ns.last().attributes,
                        text_content: Some(text),
                    };
                    assert(ns.update(ns.len() - 1, m).drop_last() =~= ns.drop_last());
                    assert(ns.update(ns.len() - 1, m).last() == m);
                }
            },
            EventV::Close { .. } => {},
        }
    }
}

/// Tag counting distributes over concatenation of streams.
pub proof fn lemma_count_open_app(a: Seq<EventV>, b: Seq<EventV>, name: Seq<char>)
    ensures
        count_open_named(a + b, name) == count_open_named(a, name) + count_open_named(b, name),
    decreases b.len(),
{
    if b.len() == 0 {
        assert(a + b =~= a);
    } else {
        lemma_count_open_app(a, b.drop_last(), name);
        assert((a + b).drop_last() =~= a + b.drop_last());
        assert((a + b).last() == b.last());
    }
}

/// Depth before an event of the tail, against depth before the same
/// event of the whole stream.
proof fn lemma_depth_before_shift(evs: Seq<EventV>, j: int, d: nat)
    requires
        evs.len() > 0,
        0 <= j <= evs.len() - 1,
    ensures
        depth_before(evs.drop_first(), j, step_depth(d, evs[0])) == depth_before(evs, j + 1, d),
    decreases j,
{
    reveal_with_fuel(depth_before, 3);
    if j <= 0 {
    } else {
        lemma_depth_before_shift(evs, j - 1, d);
        assert(evs.drop_first()[j - 1] == evs[j]);
    }
}

/// Depth before an event of a prefix, against depth before the same
/// event of the whole stream.
proof fn lemma_depth_before_take(evs: Seq<EventV>, i: int, j: int, d: nat)
    requires
        0 <= j <= i <= evs.len(),
    ensures
        depth_before(evs.take(i), j, d) == depth_before(evs, j, d),
    decreases j,
{
    reveal_with_fuel(depth_before, 3);
    if j <= 0 {
    } else {
        lemma_depth_before_take(evs, i, j - 1, d);
        assert(evs.take(i)[j - 1] == evs[j - 1]);
    }
}

/// A stream without a root-level `Signature` opening tag passes through
/// stripping unchanged, whatever follows it.
proof fn lemma_strip_clean_prefix(a: Seq<EventV>, rest: Seq<EventV>, d: nat)
    requires
        forall|j: int|
            0 <= j < a.len() ==> !(is_sig_open(#[trigger] a[j]) && depth_before(a, j, d) == 1),
    ensures
        strip_from(a + rest, d, 0, false) == a + strip_from(
            rest,
            depth_before(a, a.len() as int, d),
            0,
            false,
        ),
    decreases a.len(),
{
    if a.len() == 0 {
        assert(a + rest =~= rest);
        assert(a + strip_from(rest, d, 0, false) =~= strip_from(rest, d, 0, false));
    } else {
        assert((a + rest)[0] == a[0]);
        assert((a + rest).drop_first() =~= a.drop_first() + rest);
        assert(!(is_sig_open(a[0]) && depth_before(a, 0, d) == 1));
        let d2 = step_depth(d, a[0]);
        assert forall|j: int| 0 <= j < a.drop_first().len() implies !(is_sig_open(
            #[trigger] a.drop_first()[j],
        ) && depth_before(a.drop_first(), j, d2) == 1) by {
            lemma_depth_before_shift(a, j, d);
            assert(a.drop_first()[j] == a[j + 1]);
        }
        lemma_strip_clean_prefix(a.drop_first(), rest, d2);
        lemma_depth_before_shift(a, a.len() - 1, d);
        assert(depth_before(a.drop_first(), a.len() - 1, d2) == depth_before(a, a.len() as int, d));
        let tail = strip_from(rest, depth_before(a, a.len() as int, d), 0, false);
        assert(seq![a[0]] + (a.drop_first() + tail) =~= a + tail);
    }
}

/// Once a `Signature` subtree was removed, the rest of the stream passes
/// through whole, whatever it holds.
proof fn lemma_strip_done(s: Seq<EventV>, d: nat)
    ensures
        strip_from(s, d, 0, true) == s,
    decreases s.len(),
{
    if s.len() == 0 {
    } else {
        lemma_strip_done(s.drop_first(), step_depth(d, s[0]));
        assert(seq![s[0]] + s.drop_first() =~= s);
    }
}

/// A stream without a root-level `Signature` opening tag is left whole by
/// stripping.
pub proof fn lemma_strip_identity(a: Seq<EventV>)
    requires
        forall|j: int|
            0 <= j < a.len() ==> !(is_sig_open(#[trigger] a[j]) && depth_before(a, j, 0) == 1),
    ensures
        strip_of(a) == a,
{
    lemma_strip_clean_prefix(a, Seq::<EventV>::empty(), 0);
    assert(a + Seq::<EventV>::empty() =~= a);
    assert(strip_from(Seq::<EventV>::empty(), depth_before(a, a.len() as int, 0), 0, false) =~= Seq::<
        EventV,
    >::empty());
}

/// Stripping at root level consumes the injected signature subtree
/// exactly and marks the removal done.
proof fn lemma_strip_sig_block(b64: Seq<char>, rest: Seq<EventV>)
    ensures
        strip_from(sig_events(b64) + rest, 1, 0, false) == strip_from(rest, 1, 0, true),
{
    let s0 = sig_events(b64) + rest;
    assert(s0[0] == sig_events(b64)[0]);
    assert(is_sig_open(s0[0]));
    let s1 = s0.drop_first();
    assert(s1 =~= seq![
        EventV::Open { raw: "SignatureValue"@, name: "SignatureValue"@, attrs: Seq::empty() },
        EventV::Text { text: b64 },
        EventV::Close { name: "SignatureValue"@ },
        EventV::Close { name: "Signature"@ },
    ] + rest);
    let s2 = s1.drop_first();
    assert(s2 =~= seq![
        EventV::Text { text: b64 },
        EventV::Close { name: "SignatureValue"@ },
        EventV::Close { name: "Signature"@ },
    ] + rest);
    let s3 = s2.drop_first();
    assert(s3 =~= seq![
        EventV::Close { name: "SignatureValue"@ },
        EventV::Close { name: "Signature"@ },
    ] + rest);
    let s4 = s3.drop_first();
    assert(s4 =~= seq![EventV::Close { name: "Signature"@ }] + rest);
    let s5 = s4.drop_first();
    assert(s5 =~= rest);
    assert(strip_from(s0, 1, 0, false) == strip_from(s1, 1, 1, true));
    assert(strip_from(s1, 1, 1, true) == strip_from(s2, 1, 2, true));
    assert(strip_from(s2, 1, 2, true) == strip_from(s3, 1, 2, true));
    assert(strip_from(s3, 1, 2, true) == strip_from(s4, 1, 1, true));
    assert(strip_from(s4, 1, 1, true) == strip_from(s5, 1, 0, true));
}

/// The root element's closing tag, where there is one, lies inside the
/// stream and is met at depth one.
proof fn lemma_root_close_depth(evs: Seq<EventV>, d: nat)
    ensures
        match root_close_from(evs, d) {
            Some(i) => 0 <= i < evs.len() && evs[i] is Close && depth_before(evs, i, d) == 1,
            None => true,
        },
    decreases evs.len(),
{
    if evs.len() == 0 {
    } else if evs[0] is Close && d == 1 {
    } else {
        lemma_root_close_depth(evs.drop_first(), step_depth(d, evs[0]));
        match root_close_from(evs.drop_first(), step_depth(d, evs[0])) {
            Some(j) => {
                lemma_depth_before_shift(evs, j, d);
                assert(evs.drop_first()[j] == evs[j + 1]);
            },
            None => {},
        }
    }
}

/// Law (idempotent canonicalization, tamper-free round trip): injecting a
/// signature subtree into a stream with no root-level `Signature` opening
/// tag of its own, and then stripping, restores the stream exactly, so
/// the canonical text of the stripped form — and with it the digest that
/// verification checks — equals that of the original.
pub proof fn lemma_strip_after_inject(evs: Seq<EventV>, b64: Seq<char>)
    requires
        forall|j: int|
            0 <= j < evs.len() ==> !(is_sig_open(#[trigger] evs[j]) && depth_before(evs, j, 0)
                == 1),
        root_close_of(evs) is Some,
    ensures
        strip_of(inject_events(evs, b64)) == evs,
        canon_of(strip_of(inject_events(evs, b64))) == canon_of(evs),
        sha512_of(canon_of(strip_of(inject_events(evs, b64)))) == sha512_of(canon_of(evs)),
{
    lemma_root_close_depth(evs, 0);
    match root_close_of(evs) {
        Some(i) => {
            let front = evs.take(i);
            let back = evs.skip(i);
            assert(inject_events(evs, b64) == front + sig_events(b64) + back);
            assert(front + sig_events(b64) + back =~= front + (sig_events(b64) + back));
            assert forall|j: int| 0 <= j < front.len() implies !(is_sig_open(#[trigger] front[j])
                && depth_before(front, j, 0) == 1) by {
                assert(front[j] == evs[j]);
                lemma_depth_before_take(evs, i, j, 0);
            }
            lemma_strip_clean_prefix(front, sig_events(b64) + back, 0);
            lemma_depth_before_take(evs, i, i, 0);
            assert(depth_before(front, front.len() as int, 0) == 1);
            lemma_strip_sig_block(b64, back);
            lemma_strip_done(back, 1);
            assert(front + back =~= evs);
        },
        None => {},
    }
}

/// Law (signature presence): injecting into a stream that holds no
/// element named `Signature` and none named `SignatureValue` yields a
/// stream whose node list carries exactly one node of each of those
/// names.
pub proof fn lemma_signature_presence(evs: Seq<EventV>, b64: Seq<char>)
    requires
        count_open_named(evs, "Signature"@) == 0,
        count_open_named(evs, "SignatureValue"@) == 0,
        root_close_of(evs) is Some,
    ensures
        count_nodes_named(nodes_of(inject_events(evs, b64)), "Signature"@) == 1,
        count_nodes_named(nodes_of(inject_events(evs, b64)), "SignatureValue"@) == 1,
{
    lemma_root_close_depth(evs, 0);
    match root_close_of(evs) {
        Some(i) => {
            let front = evs.take(i);
            let back = evs.skip(i);
            let inj = inject_events(evs, b64);
            assert(inj == front + sig_events(b64) + back);
            lemma_sig_block_counts(b64);
            assert(front + back =~= evs);
            lemma_count_open_app(front, back, "Signature"@);
            lemma_count_open_app(front, back, "SignatureValue"@);
            lemma_count_three_parts(front, back, sig_events(b64), "Signature"@);
            lemma_count_three_parts(front, back, sig_events(b64), "SignatureValue"@);
            lemma_nodes_count(inj, "Signature"@);
            lemma_nodes_count(inj, "SignatureValue"@);
        },
        None => {},
    }
}

/// Node extraction continued from an already-built node list.
pub open spec fn nodes_fold(ns: Seq<NodeV>, evs: Seq<EventV>) -> Seq<NodeV>
    decreases evs.len(),
{
    if evs.len() == 0 {
        ns
    } else {
        nodes_step(nodes_fold(ns, evs.drop_last()), evs.last())
    }
}

/// Node extraction of a concatenation: the second stream continues from
/// the first's node list.
proof fn lemma_nodes_of_app(a: Seq<EventV>, b: Seq<EventV>)
    ensures
        nodes_of(a + b) == nodes_fold(nodes_of(a), b),
    decreases b.len(),
{
    if b.len() == 0 {
        assert(a + b =~= a);
    } else {
        lemma_nodes_of_app(a, b.drop_last());
        assert((a + b).drop_last() =~= a + b.drop_last());
        assert((a + b).last() == b.last());
    }
}

/// The nodes the injected subtree adds: its `Signature` node and a
/// `SignatureValue` node carrying the base64 text.
proof fn lemma_sig_block_nodes(ns: Seq<NodeV>, b64: Seq<char>)
    ensures
        nodes_fold(ns, sig_events(b64)) == ns + seq![
            tag_node("Signature"@, Seq::empty()),
            NodeV { name: "SignatureValue"@, attributes: Seq::empty(), text_content: Some(b64) },
        ],
{
    reveal_with_fuel(nodes_fold, 6);
    let s = sig_events(b64);
    assert(s.drop_last() =~= seq![
        EventV::Open { raw: "Signature"@, name: "Signature"@, attrs: Seq::empty() },
        EventV::Open { raw: "SignatureValue"@, name: "SignatureValue"@, attrs: Seq::empty() },
        EventV::Text { text: b64 },
        EventV::Close { name: "SignatureValue"@ },
    ]);
    assert(s.drop_last().drop_last() =~= seq![
        EventV::Open { raw: "Signature"@, name: "Signature"@, attrs: Seq::empty() },
        EventV::Open { raw: "SignatureValue"@, name: "SignatureValue"@, attrs: Seq::empty() },
        EventV::Text { text: b64 },
    ]);
    assert(s.drop_last().drop_last().drop_last() =~= seq![
        EventV::Open { raw: "Signature"@, name: "Signature"@, attrs: Seq::empty() },
        EventV::Open { raw: "SignatureValue"@, name: "SignatureValue"@, attrs: Seq::empty() },
    ]);
    assert(s.drop_last().drop_last().drop_last().drop_last() =~= seq![
        EventV::Open { raw: "Signature"@, name: "Signature"@, attrs: Seq::empty() },
    ]);
    assert(s.drop_last().drop_last().drop_last().drop_last().drop_last() =~= Seq::<
        EventV,
    >::empty());
    let two = ns.push(tag_node("Signature"@, Seq::empty())).push(
        tag_node("SignatureValue"@, Seq::empty()),
    );
    assert(two.len() > 0);
    assert(two.last() == tag_node("SignatureValue"@, Seq::empty()));
    let written = two.update(
        two.len() - 1,
        NodeV { name: "SignatureValue"@, attributes: Seq::empty(), text_content: Some(b64) },
    );
    assert(nodes_fold(ns, s) == written);
    assert(written =~~= ns + seq![
        tag_node("Signature"@, Seq::empty()),
        NodeV { name: "SignatureValue"@, attributes: Seq::empty(), text_content: Some(b64) },
    ]);
}

/// A name absent from the count is absent from the list.
proof fn lemma_zero_count_no_named(ns: Seq<NodeV>, name: Seq<char>)
    requires
        count_nodes_named(ns, name) == 0,
    ensures
        forall|k: int| 0 <= k < ns.len() ==> (#[trigger] ns[k]).name != name,
    decreases ns.len(),
{
    if ns.len() == 0 {
    } else {
        lemma_zero_count_no_named(ns.drop_last(), name);
        assert forall|k: int| 0 <= k < ns.len() implies (#[trigger] ns[k]).name != name by {
            if k < ns.len() - 1 {
                assert(ns[k] == ns.drop_last()[k]);
            }
        }
    }
}

/// The first node with a name stands at the first index bearing it.
proof fn lemma_first_named_at(ns: Seq<NodeV>, name: Seq<char>, m: int)
    requires
        0 <= m < ns.len(),
        ns[m].name == name,
        forall|k: int| 0 <= k < m ==> (#[trigger] ns[k]).name != name,
    ensures
        first_named(ns, name) == Some(ns[m]),
    decreases m,
{
    if m == 0 {
    } else {
        assert(ns[0].name != name);
        assert forall|k: int| 0 <= k < m - 1 implies (#[trigger] ns.drop_first()[k]).name
            != name by {
            assert(ns.drop_first()[k] == ns[k + 1]);
        }
        assert(ns.drop_first()[m - 1] == ns[m]);
        lemma_first_named_at(ns.drop_first(), name, m - 1);
    }
}

/// Law (signature presence, the embedded value): injecting into a stream
/// whose root element closes at the stream's end and that holds no
/// element named `Signature` or `SignatureValue` of its own yields a
/// node list whose first `SignatureValue` node carries exactly the
/// injected base64 text.
pub proof fn lemma_signature_value_text(evs: Seq<EventV>, b64: Seq<char>)
    requires
        count_open_named(evs, "Signature"@) == 0,
        count_open_named(evs, "SignatureValue"@) == 0,
        root_close_of(evs) == Some(evs.len() - 1),
    ensures
        first_named(nodes_of(inject_events(evs, b64)), "SignatureValue"@) matches Some(nd)
            && nd.name == "SignatureValue"@ && nd.text_content == Some(b64),
{
    reveal_strlit("Signature");
    reveal_strlit("SignatureValue");
    lemma_root_close_depth(evs, 0);
    let i = evs.len() - 1;
    let front = evs.take(i);
    let back = evs.skip(i);
    let inj = inject_events(evs, b64);
    assert(inj == front + sig_events(b64) + back);
    lemma_nodes_of_app(front + sig_events(b64), back);
    assert(back =~= seq![evs[i]]);
    assert(evs[i] is Close);
    let mid = nodes_of(front + sig_events(b64));
    assert(back.drop_last() =~= Seq::<EventV>::empty());
    assert(nodes_fold(mid, back.drop_last()) == mid);
    assert(nodes_fold(mid, back) == nodes_step(mid, evs[i]));
    assert(nodes_of(inj) == mid);
    lemma_nodes_of_app(front, sig_events(b64));
    let base = nodes_of(front);
    lemma_sig_block_nodes(base, b64);
    assert(front + back =~= evs);
    lemma_count_open_app(front, back, "SignatureValue"@);
    lemma_nodes_count(front, "SignatureValue"@);
    lemma_zero_count_no_named(base, "SignatureValue"@);
    let all_ns = nodes_of(inj);
    let m = base.len() as int + 1;
    assert(all_ns[m].name == "SignatureValue"@);
    assert("Signature"@.len() == 9 && "SignatureValue"@.len() == 14);
    assert forall|k: int| 0 <= k < m implies (#[trigger] all_ns[k]).name != "SignatureValue"@ by {
        if k < base.len() {
            assert(all_ns[k] == base[k]);
        } else {
            assert(all_ns[k] == tag_node("Signature"@, Seq::empty()));
        }
    }
    lemma_first_named_at(all_ns, "SignatureValue"@, m);
}

/// Splits the tag count of `front + mid + back` into its three parts.
proof fn lemma_count_three_parts(front: Seq<EventV>, back: Seq<EventV>, mid: Seq<EventV>, name: Seq<char>)
    ensures
        count_open_named(front + mid + back, name) == count_open_named(front, name)
            + count_open_named(mid, name) + count_open_named(back, name),
{
    lemma_count_open_app(front + mid, back, name);
    lemma_count_open_app(front, mid, name);
}

/// The injected subtree opens exactly one `Signature` element and one
/// `SignatureValue` element.
proof fn lemma_sig_block_counts(b64: Seq<char>)
    ensures
        count_open_named(sig_events(b64), "Signature"@) == 1,
        count_open_named(sig_events(b64), "SignatureValue"@) == 1,
{
    reveal_strlit("Signature");
    reveal_strlit("SignatureValue");
    assert("Signature"@.len() == 9);
    assert("SignatureValue"@.len() == 14);
    reveal_with_fuel(count_open_named, 6);
    let s = sig_events(b64);
    assert(s.drop_last() =~= seq![
        EventV::Open { raw: "Signature"@, name: "Signature"@, attrs: Seq::empty() },
        EventV::Open { raw: "SignatureValue"@, name: "SignatureValue"@, attrs: Seq::empty() },
        EventV::Text { text: b64 },
        EventV::Close { name: "SignatureValue"@ },
    ]);
    assert(s.drop_last().drop_last() =~= seq![
        EventV::Open { raw: "Signature"@, name: "Signature"@, attrs: Seq::empty() },
        EventV::Open { raw: "SignatureValue"@, name: "SignatureValue"@, attrs: Seq::empty() },
        EventV::Text { text: b64 },
    ]);
    assert(s.drop_last().drop_last().drop_last() =~= seq![
        EventV::Open { raw: "Signature"@, name: "Signature"@, attrs: Seq::empty() },
        EventV::Open { raw: "SignatureValue"@, name: "SignatureValue"@, attrs: Seq::empty() },
    ]);
    assert(s.drop_last().drop_last().drop_last().drop_last() =~= seq![
        EventV::Open { raw: "Signature"@, name: "Signature"@, attrs: Seq::empty() },
    ]);
    assert(s.drop_last().drop_last().drop_last().drop_last().drop_last() =~= Seq::<
        EventV,
    >::empty());
}

// ---------------------------------------------------------------------------
// Queries as executable functions
// ---------------------------------------------------------------------------
/// Copies one node.
fn clone_node(n: &XmlNode) -> (r: XmlNode)
    ensures
        r@ == n@,
{
    XmlNode {
        name: n.name.clone(),
        attributes: clone_attrs(&n.attributes),
        text_content: match &n.text_content {
            Some(t) => Some(t.clone()),
            None => None,
        },
    }
}

/// The first node of the list with the given tag name, copied out.
pub fn find_first_named(nodes: &Vec<XmlNode>, name: &str) -> (r: Option<XmlNode>)
    ensures
        match r {
            Some(nd) => first_named(nodes_view(nodes@), name@) == Some(nd@),
            None => first_named(nodes_view(nodes@), name@) is None,
        },
{
    let n = nodes.len();
    let mut i: usize = 0;
    proof {
        assert(nodes_view(nodes@).skip(0) =~= nodes_view(nodes@));
    }
    while i < n
        invariant
            n == nodes@.len(),
            0 <= i <= n,
            first_named(nodes_view(nodes@), name@) == first_named(
                nodes_view(nodes@).skip(i as int),
                name@,
            ),
        decreases n - i,
    {
        proof {
            assert(nodes_view(nodes@).skip(i as int)[0] == nodes@[i as int]@);
            assert(nodes_view(nodes@).skip(i as int).drop_first() =~= nodes_view(nodes@).skip(
                i as int + 1,
            ));
        }
        let nd = &nodes[i];
        if str_eq(nd.name.as_str(), name) {
            return Some(clone_node(nd));
        }
        i += 1;
    }
    proof {
        assert(nodes_view(nodes@).skip(n as int) =~= Seq::<NodeV>::empty());
    }
    None
}

/// All nodes of the list with the given tag name, copied out in document
/// order.
pub fn find_all_named(nodes: &Vec<XmlNode>, name: &str) -> (r: Vec<XmlNode>)
    ensures
        nodes_view(r@) == all_named(nodes_view(nodes@), name@),
{
    let n = nodes.len();
    let mut out: Vec<XmlNode> = Vec::new();
    let mut i: usize = 0;
    while i < n
        invariant
            n == nodes@.len(),
            0 <= i <= n,
            nodes_view(out@) == all_named(nodes_view(nodes@).take(i as int), name@),
        decreases n - i,
    {
        proof {
            assert(nodes_view(nodes@).take(i as int + 1).drop_last() =~= nodes_view(nodes@).take(
                i as int,
            ));
            assert(nodes_view(nodes@).take(i as int + 1).last() == nodes@[i as int]@);
        }
        let nd = &nodes[i];
        if str_eq(nd.name.as_str(), name) {
            let ghost prev = nodes_view(out@);
            out.push(clone_node(nd));
            proof {
                assert(nodes_view(out@) =~= prev.push(nodes@[i as int]@));
            }
        }
        i += 1;
    }
    proof {
        assert(nodes_view(nodes@).take(n as int) =~= nodes_view(nodes@));
    }
    out
}

// ---------------------------------------------------------------------------
// The document API
// ---------------------------------------------------------------------------
impl XmlDocument {
    /// Wraps raw XML source text as a document.
    pub fn new(content: String) -> (r: Self)
        ensures
            r.content@ == content@,
    {
        XmlDocument { content }
    }

    /// Parses the document into its flat node list: exactly the node
    /// extraction of this content's event stream.  Fails, with
    /// `XmlError`, exactly on text the XML parser rejects.
    pub fn read_nodes(&self) -> (r: Result<Vec<XmlNode>, XmlSignError>)
        ensures
            r is Err <==> doc_events(self.content@) is None,
            r matches Err(e) ==> e == XmlSignError::XmlError,
            r matches Ok(ns) ==> (doc_events(self.content@) matches Some(evs) && nodes_view(ns@)
                == nodes_of(evs) && text_significant(evs)),
    {
        match parse_events(self.content.as_str()) {
            Err(e) => Err(e),
            Ok(events) => Ok(build_nodes(&events)),
        }
    }

    /// The first node of this content's node list with the given tag
    /// name, if there is one.
    pub fn find_node(&self, node_name: &str) -> (r: Result<Option<XmlNode>, XmlSignError>)
        ensures
            r is Err <==> doc_events(self.content@) is None,
            r matches Err(e) ==> e == XmlSignError::XmlError,
            r matches Ok(opt) ==> (doc_events(self.content@) matches Some(evs) && (match opt {
                Some(nd) => first_named(nodes_of(evs), node_name@) == Some(nd@),
                None => first_named(nodes_of(evs), node_name@) is None,
            })),
    {
        match self.read_nodes() {
            Err(e) => Err(e),
            Ok(nodes) => Ok(find_first_named(&nodes, node_name)),
        }
    }

    /// All nodes of this content's node list with the given tag name, in
    /// document order.
    pub fn find_all_nodes(&self, node_name: &str) -> (r: Result<Vec<XmlNode>, XmlSignError>)
        ensures
            r is Err <==> doc_events(self.content@) is None,
            r matches Err(e) ==> e == XmlSignError::XmlError,
            r matches Ok(ns) ==> (doc_events(self.content@) matches Some(evs) && nodes_view(ns@)
                == all_named(nodes_of(evs), node_name@)),
    {
        match self.read_nodes() {
            Err(e) => Err(e),
            Ok(nodes) => Ok(find_all_named(&nodes, node_name)),
        }
    }

    /// The canonical text of the document: the deterministic form of this
    /// content whose digest is signed and verified.
    pub fn canonicalize(&self) -> (r: Result<String, XmlSignError>)
        ensures
            r is Err <==> doc_events(self.content@) is None,
            r matches Err(e) ==> e == XmlSignError::XmlError,
            r matches Ok(c) ==> (doc_events(self.content@) matches Some(evs) && c@ == canon_of(
                evs,
            )),
    {
        match parse_events(self.content.as_str()) {
            Err(e) => Err(e),
            Ok(events) => Ok(render_canonical(&events)),
        }
    }

    /// Signs the document with the private key: digests the canonical
    /// form of this content, signs the digest, and embeds the base64
    /// signature as a `Signature` element before the root's closing tag.
    /// Fails with `XmlError` exactly on malformed XML, with
    /// `SignatureNotFound` exactly on a document with no root element to
    /// hold the signature, and with `SignatureError` when the signing
    /// primitive rejects the key.
    pub fn sign(&self, private_key: &rsa::RsaPrivateKey) -> (r: Result<
        SignedXmlDocument,
        XmlSignError,
    >)
        ensures
            r matches Err(e) ==> e == XmlSignError::XmlError || e == XmlSignError::SignatureNotFound
                || e == XmlSignError::SignatureError,
            (r matches Err(e) && e == XmlSignError::XmlError) <==> doc_events(
                self.content@,
            ) is None,
            (r matches Err(e) && e == XmlSignError::SignatureNotFound) <==> (doc_events(
                self.content@,
            ) matches Some(evs) && root_close_of(evs) is None),
            r matches Ok(sd) ==> (doc_events(self.content@) matches Some(evs) && root_close_of(
                evs,
            ) is Some && ({
                let blob = sig_blob_of(*private_key, sha512_of(canon_of(evs)));
                sd.signature@ == b64_of(blob) && b64_decoded(sd.signature@) == Some(blob)
                    && sd.content@ == emit_of(inject_events(evs, b64_of(blob)))
            })),
    {
        match parse_events(self.content.as_str()) {
            Err(e) => Err(e),
            Ok(events) => sign_events(&events, private_key),
        }
    }
}

/// Signs a parsed document: digests its canonical form, signs the digest
/// with the private key, and injects the signature subtree directly
/// before the root element's closing tag.  The embedded signature is the
/// base64 form of the deterministic PKCS#1 v1.5 blob over the canonical
/// digest, so signing the same stream with the same key always yields
/// the same signed document.
pub fn sign_events(events: &Vec<XmlEvent>, private_key: &rsa::RsaPrivateKey) -> (r: Result<
    SignedXmlDocument,
    XmlSignError,
>)
    ensures
        root_close_of(evs_view(events@)) is None <==> (r matches Err(e) && e
            == XmlSignError::SignatureNotFound),
        r matches Err(e) ==> e == XmlSignError::SignatureNotFound || e
            == XmlSignError::SignatureError,
        r matches Ok(sd) ==> ({
            let blob = sig_blob_of(*private_key, sha512_of(canon_of(evs_view(events@))));
            sd.signature@ == b64_of(blob) && b64_decoded(sd.signature@) == Some(blob)
                && sd.content@ == emit_of(inject_events(evs_view(events@), b64_of(blob)))
        }),
{
    if find_root_close(events).is_none() {
        return Err(XmlSignError::SignatureNotFound);
    }
    let canonical = render_canonical(events);
    let digest = sha512_str(canonical.as_str());
    let blob = match rsa_sign(private_key, digest.as_slice()) {
        Ok(blob) => blob,
        Err(_) => {
            return Err(XmlSignError::SignatureError);
        },
    };
    let signature_b64 = b64_encode(blob.as_slice());
    match inject_signature_events(events, signature_b64.as_str()) {
        Ok(injected) => {
            let content = render_events(&injected);
            proof {
                assert(blob@ == sig_blob_of(*private_key, sha512_of(canon_of(evs_view(events@)))));
                assert(signature_b64@ == b64_of(blob@) && b64_decoded(signature_b64@) == Some(
                    blob@,
                ) && content@ == emit_of(inject_events(evs_view(events@), b64_of(blob@))));
            }
            Ok(SignedXmlDocument { content, signature: signature_b64 })
        },
        Err(_) => {
            proof {
                assert(false);
            }
            Err(XmlSignError::SignatureNotFound)
        },
    }
}

/// A signed document: the content carrying the injected `Signature`
/// subtree, beside the base64 signature it holds.
#[derive(Debug)]
pub struct SignedXmlDocument {
    pub content: String,
    pub signature: String,
}

/// Checks a stored signature against a parsed signed document: strips the
/// root-level `Signature` subtree, digests the canonical form of what
/// remains, and checks the decoded signature blob with the public key.
/// Fails exactly when the stored signature is not valid base64; the
/// boolean is the verdict of PKCS#1 v1.5 verification on exactly the
/// stripped stream's canonical digest, the decoded blob and the key — a
/// cryptographic mismatch is the value `false`, not an error.
pub fn verify_events(
    events: &Vec<XmlEvent>,
    signature_b64: &str,
    public_key: &rsa::RsaPublicKey,
) -> (r: Result<bool, XmlSignError>)
    ensures
        r is Err <==> b64_decoded(signature_b64@) is None,
        r matches Err(e) ==> e == XmlSignError::Base64Error,
        r matches Ok(b) ==> (b64_decoded(signature_b64@) matches Some(dec) && b == rsa_verifies(
            *public_key,
            sha512_of(canon_of(strip_of(evs_view(events@)))),
            dec,
        )),
{
    let stripped = strip_signature_events(events);
    let canonical = render_canonical(&stripped);
    let digest = sha512_str(canonical.as_str());
    match b64_decode(signature_b64) {
        Err(_) => Err(XmlSignError::Base64Error),
        Ok(sig_bytes) => Ok(rsa_verify(public_key, digest.as_slice(), sig_bytes.as_slice())),
    }
}

impl SignedXmlDocument {
    /// Checks the document's stored signature with the public key.
    /// Returns `false` for a well-formed but cryptographically invalid
    /// signature; fails with `XmlError` exactly on malformed content,
    /// and with `Base64Error` exactly when the stored signature is not
    /// valid base64.
    pub fn verify(&self, public_key: &rsa::RsaPublicKey) -> (r: Result<bool, XmlSignError>)
        ensures
            r matches Err(e) ==> e == XmlSignError::XmlError || e == XmlSignError::Base64Error,
            (r matches Err(e) && e == XmlSignError::XmlError) <==> doc_events(
                self.content@,
            ) is None,
            (r matches Err(e) && e == XmlSignError::Base64Error) <==> (doc_events(
                self.content@,
            ) is Some && b64_decoded(self.signature@) is None),
            r is Ok <==> (doc_events(self.content@) is Some && b64_decoded(
                self.signature@,
            ) is Some),
            r matches Ok(b) ==> (doc_events(self.content@) matches Some(evs) && b64_decoded(
                self.signature@,
            ) matches Some(dec) && b == rsa_verifies(
                *public_key,
                sha512_of(canon_of(strip_of(evs))),
                dec,
            )),
    {
        match parse_events(self.content.as_str()) {
            Err(_) => Err(XmlSignError::XmlError),
            Ok(events) => verify_events(&events, self.signature.as_str(), public_key),
        }
    }

    /// The content with its root-level `Signature` subtree removed,
    /// re-serialized as a document.
    pub fn remove_signature_element(&self) -> (r: Result<XmlDocument, XmlSignError>)
        ensures
            r is Err <==> doc_events(self.content@) is None,
            r matches Err(e) ==> e == XmlSignError::XmlError,
            r matches Ok(d) ==> (doc_events(self.content@) matches Some(evs) && d.content@
                == emit_of(strip_of(evs))),
    {
        match parse_events(self.content.as_str()) {
            Err(e) => Err(e),
            Ok(events) => {
                let stripped = strip_signature_events(&events);
                Ok(XmlDocument { content: render_events(&stripped) })
            },
        }
    }

    /// Parses the signed content into its flat node list, the signature
    /// subtree included: exactly the node extraction of this content's
    /// event stream, as `XmlDocument::read_nodes` yields on the same
    /// text.
    pub fn read_nodes(&self) -> (r: Result<Vec<XmlNode>, XmlSignError>)
        ensures
            r is Err <==> doc_events(self.content@) is None,
            r matches Err(e) ==> e == XmlSignError::XmlError,
            r matches Ok(ns) ==> (doc_events(self.content@) matches Some(evs) && nodes_view(ns@)
                == nodes_of(evs) && text_significant(evs)),
    {
        match parse_events(self.content.as_str()) {
            Err(e) => Err(e),
            Ok(events) => Ok(build_nodes(&events)),
        }
    }
}

} // verus!
