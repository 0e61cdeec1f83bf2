//! Turning response events into bytes with xml-rs's `EventWriter`.

use vstd::prelude::*;
use xml::common::XmlVersion::{Version10, Version11};
use xml::name::Name;
use xml::writer::{EmitterConfig, EventWriter, XmlEvent as WriterEvent};
use crate::propfind_request::name_views;
use crate::response::{entries_formattable, entry_views, lemma_multistatus_well_formed, multistatus_events, propfind_multistatus, PropfindEntry};
use crate::xml_model::DeclVersion::{V1_0, V1_1};
use crate::xml_model::{depth_from, out_views, well_formed_document, XmlName, XmlOut, XmlOutView};

verus! {

/// xml-rs's `EventWriter`, held whole and unopened by a sink.
#[verifier::external_type_specification]
#[verifier::external_body]
#[verifier::reject_recursive_types(W)]
pub struct ExEventWriter<W>(EventWriter<W>);

/// xml-rs's writer error (`EmitterError`), carried whole by a refusal.
#[verifier::external_type_specification]
#[verifier::external_body]
pub struct ExEmitterError(xml::writer::Error);

/// Whether xml-rs's `EventWriter::write`, on a writer into a `Vec<u8>` made
/// with `perform_indent` set to `indent` that has been given `written`,
/// accepts `event`.
pub uninterp spec fn xml_rs_accepts(written: Seq<XmlOutView>, event: XmlOutView, indent: bool) -> bool;

/// The bytes that xml-rs's `EventWriter::into_inner` hands back from such a
/// writer that has been given `written`.
pub uninterp spec fn xml_rs_output(written: Seq<XmlOutView>, indent: bool) -> Seq<u8>;

/// How many elements xml-rs's emitter holds open after `written`: its stack
/// of element names grows with each start and shrinks with each end that finds
/// it non-empty.
pub open spec fn emitter_open(written: Seq<XmlOutView>) -> nat
    decreases written.len(),
{
    if written.len() == 0 {
        0
    } else {
        let d = emitter_open(written.drop_last());
        match written.last() {
            XmlOutView::StartElement { .. } => d + 1,
            XmlOutView::EndElement => if d == 0 {
                0
            } else {
                (d - 1) as nat
            },
            _ => d,
        }
    }
}

/// Whether xml-rs's emitter has written a document declaration after
/// `written`: a declaration, a start or character data each write one.
pub open spec fn emitter_started(written: Seq<XmlOutView>) -> bool
    decreases written.len(),
{
    if written.len() == 0 {
        false
    } else {
        emitter_started(written.drop_last()) || !(written.last() is EndElement)
    }
}

/// An xml-rs writer into memory, with the events it has been given and
/// whether it indents; only the writer functions below make and change one.
struct XmlSink {
    writer: EventWriter<Vec<u8>>,
    written: Ghost<Seq<XmlOutView>>,
    indent: Ghost<bool>,
}

impl XmlSink {
    /// The events this sink has been given.
    spec fn written(&self) -> Seq<XmlOutView> {
        self.written@
    }

    /// Whether this sink indents its output.
    spec fn indents(&self) -> bool {
        self.indent@
    }
}

/// Makes an xml-rs `EventWriter` into an empty `Vec<u8>` with the default
/// emitter configuration but for `perform_indent`, which is `indent`.
#[verifier::external_body]
fn sink_new(indent: bool) -> (s: XmlSink)
    ensures
        s.written() == Seq::<XmlOutView>::empty(),
        s.indents() == indent,
{
    let writer = EmitterConfig::new().perform_indent(indent).create_writer(Vec::new());
    XmlSink { writer, written: Ghost(Seq::empty()), indent: Ghost(indent) }
}

/// Gives one event to xml-rs's `EventWriter::write`. Whether the writer
/// accepts it is `xml_rs_accepts` of its configuration and the events given
/// before. Writing into a `Vec<u8>` does not fail, so starts and character
/// data are always accepted, an end is accepted when an element is open, and
/// a declaration when nothing has been written yet. The bytes written are
/// described by `xml_rs_output` alone.
#[verifier::external_body]
fn sink_write(sink: &mut XmlSink, event: &XmlOut) -> (r: Result<(), xml::writer::Error>)
    ensures
        final(sink).written() == old(sink).written().push(event@),
        final(sink).indents() == old(sink).indents(),
        r is Ok == xml_rs_accepts(old(sink).written(), event@, old(sink).indents()),
        event@ is StartElement ==> r is Ok,
        event@ is Characters ==> r is Ok,
        event@ is EndElement ==> (r is Ok <==> emitter_open(old(sink).written()) > 0),
        event@ is StartDocument ==> (r is Ok <==> !emitter_started(old(sink).written())),
{
    let r = sink.writer.write(match event {
        XmlOut::StartDocument { version, encoding, standalone } => WriterEvent::StartDocument {
            version: match version { V1_0 => Version10, V1_1 => Version11 },
            encoding: encoding.as_deref(), standalone: *standalone },
        XmlOut::StartElement { name, declare } => {
            let b = WriterEvent::start_element(Name { local_name: &name.local_name,
                namespace: name.namespace.as_deref(), prefix: name.prefix.as_deref() });
            match declare { Some(d) => b.ns(d.prefix.as_str(), d.uri.as_str()), None => b }.into()
        },
        XmlOut::Characters { text } => WriterEvent::characters(text),
        XmlOut::EndElement => WriterEvent::end_element().into(),
    });
    sink.written = Ghost(sink.written@.push(event@));
    r
}

/// The bytes written so far, from xml-rs's `EventWriter::into_inner`.
#[verifier::external_body]
fn sink_into_bytes(sink: XmlSink) -> (b: Vec<u8>)
    ensures
        b@ == xml_rs_output(sink.written(), sink.indents()),
{
    sink.writer.into_inner()
}

/// The index of the first of `events` that the writer refuses, if any.
pub open spec fn first_refused(events: Seq<XmlOutView>, indent: bool) -> Option<nat>
    decreases events.len(),
{
    if events.len() == 0 {
        None
    } else {
        match first_refused(events.drop_last(), indent) {
            Some(i) => Some(i),
            None => if xml_rs_accepts(events.drop_last(), events.last(), indent) {
                None
            } else {
                Some((events.len() - 1) as nat)
            },
        }
    }
}

/// Why a document could not be written: the writer refused the event at `index`.
#[derive(Debug)]
pub struct RenderError {
    pub index: usize,
    pub cause: xml::writer::Error,
}

/// Writes `events` in order with xml-rs and returns the document's bytes; the
/// writer indents when `indent` holds.
pub fn render(events: &Vec<XmlOut>, indent: bool) -> (r: Result<Vec<u8>, RenderError>)
    ensures
        match r {
            Ok(bytes) => first_refused(out_views(events@), indent) is None && bytes@ == xml_rs_output(
                out_views(events@),
                indent,
            ),
            Err(e) => first_refused(out_views(events@), indent) == Some(e.index as nat),
        },
        well_formed_document(out_views(events@)) ==> r is Ok,
{
    let ghost all = out_views(events@);
    let mut sink = sink_new(indent);
    assert(all.take(0) =~= Seq::<XmlOutView>::empty());
    let n = events.len();
    for i in 0..n
        invariant
            n == events@.len(),
            all == out_views(events@),
            sink.written() == all.take(i as int),
            sink.indents() == indent,
            first_refused(all.take(i as int), indent) is None,
    {
        assert(all.take(i + 1).drop_last() =~= all.take(i as int));
        assert(all.take(i + 1).last() == events@[i as int]@);
        proof {
            if well_formed_document(all) {
                lemma_document_prefix(all, i as int);
            }
        }
        match sink_write(&mut sink, &events[i]) {
            Ok(()) => {},
            Err(cause) => {
                proof {
                    lemma_first_refused_prefix(all, i + 1, indent);
                }
                return Err(RenderError { index: i, cause });
            },
        }
        assert(sink.written() =~= all.take(i + 1));
    }
    assert(all.take(n as int) =~= all);
    Ok(sink_into_bytes(sink))
}

/// A refusal within a prefix is the first refusal of the whole sequence.
pub proof fn lemma_first_refused_prefix(events: Seq<XmlOutView>, k: int, indent: bool)
    requires
        0 <= k <= events.len(),
        first_refused(events.take(k), indent) is Some,
    ensures
        first_refused(events, indent) == first_refused(events.take(k), indent),
    decreases events.len() - k,
{
    if k < events.len() {
        assert(events.take(k + 1).drop_last() =~= events.take(k));
        lemma_first_refused_prefix(events, k + 1, indent);
    } else {
        assert(events.take(k) =~= events);
    }
}

/// What the emitter needs to accept the event at `i` of `events`: that it has
/// written nothing before a declaration, and an open element before an end.
pub open spec fn emitter_accepts_next(events: Seq<XmlOutView>, i: int) -> bool {
    i < events.len() ==> match events[i] {
        XmlOutView::StartDocument { .. } => !emitter_started(events.take(i)),
        XmlOutView::EndElement => emitter_open(events.take(i)) > 0,
        _ => true,
    }
}

/// A count that has not failed did not fail on any prefix.
proof fn lemma_depth_prefix_some(open: nat, events: Seq<XmlOutView>, k: int)
    requires
        0 <= k <= events.len(),
        depth_from(open, events) is Some,
    ensures
        depth_from(open, events.take(k)) is Some,
    decreases events.len() - k,
{
    if k < events.len() {
        assert(events.drop_last().take(k) =~= events.take(k));
        lemma_depth_prefix_some(open, events.drop_last(), k);
    } else {
        assert(events.take(k) =~= events);
    }
}

/// After a declaration, the emitter holds open exactly the elements that the
/// body so far leaves open.
proof fn lemma_emitter_open_matches(events: Seq<XmlOutView>, k: int)
    requires
        events.len() >= 1,
        events[0] is StartDocument,
        1 <= k <= events.len(),
        depth_from(0, events.take(k).drop_first()) is Some,
    ensures
        emitter_open(events.take(k)) == depth_from(0, events.take(k).drop_first()).unwrap(),
        emitter_started(events.take(k)),
    decreases k,
{
    let pre = events.take(k);
    if k == 1 {
        assert(pre.drop_last() =~= Seq::<XmlOutView>::empty());
        assert(pre.drop_first() =~= Seq::<XmlOutView>::empty());
        assert(pre.last() == events[0]);
        assert(emitter_open(pre.drop_last()) == 0);
        assert(!emitter_started(pre.drop_last()));
    } else {
        let body = pre.drop_first();
        assert(pre.drop_last() =~= events.take(k - 1));
        assert(body.drop_last() =~= events.take(k - 1).drop_first());
        assert(body.last() == pre.last());
        assert(depth_from(0, body.drop_last()) is Some);
        lemma_emitter_open_matches(events, k - 1);
    }
}

/// In a well-formed document the emitter accepts every event.
proof fn lemma_document_prefix(events: Seq<XmlOutView>, i: int)
    requires
        well_formed_document(events),
        0 <= i < events.len(),
    ensures
        emitter_accepts_next(events, i),
{
    if i == 0 {
        assert(events.take(0) =~= Seq::<XmlOutView>::empty());
    } else {
        let body = events.drop_first();
        lemma_depth_prefix_some(0, body, i);
        assert(events.take(i + 1).drop_first() =~= body.take(i));
        assert(events.take(i).drop_first() =~= body.take(i - 1));
        lemma_emitter_open_matches(events, i + 1);
        lemma_depth_prefix_some(0, body, i - 1);
        lemma_emitter_open_matches(events, i);
        assert(body.take(i).drop_last() =~= body.take(i - 1));
        assert(body.take(i).last() == events[i]);
        assert(depth_from(0, body.take(i)) is Some);
    }
}

/// The bytes of the PROPFIND answer listing `entries` with the properties
/// `props`: the answer is a well-formed document, so xml-rs writes it whole.
pub fn propfind_response_body(entries: &Vec<PropfindEntry>, props: &Vec<XmlName>, indent: bool) -> (body: Vec<u8>)
    requires
        entries_formattable(entry_views(entries@), name_views(props@)),
    ensures
        body@ == xml_rs_output(multistatus_events(entry_views(entries@), name_views(props@)), indent),
{
    let events = propfind_multistatus(entries, props);
    proof {
        lemma_multistatus_well_formed(entry_views(entries@), name_views(props@));
    }
    match render(&events, indent) {
        Ok(bytes) => bytes,
        Err(_) => Vec::new(),
    }
}

} // verus!
