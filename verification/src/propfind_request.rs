//! The PROPFIND request body: a state machine over the XML events of
//! `<propfind><prop><name1/>...<nameN/></prop>...` that collects the
//! requested property names.

use vstd::prelude::*;
use vstd::string::*;
use xml::reader::{ParserConfig, XmlEvent as ReaderEvent};
use crate::xml_model::{XmlName, XmlNameView};

verus! {

/// One event pulled from the request body by the XML reader.
///
/// Each event carries `shown`, the reader's debug rendering of it, which an
/// unexpected event quotes in the error message.
#[derive(Debug)]
pub enum RequestEvent {
    StartDocument { shown: String },
    StartElement { name: XmlName, shown: String },
    EndElement { shown: String },
    /// The end of the document; the reader yields nothing after it.
    EndDocument { shown: String },
    /// Any other event: processing instructions, text, CDATA, comments.
    Other { shown: String },
    /// The reader failed; `message` is its error's display text.
    ReadError { message: String },
}

/// The mathematical value of a [`RequestEvent`].
pub enum RequestEventView {
    StartDocument { shown: Seq<char> },
    StartElement { name: XmlNameView, shown: Seq<char> },
    EndElement { shown: Seq<char> },
    EndDocument { shown: Seq<char> },
    Other { shown: Seq<char> },
    ReadError { message: Seq<char> },
}

impl View for RequestEvent {
    type V = RequestEventView;

    open spec fn view(&self) -> RequestEventView {
        match self {
            RequestEvent::StartDocument { shown } => RequestEventView::StartDocument { shown: shown@ },
            RequestEvent::StartElement { name, shown } => RequestEventView::StartElement {
                name: name@,
                shown: shown@,
            },
            RequestEvent::EndElement { shown } => RequestEventView::EndElement { shown: shown@ },
            RequestEvent::EndDocument { shown } => RequestEventView::EndDocument { shown: shown@ },
            RequestEvent::Other { shown } => RequestEventView::Other { shown: shown@ },
            RequestEvent::ReadError { message } => RequestEventView::ReadError { message: message@ },
        }
    }
}

/// Where the parser stands in the expected document.
#[derive(Clone, Copy, Debug, PartialEq, Eq, Structural)]
pub enum ParseState {
    /// Before `<propfind>`.
    Start,
    /// Inside `<propfind>`, before `<prop>`.
    PropFind,
    /// Inside `<prop>`, between property elements.
    Prop,
    /// Inside one property element.
    InProp,
}

/// The name under which a state appears in error messages.
pub open spec fn state_name(s: ParseState) -> Seq<char> {
    match s {
        ParseState::Start => "Start"@,
        ParseState::PropFind => "PropFind"@,
        ParseState::Prop => "Prop"@,
        ParseState::InProp => "InProp"@,
    }
}

/// The error message for an event that the grammar does not allow in a state.
pub open spec fn unexpected_message(shown: Seq<char>, s: ParseState) -> Seq<char> {
    "Unexpected event "@ + shown + " during state "@ + state_name(s)
}

/// The outcome of feeding one event to the parser.
pub enum StepView {
    Continue(ParseState, Seq<XmlNameView>),
    Finished(Result<Seq<XmlNameView>, Seq<char>>),
}

/// One transition of the parser, from the state and the properties collected so far.
pub open spec fn step_spec(s: ParseState, props: Seq<XmlNameView>, ev: RequestEventView) -> StepView {
    match ev {
        RequestEventView::ReadError { message } => StepView::Finished(Err(message)),
        RequestEventView::StartDocument { shown } => if s == ParseState::Start {
            StepView::Continue(ParseState::Start, props)
        } else {
            StepView::Finished(Err(unexpected_message(shown, s)))
        },
        RequestEventView::StartElement { name, shown } => if s == ParseState::Start && name.local_name
            == "propfind"@ {
            StepView::Continue(ParseState::PropFind, props)
        } else if s == ParseState::PropFind && name.local_name == "prop"@ {
            StepView::Continue(ParseState::Prop, props)
        } else if s == ParseState::Prop {
            StepView::Continue(ParseState::InProp, props.push(name))
        } else {
            StepView::Finished(Err(unexpected_message(shown, s)))
        },
        RequestEventView::EndElement { shown } => if s == ParseState::Prop {
            StepView::Finished(Ok(props))
        } else if s == ParseState::InProp {
            StepView::Continue(ParseState::Prop, props)
        } else {
            StepView::Finished(Err(unexpected_message(shown, s)))
        },
        RequestEventView::EndDocument { shown } => StepView::Finished(Err(unexpected_message(shown, s))),
        RequestEventView::Other { shown } => StepView::Finished(Err(unexpected_message(shown, s))),
    }
}

/// Where a parser stands after a sequence of events, starting from a fresh parser.
pub enum RunView {
    Running(ParseState, Seq<XmlNameView>),
    Finished(Result<Seq<XmlNameView>, Seq<char>>),
}

/// The parser fed `events` in order from the start; once finished, later events are not read.
pub open spec fn run_spec(events: Seq<RequestEventView>) -> RunView
    decreases events.len(),
{
    if events.len() == 0 {
        RunView::Running(ParseState::Start, Seq::empty())
    } else {
        match run_spec(events.drop_last()) {
            RunView::Finished(r) => RunView::Finished(r),
            RunView::Running(s, props) => match step_spec(s, props, events.last()) {
                StepView::Continue(s2, props2) => RunView::Running(s2, props2),
                StepView::Finished(r) => RunView::Finished(r),
            },
        }
    }
}

/// The views of a sequence of property names.
pub open spec fn name_views(names: Seq<XmlName>) -> Seq<XmlNameView> {
    names.map_values(|n: XmlName| n@)
}

/// The views of a sequence of request events.
pub open spec fn event_views(events: Seq<RequestEvent>) -> Seq<RequestEventView> {
    events.map_values(|e: RequestEvent| e@)
}

/// The views of a parse result.
pub open spec fn result_view(r: Result<Vec<XmlName>, String>) -> Result<Seq<XmlNameView>, Seq<char>> {
    match r {
        Ok(names) => Ok(name_views(names@)),
        Err(msg) => Err(msg@),
    }
}

/// Once the parser has finished, the events after that point do not change its answer.
pub proof fn lemma_finished_is_final(events: Seq<RequestEventView>, n: int)
    requires
        0 <= n <= events.len(),
        run_spec(events.take(n)) is Finished,
    ensures
        run_spec(events) == run_spec(events.take(n)),
    decreases events.len() - n,
{
    if n < events.len() {
        assert(events.take(n + 1).drop_last() =~= events.take(n));
        lemma_finished_is_final(events, n + 1);
    } else {
        assert(events.take(n) =~= events);
    }
}

/// A PROPFIND body parser that has not finished yet.
#[derive(Debug)]
pub struct PropfindParser {
    state: ParseState,
    props: Vec<XmlName>,
}

/// The outcome of [`PropfindParser::step`].
#[derive(Debug)]
pub enum Step {
    /// The parser needs the next event.
    Continue(PropfindParser),
    /// The body was read to its end: the requested names, or why the body is refused.
    Finished(Result<Vec<XmlName>, String>),
}

impl PropfindParser {
    /// The state the parser is in.
    pub closed spec fn state_spec(&self) -> ParseState {
        self.state
    }

    /// The property names collected so far.
    pub closed spec fn props_spec(&self) -> Seq<XmlNameView> {
        name_views(self.props@)
    }

    /// A parser that has read nothing.
    pub fn new() -> (p: PropfindParser)
        ensures
            p.state_spec() == ParseState::Start,
            p.props_spec() == Seq::<XmlNameView>::empty(),
    {
        let p = PropfindParser { state: ParseState::Start, props: Vec::new() };
        assert(name_views(p.props@) =~= Seq::<XmlNameView>::empty());
        p
    }

    /// The state this parser is in.
    pub fn state(&self) -> (s: ParseState)
        ensures
            s == self.state_spec(),
    {
        self.state
    }

    /// Feeds the next event of the request body.
    pub fn step(self, ev: RequestEvent) -> (r: Step)
        ensures
            match step_spec(self.state_spec(), self.props_spec(), ev@) {
                StepView::Continue(s, props) => r matches Step::Continue(p) && p.state_spec() == s
                    && p.props_spec() == props,
                StepView::Finished(res) => r matches Step::Finished(out) && result_view(out) == res,
            },
    {
        let PropfindParser { state, props } = self;
        let ghost old_props = name_views(props@);
        match ev {
            RequestEvent::ReadError { message } => Step::Finished(Err(message)),
            RequestEvent::StartDocument { shown } => {
                if state == ParseState::Start {
                    Step::Continue(PropfindParser { state, props })
                } else {
                    Step::Finished(Err(unexpected(shown, state)))
                }
            },
            RequestEvent::StartElement { name, shown } => {
                if state == ParseState::Start && crate::xml_model::text_is(&name.local_name, "propfind") {
                    Step::Continue(PropfindParser { state: ParseState::PropFind, props })
                } else if state == ParseState::PropFind && crate::xml_model::text_is(
                    &name.local_name,
                    "prop",
                ) {
                    Step::Continue(PropfindParser { state: ParseState::Prop, props })
                } else if state == ParseState::Prop {
                    let ghost n = name@;
                    let mut props = props;
                    props.push(name);
                    assert(name_views(props@) =~= old_props.push(n));
                    Step::Continue(PropfindParser { state: ParseState::InProp, props })
                } else {
                    Step::Finished(Err(unexpected(shown, state)))
                }
            },
            RequestEvent::EndElement { shown } => {
                if state == ParseState::Prop {
                    Step::Finished(Ok(props))
                } else if state == ParseState::InProp {
                    Step::Continue(PropfindParser { state: ParseState::Prop, props })
                } else {
                    Step::Finished(Err(unexpected(shown, state)))
                }
            },
            RequestEvent::EndDocument { shown } => Step::Finished(Err(unexpected(shown, state))),
            RequestEvent::Other { shown } => Step::Finished(Err(unexpected(shown, state))),
        }
    }
}

/// Feeds `events` in order to a fresh parser; the parser's answer once it has
/// one, `None` when the events run out before it has.
pub fn parse_propfind_events(events: Vec<RequestEvent>) -> (r: Option<Result<Vec<XmlName>, String>>)
    ensures
        match run_spec(event_views(events@)) {
            RunView::Running(..) => r is None,
            RunView::Finished(res) => r matches Some(out) && result_view(out) == res,
        },
{
    let ghost all = event_views(events@);
    let mut parser = PropfindParser::new();
    assert(all.take(0) =~= Seq::<RequestEventView>::empty());
    for ev in it: events.into_iter()
        invariant
            it.seq() == events@,
            all == event_views(events@),
            run_spec(all.take(it.index() as int)) == RunView::Running(parser.state_spec(), parser.props_spec()),
    {
        let ghost k = it.index() as int;
        assert(all.take(k + 1).drop_last() =~= all.take(k));
        assert(all.take(k + 1).last() == ev@);
        match parser.step(ev) {
            Step::Continue(p) => {
                parser = p;
            },
            Step::Finished(out) => {
                proof { lemma_finished_is_final(all, k + 1); }
                return Some(out);
            },
        }
    }
    assert(all.take(all.len() as int) =~= all);
    None
}

/// The events that xml-rs's `EventReader`, configured with `trim_whitespace`,
/// yields for a request body, up to and including the first error or end of
/// document, each with its `Debug` text (an error with its `Display` text).
pub uninterp spec fn xml_rs_request_events(body: Seq<u8>) -> Seq<RequestEventView>;

/// Whether an event ends what the reader yields: an error or the end of the document.
pub open spec fn is_final_event(e: RequestEventView) -> bool {
    e is ReadError || e is EndDocument
}

/// Reads a request body with xml-rs: `ParserConfig::new().trim_whitespace(true)`,
/// `create_reader`, and its `Events` iterator, each event converted to a
/// [`RequestEvent`]. The events are `xml_rs_request_events` of the body. The
/// iterator stops right after the first error or end of document, so the
/// last event is one of those.
#[verifier::external_body]
fn read_request_events(body: &[u8]) -> (events: Vec<RequestEvent>)
    ensures
        event_views(events@) == xml_rs_request_events(body@),
        events@.len() >= 1,
        is_final_event(event_views(events@).last()),
{
    ParserConfig::new().trim_whitespace(true).create_reader(body).into_iter().map(|ev| match ev {
        Err(e) => RequestEvent::ReadError { message: e.to_string() },
        Ok(ev) => {
            let shown = format!("{:?}", ev);
            match ev {
                ReaderEvent::StartDocument { .. } => RequestEvent::StartDocument { shown },
                ReaderEvent::StartElement { name, .. } => RequestEvent::StartElement { shown,
                    name: XmlName { local_name: name.local_name, namespace: name.namespace, prefix: name.prefix } },
                ReaderEvent::EndElement { .. } => RequestEvent::EndElement { shown },
                ReaderEvent::EndDocument => RequestEvent::EndDocument { shown },
                _ => RequestEvent::Other { shown },
            }
        },
    }).collect()
}

/// A sequence that ends with an error or the end of the document brings the
/// parser to an answer.
pub proof fn lemma_final_event_answers(events: Seq<RequestEventView>)
    requires
        events.len() >= 1,
        is_final_event(events.last()),
    ensures
        run_spec(events) is Finished,
{
    lemma_run_push(events.drop_last(), events.last());
    assert(events.drop_last().push(events.last()) =~= events);
}

/// The properties a PROPFIND request body asks for, read with xml-rs; or why
/// the body is refused: the reader's error message, or the unexpected event.
pub fn parse_propfind(body: &[u8]) -> (r: Result<Vec<XmlName>, String>)
    ensures
        run_spec(xml_rs_request_events(body@)) matches RunView::Finished(res) && result_view(r) == res,
{
    let events = read_request_events(body);
    proof {
        lemma_final_event_answers(event_views(events@));
    }
    match parse_propfind_events(events) {
        Some(r) => r,
        None => Err(String::new()),
    }
}

/// The label of a state in error messages.
fn state_label(s: ParseState) -> (r: &'static str)
    ensures
        r@ == state_name(s),
{
    match s {
        ParseState::Start => "Start",
        ParseState::PropFind => "PropFind",
        ParseState::Prop => "Prop",
        ParseState::InProp => "InProp",
    }
}

/// The message refusing an event that the grammar does not allow in a state.
fn unexpected(shown: String, s: ParseState) -> (r: String)
    ensures
        r@ == unexpected_message(shown@, s),
{
    let mut m: String = "Unexpected event ".to_owned();
    m.append(shown.as_str());
    m.append(" during state ");
    m.append(state_label(s));
    m
}

/// Feeding one more event steps from where the parser stood.
pub proof fn lemma_run_push(events: Seq<RequestEventView>, e: RequestEventView)
    ensures
        run_spec(events.push(e)) == match run_spec(events) {
            RunView::Finished(r) => RunView::Finished(r),
            RunView::Running(s, props) => match step_spec(s, props, e) {
                StepView::Continue(s2, props2) => RunView::Running(s2, props2),
                StepView::Finished(r) => RunView::Finished(r),
            },
        },
{
    assert(events.push(e).drop_last() =~= events);
}

/// The events of the empty elements `<name/>` for each of `names`, in order.
pub open spec fn prop_element_events(names: Seq<XmlNameView>, shown: Seq<char>) -> Seq<RequestEventView>
    decreases names.len(),
{
    if names.len() == 0 {
        Seq::empty()
    } else {
        prop_element_events(names.drop_last(), shown) + seq![
            RequestEventView::StartElement { name: names.last(), shown },
            RequestEventView::EndElement { shown },
        ]
    }
}

/// The events of the start of a request body, up to and including `<prop>`.
pub open spec fn request_head(root: XmlNameView, prop: XmlNameView, shown: Seq<char>) -> Seq<RequestEventView> {
    seq![
        RequestEventView::StartDocument { shown },
        RequestEventView::StartElement { name: root, shown },
        RequestEventView::StartElement { name: prop, shown },
    ]
}

/// The events of `<propfind><prop><name1/>...<nameN/></prop>`.
pub open spec fn request_events(root: XmlNameView, prop: XmlNameView, names: Seq<XmlNameView>, shown: Seq<char>) -> Seq<RequestEventView> {
    request_head(root, prop, shown) + prop_element_events(names, shown) + seq![RequestEventView::EndElement { shown }]
}

/// After `<propfind><prop>` and some property elements, the parser waits
/// inside `<prop>` with exactly those properties collected.
proof fn lemma_running_in_prop(root: XmlNameView, prop: XmlNameView, names: Seq<XmlNameView>, shown: Seq<char>)
    requires
        root.local_name == "propfind"@,
        prop.local_name == "prop"@,
    ensures
        run_spec(request_head(root, prop, shown) + prop_element_events(names, shown)) == RunView::Running(
            ParseState::Prop,
            names,
        ),
    decreases names.len(),
{
    let head = request_head(root, prop, shown);
    if names.len() == 0 {
        let e0: Seq<RequestEventView> = Seq::empty();
        lemma_run_push(e0, head[0]);
        lemma_run_push(e0.push(head[0]), head[1]);
        lemma_run_push(e0.push(head[0]).push(head[1]), head[2]);
        assert(e0.push(head[0]).push(head[1]).push(head[2]) =~= head);
        assert(head + prop_element_events(names, shown) =~= head);
        assert(names =~= Seq::<XmlNameView>::empty());
    } else {
        let init = names.drop_last();
        lemma_running_in_prop(root, prop, init, shown);
        let before = head + prop_element_events(init, shown);
        let s = RequestEventView::StartElement { name: names.last(), shown };
        let e = RequestEventView::EndElement { shown };
        lemma_run_push(before, s);
        lemma_run_push(before.push(s), e);
        assert(head + prop_element_events(names, shown) =~= before.push(s).push(e));
        assert(init.push(names.last()) =~= names);
    }
}

/// A request body of the expected shape asks for exactly the properties it
/// lists inside `<prop>`, in order.
pub proof fn lemma_request_lists_props(root: XmlNameView, prop: XmlNameView, names: Seq<XmlNameView>, shown: Seq<char>)
    requires
        root.local_name == "propfind"@,
        prop.local_name == "prop"@,
    ensures
        run_spec(request_events(root, prop, names, shown)) == RunView::Finished(Ok(names)),
{
    lemma_running_in_prop(root, prop, names, shown);
    let body = request_head(root, prop, shown) + prop_element_events(names, shown);
    let e = RequestEventView::EndElement { shown };
    lemma_run_push(body, e);
    assert(request_events(root, prop, names, shown) =~= body.push(e));
}

/// A reader failure before the parser has answered is the answer.
pub proof fn lemma_read_error_answers(events: Seq<RequestEventView>, message: Seq<char>)
    requires
        run_spec(events) is Running,
    ensures
        run_spec(events.push(RequestEventView::ReadError { message })) == RunView::Finished(
            Err::<Seq<XmlNameView>, Seq<char>>(message),
        ),
{
    lemma_run_push(events, RequestEventView::ReadError { message });
}

/// A body whose root element is not `propfind` is refused at that element.
pub proof fn lemma_wrong_root_refused(doc: Seq<char>, root: XmlNameView, shown: Seq<char>)
    requires
        root.local_name != "propfind"@,
    ensures
        run_spec(seq![RequestEventView::StartDocument { shown: doc }, RequestEventView::StartElement { name: root, shown }])
            == RunView::Finished(Err::<Seq<XmlNameView>, Seq<char>>(unexpected_message(shown, ParseState::Start))),
{
    let e0: Seq<RequestEventView> = Seq::empty();
    let a = RequestEventView::StartDocument { shown: doc };
    let b = RequestEventView::StartElement { name: root, shown };
    lemma_run_push(e0, a);
    lemma_run_push(e0.push(a), b);
    assert(e0.push(a).push(b) =~= seq![a, b]);
}

/// The grammar, state by state: a document start only before the root; a
/// start element named `propfind` only as the root and named `prop` only as
/// its first child, any element inside `prop`; an end only inside `prop`
/// (which answers) or inside a property. Everything else, in each state, is
/// refused with the message naming the event and the state.
pub proof fn lemma_step_refusals(s: ParseState, props: Seq<XmlNameView>, name: XmlNameView, shown: Seq<char>)
    ensures
        s != ParseState::Start ==> step_spec(s, props, RequestEventView::StartDocument { shown }) == StepView::Finished(
            Err(unexpected_message(shown, s)),
        ),
        s == ParseState::Start && name.local_name != "propfind"@ ==> step_spec(
            s,
            props,
            RequestEventView::StartElement { name, shown },
        ) == StepView::Finished(Err(unexpected_message(shown, s))),
        s == ParseState::PropFind && name.local_name != "prop"@ ==> step_spec(
            s,
            props,
            RequestEventView::StartElement { name, shown },
        ) == StepView::Finished(Err(unexpected_message(shown, s))),
        s == ParseState::InProp ==> step_spec(s, props, RequestEventView::StartElement { name, shown })
            == StepView::Finished(Err(unexpected_message(shown, s))),
        (s == ParseState::Start || s == ParseState::PropFind) ==> step_spec(
            s,
            props,
            RequestEventView::EndElement { shown },
        ) == StepView::Finished(Err(unexpected_message(shown, s))),
        step_spec(s, props, RequestEventView::Other { shown }) == StepView::Finished(Err(unexpected_message(shown, s))),
        step_spec(s, props, RequestEventView::EndDocument { shown }) == StepView::Finished(
            Err(unexpected_message(shown, s)),
        ),
{
}

/// The grammar's accepting steps: inside `prop` a start element of any name
/// is collected and an end answers with what was collected.
pub proof fn lemma_step_accepts(props: Seq<XmlNameView>, name: XmlNameView, shown: Seq<char>)
    ensures
        step_spec(ParseState::Prop, props, RequestEventView::StartElement { name, shown }) == StepView::Continue(
            ParseState::InProp,
            props.push(name),
        ),
        step_spec(ParseState::Prop, props, RequestEventView::EndElement { shown }) == StepView::Finished(
            Ok::<Seq<XmlNameView>, Seq<char>>(props),
        ),
        step_spec(ParseState::InProp, props, RequestEventView::EndElement { shown }) == StepView::Continue(
            ParseState::Prop,
            props,
        ),
{
}

/// A `propfind` element whose first child is not `prop` (such as `allprop`)
/// is refused at that child.
pub proof fn lemma_first_child_not_prop_refused(doc: Seq<char>, root: XmlNameView, child: XmlNameView, shown: Seq<char>)
    requires
        root.local_name == "propfind"@,
        child.local_name != "prop"@,
    ensures
        run_spec(seq![
            RequestEventView::StartDocument { shown: doc },
            RequestEventView::StartElement { name: root, shown },
            RequestEventView::StartElement { name: child, shown },
        ]) == RunView::Finished(Err::<Seq<XmlNameView>, Seq<char>>(unexpected_message(shown, ParseState::PropFind))),
{
    let e0: Seq<RequestEventView> = Seq::empty();
    let a = RequestEventView::StartDocument { shown: doc };
    let b = RequestEventView::StartElement { name: root, shown };
    let c = RequestEventView::StartElement { name: child, shown };
    lemma_run_push(e0, a);
    lemma_run_push(e0.push(a), b);
    lemma_run_push(e0.push(a).push(b), c);
    assert(e0.push(a).push(b).push(c) =~= seq![a, b, c]);
}

} // verus!
