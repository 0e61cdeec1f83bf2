//! The multistatus answer to PROPFIND: one `D:response` per listed path, with
//! the live properties that the server knows in a `200 OK` propstat and the
//! others echoed back in a `404 Not Found` propstat.

use vstd::prelude::*;
use crate::xml_model::{lemma_flat_well_nested, lemma_well_nested_concat, lemma_well_nested_wrap, text_is, well_formed_document, well_nested, DeclVersion, NsDecl, XmlName, XmlNameView, XmlOut, XmlOutView, out_views};
use crate::propfind_request::name_views;
use crate::decimal::{decimal, decimal_spec};
use crate::mime::{content_type, content_type_spec};
use crate::file_time::{formattable, rfc3339_spec, tm_rfc3339, FileTime};

verus! {

/// What the file system says of one listed path, as far as the requested
/// properties need it.
#[derive(Clone, Copy, Debug)]
pub struct FileFacts {
    /// The path is a file (not a directory), which a `resourcetype` reports.
    pub is_file: bool,
    /// Creation time, which a `creationdate` reports.
    pub created: FileTime,
    /// Modification time, which a `getlastmodified` reports.
    pub modified: FileTime,
    /// Length in bytes, which a `getcontentlength` reports.
    pub length: u64,
    /// The contents look binary; `getcontenttype` falls back on it when no type is guessed.
    pub binary: bool,
}

/// The mathematical value of [`FileFacts`].
pub struct FileFactsView {
    pub is_file: bool,
    pub created: FileTime,
    pub modified: FileTime,
    pub length: nat,
    pub binary: bool,
}

impl View for FileFacts {
    type V = FileFactsView;

    open spec fn view(&self) -> FileFactsView {
        FileFactsView {
            is_file: self.is_file,
            created: self.created,
            modified: self.modified,
            length: self.length as nat,
            binary: self.binary,
        }
    }
}

/// The DAV: properties that the server computes itself.
#[derive(Clone, Copy, Debug, PartialEq, Eq, Structural)]
pub enum LiveProp {
    ResourceType,
    CreationDate,
    LastModified,
    ContentLength,
    ContentType,
}

/// The live property a requested name stands for: one of the five names in the `DAV:` namespace.
pub open spec fn live_prop_spec(n: XmlNameView) -> Option<LiveProp> {
    if n.namespace == Some("DAV:"@) {
        if n.local_name == "resourcetype"@ {
            Some(LiveProp::ResourceType)
        } else if n.local_name == "creationdate"@ {
            Some(LiveProp::CreationDate)
        } else if n.local_name == "getlastmodified"@ {
            Some(LiveProp::LastModified)
        } else if n.local_name == "getcontentlength"@ {
            Some(LiveProp::ContentLength)
        } else if n.local_name == "getcontenttype"@ {
            Some(LiveProp::ContentType)
        } else {
            None
        }
    } else {
        None
    }
}

/// The live property a requested name stands for, if any.
pub fn live_prop(n: &XmlName) -> (r: Option<LiveProp>)
    ensures
        r == live_prop_spec(n@),
{
    let in_dav = match &n.namespace {
        Some(ns) => text_is(ns, "DAV:"),
        None => false,
    };
    if !in_dav {
        None
    } else if text_is(&n.local_name, "resourcetype") {
        Some(LiveProp::ResourceType)
    } else if text_is(&n.local_name, "creationdate") {
        Some(LiveProp::CreationDate)
    } else if text_is(&n.local_name, "getlastmodified") {
        Some(LiveProp::LastModified)
    } else if text_is(&n.local_name, "getcontentlength") {
        Some(LiveProp::ContentLength)
    } else if text_is(&n.local_name, "getcontenttype") {
        Some(LiveProp::ContentType)
    } else {
        None
    }
}

/// An element name with the `D` prefix that the response binds to `DAV:`.
pub open spec fn dav(local: Seq<char>) -> XmlNameView {
    XmlNameView { local_name: local, namespace: None, prefix: Some("D"@) }
}

/// The start of an element that declares no namespace.
pub open spec fn start(n: XmlNameView) -> XmlOutView {
    XmlOutView::StartElement { name: n, declare: None }
}

/// Character data.
pub open spec fn text(t: Seq<char>) -> XmlOutView {
    XmlOutView::Characters { text: t }
}

/// The end of the innermost open element.
pub open spec fn end() -> XmlOutView {
    XmlOutView::EndElement
}

/// `<D:local>t</D:local>`.
pub open spec fn text_element(local: Seq<char>, t: Seq<char>) -> Seq<XmlOutView> {
    seq![start(dav(local)), text(t), end()]
}

/// Whether the times that reporting `n` writes can be written: a
/// `creationdate` needs the creation time, a `getlastmodified` the
/// modification time, in range of [`formattable`].
pub open spec fn times_formattable_for(n: XmlNameView, f: FileFactsView) -> bool {
    &&& live_prop_spec(n) == Some(LiveProp::CreationDate) ==> formattable(f.created)
    &&& live_prop_spec(n) == Some(LiveProp::LastModified) ==> formattable(f.modified)
}

/// Whether the times that reporting all of `props` writes can be written.
#[verifier::opaque]
pub open spec fn times_formattable(props: Seq<XmlNameView>, f: FileFactsView) -> bool {
    forall|i: int| 0 <= i < props.len() ==> times_formattable_for(#[trigger] props[i], f)
}

/// The events that report one live property of a path.
pub open spec fn live_prop_events(p: LiveProp, path: Seq<char>, f: FileFactsView) -> Seq<XmlOutView> {
    match p {
        LiveProp::ResourceType => seq![start(dav("resourcetype"@))] + (if f.is_file {
            Seq::empty()
        } else {
            seq![start(dav("collection"@)), end()]
        }) + seq![end()],
        LiveProp::CreationDate => text_element("creationdate"@, rfc3339_spec(f.created)),
        LiveProp::LastModified => text_element("getlastmodified"@, rfc3339_spec(f.modified)),
        LiveProp::ContentLength => text_element("getcontentlength"@, decimal_spec(f.length)),
        LiveProp::ContentType => text_element("getcontenttype"@, content_type_spec(path, f.binary)),
    }
}

/// The events that report a requested property, if the server knows it.
pub open spec fn prop_events(n: XmlNameView, path: Seq<char>, f: FileFactsView) -> Option<Seq<XmlOutView>> {
    match live_prop_spec(n) {
        Some(p) => Some(live_prop_events(p, path, f)),
        None => None,
    }
}

/// The reports of all known properties among `props`, in request order.
pub open spec fn found_events(props: Seq<XmlNameView>, path: Seq<char>, f: FileFactsView) -> Seq<XmlOutView>
    decreases props.len(),
{
    if props.len() == 0 {
        Seq::empty()
    } else {
        found_events(props.drop_last(), path, f) + match prop_events(props.last(), path, f) {
            Some(evs) => evs,
            None => Seq::empty(),
        }
    }
}

/// The requested properties that the server does not know, in request order.
pub open spec fn failed_props(props: Seq<XmlNameView>) -> Seq<XmlNameView>
    decreases props.len(),
{
    if props.len() == 0 {
        Seq::empty()
    } else {
        failed_props(props.drop_last()) + if live_prop_spec(props.last()) is None {
            seq![props.last()]
        } else {
            Seq::empty()
        }
    }
}

/// The start of the element that echoes a client's property name: a client
/// prefix `D` bound to another namespace than `DAV:` is renamed `U` and bound
/// on the element, so that it does not clash with the response's own `D`.
pub open spec fn client_start(n: XmlNameView) -> XmlOutView {
    match n.namespace {
        Some(ns) => if n.prefix == Some("D"@) && ns != "DAV:"@ {
            XmlOutView::StartElement {
                name: XmlNameView { local_name: n.local_name, namespace: Some(ns), prefix: Some("U"@) },
                declare: Some(("U"@, ns)),
            }
        } else {
            start(n)
        },
        None => start(n),
    }
}

/// The empty elements that echo unknown properties, in order.
pub open spec fn client_events(names: Seq<XmlNameView>) -> Seq<XmlOutView>
    decreases names.len(),
{
    if names.len() == 0 {
        Seq::empty()
    } else {
        client_events(names.drop_last()) + seq![client_start(names.last()), end()]
    }
}

/// The status line of the propstat that reports known properties.
pub open spec fn status_ok() -> Seq<char> {
    "HTTP/1.1 200 OK"@
}

/// The status line of the propstat that lists unknown properties.
pub open spec fn status_not_found() -> Seq<char> {
    "HTTP/1.1 404 Not Found"@
}

/// Everything of a path's response up to and including the start of the first `D:status`.
pub open spec fn response_head(url: Seq<char>, path: Seq<char>, props: Seq<XmlNameView>, f: FileFactsView) -> Seq<XmlOutView> {
    seq![start(dav("response"@)), start(dav("href"@)), text(url), end(), start(dav("propstat"@)), start(dav("prop"@))]
        + found_events(props, path, f) + seq![end(), start(dav("status"@))]
}

/// The `D:response` element for one path. When no requested property is known
/// (or none was requested) the only propstat is a `404` one with an empty
/// `D:prop`; otherwise a `200` propstat with the known properties is followed
/// by a `404` propstat that echoes the unknown ones.
pub open spec fn response_events(url: Seq<char>, path: Seq<char>, props: Seq<XmlNameView>, f: FileFactsView) -> Seq<XmlOutView> {
    let head = response_head(url, path, props, f);
    let failed = failed_props(props);
    if failed.len() >= props.len() {
        head + seq![text(status_not_found()), end(), end(), end()]
    } else {
        head + seq![text(status_ok()), end(), end(), start(dav("propstat"@)), start(dav("prop"@))]
            + client_events(failed) + seq![end(), start(dav("status"@)), text(status_not_found()), end(), end(), end()]
    }
}

/// A `D`-prefixed element name.
fn dav_name(local: &str) -> (n: XmlName)
    ensures
        n@ == dav(local@),
{
    XmlName { local_name: local.to_owned(), namespace: None, prefix: Some("D".to_owned()) }
}

/// Appends one event.
fn push_event(out: &mut Vec<XmlOut>, e: XmlOut)
    ensures
        out_views(final(out)@) == out_views(old(out)@).push(e@),
{
    out.push(e);
    assert(out_views(out@) =~= out_views(old(out)@).push(e@));
}

/// Appends the start of `<D:local>`.
fn push_start(out: &mut Vec<XmlOut>, local: &str)
    ensures
        out_views(final(out)@) == out_views(old(out)@).push(start(dav(local@))),
{
    push_event(out, XmlOut::StartElement { name: dav_name(local), declare: None });
}

/// Appends character data.
fn push_text(out: &mut Vec<XmlOut>, t: String)
    ensures
        out_views(final(out)@) == out_views(old(out)@).push(text(t@)),
{
    push_event(out, XmlOut::Characters { text: t });
}

/// Appends the end of the innermost open element.
fn push_end(out: &mut Vec<XmlOut>)
    ensures
        out_views(final(out)@) == out_views(old(out)@).push(end()),
{
    push_event(out, XmlOut::EndElement);
}

/// Appends `<D:local>t</D:local>`.
fn push_text_element(out: &mut Vec<XmlOut>, local: &str, t: String)
    ensures
        out_views(final(out)@) == out_views(old(out)@) + text_element(local@, t@),
{
    push_start(out, local);
    push_text(out, t);
    push_end(out);
    assert(out_views(final(out)@) =~= out_views(old(out)@) + text_element(local@, t@));
}

/// Writes the report of `prop` for the file at `path` if the server knows the
/// property, and tells whether it did.
pub fn handle_prop_path(out: &mut Vec<XmlOut>, path: &str, prop: &XmlName, facts: &FileFacts) -> (handled: bool)
    requires
        times_formattable_for(prop@, facts@),
    ensures
        handled == (live_prop_spec(prop@) is Some),
        out_views(final(out)@) == out_views(old(out)@) + match prop_events(prop@, path@, facts@) {
            Some(evs) => evs,
            None => Seq::empty(),
        },
{
    match live_prop(prop) {
        None => {
            assert(out_views(old(out)@) + Seq::<XmlOutView>::empty() =~= out_views(old(out)@));
            false
        },
        Some(LiveProp::ResourceType) => {
            push_start(out, "resourcetype");
            if !facts.is_file {
                push_start(out, "collection");
                push_end(out);
            }
            push_end(out);
            assert(out_views(final(out)@) =~= out_views(old(out)@) + live_prop_events(
                LiveProp::ResourceType,
                path@,
                facts@,
            ));
            true
        },
        Some(LiveProp::CreationDate) => {
            push_text_element(out, "creationdate", tm_rfc3339(&facts.created));
            true
        },
        Some(LiveProp::LastModified) => {
            push_text_element(out, "getlastmodified", tm_rfc3339(&facts.modified));
            true
        },
        Some(LiveProp::ContentLength) => {
            push_text_element(out, "getcontentlength", decimal(facts.length));
            true
        },
        Some(LiveProp::ContentType) => {
            push_text_element(out, "getcontenttype", content_type(path, facts.binary));
            true
        },
    }
}

/// Writes the start of the element that echoes a client's property name.
pub fn write_client_prop(out: &mut Vec<XmlOut>, prop: &XmlName)
    ensures
        out_views(final(out)@) == out_views(old(out)@).push(client_start(prop@)),
{
    if let Some(namespace) = &prop.namespace {
        if let Some(prefix) = &prop.prefix {
            if text_is(prefix, "D") && !text_is(namespace, "DAV:") {
                let name = XmlName {
                    local_name: prop.local_name.clone(),
                    namespace: Some(namespace.clone()),
                    prefix: Some("U".to_owned()),
                };
                let declare = NsDecl { prefix: "U".to_owned(), uri: namespace.clone() };
                push_event(out, XmlOut::StartElement { name, declare: Some(declare) });
                return;
            }
        }
    }
    push_event(out, XmlOut::StartElement { name: prop.copy(), declare: None });
}

/// Writes the reports of the known properties among `props` and returns the
/// unknown ones, both in request order.
fn write_found_props(out: &mut Vec<XmlOut>, path: &str, props: &Vec<XmlName>, facts: &FileFacts) -> (failed: Vec<XmlName>)
    requires
        times_formattable(name_views(props@), facts@),
    ensures
        out_views(final(out)@) == out_views(old(out)@) + found_events(name_views(props@), path@, facts@),
        name_views(failed@) == failed_props(name_views(props@)),
{
    let ghost pv = name_views(props@);
    let ghost base = out_views(out@);
    reveal(times_formattable);
    assert(pv.take(0) =~= Seq::<XmlNameView>::empty());
    assert(base + found_events(pv.take(0), path@, facts@) =~= base);
    let mut failed: Vec<XmlName> = Vec::new();
    assert(name_views(failed@) =~= failed_props(pv.take(0)));
    let n = props.len();
    for i in 0..n
        invariant
            n == props@.len(),
            pv == name_views(props@),
            out_views(out@) == base + found_events(pv.take(i as int), path@, facts@),
            name_views(failed@) == failed_props(pv.take(i as int)),
            times_formattable(pv, facts@),
    {
        assert(pv.take(i + 1).drop_last() =~= pv.take(i as int));
        assert(times_formattable_for(pv[i as int], facts@)) by {
            reveal(times_formattable);
        }
        assert(pv.take(i + 1).last() == props@[i as int]@);
        let ghost prev_failed = name_views(failed@);
        if !handle_prop_path(out, path, &props[i], facts) {
            failed.push(props[i].copy());
            assert(name_views(failed@) =~= prev_failed.push(props@[i as int]@));
        } else {
            assert(name_views(failed@) =~= prev_failed + Seq::<XmlNameView>::empty());
        }
        assert(out_views(out@) =~= base + found_events(pv.take(i + 1), path@, facts@));
    }
    assert(pv.take(n as int) =~= pv);
    failed
}

/// Writes the empty elements that echo the unknown properties `failed`.
fn write_failed_props(out: &mut Vec<XmlOut>, failed: &Vec<XmlName>)
    ensures
        out_views(final(out)@) == out_views(old(out)@) + client_events(name_views(failed@)),
{
    let ghost base = out_views(out@);
    let ghost fv = name_views(failed@);
    assert(fv.take(0) =~= Seq::<XmlNameView>::empty());
    assert(base + client_events(fv.take(0)) =~= base);
    let m = failed.len();
    for j in 0..m
        invariant
            m == failed@.len(),
            fv == name_views(failed@),
            out_views(out@) == base + client_events(fv.take(j as int)),
    {
        assert(fv.take(j + 1).drop_last() =~= fv.take(j as int));
        assert(fv.take(j + 1).last() == failed@[j as int]@);
        write_client_prop(out, &failed[j]);
        push_end(out);
        assert(out_views(out@) =~= base + client_events(fv.take(j + 1)));
    }
    assert(fv.take(m as int) =~= fv);
}

/// Writes the `D:response` element for the path at `url` (on disk at `path`),
/// reporting the requested properties `props`.
pub fn handle_propfind_path(out: &mut Vec<XmlOut>, url: &str, path: &str, props: &Vec<XmlName>, facts: &FileFacts)
    requires
        times_formattable(name_views(props@), facts@),
    ensures
        out_views(final(out)@) == out_views(old(out)@) + response_events(url@, path@, name_views(props@), facts@),
{
    let ghost pv = name_views(props@);
    let ghost before = out_views(out@);
    push_start(out, "response");
    push_start(out, "href");
    push_text(out, url.to_owned());
    push_end(out);
    push_start(out, "propstat");
    push_start(out, "prop");
    let failed = write_found_props(out, path, props, facts);
    push_end(out);
    push_start(out, "status");
    assert(out_views(out@) =~= before + response_head(url@, path@, pv, facts@));
    if failed.len() >= props.len() {
        push_text(out, "HTTP/1.1 404 Not Found".to_owned());
        push_end(out);
        push_end(out);
        push_end(out);
        assert(out_views(out@) =~= before + response_events(url@, path@, pv, facts@));
        return;
    }
    push_text(out, "HTTP/1.1 200 OK".to_owned());
    push_end(out);
    push_end(out);
    push_start(out, "propstat");
    push_start(out, "prop");
    write_failed_props(out, &failed);
    push_end(out);
    push_start(out, "status");
    push_text(out, "HTTP/1.1 404 Not Found".to_owned());
    push_end(out);
    push_end(out);
    push_end(out);
    assert(out_views(out@) =~= before + response_events(url@, path@, pv, facts@));
}

/// One path of a PROPFIND answer, in the order the answer lists them.
#[derive(Debug)]
pub struct PropfindEntry {
    /// The URL the response names in `D:href`.
    pub url: String,
    /// Where the path is on disk (after following symbolic links).
    pub path: String,
    /// What the file system says of it.
    pub facts: FileFacts,
}

/// The mathematical value of a [`PropfindEntry`].
pub struct PropfindEntryView {
    pub url: Seq<char>,
    pub path: Seq<char>,
    pub facts: FileFactsView,
}

impl View for PropfindEntry {
    type V = PropfindEntryView;

    open spec fn view(&self) -> PropfindEntryView {
        PropfindEntryView { url: self.url@, path: self.path@, facts: self.facts@ }
    }
}

/// The views of a sequence of entries.
pub open spec fn entry_views(entries: Seq<PropfindEntry>) -> Seq<PropfindEntryView> {
    entries.map_values(|e: PropfindEntry| e@)
}

/// Whether the times that reporting `props` of every entry writes can be written.
pub open spec fn entries_formattable(entries: Seq<PropfindEntryView>, props: Seq<XmlNameView>) -> bool {
    forall|i: int| 0 <= i < entries.len() ==> times_formattable(props, (#[trigger] entries[i]).facts)
}

/// The responses for `entries`, in order.
pub open spec fn entries_events(entries: Seq<PropfindEntryView>, props: Seq<XmlNameView>) -> Seq<XmlOutView>
    decreases entries.len(),
{
    if entries.len() == 0 {
        Seq::empty()
    } else {
        let e = entries.last();
        entries_events(entries.drop_last(), props) + response_events(e.url, e.path, props, e.facts)
    }
}

/// The document declaration of the answer: XML 1.0 in `utf-8`.
pub open spec fn declaration() -> XmlOutView {
    XmlOutView::StartDocument { version: DeclVersion::V1_0, encoding: Some("utf-8"@), standalone: None }
}

/// The start of the root `D:multistatus`, which binds `D` to `DAV:`.
pub open spec fn multistatus_start() -> XmlOutView {
    XmlOutView::StartElement { name: dav("multistatus"@), declare: Some(("D"@, "DAV:"@)) }
}

/// The whole PROPFIND answer: the declaration, then `D:multistatus` holding
/// one response per entry.
pub open spec fn multistatus_events(entries: Seq<PropfindEntryView>, props: Seq<XmlNameView>) -> Seq<XmlOutView> {
    seq![declaration(), multistatus_start()] + entries_events(entries, props) + seq![end()]
}

/// The events of the PROPFIND answer listing `entries` with the properties `props`.
pub fn propfind_multistatus(entries: &Vec<PropfindEntry>, props: &Vec<XmlName>) -> (out: Vec<XmlOut>)
    requires
        entries_formattable(entry_views(entries@), name_views(props@)),
    ensures
        out_views(out@) == multistatus_events(entry_views(entries@), name_views(props@)),
{
    let ghost ev = entry_views(entries@);
    let ghost pv = name_views(props@);
    let mut out: Vec<XmlOut> = Vec::new();
    push_event(
        &mut out,
        XmlOut::StartDocument { version: DeclVersion::V1_0, encoding: Some("utf-8".to_owned()), standalone: None },
    );
    push_event(
        &mut out,
        XmlOut::StartElement {
            name: dav_name("multistatus"),
            declare: Some(NsDecl { prefix: "D".to_owned(), uri: "DAV:".to_owned() }),
        },
    );
    let ghost base = out_views(out@);
    assert(base =~= seq![declaration(), multistatus_start()]);
    assert(ev.take(0) =~= Seq::<PropfindEntryView>::empty());
    assert(base + entries_events(ev.take(0), pv) =~= base);
    let n = entries.len();
    for i in 0..n
        invariant
            n == entries@.len(),
            ev == entry_views(entries@),
            pv == name_views(props@),
            out_views(out@) == base + entries_events(ev.take(i as int), pv),
            entries_formattable(ev, pv),
    {
        assert(ev.take(i + 1).drop_last() =~= ev.take(i as int));
        assert(ev.take(i + 1).last() == entries@[i as int]@);
        let e = &entries[i];
        handle_propfind_path(&mut out, e.url.as_str(), e.path.as_str(), props, &e.facts);
        assert(out_views(out@) =~= base + entries_events(ev.take(i + 1), pv));
    }
    assert(ev.take(n as int) =~= ev);
    push_end(&mut out);
    assert(out_views(out@) =~= multistatus_events(ev, pv));
    out
}

/// `inner` enclosed in the element that `s` starts.
pub open spec fn wrap(s: XmlOutView, inner: Seq<XmlOutView>) -> Seq<XmlOutView> {
    seq![s] + inner + seq![end()]
}

/// Character data alone is well nested.
proof fn lemma_text_well_nested(t: Seq<char>)
    ensures
        well_nested(seq![text(t)]),
{
    lemma_flat_well_nested(seq![text(t)]);
}

/// `<D:local>t</D:local>` is well nested.
proof fn lemma_text_element_well_nested(local: Seq<char>, t: Seq<char>)
    ensures
        well_nested(text_element(local, t)),
        text_element(local, t) == wrap(start(dav(local)), seq![text(t)]),
{
    lemma_text_well_nested(t);
    lemma_well_nested_wrap(start(dav(local)), seq![text(t)]);
    assert(text_element(local, t) =~= wrap(start(dav(local)), seq![text(t)]));
}

/// The report of a live property is well nested.
pub proof fn lemma_live_prop_well_nested(p: LiveProp, path: Seq<char>, f: FileFactsView)
    ensures
        well_nested(live_prop_events(p, path, f)),
{
    match p {
        LiveProp::ResourceType => {
            let inner: Seq<XmlOutView> = if f.is_file {
                Seq::empty()
            } else {
                seq![start(dav("collection"@)), end()]
            };
            lemma_flat_well_nested(Seq::<XmlOutView>::empty());
            if !f.is_file {
                lemma_well_nested_wrap(start(dav("collection"@)), Seq::empty());
                assert(inner =~= wrap(start(dav("collection"@)), Seq::empty()));
            }
            lemma_well_nested_wrap(start(dav("resourcetype"@)), inner);
        },
        LiveProp::CreationDate => lemma_text_element_well_nested("creationdate"@, rfc3339_spec(f.created)),
        LiveProp::LastModified => lemma_text_element_well_nested("getlastmodified"@, rfc3339_spec(f.modified)),
        LiveProp::ContentLength => lemma_text_element_well_nested("getcontentlength"@, decimal_spec(f.length)),
        LiveProp::ContentType => lemma_text_element_well_nested(
            "getcontenttype"@,
            content_type_spec(path, f.binary),
        ),
    }
}

/// The reports of the known properties are well nested.
pub proof fn lemma_found_well_nested(props: Seq<XmlNameView>, path: Seq<char>, f: FileFactsView)
    ensures
        well_nested(found_events(props, path, f)),
    decreases props.len(),
{
    if props.len() == 0 {
        lemma_flat_well_nested(Seq::<XmlOutView>::empty());
    } else {
        lemma_found_well_nested(props.drop_last(), path, f);
        match live_prop_spec(props.last()) {
            Some(p) => lemma_live_prop_well_nested(p, path, f),
            None => lemma_flat_well_nested(Seq::<XmlOutView>::empty()),
        }
        lemma_well_nested_concat(found_events(props.drop_last(), path, f), match prop_events(props.last(), path, f) {
            Some(evs) => evs,
            None => Seq::empty(),
        });
    }
}

/// The echoes of unknown properties are well nested.
pub proof fn lemma_client_events_well_nested(names: Seq<XmlNameView>)
    ensures
        well_nested(client_events(names)),
    decreases names.len(),
{
    lemma_flat_well_nested(Seq::<XmlOutView>::empty());
    if names.len() > 0 {
        lemma_client_events_well_nested(names.drop_last());
        let n = names.last();
        lemma_well_nested_wrap(client_start(n), Seq::empty());
        assert(seq![client_start(n), end()] =~= wrap(client_start(n), Seq::empty()));
        lemma_well_nested_concat(client_events(names.drop_last()), seq![client_start(n), end()]);
    }
}

/// A `D:propstat` holding `prop_inner` in `D:prop` and the status line `status`.
pub open spec fn propstat(prop_inner: Seq<XmlOutView>, status: Seq<char>) -> Seq<XmlOutView> {
    wrap(start(dav("propstat"@)), wrap(start(dav("prop"@)), prop_inner) + wrap(start(dav("status"@)), seq![text(status)]))
}

/// A well-nested `D:prop` content gives a well-nested propstat.
proof fn lemma_propstat_well_nested(prop_inner: Seq<XmlOutView>, status: Seq<char>)
    requires
        well_nested(prop_inner),
    ensures
        well_nested(propstat(prop_inner, status)),
{
    lemma_well_nested_wrap(start(dav("prop"@)), prop_inner);
    lemma_text_well_nested(status);
    lemma_well_nested_wrap(start(dav("status"@)), seq![text(status)]);
    lemma_well_nested_concat(wrap(start(dav("prop"@)), prop_inner), wrap(start(dav("status"@)), seq![text(status)]));
    lemma_well_nested_wrap(start(dav("propstat"@)), wrap(start(dav("prop"@)), prop_inner) + wrap(start(dav("status"@)), seq![text(status)]));
}

/// The shape of a path's response: its `D:href`, then one `404` propstat with
/// an empty `D:prop` when no requested property is known, else a `200`
/// propstat with the known properties' reports and a `404` one echoing the
/// unknown properties.
pub proof fn lemma_response_shape(url: Seq<char>, path: Seq<char>, props: Seq<XmlNameView>, f: FileFactsView)
    ensures
        response_events(url, path, props, f) == wrap(start(dav("response"@)), wrap(start(dav("href"@)), seq![text(url)]) + if failed_props(props).len() >= props.len() {
            propstat(found_events(props, path, f), status_not_found())
        } else {
            propstat(found_events(props, path, f), status_ok()) + propstat(client_events(failed_props(props)), status_not_found())
        }),
{
    let found = found_events(props, path, f);
    let failed = failed_props(props);
    let href = wrap(start(dav("href"@)), seq![text(url)]);
    if failed.len() >= props.len() {
        assert(response_events(url, path, props, f) =~= wrap(start(dav("response"@)), href + propstat(found, status_not_found())));
    } else {
        assert(response_events(url, path, props, f) =~= wrap(start(dav("response"@)), href + propstat(found, status_ok()) + propstat(client_events(failed), status_not_found())));
    }
}

/// Every path's response is well nested: each element it opens is closed,
/// in order, whatever the request and the file.
pub proof fn lemma_response_well_nested(url: Seq<char>, path: Seq<char>, props: Seq<XmlNameView>, f: FileFactsView)
    ensures
        well_nested(response_events(url, path, props, f)),
{
    lemma_response_shape(url, path, props, f);
    let found = found_events(props, path, f);
    let failed = failed_props(props);
    let href = wrap(start(dav("href"@)), seq![text(url)]);
    lemma_text_well_nested(url);
    lemma_well_nested_wrap(start(dav("href"@)), seq![text(url)]);
    lemma_found_well_nested(props, path, f);
    if failed.len() >= props.len() {
        lemma_propstat_well_nested(found, status_not_found());
        lemma_well_nested_concat(href, propstat(found, status_not_found()));
        lemma_well_nested_wrap(start(dav("response"@)), href + propstat(found, status_not_found()));
    } else {
        lemma_propstat_well_nested(found, status_ok());
        lemma_client_events_well_nested(failed);
        lemma_propstat_well_nested(client_events(failed), status_not_found());
        let both = propstat(found, status_ok()) + propstat(client_events(failed), status_not_found());
        lemma_well_nested_concat(propstat(found, status_ok()), propstat(client_events(failed), status_not_found()));
        lemma_well_nested_concat(href, both);
        lemma_well_nested_wrap(start(dav("response"@)), href + both);
    }
}

/// The responses for a sequence of entries are well nested.
pub proof fn lemma_entries_well_nested(entries: Seq<PropfindEntryView>, props: Seq<XmlNameView>)
    ensures
        well_nested(entries_events(entries, props)),
    decreases entries.len(),
{
    if entries.len() == 0 {
        lemma_flat_well_nested(Seq::<XmlOutView>::empty());
    } else {
        let e = entries.last();
        lemma_entries_well_nested(entries.drop_last(), props);
        lemma_response_well_nested(e.url, e.path, props, e.facts);
        lemma_well_nested_concat(entries_events(entries.drop_last(), props), response_events(e.url, e.path, props, e.facts));
    }
}

/// Every PROPFIND answer is a well-formed document: the declaration, then one
/// `D:multistatus` that holds all responses and is closed at the end.
pub proof fn lemma_multistatus_well_formed(entries: Seq<PropfindEntryView>, props: Seq<XmlNameView>)
    ensures
        well_formed_document(multistatus_events(entries, props)),
{
    lemma_entries_well_nested(entries, props);
    lemma_well_nested_wrap(multistatus_start(), entries_events(entries, props));
    assert(multistatus_events(entries, props).drop_first() =~= wrap(multistatus_start(), entries_events(entries, props)));
}

/// The requested properties that the server does not know.
pub open spec fn unknown(n: XmlNameView) -> bool {
    live_prop_spec(n) is None
}

/// The properties echoed as unknown are exactly the requested ones that the
/// server does not know, in request order.
pub proof fn lemma_failed_props_filter(props: Seq<XmlNameView>)
    ensures
        failed_props(props) == props.filter(|n: XmlNameView| unknown(n)),
    decreases props.len(),
{
    reveal_with_fuel(Seq::filter, 1);
    if props.len() > 0 {
        lemma_failed_props_filter(props.drop_last());
        if unknown(props.last()) {
            assert(failed_props(props) =~= props.drop_last().filter(|n: XmlNameView| unknown(n)).push(props.last()));
        } else {
            assert(failed_props(props) =~= props.drop_last().filter(|n: XmlNameView| unknown(n)));
        }
    }
}

/// No property is echoed twice or invented: at most as many are echoed as were
/// requested, and exactly as many when none of them is known.
pub proof fn lemma_failed_props_count(props: Seq<XmlNameView>)
    ensures
        failed_props(props).len() <= props.len(),
        failed_props(props).len() == props.len() <==> forall|i: int| 0 <= i < props.len() ==> unknown(#[trigger] props[i]),
    decreases props.len(),
{
    if props.len() > 0 {
        let init = props.drop_last();
        lemma_failed_props_count(init);
        if forall|i: int| 0 <= i < props.len() ==> unknown(#[trigger] props[i]) {
            assert forall|i: int| 0 <= i < init.len() implies unknown(#[trigger] init[i]) by {
                assert(init[i] == props[i]);
            }
            assert(unknown(props[props.len() - 1]));
        }
        if failed_props(props).len() == props.len() {
            assert forall|i: int| 0 <= i < props.len() implies unknown(#[trigger] props[i]) by {
                if i < props.len() - 1 {
                    assert(init[i] == props[i]);
                }
            }
        }
    }
}

/// When no requested property is known, nothing is reported as found.
pub proof fn lemma_found_empty(props: Seq<XmlNameView>, path: Seq<char>, f: FileFactsView)
    requires
        forall|i: int| 0 <= i < props.len() ==> unknown(#[trigger] props[i]),
    ensures
        found_events(props, path, f) == Seq::<XmlOutView>::empty(),
    decreases props.len(),
{
    if props.len() > 0 {
        let init = props.drop_last();
        assert forall|i: int| 0 <= i < init.len() implies unknown(#[trigger] init[i]) by {
            assert(init[i] == props[i]);
        }
        lemma_found_empty(init, path, f);
        assert(unknown(props[props.len() - 1]));
        assert(found_events(props, path, f) =~= Seq::<XmlOutView>::empty());
    }
}

/// A path none of whose requested properties is known (or for which none is
/// requested) is answered with its `D:href` and a single `404` propstat whose
/// `D:prop` is empty.
pub proof fn lemma_all_unknown_response(url: Seq<char>, path: Seq<char>, props: Seq<XmlNameView>, f: FileFactsView)
    requires
        forall|i: int| 0 <= i < props.len() ==> unknown(#[trigger] props[i]),
    ensures
        response_events(url, path, props, f) == wrap(start(dav("response"@)), wrap(start(dav("href"@)), seq![text(url)])
            + propstat(Seq::empty(), status_not_found())),
{
    lemma_failed_props_count(props);
    lemma_found_empty(props, path, f);
    lemma_response_shape(url, path, props, f);
}

/// A path with at least one known requested property is answered with a
/// `200` propstat reporting the known ones, then a `404` propstat echoing the
/// unknown ones.
pub proof fn lemma_some_known_response(url: Seq<char>, path: Seq<char>, props: Seq<XmlNameView>, f: FileFactsView, k: int)
    requires
        0 <= k < props.len(),
        !unknown(props[k]),
    ensures
        response_events(url, path, props, f) == wrap(start(dav("response"@)), wrap(start(dav("href"@)), seq![text(url)])
            + (propstat(found_events(props, path, f), status_ok()) + propstat(
            client_events(props.filter(|n: XmlNameView| unknown(n))),
            status_not_found(),
        ))),
{
    lemma_failed_props_count(props);
    lemma_failed_props_filter(props);
    lemma_response_shape(url, path, props, f);
}

/// The echo of a client's property never uses the response's own prefix `D`
/// for another namespace than `DAV:`.
pub proof fn lemma_client_prefix_never_clashes(n: XmlNameView)
    ensures
        client_start(n) matches XmlOutView::StartElement { name, .. } && (name.prefix == Some("D"@) ==> (
        name.namespace is None || name.namespace == Some("DAV:"@))),
{
    reveal_strlit("U");
    reveal_strlit("D");
    assert("U"@[0] != "D"@[0]);
    assert("U"@ != "D"@);
}

/// The responses for two runs of entries are those of the first run, then
/// those of the second.
pub proof fn lemma_entries_concat(a: Seq<PropfindEntryView>, b: Seq<PropfindEntryView>, props: Seq<XmlNameView>)
    ensures
        entries_events(a + b, props) == entries_events(a, props) + entries_events(b, props),
    decreases b.len(),
{
    if b.len() == 0 {
        assert(a + b =~= a);
        assert(entries_events(a, props) + entries_events(b, props) =~= entries_events(a, props));
    } else {
        assert((a + b).drop_last() =~= a + b.drop_last());
        assert((a + b).last() == b.last());
        lemma_entries_concat(a, b.drop_last(), props);
        assert(entries_events(a + b, props) =~= entries_events(a, props) + entries_events(b, props));
    }
}

/// Listing more entries adds exactly their responses, in order, just before
/// the end of `D:multistatus`, and changes nothing else of the answer: the
/// answer for a deeper listing is the shallower one with the responses of the
/// entries it adds.
pub proof fn lemma_more_entries(first: Seq<PropfindEntryView>, more: Seq<PropfindEntryView>, props: Seq<XmlNameView>)
    ensures
        multistatus_events(first + more, props) == multistatus_events(first, props).drop_last() + entries_events(more, props)
            + seq![end()],
{
    lemma_entries_concat(first, more, props);
    assert(multistatus_events(first, props).drop_last() =~= seq![declaration(), multistatus_start()] + entries_events(first, props));
    assert(multistatus_events(first + more, props) =~= multistatus_events(first, props).drop_last() + entries_events(more, props)
        + seq![end()]);
}

/// Nothing requested, nothing reported; and each requested property adds its
/// report when the server knows it and nothing otherwise, whatever was
/// requested before it (known or not).
pub proof fn lemma_found_events_step(props: Seq<XmlNameView>, n: XmlNameView, path: Seq<char>, f: FileFactsView)
    ensures
        found_events(Seq::empty(), path, f) == Seq::<XmlOutView>::empty(),
        live_prop_spec(n) matches Some(p) ==> found_events(props.push(n), path, f) == found_events(props, path, f)
            + live_prop_events(p, path, f),
        live_prop_spec(n) is None ==> found_events(props.push(n), path, f) == found_events(props, path, f),
{
    assert(props.push(n).drop_last() =~= props);
    assert(props.push(n).last() == n);
    assert(found_events(props, path, f) + Seq::<XmlOutView>::empty() =~= found_events(props, path, f));
}

/// Each requested property the server does not know is echoed, whatever was
/// requested before it, and known ones are not.
pub proof fn lemma_failed_props_step(props: Seq<XmlNameView>, n: XmlNameView)
    ensures
        failed_props(Seq::empty()) == Seq::<XmlNameView>::empty(),
        live_prop_spec(n) is None ==> failed_props(props.push(n)) == failed_props(props).push(n),
        live_prop_spec(n) is Some ==> failed_props(props.push(n)) == failed_props(props),
{
    assert(props.push(n).drop_last() =~= props);
    assert(failed_props(props) + seq![n] =~= failed_props(props).push(n));
    assert(failed_props(props) + Seq::<XmlNameView>::empty() =~= failed_props(props));
}

/// The echo of unknown properties is one empty element per name, in order:
/// the start that `client_start` gives for the name, then its end.
pub proof fn lemma_client_events_shape(names: Seq<XmlNameView>)
    ensures
        client_events(names).len() == 2 * names.len(),
        forall|i: int| 0 <= i < names.len() ==> client_events(names)[2 * i] == client_start(#[trigger] names[i])
            && client_events(names)[2 * i + 1] == end(),
    decreases names.len(),
{
    if names.len() > 0 {
        let init = names.drop_last();
        lemma_client_events_shape(init);
        assert forall|i: int| 0 <= i < names.len() implies client_events(names)[2 * i] == client_start(#[trigger] names[i])
            && client_events(names)[2 * i + 1] == end() by {
            if i < names.len() - 1 {
                assert(init[i] == names[i]);
            }
        }
    }
}

} // verus!
