//! The XML vocabulary that the handler reads and writes: qualified names,
//! the events pulled from a request body, and the events of a response document.

use vstd::prelude::*;

verus! {

/// A qualified XML name, as xml-rs reports it: local part, namespace URI and prefix.
#[derive(Debug)]
pub struct XmlName {
    pub local_name: String,
    pub namespace: Option<String>,
    pub prefix: Option<String>,
}

/// The mathematical value of an [`XmlName`].
pub struct XmlNameView {
    pub local_name: Seq<char>,
    pub namespace: Option<Seq<char>>,
    pub prefix: Option<Seq<char>>,
}

/// The characters of an optional string.
pub open spec fn opt_chars(o: Option<String>) -> Option<Seq<char>> {
    match o {
        Some(s) => Some(s@),
        None => None,
    }
}

impl View for XmlName {
    type V = XmlNameView;

    open spec fn view(&self) -> XmlNameView {
        XmlNameView {
            local_name: self.local_name@,
            namespace: opt_chars(self.namespace),
            prefix: opt_chars(self.prefix),
        }
    }
}

/// A copy of an optional string with the same characters.
pub fn copy_opt_string(o: &Option<String>) -> (r: Option<String>)
    ensures
        opt_chars(r) == opt_chars(*o),
{
    match o {
        Some(s) => Some(s.clone()),
        None => None,
    }
}

impl XmlName {
    /// A copy of this name.
    pub fn copy(&self) -> (r: XmlName)
        ensures
            r@ == self@,
    {
        XmlName {
            local_name: self.local_name.clone(),
            namespace: copy_opt_string(&self.namespace),
            prefix: copy_opt_string(&self.prefix),
        }
    }
}

/// Whether a string holds exactly the characters of a literal.
pub fn text_is(s: &String, lit: &str) -> (r: bool)
    ensures
        r == (s@ == lit@),
{
    let owned: String = lit.to_owned();
    s.eq(&owned)
}

/// The XML version named in a document declaration.
#[derive(Clone, Copy, Debug, PartialEq, Eq, Structural)]
pub enum DeclVersion {
    V1_0,
    V1_1,
}

/// A namespace binding declared on an element: `xmlns:prefix="uri"`.
#[derive(Debug)]
pub struct NsDecl {
    pub prefix: String,
    pub uri: String,
}

/// One event of a response document, in the order the writer is given them.
#[derive(Debug)]
pub enum XmlOut {
    /// The document declaration.
    StartDocument { version: DeclVersion, encoding: Option<String>, standalone: Option<bool> },
    /// The start of an element, declaring at most one namespace binding.
    StartElement { name: XmlName, declare: Option<NsDecl> },
    /// Character data (escaped by the writer).
    Characters { text: String },
    /// The end of the innermost open element.
    EndElement,
}

/// The mathematical value of an [`XmlOut`].
pub enum XmlOutView {
    StartDocument { version: DeclVersion, encoding: Option<Seq<char>>, standalone: Option<bool> },
    StartElement { name: XmlNameView, declare: Option<(Seq<char>, Seq<char>)> },
    Characters { text: Seq<char> },
    EndElement,
}

/// The characters of an optional namespace binding.
pub open spec fn decl_view(d: Option<NsDecl>) -> Option<(Seq<char>, Seq<char>)> {
    match d {
        Some(d) => Some((d.prefix@, d.uri@)),
        None => None,
    }
}

impl View for XmlOut {
    type V = XmlOutView;

    open spec fn view(&self) -> XmlOutView {
        match self {
            XmlOut::StartDocument { version, encoding, standalone } => XmlOutView::StartDocument {
                version: *version,
                encoding: opt_chars(*encoding),
                standalone: *standalone,
            },
            XmlOut::StartElement { name, declare } => XmlOutView::StartElement {
                name: name@,
                declare: decl_view(*declare),
            },
            XmlOut::Characters { text } => XmlOutView::Characters { text: text@ },
            XmlOut::EndElement => XmlOutView::EndElement,
        }
    }
}

/// The views of a sequence of response events.
pub open spec fn out_views(events: Seq<XmlOut>) -> Seq<XmlOutView> {
    events.map_values(|e: XmlOut| e@)
}

/// How many elements are open after `events`, starting with `open` open
/// elements, if no end event in them closes an element that is not open and
/// none of them is a document declaration; `None` otherwise. Only start and
/// end events change the count.
pub open spec fn depth_from(open: nat, events: Seq<XmlOutView>) -> Option<nat>
    decreases events.len(),
{
    if events.len() == 0 {
        Some(open)
    } else {
        match depth_from(open, events.drop_last()) {
            None => None,
            Some(d) => match events.last() {
                XmlOutView::StartElement { .. } => Some(d + 1),
                XmlOutView::EndElement => if d == 0 {
                    None
                } else {
                    Some((d - 1) as nat)
                },
                XmlOutView::StartDocument { .. } => None,
                XmlOutView::Characters { .. } => Some(d),
            },
        }
    }
}

/// Every element that `events` opens is closed again, in nesting order, no
/// event closes an element that is not open, and no document declaration
/// stands among them.
pub open spec fn well_nested(events: Seq<XmlOutView>) -> bool {
    depth_from(0, events) == Some(0nat)
}

/// A document: a declaration, then a well-nested body.
pub open spec fn well_formed_document(events: Seq<XmlOutView>) -> bool {
    &&& events.len() >= 1
    &&& events[0] is StartDocument
    &&& well_nested(events.drop_first())
}

/// Counting open elements over `a + b` counts over `a`, then over `b`.
pub proof fn lemma_depth_concat(open: nat, a: Seq<XmlOutView>, b: Seq<XmlOutView>)
    ensures
        depth_from(open, a + b) == match depth_from(open, a) {
            Some(d) => depth_from(d, b),
            None => None,
        },
    decreases b.len(),
{
    if b.len() == 0 {
        assert(a + b =~= a);
    } else {
        assert((a + b).drop_last() =~= a + b.drop_last());
        lemma_depth_concat(open, a, b.drop_last());
        if depth_from(open, a) is None {
            lemma_depth_none_stays(open, a + b.drop_last(), b.last());
        }
    }
}

/// A failed count stays failed.
proof fn lemma_depth_none_stays(open: nat, a: Seq<XmlOutView>, e: XmlOutView)
    requires
        depth_from(open, a) is None,
    ensures
        depth_from(open, a.push(e)) is None,
{
    assert(a.push(e).drop_last() =~= a);
}

/// Starting with more open elements shifts the count and never makes it fail.
pub proof fn lemma_depth_shift(open: nat, extra: nat, events: Seq<XmlOutView>)
    requires
        depth_from(open, events) is Some,
    ensures
        depth_from(open + extra, events) == Some(depth_from(open, events).unwrap() + extra),
    decreases events.len(),
{
    if events.len() > 0 {
        lemma_depth_shift(open, extra, events.drop_last());
    }
}

/// A well-nested sequence leaves the count where it was.
pub proof fn lemma_well_nested_keeps(open: nat, events: Seq<XmlOutView>)
    requires
        well_nested(events),
    ensures
        depth_from(open, events) == Some(open),
{
    lemma_depth_shift(0, open, events);
}

/// Well-nested sequences put one after the other are well nested.
pub proof fn lemma_well_nested_concat(a: Seq<XmlOutView>, b: Seq<XmlOutView>)
    requires
        well_nested(a),
        well_nested(b),
    ensures
        well_nested(a + b),
{
    lemma_depth_concat(0, a, b);
}

/// Wrapping a well-nested sequence in a start and an end keeps it well nested.
pub proof fn lemma_well_nested_wrap(s: XmlOutView, inner: Seq<XmlOutView>)
    requires
        s is StartElement,
        well_nested(inner),
    ensures
        well_nested(seq![s] + inner + seq![XmlOutView::EndElement]),
{
    let one: Seq<XmlOutView> = seq![s];
    assert(one.drop_last() =~= Seq::<XmlOutView>::empty());
    assert(depth_from(0, one.drop_last()) == Some(0nat));
    assert(depth_from(0, one) == Some(1nat));
    lemma_depth_concat(0, one, inner);
    lemma_well_nested_keeps(1, inner);
    let fin: Seq<XmlOutView> = seq![XmlOutView::EndElement];
    assert(fin.drop_last() =~= Seq::<XmlOutView>::empty());
    assert(depth_from(1, fin.drop_last()) == Some(1nat));
    assert(depth_from(1, fin) == Some(0nat));
    lemma_depth_concat(0, one + inner, fin);
}

/// Character data alone is well nested.
pub proof fn lemma_flat_well_nested(events: Seq<XmlOutView>)
    requires
        forall|i: int| 0 <= i < events.len() ==> #[trigger] events[i] is Characters,
    ensures
        well_nested(events),
    decreases events.len(),
{
    if events.len() > 0 {
        lemma_flat_well_nested(events.drop_last());
    }
}

} // verus!
