use webdav::propfind_request::{parse_propfind, parse_propfind_events, ParseState, PropfindParser, RequestEvent, Step};
use webdav::xml_model::XmlName;

fn name(local: &str, ns: Option<&str>, prefix: Option<&str>) -> XmlName {
    XmlName {
        local_name: local.to_string(),
        namespace: ns.map(|s| s.to_string()),
        prefix: prefix.map(|s| s.to_string()),
    }
}

fn start(local: &str) -> RequestEvent {
    RequestEvent::StartElement { name: name(local, Some("DAV:"), None), shown: format!("StartElement({})", local) }
}

fn end(local: &str) -> RequestEvent {
    RequestEvent::EndElement { shown: format!("EndElement({})", local) }
}

fn doc() -> RequestEvent {
    RequestEvent::StartDocument { shown: "StartDocument(1.0, utf-8, None)".to_string() }
}

#[test]
fn davfs2_request_lists_its_properties() {
    let body = r#"<?xml version="1.0" encoding="utf-8"?>
<propfind xmlns="DAV:">
    <prop>
        <resourcetype xmlns="DAV:"/>
        <getcontentlength xmlns="DAV:"/>
        <getetag xmlns="DAV:"/>
        <getlastmodified xmlns="DAV:"/>
        <executable xmlns="http://apache.org/dav/props/"/>
    </prop>
</propfind>"#;
    let props = parse_propfind(body.as_bytes()).unwrap();
    let got: Vec<(String, Option<String>)> = props.into_iter().map(|n| (n.local_name, n.namespace)).collect();
    assert_eq!(
        got,
        vec![
            ("resourcetype".to_string(), Some("DAV:".to_string())),
            ("getcontentlength".to_string(), Some("DAV:".to_string())),
            ("getetag".to_string(), Some("DAV:".to_string())),
            ("getlastmodified".to_string(), Some("DAV:".to_string())),
            ("executable".to_string(), Some("http://apache.org/dav/props/".to_string())),
        ]
    );
}

#[test]
fn quota_request_with_prefixes() {
    let body = r#"<?xml version="1.0" encoding="utf-8"?><D:propfind xmlns:D="DAV:"><D:prop><D:quota-available-bytes/><D:quota-used-bytes/></D:prop></D:propfind>"#;
    let props = parse_propfind(body.as_bytes()).unwrap();
    assert_eq!(props.len(), 2);
    assert_eq!(props[0].local_name, "quota-available-bytes");
    assert_eq!(props[0].prefix.as_deref(), Some("D"));
    assert_eq!(props[1].local_name, "quota-used-bytes");
}

#[test]
fn answer_comes_at_end_of_prop_and_ignores_the_rest() {
    let events = vec![doc(), start("propfind"), start("prop"), start("a"), end("a"), end("prop"), RequestEvent::Other {
        shown: "garbage".to_string(),
    }];
    let props = parse_propfind_events(events).unwrap().unwrap();
    assert_eq!(props.len(), 1);
    assert_eq!(props[0].local_name, "a");
}

#[test]
fn empty_prop_asks_for_nothing() {
    let props = parse_propfind(b"<propfind><prop/></propfind>").unwrap();
    assert!(props.is_empty());
}

#[test]
fn wrong_root_is_refused_with_message() {
    let events = vec![doc(), start("allprop")];
    let err = parse_propfind_events(events).unwrap().unwrap_err();
    assert_eq!(err, "Unexpected event StartElement(allprop) during state Start");
}

#[test]
fn text_inside_property_is_refused() {
    let err = parse_propfind(b"<propfind><prop><a>x</a></prop></propfind>").unwrap_err();
    assert_eq!(err, "Unexpected event Characters(x) during state InProp");
}

#[test]
fn missing_prop_is_refused_at_end_of_propfind() {
    let err = parse_propfind(b"<propfind></propfind>").unwrap_err();
    assert!(err.starts_with("Unexpected event EndElement("), "{}", err);
    assert!(err.ends_with(" during state PropFind"), "{}", err);
}

#[test]
fn malformed_xml_reports_reader_error() {
    let err = parse_propfind(b"<propfind><prop>").unwrap_err();
    assert!(!err.is_empty());
    assert!(!err.starts_with("Unexpected event"), "{}", err);
}

#[test]
fn empty_body_is_a_reader_error() {
    let err = parse_propfind(b"").unwrap_err();
    assert!(!err.starts_with("Unexpected event"), "{}", err);
}

#[test]
fn document_ending_early_is_refused_at_end_of_document() {
    let err = parse_propfind(b"<?xml version=\"1.0\"?><propfind/>").unwrap_err();
    assert_eq!(err, "Unexpected event EndElement(propfind) during state PropFind");
}

#[test]
fn trailing_garbage_after_prop_is_not_read() {
    let props = parse_propfind(b"<propfind><prop><a/></prop><<<").unwrap();
    assert_eq!(props.len(), 1);
}

#[test]
fn end_of_document_event_is_refused() {
    let err = parse_propfind_events(vec![doc(), start("propfind"), start("prop"), start("a"),
                                         RequestEvent::EndDocument { shown: "EndDocument".to_string() }])
        .unwrap()
        .unwrap_err();
    assert_eq!(err, "Unexpected event EndDocument during state InProp");
}

#[test]
fn events_running_out_give_no_answer() {
    assert!(parse_propfind_events(vec![doc(), start("propfind")]).is_none());
    assert!(parse_propfind_events(Vec::new()).is_none());
}

#[test]
fn stepping_by_hand_tracks_states() {
    let p = PropfindParser::new();
    assert_eq!(p.state(), ParseState::Start);
    let p = match p.step(doc()) {
        Step::Continue(p) => p,
        Step::Finished(_) => panic!(),
    };
    assert_eq!(p.state(), ParseState::Start);
    let p = match p.step(start("propfind")) {
        Step::Continue(p) => p,
        Step::Finished(_) => panic!(),
    };
    assert_eq!(p.state(), ParseState::PropFind);
    let p = match p.step(start("prop")) {
        Step::Continue(p) => p,
        Step::Finished(_) => panic!(),
    };
    assert_eq!(p.state(), ParseState::Prop);
    let p = match p.step(start("x")) {
        Step::Continue(p) => p,
        Step::Finished(_) => panic!(),
    };
    assert_eq!(p.state(), ParseState::InProp);
    match p.step(RequestEvent::ReadError { message: "boom".to_string() }) {
        Step::Finished(Err(m)) => assert_eq!(m, "boom"),
        _ => panic!(),
    }
}

#[test]
fn start_document_twice_is_refused_only_after_start() {
    let err = parse_propfind_events(vec![doc(), start("propfind"), doc()]).unwrap().unwrap_err();
    assert_eq!(err, "Unexpected event StartDocument(1.0, utf-8, None) during state PropFind");
}
