use webdav::access::multistatus_reply;
use webdav::decimal::decimal;
use webdav::file_time::FileTime;
use webdav::mime::{content_type, guessed_mime_type};
use webdav::render::{propfind_response_body, render};
use webdav::response::{handle_prop_path, handle_propfind_path, live_prop, propfind_multistatus, write_client_prop,
                       FileFacts, LiveProp, PropfindEntry};
use webdav::xml_model::{XmlName, XmlOut};

fn name(local: &str, ns: Option<&str>, prefix: Option<&str>) -> XmlName {
    XmlName {
        local_name: local.to_string(),
        namespace: ns.map(|s| s.to_string()),
        prefix: prefix.map(|s| s.to_string()),
    }
}

fn dav(local: &str) -> XmlName {
    name(local, Some("DAV:"), None)
}

fn time_of(year: i32, mon: i32, mday: i32, hour: i32, min: i32, sec: i32, utcoff: i32) -> FileTime {
    FileTime {
        tm_sec: sec,
        tm_min: min,
        tm_hour: hour,
        tm_mday: mday,
        tm_mon: mon,
        tm_year: year,
        tm_wday: 0,
        tm_yday: 0,
        tm_isdst: 0,
        tm_utcoff: utcoff,
        tm_nsec: 0,
    }
}

fn file_facts(is_file: bool, length: u64) -> FileFacts {
    FileFacts {
        is_file,
        created: time_of(119, 8, 17, 18, 30, 9, 0),
        modified: time_of(112, 1, 22, 7, 53, 18, -25200),
        length,
        binary: false,
    }
}

fn creation_text(t: FileTime) -> String {
    let mut facts = file_facts(true, 0);
    facts.created = t;
    let mut out = Vec::new();
    assert!(handle_prop_path(&mut out, "f", &dav("creationdate"), &facts));
    match &out[1] {
        XmlOut::Characters { text } => text.clone(),
        _ => panic!(),
    }
}

fn time_crate_text(t: FileTime) -> String {
    time::Tm {
        tm_sec: t.tm_sec,
        tm_min: t.tm_min,
        tm_hour: t.tm_hour,
        tm_mday: t.tm_mday,
        tm_mon: t.tm_mon,
        tm_year: t.tm_year,
        tm_wday: t.tm_wday,
        tm_yday: t.tm_yday,
        tm_isdst: t.tm_isdst,
        tm_utcoff: t.tm_utcoff,
        tm_nsec: t.tm_nsec,
    }
    .rfc3339()
    .to_string()
}

fn text_of(events: &Vec<XmlOut>) -> String {
    String::from_utf8(render(events, false).unwrap()).unwrap()
}

#[test]
fn live_props_are_the_five_dav_names() {
    assert_eq!(live_prop(&dav("resourcetype")), Some(LiveProp::ResourceType));
    assert_eq!(live_prop(&dav("creationdate")), Some(LiveProp::CreationDate));
    assert_eq!(live_prop(&dav("getlastmodified")), Some(LiveProp::LastModified));
    assert_eq!(live_prop(&dav("getcontentlength")), Some(LiveProp::ContentLength));
    assert_eq!(live_prop(&dav("getcontenttype")), Some(LiveProp::ContentType));
    assert_eq!(live_prop(&dav("getetag")), None);
    assert_eq!(live_prop(&name("resourcetype", None, None)), None);
    assert_eq!(live_prop(&name("resourcetype", Some("urn:x"), Some("D"))), None);
}

#[test]
fn whole_document_for_a_file() {
    let entries = vec![PropfindEntry { url: "/a.txt".to_string(), path: "a.txt".to_string(), facts: file_facts(true, 12) }];
    let props = vec![dav("resourcetype"), dav("getcontentlength"), name("foo", Some("urn:x"), Some("D"))];
    let bytes = render(&propfind_multistatus(&entries, &props), false).unwrap();
    assert_eq!(
        String::from_utf8(bytes).unwrap(),
        [
            r#"<?xml version="1.0" encoding="utf-8"?><D:multistatus xmlns:D="DAV:">"#,
            r#"<D:response><D:href>/a.txt</D:href>"#,
            r#"<D:propstat><D:prop><D:resourcetype /><D:getcontentlength>12</D:getcontentlength></D:prop>"#,
            r#"<D:status>HTTP/1.1 200 OK</D:status></D:propstat>"#,
            r#"<D:propstat><D:prop><U:foo xmlns:U="urn:x" /></D:prop>"#,
            r#"<D:status>HTTP/1.1 404 Not Found</D:status></D:propstat></D:response></D:multistatus>"#,
        ].concat()
    );
}

#[test]
fn directory_is_a_collection_and_known_props_only_keep_empty_404_propstat() {
    let mut out = Vec::new();
    handle_propfind_path(&mut out, "/dir/", "dir", &vec![dav("resourcetype")], &file_facts(false, 0));
    assert_eq!(
        text_of(&out),
        [
            r#"<?xml version="1.0" encoding="UTF-8"?><D:response><D:href>/dir/</D:href>"#,
            r#"<D:propstat><D:prop><D:resourcetype><D:collection /></D:resourcetype></D:prop>"#,
            r#"<D:status>HTTP/1.1 200 OK</D:status></D:propstat>"#,
            r#"<D:propstat><D:prop /><D:status>HTTP/1.1 404 Not Found</D:status></D:propstat></D:response>"#,
        ].concat()
    );
}

#[test]
fn all_unknown_gives_single_404_propstat_without_echo() {
    let mut out = Vec::new();
    handle_propfind_path(&mut out, "/x", "x", &vec![dav("getetag"), name("executable", Some("http://apache.org/dav/props/"), None)], &file_facts(true, 1));
    assert_eq!(
        text_of(&out),
        [
            r#"<?xml version="1.0" encoding="UTF-8"?><D:response><D:href>/x</D:href>"#,
            r#"<D:propstat><D:prop /><D:status>HTTP/1.1 404 Not Found</D:status></D:propstat></D:response>"#,
        ].concat()
    );
}

#[test]
fn no_props_requested_is_like_all_unknown() {
    let mut out = Vec::new();
    handle_propfind_path(&mut out, "/x", "x", &Vec::new(), &file_facts(true, 1));
    assert_eq!(out.len(), 12);
}

#[test]
fn dates_length_and_type_are_reported() {
    let mut out = Vec::new();
    let props = vec![dav("creationdate"), dav("getlastmodified"), dav("getcontenttype")];
    handle_propfind_path(&mut out, "/p.html", "p.html", &props, &file_facts(true, 3));
    let text = text_of(&out);
    assert!(text.contains("<D:creationdate>2019-09-17T18:30:09Z</D:creationdate>"), "{}", text);
    assert!(text.contains("<D:getlastmodified>2012-02-22T07:53:18-07:00</D:getlastmodified>"), "{}", text);
    assert!(text.contains("<D:getcontenttype>text/html</D:getcontenttype>"), "{}", text);
}

#[test]
fn handle_prop_path_reports_whether_it_wrote() {
    let mut out = Vec::new();
    assert!(!handle_prop_path(&mut out, "f", &dav("getetag"), &file_facts(true, 0)));
    assert!(out.is_empty());
    assert!(handle_prop_path(&mut out, "f", &dav("getcontentlength"), &file_facts(true, 4096)));
    assert_eq!(out.len(), 3);
    match &out[1] {
        XmlOut::Characters { text } => assert_eq!(text, "4096"),
        _ => panic!(),
    }
}

#[test]
fn client_props_keep_their_names_but_not_a_clashing_d() {
    let mut out = Vec::new();
    write_client_prop(&mut out, &name("x", Some("DAV:"), Some("D")));
    write_client_prop(&mut out, &name("y", Some("urn:y"), Some("D")));
    write_client_prop(&mut out, &name("z", Some("urn:z"), Some("Z")));
    write_client_prop(&mut out, &name("w", None, Some("D")));
    match &out[0] {
        XmlOut::StartElement { name, declare } => {
            assert_eq!(name.prefix.as_deref(), Some("D"));
            assert!(declare.is_none());
        },
        _ => panic!(),
    }
    match &out[1] {
        XmlOut::StartElement { name, declare } => {
            assert_eq!(name.prefix.as_deref(), Some("U"));
            assert_eq!(name.local_name, "y");
            let d = declare.as_ref().unwrap();
            assert_eq!((d.prefix.as_str(), d.uri.as_str()), ("U", "urn:y"));
        },
        _ => panic!(),
    }
    match &out[2] {
        XmlOut::StartElement { name, declare } => {
            assert_eq!(name.prefix.as_deref(), Some("Z"));
            assert!(declare.is_none());
        },
        _ => panic!(),
    }
    match &out[3] {
        XmlOut::StartElement { name, declare } => {
            assert_eq!(name.prefix.as_deref(), Some("D"));
            assert!(declare.is_none());
        },
        _ => panic!(),
    }
}

#[test]
fn several_entries_in_order_and_indented_output() {
    let entries = vec![
        PropfindEntry { url: "/d/".to_string(), path: "d".to_string(), facts: file_facts(false, 0) },
        PropfindEntry { url: "/d/f".to_string(), path: "d/f".to_string(), facts: file_facts(true, 7) },
    ];
    let events = propfind_multistatus(&entries, &vec![dav("getcontentlength")]);
    let flat = String::from_utf8(render(&events, false).unwrap()).unwrap();
    let first = flat.find("<D:href>/d/</D:href>").unwrap();
    let second = flat.find("<D:href>/d/f</D:href>").unwrap();
    assert!(first < second);
    assert_eq!(flat.matches("<D:response>").count(), 2);
    let indented = String::from_utf8(render(&events, true).unwrap()).unwrap();
    assert!(indented.contains("\n  <D:response>"), "{}", indented);
}

#[test]
fn writer_refusal_is_reported_with_its_index() {
    let events = vec![XmlOut::EndElement];
    let err = render(&events, false).unwrap_err();
    assert_eq!(err.index, 0);
}

#[test]
fn escaping_is_done_by_the_writer() {
    let entries = vec![PropfindEntry { url: "/a&b<c".to_string(), path: "x".to_string(), facts: file_facts(true, 0) }];
    let text = String::from_utf8(render(&propfind_multistatus(&entries, &Vec::new()), false).unwrap()).unwrap();
    assert!(text.contains("<D:href>/a&amp;b&lt;c</D:href>"), "{}", text);
}

#[test]
fn decimal_notation() {
    assert_eq!(decimal(0), "0");
    assert_eq!(decimal(7), "7");
    assert_eq!(decimal(10), "10");
    assert_eq!(decimal(4096), "4096");
    assert_eq!(decimal(u64::MAX), u64::MAX.to_string());
}

#[test]
fn content_types() {
    assert_eq!(guessed_mime_type("index.html").as_deref(), Some("text/html"));
    assert_eq!(guessed_mime_type("noext"), None);
    assert_eq!(content_type("index.html", true), "text/html");
    assert_eq!(content_type("blob", true), "application/octet-stream");
    assert_eq!(content_type("README", false), "text/plain");
    assert_eq!(content_type("dir/photo.png", false), "image/png");
}

#[test]
fn multistatus_status_and_type() {
    assert_eq!(multistatus_reply(), (207, "text/xml;charset=utf-8"));
}

#[test]
fn response_body_is_the_rendered_document() {
    let entries = vec![PropfindEntry { url: "/".to_string(), path: ".".to_string(), facts: file_facts(false, 0) }];
    let props = vec![dav("resourcetype")];
    let body = propfind_response_body(&entries, &props, false);
    assert_eq!(body, render(&propfind_multistatus(&entries, &props), false).unwrap());
    assert!(String::from_utf8(body).unwrap().contains("<D:resourcetype><D:collection /></D:resourcetype>"));
}

#[test]
fn rfc3339_times() {
    assert_eq!(creation_text(time_of(119, 8, 17, 18, 30, 9, 0)), "2019-09-17T18:30:09Z");
    assert_eq!(creation_text(time_of(112, 1, 22, 7, 53, 18, -25200)), "2012-02-22T07:53:18-07:00");
    assert_eq!(creation_text(time_of(100, 0, 1, 0, 0, 0, 19800)), "2000-01-01T00:00:00+05:30");
    assert_eq!(creation_text(time_of(-1900, -3, -5, 12, 0, 7, 0)), "0--2--5T12:00:07Z");
    for t in [time_of(119, 8, 17, 18, 30, 9, 0), time_of(112, 1, 22, 7, 53, 18, -25200), time_of(-2000, 11, 31, 23, 59, 60, 3661)] {
        assert_eq!(creation_text(t), time_crate_text(t));
    }
}

#[test]
fn formattable_times() {
    assert!(time_of(119, 8, 17, 18, 30, 9, 0).is_formattable());
    assert!(!time_of(i32::MAX, 0, 1, 0, 0, 0, 0).is_formattable());
    assert!(!time_of(0, i32::MAX, 1, 0, 0, 0, 0).is_formattable());
    assert!(!time_of(0, 0, 1, 0, 0, 0, i32::MIN).is_formattable());
}

#[test]
fn deeper_listing_adds_responses_before_the_end() {
    let top = PropfindEntry { url: "/d/".to_string(), path: "d".to_string(), facts: file_facts(false, 0) };
    let child = PropfindEntry { url: "/d/f".to_string(), path: "d/f".to_string(), facts: file_facts(true, 3) };
    let props = vec![dav("getcontentlength")];
    let shallow = String::from_utf8(propfind_response_body(&vec![PropfindEntry { url: top.url.clone(), path: top.path.clone(), facts: file_facts(false, 0) }], &props, false)).unwrap();
    let deep = String::from_utf8(propfind_response_body(&vec![top, child], &props, false)).unwrap();
    let cut = shallow.len() - "</D:multistatus>".len();
    assert_eq!(&deep[..cut], &shallow[..cut]);
    assert!(deep[cut..].starts_with("<D:response><D:href>/d/f</D:href>"));
    assert!(deep.ends_with("</D:response></D:multistatus>"));
}
