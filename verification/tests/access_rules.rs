use webdav::access::{child_url, plan_children, ChildCandidate, hidden, invalid_xml_message, listed, mkcol_decision, mkcol_reply, propfind_refusal,
                     unimplemented_reply, CreateDirError, Depth, LinkPolicy, MkcolDecision, MkcolReply, PropfindRefusal,
                     UnimplementedMethod};

const STRICT: LinkPolicy = LinkPolicy { follow_symlinks: false, sandbox_symlinks: false };
const SANDBOX: LinkPolicy = LinkPolicy { follow_symlinks: true, sandbox_symlinks: true };
const OPEN: LinkPolicy = LinkPolicy { follow_symlinks: true, sandbox_symlinks: false };

#[test]
fn child_url_adds_one_slash() {
    assert_eq!(child_url("http://h/dir", "a.txt"), "http://h/dir/a.txt");
    assert_eq!(child_url("http://h/dir/", "a.txt"), "http://h/dir/a.txt");
    assert_eq!(child_url("", "a"), "/a");
}

#[test]
fn depth_lowering() {
    assert_eq!(Depth::Zero.lower(), None);
    assert_eq!(Depth::One.lower(), Some(Depth::Zero));
    assert_eq!(Depth::Infinity.lower(), Some(Depth::Infinity));
    assert_eq!(Depth::requested(None), Depth::Zero);
    assert_eq!(Depth::requested(Some(Depth::One)), Depth::One);
}

#[test]
fn symlink_policy() {
    assert!(!hidden(true, false, STRICT, false));
    assert!(hidden(false, false, OPEN, true));
    assert!(hidden(true, true, STRICT, true));
    assert!(hidden(true, true, SANDBOX, false));
    assert!(!hidden(true, true, SANDBOX, true));
    assert!(!hidden(true, true, OPEN, false));
    assert!(listed(true, true, OPEN, false));
    assert!(!listed(true, true, STRICT, true));
}

#[test]
fn propfind_refusals() {
    assert_eq!(propfind_refusal(true, false, false, OPEN, true), Some(PropfindRefusal::InvalidUrl));
    assert_eq!(propfind_refusal(false, false, false, OPEN, true), Some(PropfindRefusal::Nonexistent));
    assert_eq!(propfind_refusal(false, true, true, SANDBOX, false), Some(PropfindRefusal::Nonexistent));
    assert_eq!(propfind_refusal(false, true, false, STRICT, false), None);
    assert_eq!(invalid_xml_message("bad"), "Invalid XML: bad");
}

#[test]
fn mkcol_rules() {
    assert_eq!(mkcol_decision(true, false, false, false, OPEN, true), MkcolDecision::InvalidUrl);
    assert_eq!(mkcol_decision(false, false, false, false, OPEN, true), MkcolDecision::WritesDisabled);
    assert_eq!(mkcol_decision(false, true, false, false, OPEN, true), MkcolDecision::Nonexistent);
    assert_eq!(mkcol_decision(false, true, true, true, STRICT, true), MkcolDecision::Nonexistent);
    assert_eq!(mkcol_decision(false, true, true, false, STRICT, false), MkcolDecision::Create);
    assert_eq!(mkcol_reply(Ok(())), MkcolReply::Created);
    assert_eq!(mkcol_reply(Err(CreateDirError::NotFound)), MkcolReply::Nonexistent);
    assert_eq!(mkcol_reply(Err(CreateDirError::AlreadyExists)), MkcolReply::AlreadyExists);
    assert_eq!(mkcol_reply(Err(CreateDirError::Other)), MkcolReply::Forbidden);
    assert_eq!(MkcolReply::Created.status(), Some((201, "")));
    assert_eq!(MkcolReply::AlreadyExists.status(), Some((405, "File exists")));
    assert_eq!(MkcolReply::Forbidden.status(), Some((403, "")));
    assert_eq!(MkcolReply::Nonexistent.status(), None);
}

#[test]
fn unimplemented_methods() {
    assert_eq!(unimplemented_reply(UnimplementedMethod::PropPatch), (405, "PROPPATCH unimplemented"));
    assert_eq!(unimplemented_reply(UnimplementedMethod::Copy), (405, "COPY unimplemented"));
    assert_eq!(unimplemented_reply(UnimplementedMethod::Move), (405, "MOVE unimplemented"));
}

fn cand(name: &str, present: bool, symlink: bool, inside_hosted: bool) -> ChildCandidate {
    ChildCandidate { name: name.to_string(), present, symlink, inside_hosted }
}

#[test]
fn children_of_a_listing() {
    let cands = vec![
        cand("a", true, false, false),
        cand("gone", false, false, false),
        cand("link_out", true, true, false),
        cand("link_in", true, true, true),
    ];
    assert!(plan_children("/d", Depth::Zero, SANDBOX, &cands).is_empty());
    let plans = plan_children("/d", Depth::One, SANDBOX, &cands);
    let got: Vec<(usize, String, Depth)> = plans.into_iter().map(|p| (p.index, p.url, p.depth)).collect();
    assert_eq!(got, vec![(0, "/d/a".to_string(), Depth::Zero), (3, "/d/link_in".to_string(), Depth::Zero)]);
    let deep = plan_children("/d/", Depth::Infinity, STRICT, &cands);
    let got: Vec<(usize, String, Depth)> = deep.into_iter().map(|p| (p.index, p.url, p.depth)).collect();
    assert_eq!(got, vec![(0, "/d/a".to_string(), Depth::Infinity)]);
}
