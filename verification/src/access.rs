//! The rules that decide which paths a WebDAV request may see or create,
//! how deep a PROPFIND listing goes, and what the unsupported methods answer.

use vstd::prelude::*;
use vstd::string::*;

verus! {

/// The value of a `Depth` request header.
#[derive(Clone, Copy, Debug, PartialEq, Eq, Structural)]
pub enum Depth {
    Zero,
    One,
    Infinity,
}

/// The depth at which a listing's children are listed: none below `0`, and
/// `infinity` stays `infinity`.
pub open spec fn lower_spec(d: Depth) -> Option<Depth> {
    match d {
        Depth::Zero => None,
        Depth::One => Some(Depth::Zero),
        Depth::Infinity => Some(Depth::Infinity),
    }
}

impl Depth {
    /// The depth at which this listing's children are listed, if they are.
    pub fn lower(self) -> (r: Option<Depth>)
        ensures
            r == lower_spec(self),
    {
        match self {
            Depth::Zero => None,
            Depth::One => Some(Depth::Zero),
            Depth::Infinity => Some(Depth::Infinity),
        }
    }

    /// The depth a request asks for: its `Depth` header, else `0`.
    pub fn requested(header: Option<Depth>) -> (r: Depth)
        ensures
            r == (match header {
                Some(d) => d,
                None => Depth::Zero,
            }),
    {
        match header {
            Some(d) => d,
            None => Depth::Zero,
        }
    }
}

/// How the server treats symbolic links under the hosted directory.
#[derive(Clone, Copy, Debug, PartialEq, Eq, Structural)]
pub struct LinkPolicy {
    /// Symbolic links may be followed at all.
    pub follow_symlinks: bool,
    /// Followed links must lead inside the hosted directory.
    pub sandbox_symlinks: bool,
}

/// Whether a path is treated as not existing: it does not exist, or it was
/// reached through a symbolic link that the policy does not let the client follow.
pub open spec fn hidden_spec(present: bool, symlink: bool, policy: LinkPolicy, inside_hosted: bool) -> bool {
    !present || (symlink && !policy.follow_symlinks) || (symlink && policy.follow_symlinks
        && policy.sandbox_symlinks && !inside_hosted)
}

/// Whether a path is treated as not existing; `inside_hosted` tells whether
/// it lies inside the hosted directory once links are resolved.
pub fn hidden(present: bool, symlink: bool, policy: LinkPolicy, inside_hosted: bool) -> (r: bool)
    ensures
        r == hidden_spec(present, symlink, policy, inside_hosted),
{
    !present || (symlink && !policy.follow_symlinks) || (symlink && policy.follow_symlinks
        && policy.sandbox_symlinks && !inside_hosted)
}

/// Why a PROPFIND is not answered with a listing.
#[derive(Clone, Copy, Debug, PartialEq, Eq, Structural)]
pub enum PropfindRefusal {
    /// The percent-decoded URL is not UTF-8.
    InvalidUrl,
    /// The requested path is treated as not existing.
    Nonexistent,
}

/// Whether a PROPFIND of a path is refused, and why; the URL is checked first.
pub fn propfind_refusal(url_error: bool, present: bool, symlink: bool, policy: LinkPolicy, inside_hosted: bool)
    -> (r: Option<PropfindRefusal>)
    ensures
        r == (if url_error {
            Some(PropfindRefusal::InvalidUrl)
        } else if hidden_spec(present, symlink, policy, inside_hosted) {
            Some(PropfindRefusal::Nonexistent)
        } else {
            None
        }),
{
    if url_error {
        Some(PropfindRefusal::InvalidUrl)
    } else if hidden(present, symlink, policy, inside_hosted) {
        Some(PropfindRefusal::Nonexistent)
    } else {
        None
    }
}

/// Whether a directory entry appears in a listing: it exists and the link
/// policy lets the client reach it.
pub fn listed(present: bool, symlink: bool, policy: LinkPolicy, inside_hosted: bool) -> (r: bool)
    ensures
        r == !hidden_spec(present, symlink, policy, inside_hosted),
{
    !hidden(present, symlink, policy, inside_hosted)
}

/// The URL of a directory entry: the directory's URL, a `/` unless it already
/// ends with one, and the entry's file name.
pub open spec fn child_url_spec(root: Seq<char>, name: Seq<char>) -> Seq<char> {
    if root.len() > 0 && root.last() == '/' {
        root + name
    } else {
        root + "/"@ + name
    }
}

/// The URL of the entry `name` of the directory at `root`.
pub fn child_url(root: &str, name: &str) -> (r: String)
    ensures
        r@ == child_url_spec(root@, name@),
{
    let mut url: String = root.to_owned();
    let len = root.unicode_len();
    let ends_with_slash = len > 0 && root.get_char(len - 1) == '/';
    if !ends_with_slash {
        url.append("/");
    }
    url.append(name);
    url
}

/// The text a PROPFIND whose body is not a valid request answers with.
pub fn invalid_xml_message(error: &str) -> (r: String)
    ensures
        r@ == "Invalid XML: "@ + error@,
{
    let mut m: String = "Invalid XML: ".to_owned();
    m.append(error);
    m
}

/// What MKCOL does with a request before touching the file system.
#[derive(Clone, Copy, Debug, PartialEq, Eq, Structural)]
pub enum MkcolDecision {
    /// The percent-decoded URL is not UTF-8.
    InvalidUrl,
    /// The server does not accept write requests.
    WritesDisabled,
    /// The parent directory is treated as not existing.
    Nonexistent,
    /// Create the directory.
    Create,
}

/// The MKCOL decision: the URL, then whether writes are enabled, then whether
/// the parent may be reached, are checked in turn.
pub open spec fn mkcol_decision_spec(
    url_error: bool,
    writes_enabled: bool,
    parent_exists: bool,
    symlink: bool,
    policy: LinkPolicy,
    inside_hosted: bool,
) -> MkcolDecision {
    if url_error {
        MkcolDecision::InvalidUrl
    } else if !writes_enabled {
        MkcolDecision::WritesDisabled
    } else if hidden_spec(parent_exists, symlink, policy, inside_hosted) {
        MkcolDecision::Nonexistent
    } else {
        MkcolDecision::Create
    }
}

/// What MKCOL does with a request before touching the file system;
/// `parent_exists` holds also for a path without a parent.
pub fn mkcol_decision(
    url_error: bool,
    writes_enabled: bool,
    parent_exists: bool,
    symlink: bool,
    policy: LinkPolicy,
    inside_hosted: bool,
) -> (r: MkcolDecision)
    ensures
        r == mkcol_decision_spec(url_error, writes_enabled, parent_exists, symlink, policy, inside_hosted),
{
    if url_error {
        MkcolDecision::InvalidUrl
    } else if !writes_enabled {
        MkcolDecision::WritesDisabled
    } else if hidden(parent_exists, symlink, policy, inside_hosted) {
        MkcolDecision::Nonexistent
    } else {
        MkcolDecision::Create
    }
}

/// How creating the directory failed, as far as MKCOL tells the cases apart.
#[derive(Clone, Copy, Debug, PartialEq, Eq, Structural)]
pub enum CreateDirError {
    NotFound,
    AlreadyExists,
    Other,
}

/// The answer to a MKCOL that tried to create the directory.
#[derive(Clone, Copy, Debug, PartialEq, Eq, Structural)]
pub enum MkcolReply {
    /// `201 Created`.
    Created,
    /// Answered like any path that does not exist.
    Nonexistent,
    /// `405 Method Not Allowed`, "File exists".
    AlreadyExists,
    /// `403 Forbidden`.
    Forbidden,
}

/// The MKCOL answer for the outcome of creating the directory.
pub fn mkcol_reply(created: Result<(), CreateDirError>) -> (r: MkcolReply)
    ensures
        r == (match created {
            Ok(()) => MkcolReply::Created,
            Err(CreateDirError::NotFound) => MkcolReply::Nonexistent,
            Err(CreateDirError::AlreadyExists) => MkcolReply::AlreadyExists,
            Err(CreateDirError::Other) => MkcolReply::Forbidden,
        }),
{
    match created {
        Ok(()) => MkcolReply::Created,
        Err(CreateDirError::NotFound) => MkcolReply::Nonexistent,
        Err(CreateDirError::AlreadyExists) => MkcolReply::AlreadyExists,
        Err(CreateDirError::Other) => MkcolReply::Forbidden,
    }
}

impl MkcolReply {
    /// The HTTP status code and body text of this answer; `None` for
    /// [`MkcolReply::Nonexistent`], which is answered as a missing path is.
    pub fn status(self) -> (r: Option<(u16, &'static str)>)
        ensures
            match self {
                MkcolReply::Created => r matches Some((201, t)) && t@ == ""@,
                MkcolReply::AlreadyExists => r matches Some((405, t)) && t@ == "File exists"@,
                MkcolReply::Forbidden => r matches Some((403, t)) && t@ == ""@,
                MkcolReply::Nonexistent => r is None,
            },
    {
        match self {
            MkcolReply::Created => Some((201, "")),
            MkcolReply::AlreadyExists => Some((405, "File exists")),
            MkcolReply::Forbidden => Some((403, "")),
            MkcolReply::Nonexistent => None,
        }
    }
}

/// The WebDAV methods that the server recognises but does not implement.
#[derive(Clone, Copy, Debug, PartialEq, Eq, Structural)]
pub enum UnimplementedMethod {
    PropPatch,
    Copy,
    Move,
}

/// The answer to an unimplemented method: `405 Method Not Allowed` with a
/// body naming the method.
pub fn unimplemented_reply(method: UnimplementedMethod) -> (r: (u16, &'static str))
    ensures
        r.0 == 405,
        r.1@ == (match method {
            UnimplementedMethod::PropPatch => "PROPPATCH unimplemented"@,
            UnimplementedMethod::Copy => "COPY unimplemented"@,
            UnimplementedMethod::Move => "MOVE unimplemented"@,
        }),
{
    match method {
        UnimplementedMethod::PropPatch => (405, "PROPPATCH unimplemented"),
        UnimplementedMethod::Copy => (405, "COPY unimplemented"),
        UnimplementedMethod::Move => (405, "MOVE unimplemented"),
    }
}

/// The status code and content type of a PROPFIND listing: `207 Multi-Status`, XML in UTF-8.
pub fn multistatus_reply() -> (r: (u16, &'static str))
    ensures
        r.0 == 207,
        r.1@ == "text/xml;charset=utf-8"@,
{
    (207, "text/xml;charset=utf-8")
}

/// An existing path reached without symbolic links is always visible.
pub proof fn lemma_plain_paths_visible(symlink: bool, policy: LinkPolicy, inside_hosted: bool)
    ensures
        !symlink ==> !hidden_spec(true, symlink, policy, inside_hosted),
        hidden_spec(false, symlink, policy, inside_hosted),
{
}

/// When links are followed without a sandbox, a path is visible exactly when it exists.
pub proof fn lemma_unsandboxed_links(present: bool, symlink: bool, inside_hosted: bool)
    ensures
        hidden_spec(present, symlink, LinkPolicy { follow_symlinks: true, sandbox_symlinks: false }, inside_hosted)
            == !present,
{
}

/// A listing at a finite depth stops: at depth `1` the children are listed at
/// depth `0`, whose own children are not; only `infinity` goes on.
pub proof fn lemma_finite_depth_stops(d: Depth)
    ensures
        d != Depth::Infinity ==> match lower_spec(d) {
            None => true,
            Some(c) => lower_spec(c) is None,
        },
        lower_spec(Depth::Infinity) == Some(Depth::Infinity),
{
}

/// A child's URL starts with its directory's URL, ends with the child's name,
/// and has a `/` right before the name.
pub proof fn lemma_child_url_shape(root: Seq<char>, name: Seq<char>)
    ensures
        ({
            let u = child_url_spec(root, name);
            &&& u.len() > name.len()
            &&& u.subrange(0, root.len() as int) == root
            &&& u.subrange(u.len() - name.len(), u.len() as int) == name
            &&& u[u.len() - name.len() - 1] == '/'
        }),
{
    reveal_strlit("/");
    let u = child_url_spec(root, name);
    assert(u.subrange(0, root.len() as int) =~= root);
    assert(u.subrange(u.len() - name.len(), u.len() as int) =~= name);
}

/// MKCOL creates the directory exactly when the URL decodes, writes are
/// enabled and the parent may be reached.
pub proof fn lemma_mkcol_creates_only_when_allowed(
    url_error: bool,
    writes_enabled: bool,
    parent_exists: bool,
    symlink: bool,
    policy: LinkPolicy,
    inside_hosted: bool,
)
    ensures
        (mkcol_decision_spec(url_error, writes_enabled, parent_exists, symlink, policy, inside_hosted)
            == MkcolDecision::Create) <==> (!url_error && writes_enabled && !hidden_spec(
            parent_exists,
            symlink,
            policy,
            inside_hosted,
        )),
{
}

/// One entry of a listed directory, as the file system shows it once symbolic
/// links are followed.
#[derive(Debug)]
pub struct ChildCandidate {
    /// The entry's file name.
    pub name: String,
    /// The followed path exists.
    pub present: bool,
    /// The entry is a symbolic link.
    pub symlink: bool,
    /// The followed path lies inside the hosted directory.
    pub inside_hosted: bool,
}

/// The mathematical value of a [`ChildCandidate`].
pub struct ChildCandidateView {
    pub name: Seq<char>,
    pub present: bool,
    pub symlink: bool,
    pub inside_hosted: bool,
}

impl View for ChildCandidate {
    type V = ChildCandidateView;

    open spec fn view(&self) -> ChildCandidateView {
        ChildCandidateView {
            name: self.name@,
            present: self.present,
            symlink: self.symlink,
            inside_hosted: self.inside_hosted,
        }
    }
}

/// A listed entry: which candidate, its URL, and the depth at which its own
/// entries are listed.
#[derive(Debug)]
pub struct ChildPlan {
    pub index: usize,
    pub url: String,
    pub depth: Depth,
}

/// The mathematical value of a [`ChildPlan`].
pub struct ChildPlanView {
    pub index: int,
    pub url: Seq<char>,
    pub depth: Depth,
}

impl View for ChildPlan {
    type V = ChildPlanView;

    open spec fn view(&self) -> ChildPlanView {
        ChildPlanView { index: self.index as int, url: self.url@, depth: self.depth }
    }
}

/// The views of a sequence of candidates.
pub open spec fn candidate_views(c: Seq<ChildCandidate>) -> Seq<ChildCandidateView> {
    c.map_values(|x: ChildCandidate| x@)
}

/// The views of a sequence of plans.
pub open spec fn plan_views(p: Seq<ChildPlan>) -> Seq<ChildPlanView> {
    p.map_values(|x: ChildPlan| x@)
}

/// The visible candidates among `cands`, in order, with their URLs under
/// `root` and the depth `next` for their own listing.
pub open spec fn visible_children(root: Seq<char>, next: Depth, policy: LinkPolicy, cands: Seq<ChildCandidateView>) -> Seq<ChildPlanView>
    decreases cands.len(),
{
    if cands.len() == 0 {
        Seq::empty()
    } else {
        let c = cands.last();
        visible_children(root, next, policy, cands.drop_last()) + if hidden_spec(c.present, c.symlink, policy, c.inside_hosted) {
            Seq::empty()
        } else {
            seq![ChildPlanView { index: cands.len() - 1, url: child_url_spec(root, c.name), depth: next }]
        }
    }
}

/// The entries a listing at `depth` of the directory at `root` shows: none at
/// depth `0`; otherwise the visible candidates, each to be listed in turn at
/// the lowered depth.
pub open spec fn children_spec(root: Seq<char>, depth: Depth, policy: LinkPolicy, cands: Seq<ChildCandidateView>) -> Seq<ChildPlanView> {
    match lower_spec(depth) {
        None => Seq::empty(),
        Some(next) => visible_children(root, next, policy, cands),
    }
}

/// The entries a listing at `depth` of the directory at `root_url` shows,
/// given the directory's entries in the order the file system reads them.
pub fn plan_children(root_url: &str, depth: Depth, policy: LinkPolicy, candidates: &Vec<ChildCandidate>) -> (r: Vec<ChildPlan>)
    ensures
        plan_views(r@) == children_spec(root_url@, depth, policy, candidate_views(candidates@)),
{
    let mut plans: Vec<ChildPlan> = Vec::new();
    let next = match depth.lower() {
        None => {
            assert(plan_views(plans@) =~= Seq::<ChildPlanView>::empty());
            return plans;
        },
        Some(next) => next,
    };
    let ghost cv = candidate_views(candidates@);
    assert(cv.take(0) =~= Seq::<ChildCandidateView>::empty());
    assert(plan_views(plans@) =~= Seq::<ChildPlanView>::empty());
    let n = candidates.len();
    for i in 0..n
        invariant
            n == candidates@.len(),
            cv == candidate_views(candidates@),
            plan_views(plans@) == visible_children(root_url@, next, policy, cv.take(i as int)),
    {
        assert(cv.take(i + 1).drop_last() =~= cv.take(i as int));
        assert(cv.take(i + 1).last() == candidates@[i as int]@);
        let c = &candidates[i];
        let ghost before = plan_views(plans@);
        if listed(c.present, c.symlink, policy, c.inside_hosted) {
            plans.push(ChildPlan { index: i, url: child_url(root_url, c.name.as_str()), depth: next });
            assert(plan_views(plans@) =~= before + seq![plan_views(plans@).last()]);
        } else {
            assert(plan_views(plans@) =~= before + Seq::<ChildPlanView>::empty());
        }
    }
    assert(cv.take(n as int) =~= cv);
    plans
}

/// A listing at depth `0` shows no entries; at depth `1` its entries are
/// listed at depth `0`, so they show none of their own.
pub proof fn lemma_depth_one_lists_one_level(root: Seq<char>, child_root: Seq<char>, policy: LinkPolicy, cands: Seq<ChildCandidateView>, grand: Seq<ChildCandidateView>)
    ensures
        children_spec(root, Depth::Zero, policy, cands) == Seq::<ChildPlanView>::empty(),
        forall|i: int| 0 <= i < children_spec(root, Depth::One, policy, cands).len() ==> (#[trigger] children_spec(root, Depth::One, policy, cands)[i]).depth == Depth::Zero,
        children_spec(child_root, Depth::Zero, policy, grand) == Seq::<ChildPlanView>::empty(),
{
    lemma_visible_children_depth(root, Depth::Zero, policy, cands);
}

/// Every planned entry carries the depth it was planned with.
proof fn lemma_visible_children_depth(root: Seq<char>, next: Depth, policy: LinkPolicy, cands: Seq<ChildCandidateView>)
    ensures
        forall|i: int| 0 <= i < visible_children(root, next, policy, cands).len() ==> (#[trigger] visible_children(root, next, policy, cands)[i]).depth == next,
    decreases cands.len(),
{
    if cands.len() > 0 {
        lemma_visible_children_depth(root, next, policy, cands.drop_last());
    }
}

/// Whether a candidate is hidden by the link policy.
pub open spec fn candidate_hidden(c: ChildCandidateView, policy: LinkPolicy) -> bool {
    hidden_spec(c.present, c.symlink, policy, c.inside_hosted)
}

/// The visible candidates, each planned once, in order, with its URL and the
/// depth `next`; no hidden one is planned, whatever the names.
proof fn lemma_visible_children_exact(root: Seq<char>, next: Depth, policy: LinkPolicy, cands: Seq<ChildCandidateView>)
    ensures
        ({
            let plans = visible_children(root, next, policy, cands);
            &&& forall|j: int| 0 <= j < plans.len() ==> {
                let i = (#[trigger] plans[j]).index;
                &&& 0 <= i < cands.len()
                &&& !candidate_hidden(cands[i], policy)
                &&& plans[j].url == child_url_spec(root, cands[i].name)
                &&& plans[j].depth == next
            }
            &&& forall|i: int| 0 <= i < cands.len() && !candidate_hidden(#[trigger] cands[i], policy) ==> exists|j: int|
                0 <= j < plans.len() && (#[trigger] plans[j]).index == i
            &&& forall|j: int, k: int| 0 <= j < k < plans.len() ==> (#[trigger] plans[j]).index < (#[trigger] plans[k]).index
        }),
    decreases cands.len(),
{
    if cands.len() > 0 {
        let init = cands.drop_last();
        lemma_visible_children_exact(root, next, policy, init);
        let prev = visible_children(root, next, policy, init);
        let plans = visible_children(root, next, policy, cands);
        let last = cands.len() - 1;
        assert forall|j: int| 0 <= j < prev.len() implies (#[trigger] prev[j]).index < last by {}
        if candidate_hidden(cands.last(), policy) {
            assert(plans =~= prev);
        } else {
            let p = ChildPlanView { index: last, url: child_url_spec(root, cands.last().name), depth: next };
            assert(plans =~= prev.push(p));
            assert(plans[prev.len() as int] == p);
        }
        assert forall|i: int| 0 <= i < cands.len() && !candidate_hidden(#[trigger] cands[i], policy) implies exists|j: int|
            0 <= j < plans.len() && (#[trigger] plans[j]).index == i by {
            if i < last {
                assert(init[i] == cands[i]);
                let j = choose|j: int| 0 <= j < prev.len() && (#[trigger] prev[j]).index == i;
                assert(plans[j] == prev[j]);
            } else {
                assert(!candidate_hidden(cands.last(), policy));
                assert(plans[prev.len() as int].index == i);
            }
        }
        assert forall|j: int| 0 <= j < plans.len() implies {
            let i = (#[trigger] plans[j]).index;
            &&& 0 <= i < cands.len()
            &&& !candidate_hidden(cands[i], policy)
            &&& plans[j].url == child_url_spec(root, cands[i].name)
            &&& plans[j].depth == next
        } by {
            if j < prev.len() {
                assert(plans[j] == prev[j]);
                assert(init[prev[j].index] == cands[prev[j].index]);
            }
        }
        assert forall|j: int, k: int| 0 <= j < k < plans.len() implies (#[trigger] plans[j]).index < (
        #[trigger] plans[k]).index by {
            if k < prev.len() {
                assert(plans[j] == prev[j]);
                assert(plans[k] == prev[k]);
            } else {
                assert(plans[j] == prev[j]);
            }
        }
    }
}

/// Which entries a listing shows, whatever their names: at depth `0` none;
/// otherwise exactly the entries that the link policy does not hide, each
/// once and in the order the directory is read, at the URL the entry's name
/// gives under the listed path and at the lowered depth.
pub proof fn lemma_children_exact(root: Seq<char>, depth: Depth, policy: LinkPolicy, cands: Seq<ChildCandidateView>)
    ensures
        depth == Depth::Zero ==> children_spec(root, depth, policy, cands).len() == 0,
        depth != Depth::Zero ==> ({
            let plans = children_spec(root, depth, policy, cands);
            &&& forall|j: int| 0 <= j < plans.len() ==> {
                let i = (#[trigger] plans[j]).index;
                &&& 0 <= i < cands.len()
                &&& !candidate_hidden(cands[i], policy)
                &&& plans[j].url == child_url_spec(root, cands[i].name)
                &&& Some(plans[j].depth) == lower_spec(depth)
            }
            &&& forall|i: int| 0 <= i < cands.len() && !candidate_hidden(#[trigger] cands[i], policy) ==> exists|j: int|
                0 <= j < plans.len() && (#[trigger] plans[j]).index == i
            &&& forall|j: int, k: int| 0 <= j < k < plans.len() ==> (#[trigger] plans[j]).index < (#[trigger] plans[k]).index
        }),
{
    match lower_spec(depth) {
        None => {},
        Some(next) => lemma_visible_children_exact(root, next, policy, cands),
    }
}

} // verus!
