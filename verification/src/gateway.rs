//! The HTTP gateway's decisions around routed calls: authentication with a
//! one-shot session renewal, package and group promotion planning, and the
//! small extractions its handlers make from routed replies.
//!
//! The gateway performs the routed calls themselves through the router
//! broker; every function here takes a call's outcome as a value and decides
//! the next step, so each decision is verified for every outcome.

use vstd::prelude::*;
use crate::error::{ErrCode, NetError, NetOk, NetResult};
use crate::session::Session;

verus! {

/// An origin record.
#[derive(Clone, Debug)]
pub struct Origin {
    pub id: u64,
    pub name: String,
}

/// A channel of an origin.
#[derive(Clone, Debug)]
pub struct OriginChannel {
    pub id: u64,
    pub name: String,
}

/// A package record.
#[derive(Clone, Debug)]
pub struct OriginPackage {
    pub id: u64,
    pub ident: String,
}

/// Request to create a channel in an origin.
#[derive(Clone, Debug)]
pub struct OriginChannelCreate {
    pub owner_id: u64,
    pub origin_id: u64,
    pub origin_name: String,
    pub name: String,
}

/// Request to promote one package into a channel.
#[derive(Clone, Debug)]
pub struct OriginPackagePromote {
    pub channel_id: u64,
    pub package_id: u64,
    pub ident: String,
}

/// Request to promote a batch of one origin's packages into a channel.
#[derive(Clone, Debug)]
pub struct OriginPackageGroupPromote {
    pub channel_id: u64,
    pub package_ids: Vec<u64>,
    pub origin: String,
}

/// Next step of authenticating a request by token.
pub enum AuthStep {
    /// The session is valid: the authenticated account id.
    Done(u64),
    /// The session has expired: create a fresh one and retry once.
    Renew,
    /// Authentication failed with this error.
    Fail(NetError),
}

/// Decides what follows the first session lookup: success authenticates,
/// `SessionExpired` earns exactly one renewal attempt, every other error is
/// surfaced unchanged.
pub fn auth_attempt(first: NetResult<Session>) -> (r: AuthStep)
    ensures
        match first {
            Ok(s) => r == AuthStep::Done(s.id),
            Err(e) => if e.code == ErrCode::SessionExpired {
                r is Renew
            } else {
                r == AuthStep::Fail(e)
            },
        },
{
    match first {
        Ok(s) => AuthStep::Done(s.id),
        Err(e) => if matches!(e.code, ErrCode::SessionExpired) {
            AuthStep::Renew
        } else {
            AuthStep::Fail(e)
        },
    }
}

/// Decides what follows the single renewal attempt: the fresh session
/// authenticates, any error is surfaced.
pub fn auth_renewed(second: NetResult<Session>) -> (r: Result<u64, NetError>)
    ensures
        match second {
            Ok(s) => r == Ok::<u64, NetError>(s.id),
            Err(e) => r == Err::<u64, NetError>(e),
        },
{
    match second {
        Ok(s) => Ok(s.id),
        Err(e) => Err(e),
    }
}

/// The channel names a package is in, from the channel-list reply; a failed
/// call yields none.
pub fn channels_for_package_ident(reply: NetResult<Vec<OriginChannel>>) -> (r: Option<
    Vec<String>,
>)
    ensures
        match reply {
            Ok(channels) => r matches Some(names) && names@.len() == channels@.len() && (forall|
                i: int,
            |
                0 <= i < channels@.len() ==> (#[trigger] names@[i])@ == channels@[i].name@),
            Err(_) => r is None,
        },
{
    match reply {
        Ok(channels) => {
            let mut names: Vec<String> = Vec::new();
            let mut i: usize = 0;
            while i < channels.len()
                invariant
                    i <= channels@.len(),
                    names@.len() == i,
                    forall|j: int|
                        0 <= j < i ==> (#[trigger] names@[j])@ == channels@[j].name@,
                decreases channels@.len() - i,
            {
                names.push(channels[i].name.clone());
                i = i + 1;
            }
            Some(names)
        },
        Err(_) => None,
    }
}

/// The platforms a package is built for, from the platform-list reply; a
/// failed call yields none.
pub fn platforms_for_package_ident(reply: NetResult<Vec<String>>) -> (r: Option<Vec<String>>)
    ensures
        match reply {
            Ok(platforms) => r == Some(platforms),
            Err(_) => r is None,
        },
{
    match reply {
        Ok(platforms) => Some(platforms),
        Err(_) => None,
    }
}

/// The access decision carried by an access-check reply; a failed call
/// surfaces its error.
pub fn check_origin_access(reply: NetResult<bool>) -> (r: NetResult<bool>)
    ensures
        r == reply,
{
    reply
}

/// Builds the channel-creation request from the origin record it targets.
pub fn create_channel_request(
    origin: &Origin,
    channel: &str,
    session_id: u64,
) -> (r: OriginChannelCreate)
    ensures
        r.owner_id == session_id,
        r.origin_id == origin.id,
        r.origin_name@ == origin.name@,
        r.name@ == channel@,
{
    OriginChannelCreate {
        owner_id: session_id,
        origin_id: origin.id,
        origin_name: origin.name.clone(),
        name: channel.to_owned(),
    }
}

/// Decides a single-package promotion once access is known and the channel
/// and package records are fetched: denied callers get `AccessDenied`, an
/// allowed promotion names the channel and package ids.
pub fn plan_package_promotion(
    has_access: bool,
    channel: &OriginChannel,
    package: &OriginPackage,
) -> (r: Result<OriginPackagePromote, NetError>)
    ensures
        match r {
            Ok(p) => has_access && p.channel_id == channel.id && p.package_id == package.id
                && p.ident@ == package.ident@,
            Err(e) => !has_access && e.code == ErrCode::AccessDenied && e.msg@
                == "core:promote-package-to-channel:0"@,
        },
{
    if !has_access {
        return Err(NetError::new(ErrCode::AccessDenied, "core:promote-package-to-channel:0"));
    }
    Ok(
        OriginPackagePromote {
            channel_id: channel.id,
            package_id: package.id,
            ident: package.ident.clone(),
        },
    )
}

/// Decides one origin's batch promotion once access is known: denied callers
/// get `AccessDenied`, an allowed batch names the channel and the package
/// ids to commit together.
pub fn plan_origin_batch(
    has_access: bool,
    channel: &OriginChannel,
    origin: &str,
    package_ids: Vec<u64>,
) -> (r: Result<OriginPackageGroupPromote, NetError>)
    ensures
        match r {
            Ok(p) => has_access && p.channel_id == channel.id && p.package_ids@ == package_ids@
                && p.origin@ == origin@,
            Err(e) => !has_access && e.code == ErrCode::AccessDenied && e.msg@
                == "core:group-promote:0"@,
        },
{
    if !has_access {
        return Err(NetError::new(ErrCode::AccessDenied, "core:group-promote:0"));
    }
    Ok(
        OriginPackageGroupPromote {
            channel_id: channel.id,
            package_ids,
            origin: origin.to_owned(),
        },
    )
}

/// State of one project inside a job group.
#[derive(Clone, Copy, Debug, PartialEq, Eq, Structural)]
pub enum ProjectState {
    NotStarted,
    InProgress,
    Success,
    Failed,
}

/// One project of a job group: its package identifier and build state.
#[derive(Clone, Debug)]
pub struct Project {
    pub ident: String,
    pub state: ProjectState,
}

/// A group is incomplete while any project has not finished building.
pub open spec fn spec_group_incomplete(s: Seq<Project>) -> bool {
    exists|i: int|
        0 <= i < s.len() && ((#[trigger] s[i]).state is NotStarted || s[i].state is InProgress)
}

/// Whether the group still has unfinished projects.  An incomplete group
/// must not be promoted: the caller answers `GroupNotComplete`.
pub fn group_not_complete(projects: &Vec<Project>) -> (r: bool)
    ensures
        r == spec_group_incomplete(projects@),
{
    let mut i: usize = 0;
    while i < projects.len()
        invariant
            i <= projects@.len(),
            forall|j: int|
                0 <= j < i ==> !((#[trigger] projects@[j]).state is NotStarted
                    || projects@[j].state is InProgress),
        decreases projects@.len() - i,
    {
        let unfinished = match projects[i].state {
            ProjectState::NotStarted => true,
            ProjectState::InProgress => true,
            _ => false,
        };
        if unfinished {
            proof {
                assert(spec_group_incomplete(projects@)) by {
                    assert((projects@[i as int]).state is NotStarted || projects@[i as int].state
                        is InProgress);
                }
            }
            return true;
        }
        i = i + 1;
    }
    proof {
        if spec_group_incomplete(projects@) {
            let j = choose|j: int|
                0 <= j < projects@.len() && ((#[trigger] projects@[j]).state is NotStarted
                    || projects@[j].state is InProgress);
        }
    }
    false
}

/// Index of the first `/` in an identifier, or its length when none occurs.
pub open spec fn spec_slash_index(s: Seq<char>) -> int
    decreases s.len(),
{
    if s.len() == 0 {
        0
    } else if s[0] == '/' {
        0
    } else {
        1 + spec_slash_index(s.drop_first())
    }
}

/// The origin of a package identifier: everything before its first `/`.
pub open spec fn spec_origin_of(s: Seq<char>) -> Seq<char> {
    s.take(spec_slash_index(s))
}

/// `spec_slash_index` is in range and lands on the first slash.
pub proof fn lemma_slash_index_props(s: Seq<char>)
    ensures
        0 <= spec_slash_index(s) <= s.len(),
        forall|j: int| 0 <= j < spec_slash_index(s) ==> s[j] != '/',
        spec_slash_index(s) < s.len() ==> s[spec_slash_index(s)] == '/',
    decreases s.len(),
{
    if s.len() > 0 && s[0] != '/' {
        lemma_slash_index_props(s.drop_first());
        assert forall|j: int| 0 <= j < spec_slash_index(s) implies s[j] != '/' by {
            if j > 0 {
                assert(s.drop_first()[j - 1] == s[j]);
            }
        }
    }
}

/// `spec_slash_index` is the first index whose character is a slash.
proof fn lemma_slash_index_at(s: Seq<char>, i: int)
    requires
        0 <= i <= s.len(),
        forall|j: int| 0 <= j < i ==> s[j] != '/',
        i < s.len() ==> s[i] == '/',
    ensures
        spec_slash_index(s) == i,
    decreases i,
{
    if s.len() > 0 {
        if i > 0 {
            lemma_slash_index_at(s.drop_first(), i - 1);
        }
    }
}

/// The origin part of a package identifier: the characters before its first
/// `/`, the whole identifier when none occurs.
pub fn origin_of(ident: &str) -> (o: String)
    ensures
        o@ == spec_origin_of(ident@),
{
    let n = ident.unicode_len();
    let mut i: usize = 0;
    while i < n && ident.get_char(i) != '/'
        invariant
            n == ident@.len(),
            i <= n,
            forall|j: int| 0 <= j < i ==> ident@[j] != '/',
        decreases n - i,
    {
        i = i + 1;
    }
    proof {
        lemma_slash_index_at(ident@, i as int);
    }
    ident.substring_char(0, i).to_owned()
}

/// The identifiers of the projects that did not build, in order.
pub open spec fn spec_failed_idents(s: Seq<Project>) -> Seq<Seq<char>>
    decreases s.len(),
{
    if s.len() == 0 {
        Seq::<Seq<char>>::empty()
    } else {
        (if s[0].state is Success {
            Seq::<Seq<char>>::empty()
        } else {
            seq![s[0].ident@]
        }) + spec_failed_idents(s.drop_first())
    }
}

/// The identifiers of the successful projects of one origin, in order.
pub open spec fn spec_group_idents(s: Seq<Project>, origin: Seq<char>) -> Seq<Seq<char>>
    decreases s.len(),
{
    if s.len() == 0 {
        Seq::<Seq<char>>::empty()
    } else {
        (if s[0].state is Success && spec_origin_of(s[0].ident@) == origin {
            seq![s[0].ident@]
        } else {
            Seq::<Seq<char>>::empty()
        }) + spec_group_idents(s.drop_first(), origin)
    }
}

/// Appending one project extends the failed list exactly when it did not
/// build.
proof fn lemma_failed_snoc(s: Seq<Project>, p: Project)
    ensures
        spec_failed_idents(s.push(p)) == spec_failed_idents(s) + (if p.state is Success {
            Seq::<Seq<char>>::empty()
        } else {
            seq![p.ident@]
        }),
    decreases s.len(),
{
    if s.len() == 0 {
        assert(s.push(p).drop_first() =~= s);
        assert(spec_failed_idents(s.push(p)) =~= spec_failed_idents(s) + (if p.state
            is Success {
            Seq::<Seq<char>>::empty()
        } else {
            seq![p.ident@]
        }));
    } else {
        lemma_failed_snoc(s.drop_first(), p);
        assert(s.push(p).drop_first() =~= s.drop_first().push(p));
        assert(spec_failed_idents(s.push(p)) =~= spec_failed_idents(s) + (if p.state
            is Success {
            Seq::<Seq<char>>::empty()
        } else {
            seq![p.ident@]
        }));
    }
}

/// Appending one project extends an origin's group exactly when it is that
/// origin's successful project.
proof fn lemma_group_snoc(s: Seq<Project>, p: Project, origin: Seq<char>)
    ensures
        spec_group_idents(s.push(p), origin) == spec_group_idents(s, origin) + (if p.state
            is Success && spec_origin_of(p.ident@) == origin {
            seq![p.ident@]
        } else {
            Seq::<Seq<char>>::empty()
        }),
    decreases s.len(),
{
    if s.len() == 0 {
        assert(s.push(p).drop_first() =~= s);
        assert(spec_group_idents(s.push(p), origin) =~= spec_group_idents(s, origin) + (
        if p.state is Success && spec_origin_of(p.ident@) == origin {
            seq![p.ident@]
        } else {
            Seq::<Seq<char>>::empty()
        }));
    } else {
        lemma_group_snoc(s.drop_first(), p, origin);
        assert(s.push(p).drop_first() =~= s.drop_first().push(p));
        assert(spec_group_idents(s.push(p), origin) =~= spec_group_idents(s, origin) + (
        if p.state is Success && spec_origin_of(p.ident@) == origin {
            seq![p.ident@]
        } else {
            Seq::<Seq<char>>::empty()
        }));
    }
}

/// An origin with no successful project has an empty group.
proof fn lemma_group_idents_empty(s: Seq<Project>, origin: Seq<char>)
    requires
        forall|j: int|
            0 <= j < s.len() ==> !((#[trigger] s[j]).state is Success && spec_origin_of(
                s[j].ident@,
            ) == origin),
    ensures
        spec_group_idents(s, origin) == Seq::<Seq<char>>::empty(),
    decreases s.len(),
{
    if s.len() > 0 {
        lemma_group_idents_empty(s.drop_first(), origin);
        assert(spec_group_idents(s, origin) =~= Seq::<Seq<char>>::empty());
    }
}

/// The successful projects of one origin, grouped for batch promotion.
#[derive(Clone, Debug)]
pub struct OriginGroup {
    pub origin: String,
    pub idents: Vec<String>,
}

/// Whether some successful project of the group belongs to the origin.
pub open spec fn spec_is_success_origin(s: Seq<Project>, o: Seq<char>) -> bool {
    exists|j: int|
        0 <= j < s.len() && (#[trigger] s[j]).state is Success && spec_origin_of(s[j].ident@)
            == o
}

/// Whether some group in the list carries the origin.
pub open spec fn spec_has_group(gs: Seq<OriginGroup>, o: Seq<char>) -> bool {
    exists|g: int| 0 <= g < gs.len() && (#[trigger] gs[g]).origin@ == o
}

/// Position of the group carrying the origin, if any.
fn find_group(groups: &Vec<OriginGroup>, o: &String) -> (r: Option<usize>)
    ensures
        match r {
            Some(i) => i < groups@.len() && groups@[i as int].origin@ == o@,
            None => !spec_has_group(groups@, o@),
        },
{
    let mut i: usize = 0;
    while i < groups.len()
        invariant
            i <= groups@.len(),
            forall|j: int| 0 <= j < i ==> (#[trigger] groups@[j]).origin@ != o@,
        decreases groups@.len() - i,
    {
        if groups[i].origin == *o {
            return Some(i);
        }
        i = i + 1;
    }
    proof {
        if spec_has_group(groups@, o@) {
            let g = choose|g: int| 0 <= g < groups@.len() && (#[trigger] groups@[g]).origin@ == o@;
        }
    }
    None
}

/// A copy of the identifier list with one more identifier.
fn append_ident(v: &Vec<String>, s: &String) -> (r: Vec<String>)
    ensures
        r@ == v@.push(*s),
{
    let mut r: Vec<String> = Vec::new();
    let mut i: usize = 0;
    while i < v.len()
        invariant
            i <= v@.len(),
            r@ == v@.take(i as int),
        decreases v@.len() - i,
    {
        r.push(v[i].clone());
        i = i + 1;
        assert(r@ =~= v@.take(i as int));
    }
    r.push(s.clone());
    proof {
        assert(v@.take(v@.len() as int) =~= v@);
        assert(r@ =~= v@.push(*s));
    }
    r
}

/// Partitions a complete job group for promotion: the successful projects
/// are batched by origin — `core` first, since the batches cannot commit
/// atomically and `core` matters most — and the identifiers of the failed
/// projects are collected in order.
///
/// Exactly: each batch holds exactly its origin's successful identifiers in
/// group order; the batch origins are exactly the origins with a successful
/// project, each once; the failed list is exactly the identifiers of the
/// projects that did not succeed, in group order.
pub fn partition_group(projects: &Vec<Project>) -> (r: (Vec<OriginGroup>, Vec<String>))
    ensures
        r.1.deep_view() == spec_failed_idents(projects@),
        forall|g: int|
            0 <= g < r.0@.len() ==> (#[trigger] r.0@[g]).idents.deep_view() == spec_group_idents(
                projects@,
                r.0@[g].origin@,
            ),
        forall|g: int, h: int|
            0 <= g < h < r.0@.len() ==> (#[trigger] r.0@[g]).origin@ != (
            #[trigger] r.0@[h]).origin@,
        forall|g: int|
            0 <= g < r.0@.len() ==> spec_is_success_origin(
                projects@,
                (#[trigger] r.0@[g]).origin@,
            ),
        forall|j: int|
            0 <= j < projects@.len() && (#[trigger] projects@[j]).state is Success
                ==> spec_has_group(r.0@, spec_origin_of(projects@[j].ident@)),
        spec_is_success_origin(projects@, "core"@) ==> r.0@.len() > 0 && r.0@[0].origin@
            == "core"@,
{
    let ghost ps = projects@;
    let mut groups: Vec<OriginGroup> = Vec::new();
    let mut failed: Vec<String> = Vec::new();
    let mut i: usize = 0;
    while i < projects.len()
        invariant
            ps == projects@,
            i <= ps.len(),
            failed.deep_view() == spec_failed_idents(ps.take(i as int)),
            forall|g: int|
                0 <= g < groups@.len() ==> (#[trigger] groups@[g]).idents.deep_view()
                    == spec_group_idents(ps.take(i as int), groups@[g].origin@),
            forall|g: int, h: int|
                0 <= g < h < groups@.len() ==> (#[trigger] groups@[g]).origin@ != (
                #[trigger] groups@[h]).origin@,
            forall|g: int|
                0 <= g < groups@.len() ==> spec_is_success_origin(
                    ps.take(i as int),
                    (#[trigger] groups@[g]).origin@,
                ),
            forall|j: int|
                0 <= j < i && (#[trigger] ps[j]).state is Success ==> spec_has_group(
                    groups@,
                    spec_origin_of(ps[j].ident@),
                ),
        decreases ps.len() - i,
    {
        let p = &projects[i];
        let ghost pv = ps[i as int];
        proof {
            assert(ps.take(i + 1 as int) =~= ps.take(i as int).push(pv));
            lemma_failed_snoc(ps.take(i as int), pv);
        }
        let is_success = matches!(p.state, ProjectState::Success);
        if is_success {
            let o = origin_of(p.ident.as_str());
            match find_group(&groups, &o) {
                Some(gi) => {
                    let g2 = OriginGroup {
                        origin: groups[gi].origin.clone(),
                        idents: append_ident(&groups[gi].idents, &p.ident),
                    };
                    let ghost pre = groups@;
                    groups.set(gi, g2);
                    proof {
                        assert(groups@[gi as int].origin@ == o@);
                        assert(groups@[gi as int].idents.deep_view() =~= pre[
                            gi as int
                        ].idents.deep_view().push(pv.ident@));
                        assert forall|g: int| 0 <= g < groups@.len() implies (
                        #[trigger] groups@[g]).idents.deep_view() == spec_group_idents(
                            ps.take(i + 1 as int),
                            groups@[g].origin@,
                        ) by {
                            lemma_group_snoc(ps.take(i as int), pv, groups@[g].origin@);
                            if g != gi {
                                assert(groups@[g] == pre[g]);
                                assert(pre[g].origin@ != o@);
                            }
                        }
                        assert forall|g: int| 0 <= g < groups@.len() implies
                            spec_is_success_origin(
                            ps.take(i + 1 as int),
                            (#[trigger] groups@[g]).origin@,
                        ) by {
                            if g == gi {
                                assert(ps.take(i + 1 as int)[i as int] == pv);
                                assert(spec_origin_of(pv.ident@) == o@);
                            } else {
                                assert(groups@[g] == pre[g]);
                                let j = choose|j: int|
                                    0 <= j < ps.take(i as int).len() && (#[trigger] ps.take(
                                        i as int,
                                    )[j]).state is Success && spec_origin_of(
                                        ps.take(i as int)[j].ident@,
                                    ) == pre[g].origin@;
                                assert(ps.take(i + 1 as int)[j] == ps.take(i as int)[j]);
                            }
                        }
                        assert forall|j: int|
                            0 <= j < i + 1 && (#[trigger] ps[j]).state is Success implies
                            spec_has_group(groups@, spec_origin_of(ps[j].ident@)) by {
                            if j < i {
                                let g = choose|g: int|
                                    0 <= g < pre.len() && (#[trigger] pre[g]).origin@
                                        == spec_origin_of(ps[j].ident@);
                                if g == gi {
                                    assert(groups@[gi as int].origin@ == pre[gi as int].origin@);
                                } else {
                                    assert(groups@[g] == pre[g]);
                                }
                            } else {
                                assert(groups@[gi as int].origin@ == spec_origin_of(pv.ident@));
                            }
                        }
                    }
                },
                None => {
                    let mut idents: Vec<String> = Vec::new();
                    idents.push(p.ident.clone());
                    let ghost pre = groups@;
                    let ghost n = groups@.len() as int;
                    groups.push(OriginGroup { origin: o, idents });
                    proof {
                        assert(groups@[n].origin@ == spec_origin_of(pv.ident@));
                        assert(groups@[n].idents.deep_view() =~= seq![pv.ident@]);
                        assert forall|j: int|
                            0 <= j < ps.take(i as int).len() implies !((#[trigger] ps.take(
                                i as int,
                            )[j]).state is Success && spec_origin_of(ps.take(i as int)[j].ident@)
                            == groups@[n].origin@) by {
                            if ps.take(i as int)[j].state is Success && spec_origin_of(
                                ps.take(i as int)[j].ident@,
                            ) == groups@[n].origin@ {
                                assert(ps[j].state is Success);
                                assert(spec_has_group(pre, spec_origin_of(ps[j].ident@)));
                                let g = choose|g: int|
                                    0 <= g < pre.len() && (#[trigger] pre[g]).origin@
                                        == spec_origin_of(ps[j].ident@);
                                assert(false);
                            }
                        }
                        lemma_group_idents_empty(ps.take(i as int), groups@[n].origin@);
                        assert forall|g: int| 0 <= g < groups@.len() implies (
                        #[trigger] groups@[g]).idents.deep_view() == spec_group_idents(
                            ps.take(i + 1 as int),
                            groups@[g].origin@,
                        ) by {
                            lemma_group_snoc(ps.take(i as int), pv, groups@[g].origin@);
                            if g < n {
                                assert(groups@[g] == pre[g]);
                                assert(!spec_has_group(pre, o@));
                                assert(pre[g].origin@ != o@);
                            } else {
                                assert(spec_group_idents(ps.take(i + 1 as int), groups@[
                                    n
                                ].origin@) =~= seq![pv.ident@]);
                            }
                        }
                        assert forall|g: int, h: int|
                            0 <= g < h < groups@.len() implies (#[trigger] groups@[g]).origin@
                            != (#[trigger] groups@[h]).origin@ by {
                            if h < n {
                                assert(groups@[g] == pre[g] && groups@[h] == pre[h]);
                            } else {
                                assert(groups@[g] == pre[g]);
                                if pre[g].origin@ == o@ {
                                    assert(spec_has_group(pre, o@));
                                }
                            }
                        }
                        assert forall|g: int| 0 <= g < groups@.len() implies
                            spec_is_success_origin(
                            ps.take(i + 1 as int),
                            (#[trigger] groups@[g]).origin@,
                        ) by {
                            if g < n {
                                assert(groups@[g] == pre[g]);
                                let j = choose|j: int|
                                    0 <= j < ps.take(i as int).len() && (#[trigger] ps.take(
                                        i as int,
                                    )[j]).state is Success && spec_origin_of(
                                        ps.take(i as int)[j].ident@,
                                    ) == pre[g].origin@;
                                assert(ps.take(i + 1 as int)[j] == ps.take(i as int)[j]);
                            } else {
                                assert(ps.take(i + 1 as int)[i as int] == pv);
                            }
                        }
                        assert forall|j: int|
                            0 <= j < i + 1 && (#[trigger] ps[j]).state is Success implies
                            spec_has_group(groups@, spec_origin_of(ps[j].ident@)) by {
                            if j < i {
                                let g = choose|g: int|
                                    0 <= g < pre.len() && (#[trigger] pre[g]).origin@
                                        == spec_origin_of(ps[j].ident@);
                                assert(groups@[g] == pre[g]);
                            } else {
                                assert(groups@[n].origin@ == spec_origin_of(ps[j].ident@));
                            }
                        }
                    }
                },
            }
            proof {
                assert(failed.deep_view() =~= spec_failed_idents(ps.take(i + 1 as int)));
            }
        } else {
            let ghost fpre = failed.deep_view();
            failed.push(p.ident.clone());
            proof {
                assert(failed.deep_view() =~= fpre.push(pv.ident@));
                assert(failed.deep_view() =~= spec_failed_idents(ps.take(i + 1 as int)));
                assert forall|g: int| 0 <= g < groups@.len() implies (
                #[trigger] groups@[g]).idents.deep_view() == spec_group_idents(
                    ps.take(i + 1 as int),
                    groups@[g].origin@,
                ) by {
                    lemma_group_snoc(ps.take(i as int), pv, groups@[g].origin@);
                }
                assert forall|g: int| 0 <= g < groups@.len() implies spec_is_success_origin(
                    ps.take(i + 1 as int),
                    (#[trigger] groups@[g]).origin@,
                ) by {
                    let j = choose|j: int|
                        0 <= j < ps.take(i as int).len() && (#[trigger] ps.take(i as int)[
                            j
                        ]).state is Success && spec_origin_of(ps.take(i as int)[j].ident@)
                            == groups@[g].origin@;
                    assert(ps.take(i + 1 as int)[j] == ps.take(i as int)[j]);
                }
            }
        }
        i = i + 1;
    }
    proof {
        assert(ps.take(ps.len() as int) =~= ps);
    }
    let core_name = "core".to_owned();
    match find_group(&groups, &core_name) {
        Some(ci) => {
            if ci > 0 {
                let ghost pre = groups@;
                let core_group = groups.remove(ci);
                groups.insert(0, core_group);
                proof {
                    let gci = ci as int;
                    assert(groups@.len() == pre.len());
                    assert(groups@[0] == pre[gci]);
                    assert forall|k: int| 1 <= k < groups@.len() implies groups@[k] == (if k
                        <= gci {
                        pre[k - 1]
                    } else {
                        pre[k]
                    }) by {
                        assert(groups@ == pre.remove(gci).insert(0, pre[gci]));
                    }
                    assert forall|g: int| 0 <= g < groups@.len() implies (
                    #[trigger] groups@[g]).idents.deep_view() == spec_group_idents(
                        ps,
                        groups@[g].origin@,
                    ) by {
                        if g == 0 {
                            assert(groups@[0] == pre[gci]);
                        }
                    }
                    assert forall|g: int, h: int|
                        0 <= g < h < groups@.len() implies (#[trigger] groups@[g]).origin@ != (
                    #[trigger] groups@[h]).origin@ by {
                        let og = if g == 0 {
                            gci
                        } else if g <= gci {
                            g - 1
                        } else {
                            g
                        };
                        let oh = if h == 0 {
                            gci
                        } else if h <= gci {
                            h - 1
                        } else {
                            h
                        };
                        assert(groups@[g] == pre[og] && groups@[h] == pre[oh]);
                        assert(og != oh);
                    }
                    assert forall|g: int| 0 <= g < groups@.len() implies spec_is_success_origin(
                        ps,
                        (#[trigger] groups@[g]).origin@,
                    ) by {
                        let og = if g == 0 {
                            gci
                        } else if g <= gci {
                            g - 1
                        } else {
                            g
                        };
                        assert(groups@[g] == pre[og]);
                    }
                    assert forall|j: int|
                        0 <= j < ps.len() && (#[trigger] ps[j]).state is Success implies
                        spec_has_group(groups@, spec_origin_of(ps[j].ident@)) by {
                        let g = choose|g: int|
                            0 <= g < pre.len() && (#[trigger] pre[g]).origin@ == spec_origin_of(
                                ps[j].ident@,
                            );
                        let ng = if g == gci {
                            0int
                        } else if g < gci {
                            g + 1
                        } else {
                            g
                        };
                        assert(groups@[ng] == pre[g]);
                    }
                }
            }
            proof {
                assert(groups@[0].origin@ == "core"@);
            }
        },
        None => {
            proof {
                if spec_is_success_origin(ps, "core"@) {
                    let j = choose|j: int|
                        0 <= j < ps.len() && (#[trigger] ps[j]).state is Success
                            && spec_origin_of(ps[j].ident@) == "core"@;
                    assert(spec_has_group(groups@, "core"@));
                    assert(false);
                }
            }
        },
    }
    (groups, failed)
}

/// Plans a job group promotion: an unfinished group is refused with
/// `GroupNotComplete`; a finished one is partitioned into per-origin batches
/// (`core` first) and the failed identifiers, as [`partition_group`] states.
pub fn plan_group_promotion(projects: &Vec<Project>) -> (r: Result<
    (Vec<OriginGroup>, Vec<String>),
    NetError,
>)
    ensures
        match r {
            Err(e) => spec_group_incomplete(projects@) && e.code == ErrCode::GroupNotComplete
                && e.msg@ == "hg:promote-job-group:0"@,
            Ok((groups, failed)) => {
                &&& !spec_group_incomplete(projects@)
                &&& failed.deep_view() == spec_failed_idents(projects@)
                &&& forall|g: int|
                    0 <= g < groups@.len() ==> (#[trigger] groups@[g]).idents.deep_view()
                        == spec_group_idents(projects@, groups@[g].origin@)
                &&& forall|g: int, h: int|
                    0 <= g < h < groups@.len() ==> (#[trigger] groups@[g]).origin@ != (
                    #[trigger] groups@[h]).origin@
                &&& forall|j: int|
                    0 <= j < projects@.len() && (#[trigger] projects@[j]).state is Success
                        ==> spec_has_group(groups@, spec_origin_of(projects@[j].ident@))
                &&& spec_is_success_origin(projects@, "core"@) ==> groups@.len() > 0
                    && groups@[0].origin@ == "core"@
            },
        },
{
    if group_not_complete(projects) {
        return Err(NetError::new(ErrCode::GroupNotComplete, "hg:promote-job-group:0"));
    }
    Ok(partition_group(projects))
}

/// The failed projects attached to a partial group promotion.
#[derive(Clone, Debug)]
pub struct PartialJobGroupPromote {
    pub group_id: u64,
    pub failed_projects: Vec<String>,
}

/// Settles a group promotion after every origin batch committed: complete
/// groups promote cleanly, a group with failed projects yields
/// `PartialJobGroupPromote` carrying exactly their identifiers.
pub fn finish_group_promotion(group_id: u64, failed: Vec<String>) -> (r: Result<
    NetOk,
    (NetError, PartialJobGroupPromote),
>)
    ensures
        failed@.len() == 0 <==> r is Ok,
        r matches Err((e, partial)) ==> {
            &&& e.code == ErrCode::PartialJobGroupPromote
            &&& e.msg@ == "hg:promote-job-group:1"@
            &&& partial.group_id == group_id
            &&& partial.failed_projects == failed
        },
{
    if failed.len() == 0 {
        Ok(NetOk::new())
    } else {
        Err(
            (
                NetError::new(ErrCode::PartialJobGroupPromote, "hg:promote-job-group:1"),
                PartialJobGroupPromote { group_id, failed_projects: failed },
            ),
        )
    }
}

} // verus!
