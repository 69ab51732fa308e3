//! The session service's handler decisions: how each datastore or identity
//! lookup is answered on the wire.
//!
//! The datastore and the identity provider are external collaborators; each
//! handler here takes their outcome as a value and decides the reply, so the
//! decision is verified for every outcome they can produce.

use vstd::prelude::*;
use crate::dispatch::AppState;
use crate::error::{ErrCode, NetError, NetOk, NetResult};

verus! {

/// An account record.
#[derive(Clone, Debug)]
pub struct Account {
    pub id: u64,
    pub email: String,
    pub name: String,
}

/// An authenticated session.
#[derive(Clone, Debug)]
pub struct Session {
    pub id: u64,
    pub email: String,
    pub name: String,
    pub token: String,
    pub is_admin: bool,
    pub is_early_access: bool,
    pub is_build_worker: bool,
}

/// Outcome of a datastore lookup.
pub enum StoreResult<T> {
    /// The entity was found.
    Found(T),
    /// The lookup ran but found nothing.
    Missing,
    /// The datastore itself failed.
    StoreError,
}

/// The origins an account belongs to.
#[derive(Clone, Debug)]
pub struct AccountOriginListResponse {
    pub account_id: u64,
    pub origins: Vec<String>,
}

/// The pending origin invitations of an account.
#[derive(Clone, Debug)]
pub struct AccountInvitationListResponse {
    pub account_id: u64,
    pub invitations: Vec<u64>,
}

/// Team-derived permissions of the session service.
#[derive(Clone, Debug)]
pub struct PermissionsCfg {
    pub admin_team: u64,
    pub early_access_teams: Vec<u64>,
    pub build_worker_teams: Vec<u64>,
}

/// Worker state of the session service: the permission configuration.  The
/// datastore and identity-provider handles live with the embedding service.
#[derive(Clone, Debug)]
pub struct ServerState {
    pub permissions: PermissionsCfg,
}

impl ServerState {
    pub fn new(permissions: PermissionsCfg) -> (s: ServerState)
        ensures
            s.permissions == permissions,
    {
        ServerState { permissions }
    }
}

impl AppState for ServerState {
    fn is_initialized(&self) -> bool {
        true
    }
}

/// Answers an account lookup by id: the account, `EntityNotFound` when
/// absent, `DataStore` when the store failed.
pub fn account_get_id(res: StoreResult<Account>) -> (r: NetResult<Account>)
    ensures
        match res {
            StoreResult::Found(a) => r == Ok::<Account, NetError>(a),
            StoreResult::Missing => r matches Err(e) && e.code == ErrCode::EntityNotFound
                && e.msg@ == "ss:account-get-id:0"@,
            StoreResult::StoreError => r matches Err(e) && e.code == ErrCode::DataStore
                && e.msg@ == "ss:account-get-id:1"@,
        },
{
    match res {
        StoreResult::Found(a) => Ok(a),
        StoreResult::Missing => Err(NetError::new(ErrCode::EntityNotFound, "ss:account-get-id:0")),
        StoreResult::StoreError => Err(NetError::new(ErrCode::DataStore, "ss:account-get-id:1")),
    }
}

/// Answers an account lookup by name.
pub fn account_get(res: StoreResult<Account>) -> (r: NetResult<Account>)
    ensures
        match res {
            StoreResult::Found(a) => r == Ok::<Account, NetError>(a),
            StoreResult::Missing => r matches Err(e) && e.code == ErrCode::EntityNotFound
                && e.msg@ == "ss:account-get:0"@,
            StoreResult::StoreError => r matches Err(e) && e.code == ErrCode::DataStore
                && e.msg@ == "ss:account-get:1"@,
        },
{
    match res {
        StoreResult::Found(a) => Ok(a),
        StoreResult::Missing => Err(NetError::new(ErrCode::EntityNotFound, "ss:account-get:0")),
        StoreResult::StoreError => Err(NetError::new(ErrCode::DataStore, "ss:account-get:1")),
    }
}

/// Answers a session lookup: an absent session has expired.
pub fn session_get(res: StoreResult<Session>) -> (r: NetResult<Session>)
    ensures
        match res {
            StoreResult::Found(s) => r == Ok::<Session, NetError>(s),
            StoreResult::Missing => r matches Err(e) && e.code == ErrCode::SessionExpired
                && e.msg@ == "ss:auth:4"@,
            StoreResult::StoreError => r matches Err(e) && e.code == ErrCode::DataStore
                && e.msg@ == "ss:auth:5"@,
        },
{
    match res {
        StoreResult::Found(s) => Ok(s),
        StoreResult::Missing => Err(NetError::new(ErrCode::SessionExpired, "ss:auth:4")),
        StoreResult::StoreError => Err(NetError::new(ErrCode::DataStore, "ss:auth:5")),
    }
}

/// Answers a session creation once the store has (or has not) produced the
/// session.
pub fn session_create(created: Option<Session>) -> (r: NetResult<Session>)
    ensures
        match created {
            Some(s) => r == Ok::<Session, NetError>(s),
            None => r matches Err(e) && e.code == ErrCode::DataStore && e.msg@
                == "ss:session-create:1"@,
        },
{
    match created {
        Some(s) => Ok(s),
        None => Err(NetError::new(ErrCode::DataStore, "ss:session-create:1")),
    }
}

/// The identity-provider lookups session creation makes: the caller's
/// teams, the account record, and the addresses on record.
pub enum IdentityLookup {
    Teams,
    User,
    Emails,
}

/// Answers a session creation whose identity-provider lookup failed: every
/// such failure denies access, tagged by the lookup that failed.
pub fn session_create_denied(lookup: IdentityLookup) -> (e: NetError)
    ensures
        e.code == ErrCode::AccessDenied,
        match lookup {
            IdentityLookup::Teams => e.msg@ == "ss:session-create:0"@,
            IdentityLookup::Emails => e.msg@ == "ss:session-create:2"@,
            IdentityLookup::User => e.msg@ == "ss:session-create:3"@,
        },
{
    match lookup {
        IdentityLookup::Teams => NetError::new(ErrCode::AccessDenied, "ss:session-create:0"),
        IdentityLookup::Emails => NetError::new(ErrCode::AccessDenied, "ss:session-create:2"),
        IdentityLookup::User => NetError::new(ErrCode::AccessDenied, "ss:session-create:3"),
    }
}

/// Answers an invitation creation.
pub fn account_origin_invitation_create(stored: bool) -> (r: NetResult<NetOk>)
    ensures
        stored ==> r is Ok,
        !stored ==> (r matches Err(e) && e.code == ErrCode::DataStore && e.msg@
            == "ss:account_origin_invitation_create:1"@),
{
    if stored {
        Ok(NetOk::new())
    } else {
        Err(NetError::new(ErrCode::DataStore, "ss:account_origin_invitation_create:1"))
    }
}

/// Answers an invitation acceptance.
pub fn account_origin_invitation_accept(stored: bool) -> (r: NetResult<NetOk>)
    ensures
        stored ==> r is Ok,
        !stored ==> (r matches Err(e) && e.code == ErrCode::DataStore && e.msg@
            == "ss:account_origin_invitation_accept:1"@),
{
    if stored {
        Ok(NetOk::new())
    } else {
        Err(NetError::new(ErrCode::DataStore, "ss:account_origin_invitation_accept:1"))
    }
}

/// Answers an origin creation.
pub fn account_origin_create(stored: bool) -> (r: NetResult<NetOk>)
    ensures
        stored ==> r is Ok,
        !stored ==> (r matches Err(e) && e.code == ErrCode::DataStore && e.msg@
            == "ss:account_origin_create:1"@),
{
    if stored {
        Ok(NetOk::new())
    } else {
        Err(NetError::new(ErrCode::DataStore, "ss:account_origin_create:1"))
    }
}

/// Answers an origin listing.
pub fn account_origin_list_request(res: Option<AccountOriginListResponse>) -> (r: NetResult<
    AccountOriginListResponse,
>)
    ensures
        match res {
            Some(reply) => r == Ok::<AccountOriginListResponse, NetError>(reply),
            None => r matches Err(e) && e.code == ErrCode::DataStore && e.msg@
                == "ss:account_origin_list_request:1"@,
        },
{
    match res {
        Some(reply) => Ok(reply),
        None => Err(NetError::new(ErrCode::DataStore, "ss:account_origin_list_request:1")),
    }
}

/// Answers an invitation listing.
pub fn account_invitation_list(res: Option<AccountInvitationListResponse>) -> (r: NetResult<
    AccountInvitationListResponse,
>)
    ensures
        match res {
            Some(reply) => r == Ok::<AccountInvitationListResponse, NetError>(reply),
            None => r matches Err(e) && e.code == ErrCode::DataStore && e.msg@
                == "ss:account_invitation_list:1"@,
        },
{
    match res {
        Some(reply) => Ok(reply),
        None => Err(NetError::new(ErrCode::DataStore, "ss:account_invitation_list:1")),
    }
}

/// Privilege flags granted to a session: admin, early access and build
/// worker, each held exactly when one of the caller's (non-zero) team ids is
/// configured for it.
pub fn session_flags(
    teams: &Vec<u64>,
    permissions: &PermissionsCfg,
) -> (r: (bool, bool, bool))
    ensures
        r.0 == exists|i: int|
            0 <= i < teams@.len() && #[trigger] teams@[i] != 0 && teams@[i]
                == permissions.admin_team,
        r.1 == exists|i: int|
            0 <= i < teams@.len() && #[trigger] teams@[i] != 0
                && permissions.early_access_teams@.contains(teams@[i]),
        r.2 == exists|i: int|
            0 <= i < teams@.len() && #[trigger] teams@[i] != 0
                && permissions.build_worker_teams@.contains(teams@[i]),
{
    let mut is_admin = false;
    let mut is_early_access = false;
    let mut is_build_worker = false;
    let mut i: usize = 0;
    while i < teams.len()
        invariant
            i <= teams@.len(),
            is_admin == exists|j: int|
                0 <= j < i && #[trigger] teams@[j] != 0 && teams@[j] == permissions.admin_team,
            is_early_access == exists|j: int|
                0 <= j < i && #[trigger] teams@[j] != 0
                    && permissions.early_access_teams@.contains(teams@[j]),
            is_build_worker == exists|j: int|
                0 <= j < i && #[trigger] teams@[j] != 0
                    && permissions.build_worker_teams@.contains(teams@[j]),
        decreases teams@.len() - i,
    {
        let t = teams[i];
        if t != 0 && t == permissions.admin_team {
            is_admin = true;
        }
        if t != 0 && contains_u64(&permissions.early_access_teams, t) {
            is_early_access = true;
        }
        if t != 0 && contains_u64(&permissions.build_worker_teams, t) {
            is_build_worker = true;
        }
        i = i + 1;
        proof {
            let gi = i - 1;
            if teams@[gi] != 0 && teams@[gi] == permissions.admin_team {
                assert(is_admin);
            }
        }
    }
    (is_admin, is_early_access, is_build_worker)
}

/// Whether the list contains the value.
pub fn contains_u64(v: &Vec<u64>, x: u64) -> (r: bool)
    ensures
        r == v@.contains(x),
{
    let mut k: usize = 0;
    while k < v.len()
        invariant
            k <= v@.len(),
            forall|j: int| 0 <= j < k ==> v@[j] != x,
        decreases v@.len() - k,
    {
        if v[k] == x {
            return true;
        }
        k = k + 1;
    }
    proof {
        if v@.contains(x) {
            let j = choose|j: int| 0 <= j < v@.len() && v@[j] == x;
        }
    }
    false
}

/// An email address on record with the identity provider.
#[derive(Clone, Debug)]
pub struct EmailRec {
    pub address: String,
    pub primary: bool,
}

/// Position of the first primary address.
pub open spec fn spec_first_primary(s: Seq<EmailRec>) -> Option<int>
    decreases s.len(),
{
    if s.len() == 0 {
        None
    } else if s[0].primary {
        Some(0int)
    } else {
        match spec_first_primary(s.drop_first()) {
            None => None,
            Some(i) => Some(i + 1),
        }
    }
}

/// Selects the address a session is created with: the first primary address,
/// any address when none is primary, nothing when none is on record.
pub fn select_session_email(emails: &Vec<EmailRec>) -> (r: Option<String>)
    ensures
        match r {
            Some(a) => match spec_first_primary(emails@) {
                Some(i) => a@ == emails@[i].address@,
                None => emails@.len() > 0 && a@ == emails@[0].address@,
            },
            None => emails@.len() == 0,
        },
{
    if emails.len() == 0 {
        return None;
    }
    let mut i: usize = 0;
    while i < emails.len()
        invariant
            i <= emails@.len(),
            emails@.len() > 0,
            forall|j: int| 0 <= j < i ==> !(#[trigger] emails@[j]).primary,
        decreases emails@.len() - i,
    {
        if emails[i].primary {
            proof {
                lemma_first_primary_at(emails@, i as int);
            }
            return Some(emails[i].address.clone());
        }
        i = i + 1;
    }
    proof {
        lemma_first_primary_none(emails@);
    }
    Some(emails[0].address.clone())
}

/// `spec_first_primary` lands on the first primary address.
proof fn lemma_first_primary_at(s: Seq<EmailRec>, i: int)
    requires
        0 <= i < s.len(),
        s[i].primary,
        forall|j: int| 0 <= j < i ==> !(#[trigger] s[j]).primary,
    ensures
        spec_first_primary(s) == Some(i),
    decreases i,
{
    if i > 0 {
        lemma_first_primary_at(s.drop_first(), i - 1);
    }
}

/// `spec_first_primary` misses when no address is primary.
proof fn lemma_first_primary_none(s: Seq<EmailRec>)
    requires
        forall|j: int| 0 <= j < s.len() ==> !(#[trigger] s[j]).primary,
    ensures
        spec_first_primary(s) is None,
    decreases s.len(),
{
    if s.len() > 0 {
        lemma_first_primary_none(s.drop_first());
    }
}

} // verus!
