use routecore::error::ErrCode;
use routecore::session::{
    account_get, account_get_id, account_invitation_list, account_origin_create,
    account_origin_invitation_accept, account_origin_invitation_create,
    account_origin_list_request, select_session_email, session_create, session_create_denied,
    session_flags, session_get, Account, AccountInvitationListResponse,
    AccountOriginListResponse, EmailRec, IdentityLookup, PermissionsCfg, Session, StoreResult,
};

fn account() -> Account {
    Account { id: 7, email: "who@example.com".to_string(), name: "who".to_string() }
}

fn session() -> Session {
    Session {
        id: 42,
        email: "who@example.com".to_string(),
        name: "who".to_string(),
        token: "T".to_string(),
        is_admin: false,
        is_early_access: false,
        is_build_worker: false,
    }
}

#[test]
fn account_lookup_answers() {
    assert_eq!(account_get(StoreResult::Found(account())).unwrap().id, 7);
    let missing = account_get(StoreResult::Missing).unwrap_err();
    assert_eq!(missing.code(), ErrCode::EntityNotFound);
    assert_eq!(missing.msg, "ss:account-get:0".to_string());
    let broken = account_get(StoreResult::StoreError).unwrap_err();
    assert_eq!(broken.code(), ErrCode::DataStore);
}

#[test]
fn account_lookup_by_id_answers() {
    assert_eq!(account_get_id(StoreResult::Found(account())).unwrap().id, 7);
    assert_eq!(account_get_id(StoreResult::<Account>::Missing).unwrap_err().code(), ErrCode::EntityNotFound);
    assert_eq!(account_get_id(StoreResult::<Account>::StoreError).unwrap_err().code(), ErrCode::DataStore);
}

#[test]
fn absent_session_has_expired() {
    assert_eq!(session_get(StoreResult::Found(session())).unwrap().id, 42);
    let expired = session_get(StoreResult::<Session>::Missing).unwrap_err();
    assert_eq!(expired.code(), ErrCode::SessionExpired);
    assert_eq!(expired.msg, "ss:auth:4".to_string());
    assert_eq!(session_get(StoreResult::<Session>::StoreError).unwrap_err().code(), ErrCode::DataStore);
}

#[test]
fn session_creation_answers() {
    assert_eq!(session_create(Some(session())).unwrap().id, 42);
    assert_eq!(session_create(None).unwrap_err().code(), ErrCode::DataStore);
}

#[test]
fn identity_provider_failure_denies_access() {
    // Session creation leans on the identity provider; whichever of its
    // lookups fails, the caller is denied, with the failing lookup tagged.
    let teams = session_create_denied(IdentityLookup::Teams);
    assert_eq!(teams.code(), ErrCode::AccessDenied);
    assert_eq!(teams.msg, "ss:session-create:0".to_string());
    let emails = session_create_denied(IdentityLookup::Emails);
    assert_eq!(emails.code(), ErrCode::AccessDenied);
    assert_eq!(emails.msg, "ss:session-create:2".to_string());
    let user = session_create_denied(IdentityLookup::User);
    assert_eq!(user.code(), ErrCode::AccessDenied);
    assert_eq!(user.msg, "ss:session-create:3".to_string());
}

#[test]
fn origin_membership_answers() {
    assert!(account_origin_invitation_create(true).is_ok());
    assert_eq!(account_origin_invitation_create(false).unwrap_err().code(), ErrCode::DataStore);
    assert!(account_origin_invitation_accept(true).is_ok());
    assert_eq!(account_origin_invitation_accept(false).unwrap_err().code(), ErrCode::DataStore);
    assert!(account_origin_create(true).is_ok());
    assert_eq!(account_origin_create(false).unwrap_err().code(), ErrCode::DataStore);
    let origins = AccountOriginListResponse { account_id: 7, origins: vec!["core".to_string()] };
    assert_eq!(account_origin_list_request(Some(origins)).unwrap().origins.len(), 1);
    assert_eq!(account_origin_list_request(None).unwrap_err().code(), ErrCode::DataStore);
    let invites = AccountInvitationListResponse { account_id: 7, invitations: vec![3, 4] };
    assert_eq!(account_invitation_list(Some(invites)).unwrap().invitations, vec![3, 4]);
    assert_eq!(account_invitation_list(None).unwrap_err().code(), ErrCode::DataStore);
}

#[test]
fn team_membership_grants_flags() {
    let permissions = PermissionsCfg {
        admin_team: 9,
        early_access_teams: vec![5, 6],
        build_worker_teams: vec![7],
    };
    assert_eq!(session_flags(&vec![5, 9], &permissions), (true, true, false));
    assert_eq!(session_flags(&vec![7], &permissions), (false, false, true));
    assert_eq!(session_flags(&vec![1, 2], &permissions), (false, false, false));
    assert_eq!(session_flags(&Vec::new(), &permissions), (false, false, false));
}

#[test]
fn team_id_zero_grants_nothing() {
    let permissions = PermissionsCfg {
        admin_team: 0,
        early_access_teams: vec![0],
        build_worker_teams: vec![0],
    };
    assert_eq!(session_flags(&vec![0], &permissions), (false, false, false));
}

#[test]
fn first_primary_email_is_selected() {
    let emails = vec![
        EmailRec { address: "a@example.com".to_string(), primary: false },
        EmailRec { address: "b@example.com".to_string(), primary: true },
        EmailRec { address: "c@example.com".to_string(), primary: true },
    ];
    assert_eq!(select_session_email(&emails).unwrap(), "b@example.com".to_string());
}

#[test]
fn any_email_serves_when_none_is_primary() {
    let emails = vec![
        EmailRec { address: "a@example.com".to_string(), primary: false },
        EmailRec { address: "b@example.com".to_string(), primary: false },
    ];
    assert_eq!(select_session_email(&emails).unwrap(), "a@example.com".to_string());
}

#[test]
fn no_email_on_record_selects_nothing() {
    assert!(select_session_email(&Vec::new()).is_none());
}
