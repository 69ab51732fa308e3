use routecore::error::{net_err_to_http, ErrCode, NetError};
use routecore::gateway::{
    auth_attempt, auth_renewed, channels_for_package_ident, check_origin_access,
    create_channel_request, finish_group_promotion, group_not_complete, origin_of,
    partition_group, plan_group_promotion, plan_origin_batch, plan_package_promotion, AuthStep,
    Origin, OriginChannel, OriginPackage, Project, ProjectState,
};
use routecore::session::Session;

fn project(ident: &str, state: ProjectState) -> Project {
    Project { ident: ident.to_string(), state }
}

fn fresh_session(id: u64) -> Session {
    Session {
        id,
        email: "who@example.com".to_string(),
        name: "who".to_string(),
        token: "T".to_string(),
        is_admin: false,
        is_early_access: false,
        is_build_worker: false,
    }
}

#[test]
fn http_status_of_every_error_code() {
    assert_eq!(net_err_to_http(ErrCode::Bug), 500);
    assert_eq!(net_err_to_http(ErrCode::Timeout), 504);
    assert_eq!(net_err_to_http(ErrCode::RemoteRejected), 406);
    assert_eq!(net_err_to_http(ErrCode::BadRemoteReply), 502);
    assert_eq!(net_err_to_http(ErrCode::EntityNotFound), 404);
    assert_eq!(net_err_to_http(ErrCode::NoShard), 503);
    assert_eq!(net_err_to_http(ErrCode::AccessDenied), 401);
    assert_eq!(net_err_to_http(ErrCode::SessionExpired), 401);
    assert_eq!(net_err_to_http(ErrCode::EntityConflict), 409);
    assert_eq!(net_err_to_http(ErrCode::Sock), 503);
    assert_eq!(net_err_to_http(ErrCode::DataStore), 503);
    assert_eq!(net_err_to_http(ErrCode::AuthScope), 403);
    assert_eq!(net_err_to_http(ErrCode::WorkspaceSetup), 500);
    assert_eq!(net_err_to_http(ErrCode::SecretKeyFetch), 502);
    assert_eq!(net_err_to_http(ErrCode::SecretKeyImport), 500);
    assert_eq!(net_err_to_http(ErrCode::VcsClone), 502);
    assert_eq!(net_err_to_http(ErrCode::Build), 500);
    assert_eq!(net_err_to_http(ErrCode::PostProcessor), 500);
    assert_eq!(net_err_to_http(ErrCode::RegConflict), 500);
    assert_eq!(net_err_to_http(ErrCode::RemoteUnavailable), 503);
    assert_eq!(net_err_to_http(ErrCode::Sys), 500);
    assert_eq!(net_err_to_http(ErrCode::GroupNotComplete), 403);
    assert_eq!(net_err_to_http(ErrCode::PartialJobGroupPromote), 403);
}

#[test]
fn valid_session_authenticates_directly() {
    match auth_attempt(Ok(fresh_session(42))) {
        AuthStep::Done(id) => assert_eq!(id, 42),
        _ => panic!("valid session must authenticate"),
    }
}

#[test]
fn expired_session_earns_one_renewal() {
    // First call answers SessionExpired: exactly one renewal attempt
    // follows, and the fresh session authenticates.
    let first = auth_attempt(Err(NetError::new(ErrCode::SessionExpired, "ss:auth:4")));
    assert!(matches!(first, AuthStep::Renew));
    assert_eq!(auth_renewed(Ok(fresh_session(42))).unwrap(), 42);
    // A failed renewal surfaces its own error; no second retry exists.
    let again = auth_renewed(Err(NetError::new(ErrCode::SessionExpired, "ss:auth:4")));
    assert_eq!(again.unwrap_err().code(), ErrCode::SessionExpired);
}

#[test]
fn other_auth_errors_surface_unchanged() {
    match auth_attempt(Err(NetError::new(ErrCode::AccessDenied, "ss:session-create:0"))) {
        AuthStep::Fail(e) => assert_eq!(e.code(), ErrCode::AccessDenied),
        _ => panic!("non-expiry errors must surface"),
    }
}

#[test]
fn origin_is_the_identifier_prefix() {
    assert_eq!(origin_of("core/hab/1.0.0/20230101"), "core".to_string());
    assert_eq!(origin_of("acme/tool"), "acme".to_string());
    assert_eq!(origin_of("noslash"), "noslash".to_string());
    assert_eq!(origin_of(""), "".to_string());
}

#[test]
fn unfinished_group_is_refused() {
    let projects = vec![
        project("core/a/1/1", ProjectState::Success),
        project("core/b/1/1", ProjectState::InProgress),
    ];
    assert!(group_not_complete(&projects));
    let err = plan_group_promotion(&projects).unwrap_err();
    assert_eq!(err.code(), ErrCode::GroupNotComplete);
    assert_eq!(err.msg, "hg:promote-job-group:0".to_string());
    let started = vec![project("core/a/1/1", ProjectState::NotStarted)];
    assert!(group_not_complete(&started));
}

#[test]
fn partial_group_promote_reports_failed_projects() {
    // p1 succeeded in core, p2 succeeded in acme, p3 failed in core: both
    // successes are batched for promotion and the result is partial with
    // exactly p3 attached.
    let projects = vec![
        project("core/p1/1/1", ProjectState::Success),
        project("acme/p2/1/1", ProjectState::Success),
        project("core/p3/1/1", ProjectState::Failed),
    ];
    let (groups, failed) = plan_group_promotion(&projects).unwrap();
    assert_eq!(groups.len(), 2);
    assert_eq!(groups[0].origin, "core".to_string());
    assert_eq!(groups[0].idents, vec!["core/p1/1/1".to_string()]);
    assert_eq!(groups[1].origin, "acme".to_string());
    assert_eq!(groups[1].idents, vec!["acme/p2/1/1".to_string()]);
    assert_eq!(failed, vec!["core/p3/1/1".to_string()]);

    let (err, partial) = finish_group_promotion(77, failed).unwrap_err();
    assert_eq!(err.code(), ErrCode::PartialJobGroupPromote);
    assert_eq!(err.msg, "hg:promote-job-group:1".to_string());
    assert_eq!(partial.group_id, 77);
    assert_eq!(partial.failed_projects, vec!["core/p3/1/1".to_string()]);
}

#[test]
fn clean_group_promotes_completely() {
    let projects = vec![
        project("acme/p1/1/1", ProjectState::Success),
        project("acme/p2/1/1", ProjectState::Success),
    ];
    let (groups, failed) = plan_group_promotion(&projects).unwrap();
    assert_eq!(groups.len(), 1);
    assert_eq!(groups[0].idents.len(), 2);
    assert!(failed.is_empty());
    assert!(finish_group_promotion(77, failed).is_ok());
}

#[test]
fn core_batch_is_promoted_first() {
    // Even when another origin appears first in the group, core leads.
    let projects = vec![
        project("acme/p1/1/1", ProjectState::Success),
        project("core/p2/1/1", ProjectState::Success),
        project("zeta/p3/1/1", ProjectState::Success),
    ];
    let (groups, _) = partition_group(&projects);
    assert_eq!(groups.len(), 3);
    assert_eq!(groups[0].origin, "core".to_string());
    assert_eq!(groups[0].idents, vec!["core/p2/1/1".to_string()]);
}

#[test]
fn package_promotion_needs_origin_access() {
    let channel = OriginChannel { id: 3, name: "stable".to_string() };
    let package = OriginPackage { id: 11, ident: "core/p1/1/1".to_string() };
    let denied = plan_package_promotion(false, &channel, &package).unwrap_err();
    assert_eq!(denied.code(), ErrCode::AccessDenied);
    assert_eq!(denied.msg, "core:promote-package-to-channel:0".to_string());
    let promote = plan_package_promotion(true, &channel, &package).unwrap();
    assert_eq!(promote.channel_id, 3);
    assert_eq!(promote.package_id, 11);
    assert_eq!(promote.ident, "core/p1/1/1".to_string());
}

#[test]
fn origin_batch_needs_origin_access() {
    let channel = OriginChannel { id: 3, name: "stable".to_string() };
    let denied = plan_origin_batch(false, &channel, "core", vec![1, 2]).unwrap_err();
    assert_eq!(denied.code(), ErrCode::AccessDenied);
    let batch = plan_origin_batch(true, &channel, "core", vec![1, 2]).unwrap();
    assert_eq!(batch.channel_id, 3);
    assert_eq!(batch.package_ids, vec![1, 2]);
    assert_eq!(batch.origin, "core".to_string());
}

#[test]
fn channel_names_are_extracted_from_the_reply() {
    let channels = vec![
        OriginChannel { id: 1, name: "unstable".to_string() },
        OriginChannel { id: 2, name: "stable".to_string() },
    ];
    let names = channels_for_package_ident(Ok(channels)).unwrap();
    assert_eq!(names, vec!["unstable".to_string(), "stable".to_string()]);
    let failed: Result<Vec<OriginChannel>, NetError> =
        Err(NetError::new(ErrCode::Timeout, "net:client-route:3"));
    assert!(channels_for_package_ident(failed).is_none());
}

#[test]
fn access_check_reply_passes_through() {
    assert_eq!(check_origin_access(Ok(true)).unwrap(), true);
    assert_eq!(check_origin_access(Ok(false)).unwrap(), false);
    let e = check_origin_access(Err(NetError::new(ErrCode::Timeout, "t"))).unwrap_err();
    assert_eq!(e.code(), ErrCode::Timeout);
}

#[test]
fn channel_creation_request_names_the_origin() {
    let origin = Origin { id: 5, name: "core".to_string() };
    let req = create_channel_request(&origin, "stable", 42);
    assert_eq!(req.owner_id, 42);
    assert_eq!(req.origin_id, 5);
    assert_eq!(req.origin_name, "core".to_string());
    assert_eq!(req.name, "stable".to_string());
}
