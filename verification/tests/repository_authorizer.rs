use lore::endpoint::parse_endpoint;
use lore::repository_authorizer::{
    is_auth_service, repository_authorizer, AllowAllRepositoryAuthorizer, AuthClientAuthorizer, Code,
    PermissionReply, RepositoryAuthorizer,
};

fn allowed(ids: &[&str]) -> PermissionReply {
    PermissionReply::Allowed { resource_ids: ids.iter().map(|id| id.to_string()).collect() }
}

fn refusal(id: &str, reply: PermissionReply) -> (Code, String) {
    let authorizer = AuthClientAuthorizer::new("https://auth.example.com".to_string());
    let status = authorizer.check_repository_access(id, reply).expect_err("a refusal");
    (status.code, status.message)
}

#[test]
fn an_issuer_url_is_not_an_auth_service() {
    assert!(!is_auth_service("oidc://auth.example.com/o/lore?client_id=lore"));
    assert!(!is_auth_service("oidc-http://127.0.0.1:9000/o/lore?client_id=lore"));
}

#[test]
fn a_grpc_auth_url_is_an_auth_service() {
    assert!(is_auth_service("ucs-auth://auth.example.com"));
    assert!(is_auth_service("https://auth.example.com"));
}

#[test]
fn a_text_without_a_scheme_is_taken_for_an_auth_service() {
    assert!(is_auth_service("auth.example.com"));
    assert!(is_auth_service("oidc:/auth.example.com"));
    assert!(is_auth_service("x-oidc://auth.example.com"));
}

#[test]
fn no_login_url_is_an_auth_service() {
    for url in ["oidc://h/?client_id=a", "oidc-http://h/?client_id=a"] {
        assert!(parse_endpoint(url).is_ok());
        assert!(!is_auth_service(url));
    }
    for url in ["https://h/?client_id=a", "ucs-auth://h/?client_id=a", "h"] {
        assert!(parse_endpoint(url).is_err());
        assert!(is_auth_service(url));
    }
}

#[test]
fn the_authorizer_follows_the_configuration() {
    assert!(matches!(repository_authorizer(None), RepositoryAuthorizer::AllowAll(_)));
    assert!(matches!(
        repository_authorizer(Some("oidc://h/?client_id=a".to_string())),
        RepositoryAuthorizer::AllowAll(_)
    ));
    match repository_authorizer(Some("ucs-auth://auth.example.com".to_string())) {
        RepositoryAuthorizer::AuthClient(client) => {
            assert_eq!(client.auth_url(), "ucs-auth://auth.example.com");
        }
        RepositoryAuthorizer::AllowAll(_) => panic!("an auth service is asked"),
    }
}

#[test]
fn allow_all_allows_all() {
    assert!(AllowAllRepositoryAuthorizer.check_repository_access("0a1b").is_ok());
}

#[test]
fn the_query_names_the_repository_alone() {
    let authorizer = AuthClientAuthorizer::new("https://auth.example.com".to_string());
    let request = authorizer.permission_query("0a1b");
    assert_eq!(request.resource_id, vec!["urc-0a1b".to_string()]);
    assert_eq!(request.target_user, None);
}

#[test]
fn access_is_granted_where_the_repository_comes_first() {
    let authorizer = AuthClientAuthorizer::new("https://auth.example.com".to_string());
    assert!(authorizer.check_repository_access("0a", allowed(&["urc-0a"])).is_ok());
    assert!(authorizer.check_repository_access("0a", allowed(&["urc-0a", "urc-0b"])).is_ok());
}

#[test]
fn access_is_refused_otherwise() {
    assert_eq!(
        refusal("0a", allowed(&[])),
        (Code::Internal, "No permissions for resource".to_string())
    );
    assert_eq!(
        refusal("0a", allowed(&["urc-0b", "urc-0a"])),
        (Code::Internal, "Unexpected resource_id".to_string())
    );
    assert_eq!(
        refusal("0a", allowed(&["0a"])),
        (Code::Internal, "Unexpected resource_id".to_string())
    );
}

#[test]
fn a_failed_query_is_refused_by_its_code() {
    let failed = |code: Code| PermissionReply::Failed { code, shown: "shown".to_string() };
    assert_eq!(
        refusal("0a", failed(Code::PermissionDenied)),
        (Code::PermissionDenied, "Query resource denied".to_string())
    );
    assert_eq!(
        refusal("0a", failed(Code::Unauthenticated)),
        (Code::Unauthenticated, "Query resource failed - unauthenticated".to_string())
    );
    assert_eq!(
        refusal("0a", failed(Code::Unavailable)),
        (Code::Internal, "Failed to call auth check_user_permission: shown".to_string())
    );
}

#[test]
fn a_reply_grants_one_repository() {
    let authorizer = AuthClientAuthorizer::new("https://auth.example.com".to_string());
    assert!(authorizer.check_repository_access("0a", allowed(&["urc-0a"])).is_ok());
    assert!(authorizer.check_repository_access("0b", allowed(&["urc-0a"])).is_err());
}
