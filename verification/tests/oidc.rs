use lore::endpoint::Endpoint;
use lore::error::ProtocolError;
use lore::oidc::{
    authentication_token, discover, discovery_url, post_form, DeviceAuthorization,
    OidcAuthentication, ProviderMetadata, Reply, TokenErrorResponse, TokenReply, TokenResponse,
    UserInfo,
};

fn endpoint() -> Endpoint {
    Endpoint {
        issuer: "https://auth.example.com".to_string(),
        client_id: "lore".to_string(),
        scopes: "openid groups".to_string(),
    }
}

fn metadata(device: Option<&str>) -> Reply<Result<ProviderMetadata, String>> {
    Reply::Body(Ok(ProviderMetadata {
        device_authorization_endpoint: device.map(|url| url.to_string()),
        token_endpoint: "https://auth.example.com/token".to_string(),
    }))
}

fn failure(code: &str) -> Reply<TokenReply> {
    Reply::Body(TokenReply {
        failure: Some(TokenErrorResponse { error: code.to_string() }),
        grant: Ok(TokenResponse { access_token: "ignored".to_string(), refresh_token: None }),
    })
}

fn grant() -> Reply<TokenReply> {
    Reply::Body(TokenReply {
        failure: None,
        grant: Ok(TokenResponse {
            access_token: "access".to_string(),
            refresh_token: Some("refresh".to_string()),
        }),
    })
}

fn garbled() -> Reply<TokenReply> {
    Reply::Body(TokenReply { failure: None, grant: Err("bad json".to_string()) })
}

fn info(preferred: &str) -> Option<UserInfo> {
    Some(UserInfo {
        token: "access".to_string(),
        id: "subject".to_string(),
        name: "Name".to_string(),
        preferred_username: preferred.to_string(),
        expires: 1234,
    })
}

fn internal<T>(result: Result<T, ProtocolError>) -> String {
    match result {
        Err(ProtocolError::Internal(message)) => message,
        _ => panic!("an internal error was expected"),
    }
}

fn unsupported<T>(result: Result<T, ProtocolError>) -> String {
    match result {
        Err(ProtocolError::NotSupported { operation }) => operation,
        _ => panic!("an unsupported operation was expected"),
    }
}

fn pairs(form: &[(&str, &str)]) -> Vec<(String, String)> {
    form.iter().map(|(k, v)| (k.to_string(), v.to_string())).collect()
}

#[test]
fn metadata_are_discovered_at_the_well_known_place() {
    assert_eq!(
        discovery_url("https://auth.example.com"),
        "https://auth.example.com/.well-known/openid-configuration"
    );
    let found = discover("https://auth.example.com", metadata(None)).unwrap();
    assert_eq!(found.token_endpoint, "https://auth.example.com/token");
}

#[test]
fn discovery_failures_are_told_apart() {
    let issuer = "https://h";
    assert!(matches!(
        discover(issuer, Reply::Unreachable),
        Err(ProtocolError::Disconnected)
    ));
    assert_eq!(
        internal(discover(issuer, Reply::NoClient { reason: "no tls".to_string() })),
        "constructing HTTP client: no tls"
    );
    assert_eq!(
        internal(discover(issuer, Reply::Unreadable { reason: "cut".to_string() })),
        "reading discovery document: cut"
    );
    assert_eq!(
        internal(discover(issuer, Reply::Body(Err("bad json".to_string())))),
        "parsing discovery document at https://h/.well-known/openid-configuration: bad json"
    );
}

#[test]
fn posting_failures_are_told_apart() {
    assert_eq!(post_form("https://h/t", Reply::Body(5u8)).unwrap(), 5);
    assert!(matches!(
        post_form::<u8>("https://h/t", Reply::Unreachable),
        Err(ProtocolError::Disconnected)
    ));
    assert_eq!(
        internal(post_form::<u8>("https://h/t", Reply::Unreadable { reason: "cut".to_string() })),
        "reading response from https://h/t: cut"
    );
    assert_eq!(
        internal(post_form::<u8>("https://h/t", Reply::NoClient { reason: "x".to_string() })),
        "constructing HTTP client: x"
    );
}

#[test]
fn a_session_is_started_at_the_device_endpoint() {
    let request = OidcAuthentication
        .start_auth_session(&endpoint(), metadata(Some("https://auth.example.com/device")))
        .unwrap();
    assert_eq!(request.url, "https://auth.example.com/device");
    assert_eq!(request.form, pairs(&[("client_id", "lore"), ("scope", "openid groups")]));
}

#[test]
fn a_provider_without_a_device_endpoint_is_not_supported() {
    assert_eq!(
        unsupported(OidcAuthentication.start_auth_session(&endpoint(), metadata(None))),
        "https://auth.example.com advertises no device authorization endpoint"
    );
    assert!(matches!(
        OidcAuthentication.start_auth_session(&endpoint(), Reply::Unreachable),
        Err(ProtocolError::Disconnected)
    ));
}

#[test]
fn a_started_session_prefers_the_complete_login_url() {
    let answer = |complete: Option<&str>| {
        Reply::Body(Ok(DeviceAuthorization {
            device_code: "code".to_string(),
            verification_uri: "https://h/plain".to_string(),
            verification_uri_complete: complete.map(|uri| uri.to_string()),
        }))
    };
    let session =
        OidcAuthentication.auth_session_started("https://h/d", answer(Some("https://h/full")));
    assert_eq!(session.unwrap().login_url, "https://h/full");
    let session = OidcAuthentication.auth_session_started("https://h/d", answer(None)).unwrap();
    assert_eq!(session.login_url, "https://h/plain");
    assert_eq!(session.session_code, "code");
    assert_eq!(
        internal(
            OidcAuthentication
                .auth_session_started("https://h/d", Reply::Body(Err("bad json".to_string())))
        ),
        "parsing device authorization response: bad json"
    );
}

#[test]
fn a_poll_redeems_the_session_code() {
    let request =
        OidcAuthentication.poll_auth_session(&endpoint(), "code", metadata(None)).unwrap();
    assert_eq!(request.url, "https://auth.example.com/token");
    assert_eq!(
        request.form,
        pairs(&[
            ("grant_type", "urn:ietf:params:oauth:grant-type:device_code"),
            ("device_code", "code"),
            ("client_id", "lore"),
        ])
    );
    assert!(OidcAuthentication.poll_auth_session(&endpoint(), "code", Reply::Unreachable).is_err());
}

#[test]
fn an_error_code_is_read_before_the_grant() {
    let poll = |reply: Reply<TokenReply>| OidcAuthentication.auth_session_polled("https://h/t", reply);
    assert!(matches!(poll(failure("authorization_pending")), Ok(None)));
    assert!(matches!(poll(failure("slow_down")), Ok(None)));
    assert!(matches!(poll(failure("access_denied")), Err(ProtocolError::NotAuthorized)));
    assert_eq!(
        unsupported(poll(failure("expired_token"))),
        "login session expired before it was approved"
    );
    assert_eq!(internal(poll(failure("invalid_grant"))), "device grant failed: invalid_grant");
}

#[test]
fn a_poll_yields_the_grant() {
    let poll = |reply: Reply<TokenReply>| OidcAuthentication.auth_session_polled("https://h/t", reply);
    let granted = poll(grant()).unwrap().expect("a grant");
    assert_eq!(granted.access_token, "access");
    assert_eq!(granted.refresh_token, Some("refresh".to_string()));
    assert_eq!(internal(poll(garbled())), "parsing token response: bad json");
    assert!(matches!(poll(Reply::Unreachable), Err(ProtocolError::Disconnected)));
}

#[test]
fn a_refresh_redeems_the_refresh_token() {
    let request =
        OidcAuthentication.refresh_authentication(&endpoint(), "refresh", metadata(None)).unwrap();
    assert_eq!(request.url, "https://auth.example.com/token");
    assert_eq!(
        request.form,
        pairs(&[
            ("grant_type", "refresh_token"),
            ("refresh_token", "refresh"),
            ("client_id", "lore"),
        ])
    );
}

#[test]
fn a_refused_refresh_is_not_authorized() {
    let refresh =
        |reply: Reply<TokenReply>| OidcAuthentication.authentication_refreshed("https://h/t", reply);
    assert!(matches!(refresh(failure("invalid_grant")), Err(ProtocolError::NotAuthorized)));
    assert!(matches!(refresh(failure("slow_down")), Err(ProtocolError::NotAuthorized)));
    assert_eq!(refresh(grant()).unwrap().access_token, "access");
    assert_eq!(internal(refresh(garbled())), "parsing refresh response: bad json");
    assert!(matches!(refresh(Reply::Unreachable), Err(ProtocolError::Disconnected)));
}

#[test]
fn the_identity_is_the_subject_of_the_token() {
    let token = authentication_token(info("preferred"), Some("refresh".to_string())).unwrap();
    assert_eq!(token.token, "access");
    assert_eq!(token.user_id, "subject");
    assert_eq!(token.user_name, "preferred");
    assert_eq!(token.expires_ms, 1234);
    assert!(token.acceptable_root_domains.is_empty());
    assert_eq!(token.refresh_token, Some("refresh".to_string()));
    assert_eq!(authentication_token(info(""), None).unwrap().user_name, "Name");
    assert_eq!(
        internal(authentication_token(None, None)),
        "access token is not a readable JWT"
    );
}

#[test]
fn an_identity_keeps_the_refresh_token_of_its_grant() {
    let polled = OidcAuthentication.auth_session_polled("u", grant()).unwrap().expect("a grant");
    let refreshed = OidcAuthentication.authentication_refreshed("u", grant()).unwrap();
    for granted in [polled, refreshed] {
        let identity = OidcAuthentication.identity_granted(granted, info("p")).unwrap();
        assert_eq!(identity.token, "access");
        assert_eq!(identity.user_id, "subject");
        assert_eq!(identity.user_name, "p");
        assert_eq!(identity.expires_ms, 1234);
        assert_eq!(identity.refresh_token, Some("refresh".to_string()));
    }
    let unrefreshed = TokenResponse { access_token: "access".to_string(), refresh_token: None };
    let identity = OidcAuthentication.identity_granted(unrefreshed, info("p")).unwrap();
    assert_eq!(identity.refresh_token, None);
    let unread = OidcAuthentication.auth_session_polled("u", grant()).unwrap().expect("a grant");
    assert_eq!(
        internal(OidcAuthentication.identity_granted(unread, None)),
        "access token is not a readable JWT"
    );
}

#[test]
fn an_exchange_returns_the_token_unchanged() {
    let identity = authentication_token(info("p"), None).unwrap();
    let oidc = OidcAuthentication::default();
    let repository = oidc.exchange_for_repository(info("p"), "0a").unwrap();
    let resource = oidc.exchange_for_custom_resource(info("p"), "any").unwrap();
    assert_eq!(repository.token, identity.token);
    assert_eq!(resource.token, identity.token);
    assert_eq!(repository.expires_ms, identity.expires_ms);
    let other = oidc.exchange_for_repository(info("p"), "0b").unwrap();
    assert_eq!(other.token, repository.token);
    assert_eq!(other.expires_ms, repository.expires_ms);
    assert!(resource.acceptable_root_domains.is_empty());
    assert_eq!(
        internal(oidc.exchange_for_repository(None, "0a")),
        "access token is not a readable JWT"
    );
}

#[test]
fn exchanging_again_changes_nothing() {
    let oidc = OidcAuthentication::default();
    let read = |token: &str| Some(UserInfo { token: token.to_string(), ..info("p").unwrap() });
    let once = oidc.exchange_for_repository(read("t"), "0a").unwrap();
    assert_eq!(once.token, "t");
    let again = oidc.exchange_for_custom_resource(read(&once.token), "any").unwrap();
    assert_eq!(again.token, once.token);
    assert_eq!(again.expires_ms, once.expires_ms);
    assert_eq!(again.acceptable_root_domains, once.acceptable_root_domains);
}

#[test]
fn external_tokens_are_not_exchanged() {
    assert_eq!(
        unsupported(OidcAuthentication.exchange_external_token("eos")),
        "exchanging a 'eos' token"
    );
}

#[test]
fn users_resolve_to_themselves() {
    let ids = vec!["a".to_string(), "b".to_string()];
    let users = OidcAuthentication.get_user_info(&ids).unwrap();
    assert_eq!(users.len(), 2);
    assert_eq!(users[1].user_id, "b");
    assert_eq!(users[1].user_name, "b");
    assert!(OidcAuthentication.get_user_info(&[]).unwrap().is_empty());
    let found = OidcAuthentication.get_user_id("someone").unwrap().expect("a user");
    assert_eq!(found.user_id, "someone");
    assert_eq!(found.user_name, "someone");
}
