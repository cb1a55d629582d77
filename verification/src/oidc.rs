//! Authentication against OpenID Connect providers.
//!
//! Login uses the device authorization grant, which covers the browser and headless cases alike. A
//! login session is started, then polled until the user has approved it; the token that the poll
//! yields can be refreshed.
//!
//! Each of the three makes two requests: it fetches the provider's discovery document, then posts a
//! form to an endpoint that the document names. The caller performs a request, reads the JSON of the
//! body, and hands the outcome over as a [`Reply`]; every decision is made here.

use vstd::prelude::*;

use crate::endpoint::Endpoint;
use crate::endpoint::EndpointView;
use crate::error;
use crate::error::ProtocolError;
use crate::error::ProtocolErrorView;
use crate::text;

verus! {

/// The grant type of the device authorization grant.
pub const DEVICE_CODE_GRANT: &'static str = "urn:ietf:params:oauth:grant-type:device_code";

/// How long a connection may take to establish, in seconds.
pub const CONNECT_TIMEOUT_SECS: u64 = 10;

/// How long a request may take, in seconds.
pub const REQUEST_TIMEOUT_SECS: u64 = 30;

/// The subset of an OpenID provider's metadata this client uses.
#[derive(Debug)]
pub struct ProviderMetadata {
    pub device_authorization_endpoint: Option<String>,
    pub token_endpoint: String,
}

/// A provider's answer to a device authorization request.
#[derive(Debug)]
pub struct DeviceAuthorization {
    pub device_code: String,
    pub verification_uri: String,
    pub verification_uri_complete: Option<String>,
}

/// A provider's answer to a token request that it grants.
#[derive(Debug)]
pub struct TokenResponse {
    pub access_token: String,
    pub refresh_token: Option<String>,
}

/// A provider's answer to a token request that it does not grant.
#[derive(Debug)]
pub struct TokenErrorResponse {
    pub error: String,
}

/// The body of a token endpoint's answer, read as an error and as a grant.
///
/// The token endpoint reports a pending authorization as an HTTP 400 carrying a JSON error code, so
/// a failing status still holds the answer and both readings are tried.
#[derive(Debug)]
pub struct TokenReply {
    /// The body as an error, where it reads as one.
    pub failure: Option<TokenErrorResponse>,
    /// The body as a grant, or the message of the error that reading it as one gave.
    pub grant: Result<TokenResponse, String>,
}

/// What became of a request.
#[derive(Debug)]
pub enum Reply<T> {
    /// No HTTP client could be constructed to send it.
    NoClient { reason: String },
    /// It could not be sent, or no answer came.
    Unreachable,
    /// An answer came, and its body could not be read.
    Unreadable { reason: String },
    /// An answer came with this body.
    Body(T),
}

/// A form to post to a token or device endpoint.
#[derive(Debug)]
pub struct FormRequest {
    pub url: String,
    pub form: Vec<(String, String)>,
}

/// A `FormRequest` with its texts as sequences of characters.
pub struct FormRequestView {
    pub url: Seq<char>,
    pub form: Seq<(Seq<char>, Seq<char>)>,
}

impl DeepView for FormRequest {
    type V = FormRequestView;

    open spec fn deep_view(&self) -> FormRequestView {
        FormRequestView { url: self.url@, form: self.form.deep_view() }
    }
}

/// A login session that waits for the user's approval.
#[derive(Debug)]
pub struct AuthSession {
    /// The code to poll the session by.
    pub session_code: String,
    /// Where the user approves the session.
    pub login_url: String,
}

/// An `AuthSession` with its texts as sequences of characters.
pub struct AuthSessionView {
    pub session_code: Seq<char>,
    pub login_url: Seq<char>,
}

impl DeepView for AuthSession {
    type V = AuthSessionView;

    open spec fn deep_view(&self) -> AuthSessionView {
        AuthSessionView { session_code: self.session_code@, login_url: self.login_url@ }
    }
}

/// What an access token says of its bearer.
#[derive(Debug)]
pub struct UserInfo {
    /// The access token itself.
    pub token: String,
    /// The subject claim.
    pub id: String,
    pub name: String,
    /// Empty where the token carries none.
    pub preferred_username: String,
    /// When the token expires, in milliseconds since the epoch.
    pub expires: u64,
}

/// A token that proves who its bearer is.
#[derive(Debug)]
pub struct AuthenticationToken {
    pub token: String,
    pub user_id: String,
    pub user_name: String,
    pub expires_ms: u64,
    pub acceptable_root_domains: Vec<String>,
    pub refresh_token: Option<String>,
}

/// An `AuthenticationToken` with its texts as sequences of characters.
pub struct AuthenticationTokenView {
    pub token: Seq<char>,
    pub user_id: Seq<char>,
    pub user_name: Seq<char>,
    pub expires_ms: u64,
    pub acceptable_root_domains: Seq<Seq<char>>,
    pub refresh_token: Option<Seq<char>>,
}

impl DeepView for AuthenticationToken {
    type V = AuthenticationTokenView;

    open spec fn deep_view(&self) -> AuthenticationTokenView {
        AuthenticationTokenView {
            token: self.token@,
            user_id: self.user_id@,
            user_name: self.user_name@,
            expires_ms: self.expires_ms,
            acceptable_root_domains: self.acceptable_root_domains.deep_view(),
            refresh_token: self.refresh_token.deep_view(),
        }
    }
}

/// A token that authorizes its bearer for a resource.
#[derive(Debug)]
pub struct AuthorizationToken {
    pub token: String,
    pub expires_ms: u64,
    pub acceptable_root_domains: Vec<String>,
}

/// An `AuthorizationToken` with its texts as sequences of characters.
pub struct AuthorizationTokenView {
    pub token: Seq<char>,
    pub expires_ms: u64,
    pub acceptable_root_domains: Seq<Seq<char>>,
}

impl DeepView for AuthorizationToken {
    type V = AuthorizationTokenView;

    open spec fn deep_view(&self) -> AuthorizationTokenView {
        AuthorizationTokenView {
            token: self.token@,
            expires_ms: self.expires_ms,
            acceptable_root_domains: self.acceptable_root_domains.deep_view(),
        }
    }
}

/// A user's id and the name to display for it.
#[derive(Debug)]
pub struct ResolvedUser {
    pub user_id: String,
    pub user_name: String,
}

/// A `ResolvedUser` with its texts as sequences of characters.
pub struct ResolvedUserView {
    pub user_id: Seq<char>,
    pub user_name: Seq<char>,
}

impl DeepView for ResolvedUser {
    type V = ResolvedUserView;

    open spec fn deep_view(&self) -> ResolvedUserView {
        ResolvedUserView { user_id: self.user_id@, user_name: self.user_name@ }
    }
}

/// Where a provider publishes its metadata.
pub open spec fn discovery_url_of(issuer: Seq<char>) -> Seq<char> {
    issuer + "/.well-known/openid-configuration"@
}

/// The body that a reply brings; `unreadable` introduces the message of a body that could not be
/// read.
pub open spec fn body_of<T>(reply: Reply<T>, unreadable: Seq<char>) -> Result<T, ProtocolErrorView> {
    match reply {
        Reply::NoClient { reason } => Err(
            ProtocolErrorView::Internal("constructing HTTP client: "@ + reason@),
        ),
        Reply::Unreachable => Err(ProtocolErrorView::Disconnected),
        Reply::Unreadable { reason } => Err(ProtocolErrorView::Internal(unreadable + reason@)),
        Reply::Body(body) => Ok(body),
    }
}

/// The metadata that a reply to a discovery request brings.
pub open spec fn metadata_of(
    issuer: Seq<char>,
    reply: Reply<Result<ProviderMetadata, String>>,
) -> Result<ProviderMetadata, ProtocolErrorView> {
    match body_of(reply, "reading discovery document: "@) {
        Err(error) => Err(error),
        Ok(Ok(metadata)) => Ok(metadata),
        Ok(Err(message)) => Err(
            ProtocolErrorView::Internal(
                "parsing discovery document at "@ + discovery_url_of(issuer) + ": "@ + message@,
            ),
        ),
    }
}

/// The body that a reply to a posted form brings.
pub open spec fn posted<T>(url: Seq<char>, reply: Reply<T>) -> Result<T, ProtocolErrorView> {
    body_of(reply, "reading response from "@ + url + ": "@)
}

/// The request that starts a login session: the client and the scopes it asks for, to the endpoint
/// that the provider advertises for devices.
pub open spec fn device_request(
    endpoint: EndpointView,
    discovery: Reply<Result<ProviderMetadata, String>>,
) -> Result<FormRequestView, ProtocolErrorView> {
    match metadata_of(endpoint.issuer, discovery) {
        Err(error) => Err(error),
        Ok(metadata) => match metadata.device_authorization_endpoint {
            None => Err(
                ProtocolErrorView::NotSupported {
                    operation: endpoint.issuer
                        + " advertises no device authorization endpoint"@,
                },
            ),
            Some(url) => Ok(
                FormRequestView {
                    url: url@,
                    form: seq![
                        ("client_id"@, endpoint.client_id),
                        ("scope"@, endpoint.scopes),
                    ],
                },
            ),
        },
    }
}

/// The login session that the reply to a device request brings.
pub open spec fn session_of(
    url: Seq<char>,
    reply: Reply<Result<DeviceAuthorization, String>>,
) -> Result<AuthSessionView, ProtocolErrorView> {
    match posted(url, reply) {
        Err(error) => Err(error),
        Ok(Err(message)) => Err(
            ProtocolErrorView::Internal("parsing device authorization response: "@ + message@),
        ),
        Ok(Ok(authorization)) => Ok(
            AuthSessionView {
                session_code: authorization.device_code@,
                login_url: match authorization.verification_uri_complete {
                    Some(uri) => uri@,
                    None => authorization.verification_uri@,
                },
            },
        ),
    }
}

/// A request to the provider's token endpoint: the grant type, what is redeemed, and the client.
pub open spec fn token_request(
    endpoint: EndpointView,
    discovery: Reply<Result<ProviderMetadata, String>>,
    grant_type: Seq<char>,
    redeemed: (Seq<char>, Seq<char>),
) -> Result<FormRequestView, ProtocolErrorView> {
    match metadata_of(endpoint.issuer, discovery) {
        Err(error) => Err(error),
        Ok(metadata) => Ok(
            FormRequestView {
                url: metadata.token_endpoint@,
                form: seq![
                    ("grant_type"@, grant_type),
                    redeemed,
                    ("client_id"@, endpoint.client_id),
                ],
            },
        ),
    }
}

/// What an error code of the token endpoint means for a login session: it is still waiting, or it
/// has failed.
pub open spec fn session_failure(code: Seq<char>) -> Result<
    Option<TokenResponse>,
    ProtocolErrorView,
> {
    if code == "authorization_pending"@ || code == "slow_down"@ {
        Ok(None)
    } else if code == "access_denied"@ {
        Err(ProtocolErrorView::NotAuthorized)
    } else if code == "expired_token"@ {
        Err(
            ProtocolErrorView::NotSupported {
                operation: "login session expired before it was approved"@,
            },
        )
    } else {
        Err(ProtocolErrorView::Internal("device grant failed: "@ + code))
    }
}

/// What the reply to a poll brings: a grant, or nothing while the session waits.
pub open spec fn poll_answer(url: Seq<char>, reply: Reply<TokenReply>) -> Result<
    Option<TokenResponse>,
    ProtocolErrorView,
> {
    match posted(url, reply) {
        Err(error) => Err(error),
        Ok(TokenReply { failure: Some(failure), .. }) => session_failure(failure.error@),
        Ok(TokenReply { failure: None, grant: Ok(grant) }) => Ok(Some(grant)),
        Ok(TokenReply { failure: None, grant: Err(message) }) => Err(
            ProtocolErrorView::Internal("parsing token response: "@ + message@),
        ),
    }
}

/// What the reply to a refresh brings.
pub open spec fn refresh_answer(url: Seq<char>, reply: Reply<TokenReply>) -> Result<
    TokenResponse,
    ProtocolErrorView,
> {
    match posted(url, reply) {
        Err(error) => Err(error),
        Ok(TokenReply { failure: Some(_), .. }) => Err(ProtocolErrorView::NotAuthorized),
        Ok(TokenReply { failure: None, grant: Ok(grant) }) => Ok(grant),
        Ok(TokenReply { failure: None, grant: Err(message) }) => Err(
            ProtocolErrorView::Internal("parsing refresh response: "@ + message@),
        ),
    }
}

/// The error for an access token that says nothing of its bearer.
pub open spec fn unreadable_token() -> ProtocolErrorView {
    ProtocolErrorView::Internal("access token is not a readable JWT"@)
}

/// The name to display for the bearer of a token.
pub open spec fn display_name(info: UserInfo) -> Seq<char> {
    if info.preferred_username@.len() == 0 {
        info.name@
    } else {
        info.preferred_username@
    }
}

/// The identity that an access token proves.
pub open spec fn identity_of(info: Option<UserInfo>, refresh_token: Option<Seq<char>>) -> Result<
    AuthenticationTokenView,
    ProtocolErrorView,
> {
    match info {
        None => Err(unreadable_token()),
        Some(info) => Ok(
            AuthenticationTokenView {
                token: info.token@,
                user_id: info.id@,
                user_name: display_name(info),
                expires_ms: info.expires,
                acceptable_root_domains: seq![],
                refresh_token,
            },
        ),
    }
}

/// The authorization that an access token gives.
pub open spec fn authorization_of(info: Option<UserInfo>) -> Result<
    AuthorizationTokenView,
    ProtocolErrorView,
> {
    match info {
        None => Err(unreadable_token()),
        Some(info) => Ok(
            AuthorizationTokenView {
                token: info.token@,
                expires_ms: info.expires,
                acceptable_root_domains: seq![],
            },
        ),
    }
}

/// The user whose id and display name are the same text.
pub open spec fn self_named(text: Seq<char>) -> ResolvedUserView {
    ResolvedUserView { user_id: text, user_name: text }
}

/// Where to fetch the discovery document of an issuer.
pub fn discovery_url(issuer: &str) -> (url: String)
    ensures
        url@ == discovery_url_of(issuer@),
{
    let mut url = issuer.to_owned();
    url.append("/.well-known/openid-configuration");
    url
}

/// Takes the body out of a reply.
fn take_body<T>(reply: Reply<T>, unreadable: &str) -> (body: Result<T, ProtocolError>)
    ensures
        error::outcome_of(body) == body_of(reply, unreadable@),
{
    match reply {
        Reply::NoClient { reason } => {
            let mut message = "constructing HTTP client: ".to_owned();
            message.append(reason.as_str());
            Err(ProtocolError::internal(message))
        },
        Reply::Unreachable => Err(ProtocolError::Disconnected),
        Reply::Unreadable { reason } => {
            let mut message = unreadable.to_owned();
            message.append(reason.as_str());
            Err(ProtocolError::internal(message))
        },
        Reply::Body(body) => Ok(body),
    }
}

/// Takes the provider's metadata out of the reply to a request for its discovery document.
pub fn discover(issuer: &str, reply: Reply<Result<ProviderMetadata, String>>) -> (metadata: Result<
    ProviderMetadata,
    ProtocolError,
>)
    ensures
        error::outcome_of(metadata) == metadata_of(issuer@, reply),
{
    match take_body(reply, "reading discovery document: ") {
        Err(error) => Err(error),
        Ok(Ok(metadata)) => Ok(metadata),
        Ok(Err(reason)) => {
            let mut message = "parsing discovery document at ".to_owned();
            message.append(discovery_url(issuer).as_str());
            message.append(": ");
            message.append(reason.as_str());
            Err(ProtocolError::internal(message))
        },
    }
}

/// Takes the body out of the reply to a form posted to a token or device endpoint.
pub fn post_form<T>(url: &str, reply: Reply<T>) -> (body: Result<T, ProtocolError>)
    ensures
        error::outcome_of(body) == posted(url@, reply),
{
    let mut unreadable = "reading response from ".to_owned();
    unreadable.append(url);
    unreadable.append(": ");
    take_body(reply, unreadable.as_str())
}

/// Reads the identity out of what an access token says of its bearer, which is absent where the
/// token is not readable.
///
/// The subject claim is the identity, and `preferred_username` the display name where the token
/// carries one.
pub fn authentication_token(info: Option<UserInfo>, refresh_token: Option<String>) -> (token: Result<
    AuthenticationToken,
    ProtocolError,
>)
    ensures
        error::outcome(token) == identity_of(info, refresh_token.deep_view()),
{
    match info {
        None => Err(ProtocolError::internal("access token is not a readable JWT".to_owned())),
        Some(info) => {
            let user_name = if info.preferred_username.as_str().is_empty() {
                info.name
            } else {
                info.preferred_username
            };
            let acceptable_root_domains: Vec<String> = Vec::new();
            assert(acceptable_root_domains.deep_view() =~= seq![]);
            Ok(
                AuthenticationToken {
                    token: info.token,
                    user_id: info.id,
                    user_name,
                    expires_ms: info.expires,
                    acceptable_root_domains,
                    refresh_token,
                },
            )
        },
    }
}

/// Builds a request to the provider's token endpoint.
fn redeem(
    endpoint: &Endpoint,
    discovery: Reply<Result<ProviderMetadata, String>>,
    grant_type: &str,
    key: &str,
    value: &str,
) -> (request: Result<FormRequest, ProtocolError>)
    ensures
        error::outcome(request) == token_request(
            endpoint.deep_view(),
            discovery,
            grant_type@,
            (key@, value@),
        ),
{
    match discover(endpoint.issuer.as_str(), discovery) {
        Err(error) => Err(error),
        Ok(metadata) => {
            let mut form: Vec<(String, String)> = Vec::new();
            form.push(("grant_type".to_owned(), grant_type.to_owned()));
            form.push((key.to_owned(), value.to_owned()));
            form.push(("client_id".to_owned(), endpoint.client_id.clone()));
            assert(form.deep_view() =~= seq![
                ("grant_type"@, grant_type@),
                (key@, value@),
                ("client_id"@, endpoint.client_id@),
            ]);
            Ok(FormRequest { url: metadata.token_endpoint, form })
        },
    }
}

/// Authentication implementation for OpenID Connect providers.
///
/// Registered under the `oidc` and `oidc-http` schemes.
///
/// The access token authorizes on its own: an exchange returns it unchanged, because narrowing one
/// to a single repository needs a grant a provider is not assumed to offer.
#[derive(Debug)]
pub struct OidcAuthentication;

impl Default for OidcAuthentication {
    fn default() -> (authentication: OidcAuthentication)
        ensures
            authentication == OidcAuthentication,
    {
        OidcAuthentication
    }
}

impl OidcAuthentication {
    /// Goes on to start a login session, upon the reply to the request for the discovery document.
    pub fn start_auth_session(
        &self,
        endpoint: &Endpoint,
        discovery: Reply<Result<ProviderMetadata, String>>,
    ) -> (request: Result<FormRequest, ProtocolError>)
        ensures
            error::outcome(request) == device_request(endpoint.deep_view(), discovery),
    {
        let metadata = match discover(endpoint.issuer.as_str(), discovery) {
            Ok(metadata) => metadata,
            Err(error) => return Err(error),
        };
        match metadata.device_authorization_endpoint {
            None => {
                let mut operation = endpoint.issuer.clone();
                operation.append(" advertises no device authorization endpoint");
                Err(ProtocolError::NotSupported { operation })
            },
            Some(url) => {
                let mut form: Vec<(String, String)> = Vec::new();
                form.push(("client_id".to_owned(), endpoint.client_id.clone()));
                form.push(("scope".to_owned(), endpoint.scopes.clone()));
                assert(form.deep_view() =~= seq![
                    ("client_id"@, endpoint.client_id@),
                    ("scope"@, endpoint.scopes@),
                ]);
                Ok(FormRequest { url, form })
            },
        }
    }

    /// Ends the start of a login session, upon the reply to the device request.
    pub fn auth_session_started(
        &self,
        url: &str,
        reply: Reply<Result<DeviceAuthorization, String>>,
    ) -> (session: Result<AuthSession, ProtocolError>)
        ensures
            error::outcome(session) == session_of(url@, reply),
    {
        match post_form(url, reply) {
            Err(error) => Err(error),
            Ok(Err(reason)) => {
                let mut message = "parsing device authorization response: ".to_owned();
                message.append(reason.as_str());
                Err(ProtocolError::internal(message))
            },
            Ok(Ok(authorization)) => Ok(
                AuthSession {
                    session_code: authorization.device_code,
                    login_url: match authorization.verification_uri_complete {
                        Some(uri) => uri,
                        None => authorization.verification_uri,
                    },
                },
            ),
        }
    }

    /// Goes on to poll a login session, upon the reply to the request for the discovery document.
    pub fn poll_auth_session(
        &self,
        endpoint: &Endpoint,
        session_code: &str,
        discovery: Reply<Result<ProviderMetadata, String>>,
    ) -> (request: Result<FormRequest, ProtocolError>)
        ensures
            error::outcome(request) == token_request(
                endpoint.deep_view(),
                discovery,
                DEVICE_CODE_GRANT@,
                ("device_code"@, session_code@),
            ),
    {
        redeem(endpoint, discovery, DEVICE_CODE_GRANT, "device_code", session_code)
    }

    /// Ends a poll, upon the reply to the token request: a grant, or nothing while the user is still
    /// at the login screen. The identity is then read by [`Self::identity_granted`].
    ///
    /// An error code is the answer while the user is still at the login screen, so it is read before
    /// the grant is.
    pub fn auth_session_polled(&self, url: &str, reply: Reply<TokenReply>) -> (grant: Result<
        Option<TokenResponse>,
        ProtocolError,
    >)
        ensures
            error::outcome_of(grant) == poll_answer(url@, reply),
    {
        let answer = match post_form(url, reply) {
            Ok(answer) => answer,
            Err(error) => return Err(error),
        };
        if let Some(failure) = answer.failure {
            let code = failure.error;
            return if text::same_text(code.as_str(), "authorization_pending") || text::same_text(
                code.as_str(),
                "slow_down",
            ) {
                Ok(None)
            } else if text::same_text(code.as_str(), "access_denied") {
                Err(ProtocolError::NotAuthorized)
            } else if text::same_text(code.as_str(), "expired_token") {
                Err(
                    ProtocolError::NotSupported {
                        operation: "login session expired before it was approved".to_owned(),
                    },
                )
            } else {
                let mut message = "device grant failed: ".to_owned();
                message.append(code.as_str());
                Err(ProtocolError::internal(message))
            };
        }
        match answer.grant {
            Ok(grant) => Ok(Some(grant)),
            Err(reason) => {
                let mut message = "parsing token response: ".to_owned();
                message.append(reason.as_str());
                Err(ProtocolError::internal(message))
            },
        }
    }

    /// Exchanging a token of another kind is not offered.
    pub fn exchange_external_token(&self, token_type: &str) -> (token: Result<
        AuthenticationToken,
        ProtocolError,
    >)
        ensures
            error::outcome(token) == Err::<AuthenticationTokenView, ProtocolErrorView>(
                ProtocolErrorView::NotSupported {
                    operation: "exchanging a '"@ + token_type@ + "' token"@,
                },
            ),
    {
        let mut operation = "exchanging a '".to_owned();
        operation.append(token_type);
        operation.append("' token");
        Err(ProtocolError::NotSupported { operation })
    }

    /// Goes on to refresh a token, upon the reply to the request for the discovery document.
    pub fn refresh_authentication(
        &self,
        endpoint: &Endpoint,
        refresh_token: &str,
        discovery: Reply<Result<ProviderMetadata, String>>,
    ) -> (request: Result<FormRequest, ProtocolError>)
        ensures
            error::outcome(request) == token_request(
                endpoint.deep_view(),
                discovery,
                "refresh_token"@,
                ("refresh_token"@, refresh_token@),
            ),
    {
        redeem(endpoint, discovery, "refresh_token", "refresh_token", refresh_token)
    }

    /// Ends a refresh, upon the reply to the token request. The identity is then read by
    /// [`Self::identity_granted`].
    pub fn authentication_refreshed(&self, url: &str, reply: Reply<TokenReply>) -> (grant: Result<
        TokenResponse,
        ProtocolError,
    >)
        ensures
            error::outcome_of(grant) == refresh_answer(url@, reply),
    {
        let answer = match post_form(url, reply) {
            Ok(answer) => answer,
            Err(error) => return Err(error),
        };
        if answer.failure.is_some() {
            return Err(ProtocolError::NotAuthorized);
        }
        match answer.grant {
            Ok(grant) => Ok(grant),
            Err(reason) => {
                let mut message = "parsing refresh response: ".to_owned();
                message.append(reason.as_str());
                Err(ProtocolError::internal(message))
            },
        }
    }

    /// Makes the identity of a grant, of whose access token `info` is what it says of its bearer. The
    /// refresh token that is kept with the identity is that of the grant.
    pub fn identity_granted(&self, grant: TokenResponse, info: Option<UserInfo>) -> (token: Result<
        AuthenticationToken,
        ProtocolError,
    >)
        ensures
            error::outcome(token) == identity_of(info, grant.refresh_token.deep_view()),
    {
        authentication_token(info, grant.refresh_token)
    }

    /// Exchanges an access token, of which `info` is what it says of its bearer, for one that
    /// authorizes for a repository. The token is the same for every repository.
    pub fn exchange_for_repository(&self, info: Option<UserInfo>, _repository_id: &str) -> (token:
        Result<AuthorizationToken, ProtocolError>)
        ensures
            error::outcome(token) == authorization_of(info),
    {
        self.exchange_for_custom_resource(info, "")
    }

    /// Exchanges an access token, of which `info` is what it says of its bearer, for one that
    /// authorizes for a resource. The token is the same for every resource.
    pub fn exchange_for_custom_resource(&self, info: Option<UserInfo>, _resource_id: &str) -> (token:
        Result<AuthorizationToken, ProtocolError>)
        ensures
            error::outcome(token) == authorization_of(info),
    {
        match info {
            None => Err(ProtocolError::internal("access token is not a readable JWT".to_owned())),
            Some(info) => {
                let acceptable_root_domains: Vec<String> = Vec::new();
                assert(acceptable_root_domains.deep_view() =~= seq![]);
                Ok(
                    AuthorizationToken {
                        token: info.token,
                        expires_ms: info.expires,
                        acceptable_root_domains,
                    },
                )
            },
        }
    }

    /// Resolves user ids.
    ///
    /// OpenID Connect resolves the bearer's own identity and no other, so an id resolves to itself
    /// and the caller displays it raw.
    pub fn get_user_info(&self, user_ids: &[String]) -> (users: Result<
        Vec<ResolvedUser>,
        ProtocolError,
    >)
        ensures
            error::outcome(users) == Ok::<Seq<ResolvedUserView>, ProtocolErrorView>(
                user_ids.deep_view().map_values(|user_id: Seq<char>| self_named(user_id)),
            ),
    {
        let ghost wanted = user_ids.deep_view().map_values(|user_id: Seq<char>| self_named(user_id));
        let mut users: Vec<ResolvedUser> = Vec::new();
        for i in 0..user_ids.len()
            invariant
                wanted == user_ids.deep_view().map_values(
                    |user_id: Seq<char>| self_named(user_id),
                ),
                users.deep_view() == wanted.take(i as int),
        {
            let user_id = &user_ids[i];
            let ghost before = users.deep_view();
            users.push(ResolvedUser { user_id: user_id.clone(), user_name: user_id.clone() });
            assert(users.deep_view() =~= before.push(self_named(user_id@)));
            assert(wanted[i as int] == self_named(user_id@));
            assert(users.deep_view() =~= wanted.take(i + 1));
        }
        assert(wanted.take(user_ids.len() as int) =~= wanted);
        Ok(users)
    }

    /// Resolves a display name, which is the id of the user that it names.
    pub fn get_user_id(&self, display_name: &str) -> (user: Result<
        Option<ResolvedUser>,
        ProtocolError,
    >)
        ensures
            error::outcome(user) == Ok::<Option<ResolvedUserView>, ProtocolErrorView>(
                Some(self_named(display_name@)),
            ),
    {
        Ok(
            Some(
                ResolvedUser {
                    user_id: display_name.to_owned(),
                    user_name: display_name.to_owned(),
                },
            ),
        )
    }
}

/// A body that reads as an error is one, whatever it reads as otherwise: no poll and no refresh takes
/// a grant from it.
pub proof fn law_error_code_is_read_first(
    url: Seq<char>,
    failure: TokenErrorResponse,
    grant: Result<TokenResponse, String>,
)
    ensures
        poll_answer(url, Reply::Body(TokenReply { failure: Some(failure), grant }))
            == session_failure(failure.error@),
        refresh_answer(url, Reply::Body(TokenReply { failure: Some(failure), grant })) == Err::<
            TokenResponse,
            ProtocolErrorView,
        >(ProtocolErrorView::NotAuthorized),
        !(session_failure(failure.error@) matches Ok(Some(_))),
{
}

/// A poll says that the session waits if and only if the provider's error code says so.
pub proof fn law_session_waits_as_the_provider_says(url: Seq<char>, reply: Reply<TokenReply>)
    ensures
        poll_answer(url, reply) == Ok::<Option<TokenResponse>, ProtocolErrorView>(None) <==> (
        reply matches Reply::Body(TokenReply { failure: Some(failure), .. }) && (failure.error@
            == "authorization_pending"@ || failure.error@ == "slow_down"@)),
{
}

/// A poll and a refresh give out the grant that the provider's answer holds, and give one out if and
/// only if the answer holds one and no error.
pub proof fn law_grants_come_from_the_provider(
    url: Seq<char>,
    reply: Reply<TokenReply>,
    grant: TokenResponse,
)
    ensures
        poll_answer(url, reply) == Ok::<Option<TokenResponse>, ProtocolErrorView>(Some(grant)) <==> (
        reply matches Reply::Body(answer) && answer.failure is None && answer.grant == Ok::<
            TokenResponse,
            String,
        >(grant)),
        refresh_answer(url, reply) == Ok::<TokenResponse, ProtocolErrorView>(grant) <==> (
        reply matches Reply::Body(answer) && answer.failure is None && answer.grant == Ok::<
            TokenResponse,
            String,
        >(grant)),
{
}

/// Wherever the provider cannot be reached, the error says that the connection is gone.
pub proof fn law_unreachable_provider_is_disconnected(
    endpoint: EndpointView,
    url: Seq<char>,
    grant_type: Seq<char>,
    redeemed: (Seq<char>, Seq<char>),
)
    ensures
        device_request(endpoint, Reply::Unreachable) == Err::<FormRequestView, ProtocolErrorView>(
            ProtocolErrorView::Disconnected,
        ),
        token_request(endpoint, Reply::Unreachable, grant_type, redeemed) == Err::<
            FormRequestView,
            ProtocolErrorView,
        >(ProtocolErrorView::Disconnected),
        session_of(url, Reply::Unreachable) == Err::<AuthSessionView, ProtocolErrorView>(
            ProtocolErrorView::Disconnected,
        ),
        poll_answer(url, Reply::Unreachable) == Err::<Option<TokenResponse>, ProtocolErrorView>(
            ProtocolErrorView::Disconnected,
        ),
        refresh_answer(url, Reply::Unreachable) == Err::<TokenResponse, ProtocolErrorView>(
            ProtocolErrorView::Disconnected,
        ),
{
}

/// Every form names the client of the endpoint, and is posted to an endpoint that the provider's
/// metadata name.
pub proof fn law_every_form_names_the_client(
    endpoint: EndpointView,
    discovery: Reply<Result<ProviderMetadata, String>>,
    grant_type: Seq<char>,
    redeemed: (Seq<char>, Seq<char>),
)
    ensures
        device_request(endpoint, discovery) matches Ok(request) ==> {
            &&& request.form.contains(("client_id"@, endpoint.client_id))
            &&& discovery matches Reply::Body(Ok(metadata))
            &&& metadata.device_authorization_endpoint.deep_view() == Some(request.url)
        },
        token_request(endpoint, discovery, grant_type, redeemed) matches Ok(request) ==> {
            &&& request.form.contains(("client_id"@, endpoint.client_id))
            &&& discovery matches Reply::Body(Ok(metadata))
            &&& metadata.token_endpoint@ == request.url
        },
{
    if let Ok(request) = device_request(endpoint, discovery) {
        assert(request.form[0] == ("client_id"@, endpoint.client_id));
    }
    if let Ok(request) = token_request(endpoint, discovery, grant_type, redeemed) {
        assert(request.form[2] == ("client_id"@, endpoint.client_id));
    }
}

/// The code by which a session is polled is the device code that the provider gave when the session
/// was started.
pub proof fn law_poll_redeems_the_started_session(
    endpoint: EndpointView,
    url: Seq<char>,
    authorization: DeviceAuthorization,
    discovery: Reply<Result<ProviderMetadata, String>>,
)
    ensures
        session_of(url, Reply::Body(Ok(authorization))) matches Ok(session) && (token_request(
            endpoint,
            discovery,
            DEVICE_CODE_GRANT@,
            ("device_code"@, session.session_code),
        ) matches Ok(request) ==> request.form.contains(
            ("device_code"@, authorization.device_code@),
        )),
{
    let code = ("device_code"@, authorization.device_code@);
    if let Ok(request) = token_request(endpoint, discovery, DEVICE_CODE_GRANT@, code) {
        assert(request.form[1] == code);
    }
}

/// The refresh token of a grant is kept with the identity, and is what a refresh redeems.
pub proof fn law_refresh_redeems_the_granted_token(
    endpoint: EndpointView,
    info: UserInfo,
    granted: Seq<char>,
    discovery: Reply<Result<ProviderMetadata, String>>,
)
    ensures
        identity_of(Some(info), Some(granted)) matches Ok(identity) && identity.refresh_token
            matches Some(kept) && (token_request(
            endpoint,
            discovery,
            "refresh_token"@,
            ("refresh_token"@, kept),
        ) matches Ok(request) ==> request.form.contains(("refresh_token"@, granted))),
{
    let token = ("refresh_token"@, granted);
    if let Ok(request) = token_request(endpoint, discovery, "refresh_token"@, token) {
        assert(request.form[1] == token);
    }
}

/// The access token authorizes on its own: what an exchange gives is the token that proves the
/// identity, unchanged, with the same expiry; and a token that does not prove one is not exchanged.
pub proof fn law_exchange_returns_the_token_unchanged(
    info: Option<UserInfo>,
    refresh_token: Option<Seq<char>>,
)
    ensures
        match (identity_of(info, refresh_token), authorization_of(info)) {
            (Ok(identity), Ok(authorization)) => {
                &&& authorization.token == identity.token
                &&& authorization.expires_ms == identity.expires_ms
                &&& info matches Some(info)
                &&& authorization.token == info.token@
            },
            (Err(refusal), Err(other)) => refusal == other && info is None,
            _ => false,
        },
{
}

/// A poll and a refresh that bring the same grant end with the same identity: that of the grant's
/// access token, kept with the grant's refresh token.
pub proof fn law_granted_identity_keeps_its_refresh_token(
    url: Seq<char>,
    reply: Reply<TokenReply>,
    grant: TokenResponse,
    info: UserInfo,
)
    requires
        reply == Reply::Body(TokenReply { failure: None, grant: Ok(grant) }),
    ensures
        poll_answer(url, reply) == Ok::<_, ProtocolErrorView>(Some(grant)),
        refresh_answer(url, reply) == Ok::<_, ProtocolErrorView>(grant),
        identity_of(Some(info), grant.refresh_token.deep_view()) matches Ok(identity)
            && identity.token == info.token@ && identity.refresh_token
            == grant.refresh_token.deep_view(),
{
}

/// One access token is exchanged for the same token whatever it is to authorize for: any two
/// repositories and any resource give equal results.
pub proof fn law_every_exchange_gives_the_same(
    oidc: OidcAuthentication,
    info: Option<UserInfo>,
    repository: &str,
    other: &str,
    resource: &str,
    for_repository: Result<AuthorizationToken, ProtocolError>,
    for_other: Result<AuthorizationToken, ProtocolError>,
    for_resource: Result<AuthorizationToken, ProtocolError>,
)
    requires
        call_ensures(
            OidcAuthentication::exchange_for_repository,
            (&oidc, info, repository),
            for_repository,
        ),
        call_ensures(OidcAuthentication::exchange_for_repository, (&oidc, info, other), for_other),
        call_ensures(
            OidcAuthentication::exchange_for_custom_resource,
            (&oidc, info, resource),
            for_resource,
        ),
    ensures
        error::outcome(for_repository) == error::outcome(for_other),
        error::outcome(for_repository) == error::outcome(for_resource),
{
}

/// An exchange returns the access token that it is given, and exchanging the returned token again
/// gives the same: this holds with every way to read tokens that says of a readable token that it is
/// that token.
pub proof fn law_exchanging_again_changes_nothing(
    read: spec_fn(Seq<char>) -> Option<UserInfo>,
    token: Seq<char>,
)
    requires
        read(token) matches Some(info) ==> info.token@ == token,
    ensures
        read(token) is Some <==> authorization_of(read(token)) is Ok,
        authorization_of(read(token)) matches Ok(authorization) ==> authorization.token == token
            && authorization_of(read(authorization.token)) == authorization_of(read(token)),
{
}

/// A user that a display name resolves to resolves, by its id, to itself.
pub proof fn law_resolved_users_stay_themselves(display_name: Seq<char>)
    ensures
        seq![self_named(display_name).user_id].map_values(|user_id: Seq<char>| self_named(user_id))
            == seq![self_named(display_name)],
{
    assert(seq![self_named(display_name).user_id].map_values(
        |user_id: Seq<char>| self_named(user_id),
    ) =~= seq![self_named(display_name)]);
}

/// Connections are given up after ten seconds, and requests after thirty.
pub proof fn law_requests_are_given_up()
    ensures
        CONNECT_TIMEOUT_SECS == 10,
        REQUEST_TIMEOUT_SECS == 30,
{
}

/// The discovery document of an issuer stands at the well-known place under the issuer's URL.
pub proof fn law_discovery_document_is_well_known(issuer: &str, url: String)
    requires
        call_ensures(discovery_url, (issuer,), url),
    ensures
        url@ == issuer@ + "/.well-known/openid-configuration"@,
{
}

/// The metadata of a provider are those that its discovery document holds, as they stand; whatever
/// else came of the request is an error that says what.
pub proof fn law_metadata_come_from_the_document(
    issuer: &str,
    reply: Reply<Result<ProviderMetadata, String>>,
    metadata: Result<ProviderMetadata, ProtocolError>,
)
    requires
        call_ensures(discover, (issuer, reply), metadata),
    ensures
        match reply {
            Reply::Body(Ok(document)) => metadata == Ok::<ProviderMetadata, ProtocolError>(document),
            Reply::Body(Err(reason)) => metadata matches Err(ProtocolError::Internal(message))
                && message@ == "parsing discovery document at "@ + (issuer@
                + "/.well-known/openid-configuration"@) + ": "@ + reason@,
            Reply::Unreadable { reason } => metadata matches Err(ProtocolError::Internal(message))
                && message@ == "reading discovery document: "@ + reason@,
            Reply::Unreachable => metadata matches Err(ProtocolError::Disconnected),
            Reply::NoClient { reason } => metadata matches Err(ProtocolError::Internal(message))
                && message@ == "constructing HTTP client: "@ + reason@,
        },
{
}

/// The body of an answer to a form is handed on as it stands; whatever else came of the request is
/// an error that says what.
pub proof fn law_body_is_handed_on<T>(url: &str, reply: Reply<T>, body: Result<T, ProtocolError>)
    requires
        call_ensures(post_form::<T>, (url, reply), body),
    ensures
        match reply {
            Reply::Body(answer) => body == Ok::<T, ProtocolError>(answer),
            Reply::Unreadable { reason } => body matches Err(ProtocolError::Internal(message))
                && message@ == "reading response from "@ + url@ + ": "@ + reason@,
            Reply::Unreachable => body matches Err(ProtocolError::Disconnected),
            Reply::NoClient { reason } => body matches Err(ProtocolError::Internal(message))
                && message@ == "constructing HTTP client: "@ + reason@,
        },
{
}

/// A login session is asked for with the client and the scopes of the endpoint, as they stand, at the
/// endpoint for devices that the provider's metadata name; where they name none, that is the error;
/// and where there are no metadata, the error is that of the discovery.
pub proof fn law_session_is_asked_for_with_the_scopes(
    oidc: OidcAuthentication,
    endpoint: Endpoint,
    discovery: Reply<Result<ProviderMetadata, String>>,
    request: Result<FormRequest, ProtocolError>,
)
    requires
        call_ensures(
            OidcAuthentication::start_auth_session,
            (&oidc, &endpoint, discovery),
            request,
        ),
    ensures
        match discovery {
            Reply::Body(Ok(metadata)) => match metadata.device_authorization_endpoint {
                Some(url) => {
                    &&& request matches Ok(request)
                    &&& request.url@ == url@
                    &&& request.form@.len() == 2
                    &&& request.form@[0].0@ == "client_id"@
                    &&& request.form@[0].1@ == endpoint.client_id@
                    &&& request.form@[1].0@ == "scope"@
                    &&& request.form@[1].1@ == endpoint.scopes@
                },
                None => request matches Err(ProtocolError::NotSupported { operation }) && operation@
                    == endpoint.issuer@ + " advertises no device authorization endpoint"@,
            },
            Reply::Body(Err(reason)) => request matches Err(ProtocolError::Internal(message))
                && message@ == "parsing discovery document at "@ + (endpoint.issuer@
                + "/.well-known/openid-configuration"@) + ": "@ + reason@,
            Reply::Unreadable { reason } => request matches Err(ProtocolError::Internal(message))
                && message@ == "reading discovery document: "@ + reason@,
            Reply::Unreachable => request matches Err(ProtocolError::Disconnected),
            Reply::NoClient { reason } => request matches Err(ProtocolError::Internal(message))
                && message@ == "constructing HTTP client: "@ + reason@,
        },
{
    if let Ok(request) = request {
        assert(request.form.deep_view().len() == 2);
        assert(forall|i: int|
            0 <= i < 2 ==> #[trigger] request.form.deep_view()[i] == (
                request.form@[i].0@,
                request.form@[i].1@,
            ));
    }
}

/// The user logs in where the provider says, character for character: at the complete address where
/// it gives one, and at the plain one where it gives none; and the session goes by the code that the
/// provider gave.
pub proof fn law_user_logs_in_where_the_provider_says(
    oidc: OidcAuthentication,
    url: &str,
    reply: Reply<Result<DeviceAuthorization, String>>,
    session: Result<AuthSession, ProtocolError>,
)
    requires
        call_ensures(OidcAuthentication::auth_session_started, (&oidc, url, reply), session),
    ensures
        match reply {
            Reply::Body(Ok(authorization)) => {
                &&& session matches Ok(session)
                &&& session.session_code@ == authorization.device_code@
                &&& authorization.verification_uri_complete matches Some(complete)
                    ==> session.login_url@ == complete@
                &&& authorization.verification_uri_complete is None ==> session.login_url@
                    == authorization.verification_uri@
            },
            Reply::Body(Err(reason)) => session matches Err(ProtocolError::Internal(message))
                && message@ == "parsing device authorization response: "@ + reason@,
            Reply::Unreadable { reason } => session matches Err(ProtocolError::Internal(message))
                && message@ == "reading response from "@ + url@ + ": "@ + reason@,
            Reply::Unreachable => session matches Err(ProtocolError::Disconnected),
            Reply::NoClient { reason } => session matches Err(ProtocolError::Internal(message))
                && message@ == "constructing HTTP client: "@ + reason@,
        },
{
}

/// A poll redeems the code of the session, and a refresh the refresh token, each as it stands and
/// under its own grant type, for the client of the endpoint, at the token endpoint that the
/// provider's metadata name; where there are no metadata, the error is that of the discovery.
pub proof fn law_what_is_given_is_redeemed(
    oidc: OidcAuthentication,
    endpoint: Endpoint,
    given: &str,
    discovery: Reply<Result<ProviderMetadata, String>>,
    polled: Result<FormRequest, ProtocolError>,
    refreshed: Result<FormRequest, ProtocolError>,
)
    requires
        call_ensures(
            OidcAuthentication::poll_auth_session,
            (&oidc, &endpoint, given, discovery),
            polled,
        ),
        call_ensures(
            OidcAuthentication::refresh_authentication,
            (&oidc, &endpoint, given, discovery),
            refreshed,
        ),
    ensures
        match discovery {
            Reply::Body(Ok(metadata)) => {
                &&& polled matches Ok(polled)
                &&& polled.url@ == metadata.token_endpoint@
                &&& polled.form@.len() == 3
                &&& polled.form@[0].0@ == "grant_type"@
                &&& polled.form@[0].1@ == "urn:ietf:params:oauth:grant-type:device_code"@
                &&& polled.form@[1].0@ == "device_code"@
                &&& polled.form@[1].1@ == given@
                &&& polled.form@[2].0@ == "client_id"@
                &&& polled.form@[2].1@ == endpoint.client_id@
                &&& refreshed matches Ok(refreshed)
                &&& refreshed.url@ == metadata.token_endpoint@
                &&& refreshed.form@.len() == 3
                &&& refreshed.form@[0].0@ == "grant_type"@
                &&& refreshed.form@[0].1@ == "refresh_token"@
                &&& refreshed.form@[1].0@ == "refresh_token"@
                &&& refreshed.form@[1].1@ == given@
                &&& refreshed.form@[2].0@ == "client_id"@
                &&& refreshed.form@[2].1@ == endpoint.client_id@
            },
            Reply::Body(Err(reason)) => {
                &&& polled matches Err(ProtocolError::Internal(message))
                &&& message@ == "parsing discovery document at "@ + (endpoint.issuer@
                    + "/.well-known/openid-configuration"@) + ": "@ + reason@
                &&& refreshed matches Err(ProtocolError::Internal(other))
                &&& other@ == message@
            },
            Reply::Unreadable { reason } => {
                &&& polled matches Err(ProtocolError::Internal(message))
                &&& message@ == "reading discovery document: "@ + reason@
                &&& refreshed matches Err(ProtocolError::Internal(other))
                &&& other@ == message@
            },
            Reply::Unreachable => {
                &&& polled matches Err(ProtocolError::Disconnected)
                &&& refreshed matches Err(ProtocolError::Disconnected)
            },
            Reply::NoClient { reason } => {
                &&& polled matches Err(ProtocolError::Internal(message))
                &&& message@ == "constructing HTTP client: "@ + reason@
                &&& refreshed matches Err(ProtocolError::Internal(other))
                &&& other@ == message@
            },
        },
{
    if let Ok(request) = polled {
        assert(request.form.deep_view().len() == 3);
        assert(forall|i: int|
            0 <= i < 3 ==> #[trigger] request.form.deep_view()[i] == (
                request.form@[i].0@,
                request.form@[i].1@,
            ));
    }
    if let Ok(request) = refreshed {
        assert(request.form.deep_view().len() == 3);
        assert(forall|i: int|
            0 <= i < 3 ==> #[trigger] request.form.deep_view()[i] == (
                request.form@[i].0@,
                request.form@[i].1@,
            ));
    }
}

/// A poll brings the grant that the provider's answer holds, as it stands, where the answer does not
/// read as an error. Where it does, the session waits upon `authorization_pending` and `slow_down`
/// alone, is refused upon `access_denied`, has run out upon `expired_token`, and has failed by every
/// other code.
pub proof fn law_poll_says_what_the_provider_says(
    oidc: OidcAuthentication,
    url: &str,
    reply: Reply<TokenReply>,
    polled: Result<Option<TokenResponse>, ProtocolError>,
)
    requires
        call_ensures(OidcAuthentication::auth_session_polled, (&oidc, url, reply), polled),
    ensures
        match reply {
            Reply::Body(TokenReply { failure: None, grant: Ok(grant) }) => polled == Ok::<
                Option<TokenResponse>,
                ProtocolError,
            >(Some(grant)),
            Reply::Body(TokenReply { failure: None, grant: Err(reason) }) => {
                polled matches Err(ProtocolError::Internal(message)) && message@
                    == "parsing token response: "@ + reason@
            },
            Reply::Body(TokenReply { failure: Some(failure), .. }) => {
                let code = failure.error@;
                &&& code == "authorization_pending"@ || code == "slow_down"@ <==> (polled matches Ok(
                    None,
                ))
                &&& code == "access_denied"@ <==> (polled matches Err(ProtocolError::NotAuthorized))
                &&& code == "expired_token"@ <==> (polled matches Err(
                    ProtocolError::NotSupported { operation },
                ) && operation@ == "login session expired before it was approved"@)
                &&& code != "authorization_pending"@ && code != "slow_down"@ && code
                    != "access_denied"@ && code != "expired_token"@ ==> (polled matches Err(
                    ProtocolError::Internal(message),
                ) && message@ == "device grant failed: "@ + code)
            },
            Reply::Unreadable { reason } => polled matches Err(ProtocolError::Internal(message))
                && message@ == "reading response from "@ + url@ + ": "@ + reason@,
            Reply::Unreachable => polled matches Err(ProtocolError::Disconnected),
            Reply::NoClient { reason } => polled matches Err(ProtocolError::Internal(message))
                && message@ == "constructing HTTP client: "@ + reason@,
        },
{
    reveal_strlit("authorization_pending");
    reveal_strlit("slow_down");
    reveal_strlit("access_denied");
    reveal_strlit("expired_token");
    assert("access_denied"@[0] == 'a' && "expired_token"@[0] == 'e');
    assert("access_denied"@.len() == 13 && "slow_down"@.len() == 9);
}

/// A refresh brings the grant that the provider's answer holds, as it stands, where the answer does
/// not read as an error, and is refused upon every error.
pub proof fn law_refresh_says_what_the_provider_says(
    oidc: OidcAuthentication,
    url: &str,
    reply: Reply<TokenReply>,
    refreshed: Result<TokenResponse, ProtocolError>,
)
    requires
        call_ensures(OidcAuthentication::authentication_refreshed, (&oidc, url, reply), refreshed),
    ensures
        match reply {
            Reply::Body(TokenReply { failure: None, grant: Ok(grant) }) => refreshed == Ok::<
                TokenResponse,
                ProtocolError,
            >(grant),
            Reply::Body(TokenReply { failure: None, grant: Err(reason) }) => {
                refreshed matches Err(ProtocolError::Internal(message)) && message@
                    == "parsing refresh response: "@ + reason@
            },
            Reply::Body(TokenReply { failure: Some(_), .. }) => refreshed matches Err(
                ProtocolError::NotAuthorized,
            ),
            Reply::Unreadable { reason } => refreshed matches Err(ProtocolError::Internal(message))
                && message@ == "reading response from "@ + url@ + ": "@ + reason@,
            Reply::Unreachable => refreshed matches Err(ProtocolError::Disconnected),
            Reply::NoClient { reason } => refreshed matches Err(ProtocolError::Internal(message))
                && message@ == "constructing HTTP client: "@ + reason@,
        },
{
}

/// An identity is what the access token says of its bearer, as it stands: the token, the subject, the
/// preferred user name or else the name, and the expiry. The refresh token is kept with it. A token
/// that is not readable proves no identity.
pub proof fn law_identity_is_what_the_token_says(
    oidc: OidcAuthentication,
    info: Option<UserInfo>,
    grant: TokenResponse,
    read: Result<AuthenticationToken, ProtocolError>,
    granted: Result<AuthenticationToken, ProtocolError>,
)
    requires
        call_ensures(authentication_token, (info, grant.refresh_token), read),
        call_ensures(OidcAuthentication::identity_granted, (&oidc, grant, info), granted),
    ensures
        forall|identity: AuthenticationToken|
            read == Ok::<AuthenticationToken, ProtocolError>(identity) || granted == Ok::<
                AuthenticationToken,
                ProtocolError,
            >(identity) ==> {
                &&& info matches Some(info)
                &&& (#[trigger] identity.token)@ == info.token@
                &&& identity.user_id@ == info.id@
                &&& info.preferred_username@.len() > 0 ==> identity.user_name@
                    == info.preferred_username@
                &&& info.preferred_username@.len() == 0 ==> identity.user_name@ == info.name@
                &&& identity.expires_ms == info.expires
                &&& identity.acceptable_root_domains@.len() == 0
                &&& match (identity.refresh_token, grant.refresh_token) {
                    (Some(kept), Some(given)) => kept@ == given@,
                    (None, None) => true,
                    _ => false,
                }
            },
        info is Some ==> read is Ok && granted is Ok,
        info is None ==> {
            &&& read matches Err(ProtocolError::Internal(message))
            &&& message@ == "access token is not a readable JWT"@
            &&& granted matches Err(ProtocolError::Internal(other))
            &&& other@ == message@
        },
{
    if let Ok(identity) = read {
        assert(identity.acceptable_root_domains.deep_view().len() == 0);
    }
    if let Ok(identity) = granted {
        assert(identity.acceptable_root_domains.deep_view().len() == 0);
    }
}

/// An exchange gives the access token as it stands, with the expiry that the token says, for every
/// repository and every resource; a token that is not readable is not exchanged.
pub proof fn law_exchange_gives_what_the_token_says(
    oidc: OidcAuthentication,
    info: Option<UserInfo>,
    repository_id: &str,
    resource_id: &str,
    for_repository: Result<AuthorizationToken, ProtocolError>,
    for_resource: Result<AuthorizationToken, ProtocolError>,
)
    requires
        call_ensures(
            OidcAuthentication::exchange_for_repository,
            (&oidc, info, repository_id),
            for_repository,
        ),
        call_ensures(
            OidcAuthentication::exchange_for_custom_resource,
            (&oidc, info, resource_id),
            for_resource,
        ),
    ensures
        match info {
            Some(info) => {
                &&& for_repository matches Ok(a)
                &&& a.token@ == info.token@
                &&& a.expires_ms == info.expires
                &&& a.acceptable_root_domains@.len() == 0
                &&& for_resource matches Ok(b)
                &&& b.token@ == info.token@
                &&& b.expires_ms == info.expires
                &&& b.acceptable_root_domains@.len() == 0
            },
            None => {
                &&& for_repository matches Err(ProtocolError::Internal(a))
                &&& a@ == "access token is not a readable JWT"@
                &&& for_resource matches Err(ProtocolError::Internal(b))
                &&& b@ == "access token is not a readable JWT"@
            },
        },
{
    if let Ok(a) = for_repository {
        assert(a.acceptable_root_domains.deep_view().len() == 0);
    }
    if let Ok(b) = for_resource {
        assert(b.acceptable_root_domains.deep_view().len() == 0);
    }
}

/// No token of another kind is exchanged, and the error names the kind.
pub proof fn law_other_tokens_are_not_exchanged(
    oidc: OidcAuthentication,
    token_type: &str,
    token: Result<AuthenticationToken, ProtocolError>,
)
    requires
        call_ensures(OidcAuthentication::exchange_external_token, (&oidc, token_type), token),
    ensures
        token matches Err(ProtocolError::NotSupported { operation }) && operation@
            == "exchanging a '"@ + token_type@ + "' token"@,
{
}

/// Every user id resolves to the user of that id, named by the id, in the order of the ids; and a
/// display name resolves to the user whose id it is.
pub proof fn law_users_go_by_their_ids(
    oidc: OidcAuthentication,
    user_ids: &[String],
    users: Result<Vec<ResolvedUser>, ProtocolError>,
    display_name: &str,
    user: Result<Option<ResolvedUser>, ProtocolError>,
)
    requires
        call_ensures(OidcAuthentication::get_user_info, (&oidc, user_ids), users),
        call_ensures(OidcAuthentication::get_user_id, (&oidc, display_name), user),
    ensures
        users matches Ok(users) && users@.len() == user_ids@.len() && forall|i: int|
            0 <= i < user_ids@.len() ==> (#[trigger] users@[i]).user_id@ == user_ids@[i]@
                && users@[i].user_name@ == user_ids@[i]@,
        user matches Ok(Some(user)) && user.user_id@ == display_name@ && user.user_name@
            == display_name@,
{
    let wanted = user_ids.deep_view().map_values(|user_id: Seq<char>| self_named(user_id));
    let users = users->Ok_0;
    assert(users.deep_view() == wanted);
    assert(users.deep_view().len() == wanted.len());
    assert forall|i: int| 0 <= i < user_ids@.len() implies (#[trigger] users@[i]).user_id@
        == user_ids@[i]@ && users@[i].user_name@ == user_ids@[i]@ by {
        assert(users.deep_view()[i] == users@[i].deep_view());
        assert(wanted[i] == self_named(user_ids.deep_view()[i]));
        assert(user_ids.deep_view()[i] == user_ids@[i]@);
    }
}

} // verus!
