//! Who may access a repository.
//!
//! Access is either granted to all, or decided by the Lore auth service. The caller sends the query
//! that [`AuthClientAuthorizer`] words and hands the reply over; the verdict is made here.

use vstd::prelude::*;

use crate::endpoint;
use crate::error;
use crate::error::ProtocolError;
use crate::text;

verus! {

/// The status codes of gRPC.
#[derive(Debug, Clone, Copy, PartialEq, Eq, Structural)]
pub enum Code {
    /// The code that gRPC calls `OK`.
    Success,
    Cancelled,
    Unknown,
    InvalidArgument,
    DeadlineExceeded,
    NotFound,
    AlreadyExists,
    PermissionDenied,
    ResourceExhausted,
    FailedPrecondition,
    Aborted,
    OutOfRange,
    Unimplemented,
    Internal,
    Unavailable,
    DataLoss,
    Unauthenticated,
}

/// Why access was not granted.
#[derive(Debug)]
pub struct Status {
    pub code: Code,
    pub message: String,
}

/// A `Status` with its text as a sequence of characters.
pub struct StatusView {
    pub code: Code,
    pub message: Seq<char>,
}

impl DeepView for Status {
    type V = StatusView;

    open spec fn deep_view(&self) -> StatusView {
        StatusView { code: self.code, message: self.message@ }
    }
}

impl Status {
    /// The status for a code and a message.
    fn new(code: Code, message: &str) -> (status: Status)
        ensures
            status.deep_view() == (StatusView { code, message: message@ }),
    {
        Status { code, message: message.to_owned() }
    }
}

/// A query for the permissions of the bearer on resources.
#[derive(Debug)]
pub struct CheckUserPermissionRequest {
    pub resource_id: Vec<String>,
    /// The user to ask about, where it is not the bearer.
    pub target_user: Option<String>,
}

/// What the auth service replied to a permission query.
#[derive(Debug)]
pub enum PermissionReply {
    /// The resources on which the bearer has permissions.
    Allowed { resource_ids: Vec<String> },
    /// The call failed with this code; `shown` is the failure as text.
    Failed { code: Code, shown: String },
}

/// Always allows access. Used when no auth service is configured.
#[derive(Debug)]
pub struct AllowAllRepositoryAuthorizer;

/// Checks repository access against the Lore auth service.
#[derive(Debug)]
pub struct AuthClientAuthorizer {
    auth_url: String,
}

/// The authorizer that a configuration calls for.
#[derive(Debug)]
pub enum RepositoryAuthorizer {
    AllowAll(AllowAllRepositoryAuthorizer),
    AuthClient(AuthClientAuthorizer),
}

/// The name of a repository as a resource of the auth service.
pub open spec fn resource_of(repository_id: Seq<char>) -> Seq<char> {
    "urc-"@ + repository_id
}

/// The verdict on a repository: access is granted where the first resource that the auth service
/// allows is the repository asked about.
pub open spec fn verdict(repository_id: Seq<char>, reply: PermissionReply) -> Result<(), StatusView> {
    match reply {
        PermissionReply::Allowed { resource_ids } => if resource_ids@.len() == 0 {
            Err(StatusView { code: Code::Internal, message: "No permissions for resource"@ })
        } else if resource_ids@[0]@ == resource_of(repository_id) {
            Ok(())
        } else {
            Err(StatusView { code: Code::Internal, message: "Unexpected resource_id"@ })
        },
        PermissionReply::Failed { code: Code::PermissionDenied, .. } => Err(
            StatusView { code: Code::PermissionDenied, message: "Query resource denied"@ },
        ),
        PermissionReply::Failed { code: Code::Unauthenticated, .. } => Err(
            StatusView {
                code: Code::Unauthenticated,
                message: "Query resource failed - unauthenticated"@,
            },
        ),
        PermissionReply::Failed { shown, .. } => Err(
            StatusView {
                code: Code::Internal,
                message: "Failed to call auth check_user_permission: "@ + shown@,
            },
        ),
    }
}

/// The auth URL names an OpenID Connect issuer.
pub open spec fn names_issuer(auth_url: Seq<char>) -> bool {
    text::cut_at(auth_url, "://"@) matches Some((scheme, _)) && (scheme == "oidc"@ || scheme
        == "oidc-http"@)
}

impl AllowAllRepositoryAuthorizer {
    /// Grants access to every repository.
    pub fn check_repository_access(&self, _repository_id: &str) -> (access: Result<(), Status>)
        ensures
            access is Ok,
    {
        Ok(())
    }
}

impl AuthClientAuthorizer {
    /// The URL of the auth service to ask.
    pub closed spec fn service(&self) -> Seq<char> {
        self.auth_url@
    }

    pub fn new(auth_url: String) -> (authorizer: AuthClientAuthorizer)
        ensures
            authorizer.service() == auth_url@,
    {
        AuthClientAuthorizer { auth_url }
    }

    /// The URL of the auth service to ask.
    pub fn auth_url(&self) -> (auth_url: &str)
        ensures
            auth_url@ == self.service(),
    {
        self.auth_url.as_str()
    }

    /// The query to send about a repository: the bearer's permissions on it alone.
    pub fn permission_query(&self, repository_id: &str) -> (request: CheckUserPermissionRequest)
        ensures
            request.resource_id.deep_view() == seq![resource_of(repository_id@)],
            request.target_user is None,
    {
        let mut resource = "urc-".to_owned();
        resource.append(repository_id);
        let mut resource_id: Vec<String> = Vec::new();
        resource_id.push(resource);
        assert(resource_id.deep_view() =~= seq![resource_of(repository_id@)]);
        CheckUserPermissionRequest { resource_id, target_user: None }
    }

    /// Decides on access to a repository by the reply to the query about it.
    pub fn check_repository_access(&self, repository_id: &str, reply: PermissionReply) -> (access:
        Result<(), Status>)
        ensures
            error::outcome(access) == verdict(repository_id@, reply),
    {
        match reply {
            PermissionReply::Failed { code, shown } => {
                if code == Code::PermissionDenied {
                    Err(Status::new(Code::PermissionDenied, "Query resource denied"))
                } else if code == Code::Unauthenticated {
                    Err(
                        Status::new(
                            Code::Unauthenticated,
                            "Query resource failed - unauthenticated",
                        ),
                    )
                } else {
                    let mut message = "Failed to call auth check_user_permission: ".to_owned();
                    message.append(shown.as_str());
                    Err(Status::new(Code::Internal, message.as_str()))
                }
            },
            PermissionReply::Allowed { resource_ids } => {
                if resource_ids.len() == 0 {
                    return Err(Status::new(Code::Internal, "No permissions for resource"));
                }
                let mut resource = "urc-".to_owned();
                resource.append(repository_id);
                if resource_ids[0] == resource {
                    Ok(())
                } else {
                    Err(Status::new(Code::Internal, "Unexpected resource_id"))
                }
            },
        }
    }
}

/// Whether an auth URL addresses a `UrcAuthApi` service that can answer a permission query.
///
/// An OIDC issuer cannot: the standards put the grant in the token and leave the resource server to
/// decide locally against it, so there is no permission RPC to call.
pub fn is_auth_service(auth_url: &str) -> (is_service: bool)
    ensures
        is_service == !names_issuer(auth_url@),
{
    match text::split_once(auth_url, "://") {
        Some((scheme, _)) => {
            !(text::same_text(scheme, "oidc") || text::same_text(scheme, "oidc-http"))
        },
        None => true,
    }
}

/// Creates the appropriate authorizer from an optional auth URL: one that allows all when no URL is
/// configured, and when the URL names an issuer rather than an auth service.
pub fn repository_authorizer(auth_url: Option<String>) -> (authorizer: RepositoryAuthorizer)
    ensures
        match auth_url {
            Some(url) if !names_issuer(url@) => {
                authorizer matches RepositoryAuthorizer::AuthClient(client) && client.service()
                    == url@
            },
            _ => authorizer is AllowAll,
        },
{
    match auth_url {
        Some(url) => {
            if is_auth_service(url.as_str()) {
                RepositoryAuthorizer::AuthClient(AuthClientAuthorizer::new(url))
            } else {
                RepositoryAuthorizer::AllowAll(AllowAllRepositoryAuthorizer)
            }
        },
        None => RepositoryAuthorizer::AllowAll(AllowAllRepositoryAuthorizer),
    }
}

/// An auth URL that a client can log in by is not taken for an auth service, and one that is taken
/// for an auth service is refused by the login.
pub proof fn law_login_urls_are_not_auth_services(auth_url: Seq<char>)
    ensures
        endpoint::endpoint_of(auth_url) is Ok ==> names_issuer(auth_url),
        endpoint::address_of(auth_url) is Ok <==> names_issuer(auth_url),
{
}

/// Access to a repository is granted by no reply that does not allow that very repository first.
pub proof fn law_access_needs_the_repository_first(repository_id: Seq<char>, reply: PermissionReply)
    ensures
        verdict(repository_id, reply) is Ok <==> (reply matches PermissionReply::Allowed {
            resource_ids,
        } && resource_ids@.len() > 0 && resource_ids@[0]@ == resource_of(repository_id)),
{
}

/// One reply grants access to one repository at most.
pub proof fn law_a_reply_grants_one_repository(a: Seq<char>, b: Seq<char>, reply: PermissionReply)
    requires
        verdict(a, reply) is Ok,
        verdict(b, reply) is Ok,
    ensures
        a == b,
{
    assert(resource_of(a).subrange("urc-"@.len() as int, resource_of(a).len() as int) =~= a);
    assert(resource_of(b).subrange("urc-"@.len() as int, resource_of(b).len() as int) =~= b);
}

/// The auth URLs that do not address an auth service are those that start with `oidc://` or with
/// `oidc-http://`; every other text is taken for one, and no login takes it.
pub proof fn law_issuers_alone_are_not_auth_services(
    auth_url: &str,
    is_service: bool,
    address: Result<String, ProtocolError>,
)
    requires
        call_ensures(is_auth_service, (auth_url,), is_service),
        call_ensures(endpoint::issuer_address, (auth_url,), address),
    ensures
        !is_service <==> "oidc://"@.is_prefix_of(auth_url@) || "oidc-http://"@.is_prefix_of(auth_url@),
        is_service <==> address is Err,
{
    endpoint::lemma_auth_schemes(auth_url@);
}

/// The auth service is asked, at the URL that is configured, wherever one is configured that starts
/// with neither `oidc://` nor `oidc-http://`; and access is open to all otherwise.
pub proof fn law_configured_service_is_asked(
    auth_url: Option<String>,
    authorizer: RepositoryAuthorizer,
)
    requires
        call_ensures(repository_authorizer, (auth_url,), authorizer),
    ensures
        match auth_url {
            None => authorizer is AllowAll,
            Some(url) => if "oidc://"@.is_prefix_of(url@) || "oidc-http://"@.is_prefix_of(url@) {
                authorizer is AllowAll
            } else {
                authorizer matches RepositoryAuthorizer::AuthClient(client) && forall|asked: &str|
                    call_ensures(AuthClientAuthorizer::auth_url, (&client,), asked) ==> asked@
                        == url@
            },
        },
{
    if let Some(url) = auth_url {
        endpoint::lemma_auth_schemes(url@);
    }
}

/// An authorizer asks the service at the URL that it was made with.
pub proof fn law_authorizer_keeps_its_url(
    auth_url: String,
    authorizer: AuthClientAuthorizer,
    asked: &str,
)
    requires
        call_ensures(AuthClientAuthorizer::new, (auth_url,), authorizer),
        call_ensures(AuthClientAuthorizer::auth_url, (&authorizer,), asked),
    ensures
        asked@ == auth_url@,
{
}

/// Where access is open to all, it is granted to every repository.
pub proof fn law_open_access_refuses_nothing(
    authorizer: AllowAllRepositoryAuthorizer,
    repository_id: &str,
    access: Result<(), Status>,
)
    requires
        call_ensures(
            AllowAllRepositoryAuthorizer::check_repository_access,
            (&authorizer, repository_id),
            access,
        ),
    ensures
        access is Ok,
{
}

/// A query is about one resource, `urc-` followed by the repository's id, and about the bearer.
pub proof fn law_query_is_about_the_repository(
    authorizer: AuthClientAuthorizer,
    repository_id: &str,
    request: CheckUserPermissionRequest,
)
    requires
        call_ensures(
            AuthClientAuthorizer::permission_query,
            (&authorizer, repository_id),
            request,
        ),
    ensures
        request.resource_id@.len() == 1,
        request.resource_id@[0]@ == "urc-"@ + repository_id@,
        request.target_user is None,
{
    assert(request.resource_id.deep_view().len() == 1);
    assert(request.resource_id.deep_view()[0] == request.resource_id@[0]@);
}

/// Access is granted where the first resource that the service allows is the one that the query about
/// the repository names, and refused otherwise: a refused query by its own code, and every other
/// failure as an internal one that shows it.
pub proof fn law_service_decides_on_access(
    authorizer: AuthClientAuthorizer,
    repository_id: &str,
    reply: PermissionReply,
    access: Result<(), Status>,
)
    requires
        call_ensures(
            AuthClientAuthorizer::check_repository_access,
            (&authorizer, repository_id, reply),
            access,
        ),
    ensures
        access is Ok <==> (reply matches PermissionReply::Allowed { resource_ids }
            && resource_ids@.len() > 0 && resource_ids@[0]@ == "urc-"@ + repository_id@),
        access matches Err(status) ==> match reply {
            PermissionReply::Allowed { resource_ids } => {
                &&& status.code == Code::Internal
                &&& resource_ids@.len() == 0 ==> status.message@ == "No permissions for resource"@
                &&& resource_ids@.len() > 0 ==> status.message@ == "Unexpected resource_id"@
            },
            PermissionReply::Failed { code, shown } => {
                &&& code == Code::PermissionDenied ==> status.code == Code::PermissionDenied
                    && status.message@ == "Query resource denied"@
                &&& code == Code::Unauthenticated ==> status.code == Code::Unauthenticated
                    && status.message@ == "Query resource failed - unauthenticated"@
                &&& code != Code::PermissionDenied && code != Code::Unauthenticated ==> status.code
                    == Code::Internal && status.message@
                    == "Failed to call auth check_user_permission: "@ + shown@
            },
        },
{
}

} // verus!
