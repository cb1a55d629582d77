//! Auth URLs of OpenID Connect issuers.
//!
//! An auth URL carries the issuer's address and the client's parameters:
//! `oidc://host/path?client_id=lore&scopes=openid+profile` addresses an issuer over HTTPS, and
//! `oidc-http` addresses one over plaintext.

use vstd::prelude::*;

use crate::address;
use crate::error;
use crate::error::ProtocolError;
use crate::error::ProtocolErrorView;
use crate::text;

verus! {

/// The scopes that are asked for where an auth URL names none.
pub const DEFAULT_SCOPES: &'static str = "openid profile";

/// An issuer address and the client parameters to present to it.
#[derive(Debug)]
pub struct Endpoint {
    /// The issuer's URL, without a query and without a slash at its end.
    pub issuer: String,
    pub client_id: String,
    /// The scopes, separated by spaces.
    pub scopes: String,
}

/// An `Endpoint` with its texts as sequences of characters.
pub struct EndpointView {
    pub issuer: Seq<char>,
    pub client_id: Seq<char>,
    pub scopes: Seq<char>,
}

impl DeepView for Endpoint {
    type V = EndpointView;

    open spec fn deep_view(&self) -> EndpointView {
        EndpointView { issuer: self.issuer@, client_id: self.client_id@, scopes: self.scopes@ }
    }
}

impl EndpointView {
    /// What holds of every endpoint that an auth URL names: the issuer is addressed over the
    /// transport that the scheme selects, carries no query and does not end in a slash, and the
    /// scopes hold no plus sign.
    pub open spec fn is_reachable_by(self, auth_url: Seq<char>) -> bool {
        &&& text::cut_at(auth_url, "://"@) matches Some((scheme, _))
        &&& transport_of(scheme) matches Some(transport)
        &&& address::addressed_over(self.issuer, transport)
        &&& address::query_free(self.issuer)
        &&& self.issuer.last() != '/'
        &&& !self.scopes.contains('+')
    }
}

/// The scheme over which the scheme of an auth URL addresses the issuer.
pub open spec fn transport_of(scheme: Seq<char>) -> Option<Seq<char>> {
    if scheme == "oidc"@ {
        Some("https"@)
    } else if scheme == "oidc-http"@ {
        Some("http"@)
    } else {
        None
    }
}

/// The web address that an auth URL stands for, its query included.
pub open spec fn address_of(auth_url: Seq<char>) -> Result<Seq<char>, ProtocolErrorView> {
    match text::cut_at(auth_url, "://"@) {
        None => Err(
            ProtocolErrorView::Internal(
                "invalid auth URL (missing scheme): '"@ + auth_url + "'"@,
            ),
        ),
        Some((scheme, rest)) => match transport_of(scheme) {
            Some(transport) => Ok(transport + "://"@ + rest),
            None => Err(
                ProtocolErrorView::Internal("'"@ + scheme + "' is not an OIDC auth URL scheme"@),
            ),
        },
    }
}

/// The value of the last pair with the key.
pub open spec fn last_value(pairs: Seq<(Seq<char>, Seq<char>)>, key: Seq<char>) -> Option<Seq<char>>
    decreases pairs.len(),
{
    if pairs.len() == 0 {
        None
    } else if pairs.last().0 == key {
        Some(pairs.last().1)
    } else {
        last_value(pairs.drop_last(), key)
    }
}

/// The endpoint that a web address without its query, and the pairs of its query, make up.
pub open spec fn endpoint_from(
    auth_url: Seq<char>,
    stripped: Seq<char>,
    pairs: Seq<(Seq<char>, Seq<char>)>,
) -> Result<EndpointView, ProtocolErrorView> {
    match last_value(pairs, "client_id"@) {
        None => Err(
            ProtocolErrorView::Internal("auth URL '"@ + auth_url + "' names no client_id"@),
        ),
        Some(client_id) => Ok(
            EndpointView {
                issuer: text::without_trailing(stripped, '/'),
                client_id,
                scopes: match last_value(pairs, "scopes"@) {
                    Some(scopes) => text::with_replaced(scopes, '+', ' '),
                    None => DEFAULT_SCOPES@,
                },
            },
        ),
    }
}

/// The error for an auth URL whose web address does not parse.
pub open spec fn unparsable(auth_url: Seq<char>, message: Seq<char>) -> ProtocolErrorView {
    ProtocolErrorView::Internal("invalid auth URL '"@ + auth_url + "': "@ + message)
}

/// The endpoint that an auth URL names.
pub open spec fn endpoint_of(auth_url: Seq<char>) -> Result<EndpointView, ProtocolErrorView> {
    match address_of(auth_url) {
        Err(error) => Err(error),
        Ok(address) => match address::url_parse(address) {
            Err(message) => Err(unparsable(auth_url, message)),
            Ok(url) => endpoint_from(
                auth_url,
                address::query_removed(url),
                address::url_query_pairs(address),
            ),
        },
    }
}

/// The text starts with one of the two schemes of auth URLs.
pub open spec fn has_auth_scheme(auth_url: Seq<char>) -> bool {
    "oidc://"@.is_prefix_of(auth_url) || "oidc-http://"@.is_prefix_of(auth_url)
}

/// An auth URL under the other of the two schemes.
pub open spec fn under_other_scheme(auth_url: Seq<char>) -> Seq<char> {
    if "oidc://"@.is_prefix_of(auth_url) {
        "oidc-http://"@ + auth_url.skip("oidc://"@.len() as int)
    } else {
        "oidc://"@ + auth_url.skip("oidc-http://"@.len() as int)
    }
}

/// Two auth URLs name the same client and the same scopes, or are both refused, except that one of
/// them alone may be too long.
pub open spec fn same_client(
    auth_url: Seq<char>,
    endpoint: Result<EndpointView, ProtocolErrorView>,
    other_url: Seq<char>,
    other: Result<EndpointView, ProtocolErrorView>,
) -> bool {
    match (endpoint, other) {
        (Ok(a), Ok(b)) => a.client_id == b.client_id && a.scopes == b.scopes,
        (Err(_), Err(_)) => true,
        (Ok(_), Err(error)) => error == unparsable(other_url, address::too_long()),
        (Err(error), Ok(_)) => error == unparsable(auth_url, address::too_long()),
    }
}

/// The web address of an auth URL starts with the transport that the scheme selects.
proof fn lemma_address_is_web_address(auth_url: Seq<char>, address: Seq<char>)
    requires
        address_of(auth_url) == Ok::<Seq<char>, ProtocolErrorView>(address),
    ensures
        address::is_web_address(address),
        transport_of(text::cut_at(auth_url, "://"@).unwrap().0) == Some("https"@) ==> "https://"@
            .is_prefix_of(address),
        transport_of(text::cut_at(auth_url, "://"@).unwrap().0) == Some("http"@) ==> "http://"@
            .is_prefix_of(address),
{
    reveal_strlit("https://");
    reveal_strlit("https");
    reveal_strlit("http://");
    reveal_strlit("http");
    reveal_strlit("://");
    assert("https://"@ =~= "https"@ + "://"@);
    assert("http://"@ =~= "http"@ + "://"@);
    let (scheme, rest) = text::cut_at(auth_url, "://"@).unwrap();
    let transport = transport_of(scheme).unwrap();
    assert((transport + "://"@).is_prefix_of(address));
}

/// Removing the query of a URL, and the slashes at its end, leaves its scheme and its authority.
proof fn lemma_reachable(
    auth_url: Seq<char>,
    address: Seq<char>,
    url: Seq<char>,
    pairs: Seq<(Seq<char>, Seq<char>)>,
)
    requires
        address_of(auth_url) == Ok::<Seq<char>, ProtocolErrorView>(address),
        "https://"@.is_prefix_of(address) ==> address::addressed_over(url, "https"@),
        "http://"@.is_prefix_of(address) ==> address::addressed_over(url, "http"@),
    ensures
        endpoint_from(auth_url, address::query_removed(url), pairs) matches Ok(endpoint)
            ==> endpoint.is_reachable_by(auth_url),
{
    reveal_strlit("https");
    reveal_strlit("http");
    reveal_strlit("openid profile");
    lemma_address_is_web_address(auth_url, address);
    let stripped = address::query_removed(url);
    let (scheme, rest) = text::cut_at(auth_url, "://"@).unwrap();
    let transport = transport_of(scheme).unwrap();
    address::lemma_query_removed(url, transport);
    let issuer = text::without_trailing(stripped, '/');
    text::lemma_without_trailing(stripped, '/');
    let prefix = transport + "://"@;
    assert(issuer.len() > prefix.len());
    assert(issuer.subrange(0, prefix.len() as int) =~= prefix);
    assert forall|i: int| 0 <= i < issuer.len() && #[trigger] issuer[i] == '?' implies exists|j: int|
        0 <= j < i && issuer[j] == '#' by {
        assert(stripped[i] == '?');
        let j = choose|j: int| 0 <= j < i && stripped[j] == '#';
        assert(issuer[j] == '#');
    }
}

/// The web address of an auth URL has a question mark only where the auth URL has one.
proof fn lemma_address_keeps_query_marks(auth_url: Seq<char>, address: Seq<char>)
    requires
        address_of(auth_url) == Ok::<Seq<char>, ProtocolErrorView>(address),
    ensures
        address.contains('?') ==> auth_url.contains('?'),
{
    reveal_strlit("https");
    reveal_strlit("http");
    reveal_strlit("://");
    let (scheme, rest) = text::cut_at(auth_url, "://"@).unwrap();
    let transport = transport_of(scheme).unwrap();
    if address.contains('?') {
        let i = choose|i: int| 0 <= i < address.len() && address[i] == '?';
        let k = i - (transport + "://"@).len();
        assert(rest[k] == '?');
        assert(auth_url[auth_url.len() - rest.len() + k] == '?');
    }
}

/// An `oidc` auth URL addresses the issuer over HTTPS, and an `oidc-http` one addresses it over
/// plaintext; what follows the scheme is the issuer's address as it stands.
pub proof fn law_scheme_selects_the_transport(rest: Seq<char>)
    ensures
        address_of("oidc://"@ + rest) == Ok::<Seq<char>, ProtocolErrorView>("https://"@ + rest),
        address_of("oidc-http://"@ + rest) == Ok::<Seq<char>, ProtocolErrorView>("http://"@ + rest),
{
    reveal_strlit("oidc://");
    reveal_strlit("oidc-http://");
    reveal_strlit("https://");
    reveal_strlit("http://");
    reveal_strlit("oidc");
    reveal_strlit("oidc-http");
    reveal_strlit("https");
    reveal_strlit("http");
    reveal_strlit("://");
    assert("oidc://"@ + rest =~= "oidc"@ + "://"@ + rest);
    assert("oidc-http://"@ + rest =~= "oidc-http"@ + "://"@ + rest);
    assert("https://"@ + rest =~= "https"@ + "://"@ + rest);
    assert("http://"@ + rest =~= "http"@ + "://"@ + rest);
    assert("oidc"@.len() != "oidc-http"@.len());
    text::lemma_cut_at("oidc"@, "://"@, rest);
    text::lemma_cut_at("oidc-http"@, "://"@, rest);
}

/// The web address of an auth URL under the other scheme is the same over the other transport.
proof fn lemma_other_scheme(auth_url: Seq<char>)
    requires
        has_auth_scheme(auth_url),
    ensures
        address_of(auth_url) matches Ok(address) && address_of(under_other_scheme(auth_url)) == Ok::<
            Seq<char>,
            ProtocolErrorView,
        >(address::over_other_transport(address)),
{
    reveal_strlit("oidc://");
    reveal_strlit("oidc-http://");
    reveal_strlit("https://");
    reveal_strlit("http://");
    if "oidc://"@.is_prefix_of(auth_url) {
        let rest = auth_url.skip("oidc://"@.len() as int);
        law_scheme_selects_the_transport(rest);
        assert(auth_url =~= "oidc://"@ + rest);
        assert(("https://"@ + rest).skip("https://"@.len() as int) =~= rest);
    } else {
        let rest = auth_url.skip("oidc-http://"@.len() as int);
        law_scheme_selects_the_transport(rest);
        assert(auth_url =~= "oidc-http://"@ + rest);
        assert(("http://"@ + rest).skip("http://"@.len() as int) =~= rest);
        assert(("http://"@ + rest)[4] == ':');
        assert("https://"@[4] == 's');
    }
}

/// The scheme of an auth URL selects the transport and nothing else: under both schemes the same
/// client and the same scopes are read, and the URL is accepted under both or under neither, except
/// that under one of them alone its address may be too long. The issuer is addressed over HTTPS under
/// the one, and over plaintext under the other.
pub proof fn law_scheme_selects_nothing_else(
    rest: Seq<char>,
    https_url: &str,
    http_url: &str,
    over_https: Result<Endpoint, ProtocolError>,
    over_http: Result<Endpoint, ProtocolError>,
)
    requires
        https_url@ == "oidc://"@ + rest,
        http_url@ == "oidc-http://"@ + rest,
        call_ensures(parse_endpoint, (https_url,), over_https),
        call_ensures(parse_endpoint, (http_url,), over_http),
    ensures
        match (over_https, over_http) {
            (Ok(a), Ok(b)) => {
                &&& a.client_id@ == b.client_id@
                &&& a.scopes@ == b.scopes@
                &&& address::addressed_over(a.issuer@, "https"@)
                &&& address::addressed_over(b.issuer@, "http"@)
            },
            (Err(_), Err(_)) => true,
            (Ok(_), Err(error)) => error.deep_view() == unparsable(http_url@, address::too_long()),
            (Err(error), Ok(_)) => error.deep_view() == unparsable(https_url@, address::too_long()),
        },
{
    assert("oidc-http://"@.is_prefix_of(http_url@));
    assert("oidc://"@.is_prefix_of(https_url@));
    assert(under_other_scheme(https_url@) == http_url@) by {
        assert(https_url@.skip("oidc://"@.len() as int) =~= rest);
    }
    lemma_auth_schemes(https_url@);
    lemma_auth_schemes(http_url@);
}

/// Reads the web address that an auth URL stands for.
///
/// The scheme selects the transport, so it is the only place where the issuer's own scheme can be
/// carried.
pub fn issuer_address(auth_url: &str) -> (address: Result<String, ProtocolError>)
    ensures
        error::outcome(address) == address_of(auth_url@),
{
    match text::split_once(auth_url, "://") {
        None => {
            let mut message = "invalid auth URL (missing scheme): '".to_owned();
            message.append(auth_url);
            message.append("'");
            Err(ProtocolError::internal(message))
        },
        Some((scheme, rest)) => {
            let transport = if text::same_text(scheme, "oidc") {
                "https"
            } else if text::same_text(scheme, "oidc-http") {
                "http"
            } else {
                let mut message = "'".to_owned();
                message.append(scheme);
                message.append("' is not an OIDC auth URL scheme");
                return Err(ProtocolError::internal(message));
            };
            let mut address = transport.to_owned();
            address.append("://");
            address.append(rest);
            Ok(address)
        },
    }
}

/// Puts an endpoint together from a web address without its query and the pairs of its query.
pub fn endpoint_from_query(auth_url: &str, stripped: &str, pairs: &Vec<(String, String)>) -> (endpoint:
    Result<Endpoint, ProtocolError>)
    ensures
        error::outcome(endpoint) == endpoint_from(auth_url@, stripped@, pairs.deep_view()),
{
    let mut client_id: Option<String> = None;
    let mut scopes: Option<String> = None;
    for i in 0..pairs.len()
        invariant
            client_id.deep_view() == last_value(pairs.deep_view().take(i as int), "client_id"@),
            match last_value(pairs.deep_view().take(i as int), "scopes"@) {
                Some(value) => scopes.deep_view() == Some(text::with_replaced(value, '+', ' ')),
                None => scopes is None,
            },
    {
        let (key, value) = &pairs[i];
        proof {
            let seen = pairs.deep_view().take(i + 1);
            assert(seen.drop_last() =~= pairs.deep_view().take(i as int));
            assert(seen.last() == (key@, value@));
            reveal_strlit("client_id");
            reveal_strlit("scopes");
            assert("client_id"@.len() != "scopes"@.len());
        }
        if text::same_text(key.as_str(), "client_id") {
            client_id = Some(value.clone());
        } else if text::same_text(key.as_str(), "scopes") {
            scopes = Some(text::replace_char(value.as_str(), '+', ' '));
        }
    }
    assert(pairs.deep_view().take(pairs.len() as int) =~= pairs.deep_view());
    match client_id {
        None => {
            let mut message = "auth URL '".to_owned();
            message.append(auth_url);
            message.append("' names no client_id");
            Err(ProtocolError::internal(message))
        },
        Some(client_id) => Ok(
            Endpoint {
                issuer: text::trim_end_char(stripped, '/').to_owned(),
                client_id,
                scopes: match scopes {
                    Some(scopes) => scopes,
                    None => DEFAULT_SCOPES.to_owned(),
                },
            },
        ),
    }
}

/// Splits an auth URL into the issuer URL and the client parameters in its query.
///
/// The issuer of an endpoint is addressed over the transport that the auth URL's scheme selects,
/// carries no query, and does not end in a slash. The scopes hold no plus sign. An auth URL without
/// a query names no client, so it is refused. Under the other scheme an auth URL names the same
/// client and the same scopes.
pub fn parse_endpoint(auth_url: &str) -> (endpoint: Result<Endpoint, ProtocolError>)
    ensures
        error::outcome(endpoint) == endpoint_of(auth_url@),
        endpoint matches Ok(endpoint) ==> endpoint.deep_view().is_reachable_by(auth_url@),
        !auth_url@.contains('?') ==> endpoint is Err,
        has_auth_scheme(auth_url@) ==> same_client(
            auth_url@,
            error::outcome(endpoint),
            under_other_scheme(auth_url@),
            endpoint_of(under_other_scheme(auth_url@)),
        ),
{
    proof {
        if has_auth_scheme(auth_url@) {
            lemma_other_scheme(auth_url@);
        }
    }
    let address = match issuer_address(auth_url) {
        Ok(address) => address,
        Err(error) => return Err(error),
    };
    proof {
        lemma_address_is_web_address(auth_url@, address@);
    }
    let url = match address::parse_url(address.as_str()) {
        Ok(url) => url,
        Err(reason) => {
            let mut message = "invalid auth URL '".to_owned();
            message.append(auth_url);
            message.append("': ");
            message.append(reason.as_str());
            return Err(ProtocolError::internal(message));
        },
    };
    let pairs = address::query_pairs(address.as_str());
    let stripped = address::without_query(address.as_str());
    proof {
        lemma_reachable(auth_url@, address@, url@, pairs.deep_view());
        lemma_address_keeps_query_marks(auth_url@, address@);
    }
    endpoint_from_query(auth_url, stripped.as_str(), &pairs)
}

/// The schemes of auth URLs are told by how the text starts.
pub proof fn lemma_auth_schemes(auth_url: Seq<char>)
    ensures
        (text::cut_at(auth_url, "://"@) matches Some((scheme, _)) && scheme == "oidc"@)
            <==> "oidc://"@.is_prefix_of(auth_url),
        (text::cut_at(auth_url, "://"@) matches Some((scheme, _)) && scheme == "oidc-http"@)
            <==> "oidc-http://"@.is_prefix_of(auth_url),
        !("oidc"@ == "oidc-http"@),
{
    reveal_strlit("oidc");
    reveal_strlit("oidc-http");
    reveal_strlit("oidc://");
    reveal_strlit("oidc-http://");
    reveal_strlit("://");
    assert("oidc://"@ =~= "oidc"@ + "://"@);
    assert("oidc-http://"@ =~= "oidc-http"@ + "://"@);
    assert("oidc"@.len() != "oidc-http"@.len());
    text::lemma_parts(auth_url, "://"@);
    if "oidc://"@.is_prefix_of(auth_url) {
        let rest = auth_url.skip("oidc://"@.len() as int);
        assert(auth_url =~= "oidc"@ + "://"@ + rest);
        text::lemma_cut_at("oidc"@, "://"@, rest);
    }
    if "oidc-http://"@.is_prefix_of(auth_url) {
        let rest = auth_url.skip("oidc-http://"@.len() as int);
        assert(auth_url =~= "oidc-http"@ + "://"@ + rest);
        text::lemma_cut_at("oidc-http"@, "://"@, rest);
    }
}

/// A text that starts with `oidc://` stands for the same address over `https://`, one that starts
/// with `oidc-http://` for the same over `http://`, and every other text is refused: by its scheme
/// where it has one, and as a whole where it has none.
pub proof fn law_two_schemes_are_taken(auth_url: &str, address: Result<String, ProtocolError>)
    requires
        call_ensures(issuer_address, (auth_url,), address),
    ensures
        "oidc://"@.is_prefix_of(auth_url@) ==> (address matches Ok(address) && address@ == "https://"@
            + auth_url@.skip(7)),
        "oidc-http://"@.is_prefix_of(auth_url@) ==> (address matches Ok(address) && address@
            == "http://"@ + auth_url@.skip(12)),
        !"oidc://"@.is_prefix_of(auth_url@) && !"oidc-http://"@.is_prefix_of(auth_url@) ==> {
            &&& address matches Err(ProtocolError::Internal(message))
            &&& forall|i: int|
                0 <= i <= auth_url@.len() && "://"@.is_prefix_of(#[trigger] auth_url@.skip(i)) && (
                forall|j: int|
                    0 <= j < i ==> !"://"@.is_prefix_of(#[trigger] auth_url@.skip(j))) ==> message@
                    == "'"@ + auth_url@.take(i) + "' is not an OIDC auth URL scheme"@
            &&& (forall|i: int|
                0 <= i <= auth_url@.len() ==> !"://"@.is_prefix_of(#[trigger] auth_url@.skip(i)))
                ==> message@ == "invalid auth URL (missing scheme): '"@ + auth_url@ + "'"@
        },
{
    lemma_auth_schemes(auth_url@);
    text::lemma_parts(auth_url@, "://"@);
    assert("oidc://"@.len() == 7 && "oidc-http://"@.len() == 12 && "://"@.len() == 3) by {
        reveal_strlit("oidc://");
        reveal_strlit("oidc-http://");
        reveal_strlit("://");
    }
    if "oidc://"@.is_prefix_of(auth_url@) {
        let rest = auth_url@.skip(7);
        law_scheme_selects_the_transport(rest);
        assert(auth_url@ =~= "oidc://"@ + rest);
    } else if "oidc-http://"@.is_prefix_of(auth_url@) {
        let rest = auth_url@.skip(12);
        law_scheme_selects_the_transport(rest);
        assert(auth_url@ =~= "oidc-http://"@ + rest);
    } else if let Some((scheme, rest)) = text::cut_at(auth_url@, "://"@) {
        let at = scheme.len() as int;
        assert(auth_url@.skip(at) =~= "://"@ + rest);
        assert("://"@.is_prefix_of(auth_url@.skip(at)));
        assert(auth_url@.take(at) =~= scheme);
        assert forall|i: int|
            0 <= i <= auth_url@.len() && "://"@.is_prefix_of(#[trigger] auth_url@.skip(i)) && (
                forall|j: int|
                0 <= j < i ==> !"://"@.is_prefix_of(#[trigger] auth_url@.skip(j))) implies i
            == at by {
            assert(at < i ==> !"://"@.is_prefix_of(auth_url@.skip(at)));
            assert(i < at ==> !"://"@.is_prefix_of(auth_url@.skip(i)));
        }
    }
}

/// The value of the last pair with a key is that of a pair that has the key and that no other with
/// the key follows; there is none where no pair has the key.
proof fn lemma_last_value(pairs: Seq<(Seq<char>, Seq<char>)>, key: Seq<char>)
    ensures
        forall|i: int|
            0 <= i < pairs.len() && (#[trigger] pairs[i]).0 == key && (forall|k: int|
                i < k < pairs.len() ==> (#[trigger] pairs[k]).0 != key) ==> last_value(pairs, key)
                == Some(pairs[i].1),
        (forall|i: int| 0 <= i < pairs.len() ==> (#[trigger] pairs[i]).0 != key) ==> last_value(
            pairs,
            key,
        ) is None,
        last_value(pairs, key) is None ==> forall|i: int|
            0 <= i < pairs.len() ==> (#[trigger] pairs[i]).0 != key,
    decreases pairs.len(),
{
    if pairs.len() > 0 {
        let earlier = pairs.drop_last();
        lemma_last_value(earlier, key);
        if pairs.last().0 == key {
            assert(pairs[pairs.len() - 1].0 == key);
        } else {
            assert forall|i: int|
                0 <= i < pairs.len() && (#[trigger] pairs[i]).0 == key && (forall|k: int|
                    i < k < pairs.len() ==> (#[trigger] pairs[k]).0 != key) implies last_value(
                pairs,
                key,
            ) == Some(pairs[i].1) by {
                assert(earlier[i] == pairs[i]);
                assert forall|k: int| i < k < earlier.len() implies (#[trigger] earlier[k]).0
                    != key by {
                    assert(pairs[k].0 != key);
                }
            }
            if forall|i: int| 0 <= i < pairs.len() ==> (#[trigger] pairs[i]).0 != key {
                assert forall|i: int| 0 <= i < earlier.len() implies (#[trigger] earlier[i]).0
                    != key by {
                    assert(pairs[i].0 != key);
                }
            }
            if last_value(pairs, key) is None {
                assert forall|i: int| 0 <= i < pairs.len() implies (#[trigger] pairs[i]).0
                    != key by {
                    if i < earlier.len() {
                        assert(earlier[i].0 != key);
                    }
                }
            }
        }
    }
}

/// An endpoint is put together from what it is given and nothing else:
///
/// - the client is the value of the last pair with the key `client_id`, and without such a pair there
///   is no endpoint;
/// - the scopes are the value of the last pair with the key `scopes`, character by character, with a
///   space in place of each plus sign; without such a pair they are `openid profile`;
/// - the issuer is the address without the slashes at its end.
pub proof fn law_endpoint_is_read_from_the_query(
    auth_url: &str,
    stripped: &str,
    pairs: Vec<(String, String)>,
    endpoint: Result<Endpoint, ProtocolError>,
)
    requires
        call_ensures(endpoint_from_query, (auth_url, stripped, &pairs), endpoint),
    ensures
        (forall|i: int| 0 <= i < pairs@.len() ==> (#[trigger] pairs@[i]).0@ != "client_id"@) ==> (
        endpoint matches Err(ProtocolError::Internal(message)) && message@ == "auth URL '"@
            + auth_url@ + "' names no client_id"@),
        forall|i: int|
            0 <= i < pairs@.len() && (#[trigger] pairs@[i]).0@ == "client_id"@ && (forall|k: int|
                i < k < pairs@.len() ==> (#[trigger] pairs@[k]).0@ != "client_id"@) ==> (
            endpoint matches Ok(endpoint) && endpoint.client_id@ == pairs@[i].1@),
        endpoint matches Ok(endpoint) ==> {
            &&& forall|i: int|
                0 <= i < pairs@.len() && (#[trigger] pairs@[i]).0@ == "scopes"@ && (forall|k: int|
                    i < k < pairs@.len() ==> (#[trigger] pairs@[k]).0@ != "scopes"@) ==> {
                    &&& endpoint.scopes@.len() == pairs@[i].1@.len()
                    &&& forall|c: int|
                        0 <= c < endpoint.scopes@.len() ==> #[trigger] endpoint.scopes@[c] == if pairs@[i].1@[c]
                            == '+' {
                            ' '
                        } else {
                            pairs@[i].1@[c]
                        }
                }
            &&& (forall|i: int| 0 <= i < pairs@.len() ==> (#[trigger] pairs@[i]).0@ != "scopes"@)
                ==> endpoint.scopes@ == "openid profile"@
            &&& endpoint.issuer@.is_prefix_of(stripped@)
            &&& endpoint.issuer@.len() > 0 ==> endpoint.issuer@.last() != '/'
            &&& forall|c: int|
                endpoint.issuer@.len() <= c < stripped@.len() ==> #[trigger] stripped@[c] == '/'
        },
{
    let seen = pairs.deep_view();
    assert(forall|i: int| 0 <= i < pairs@.len() ==> #[trigger] seen[i] == (pairs@[i].0@, pairs@[i].1@));
    lemma_last_value(seen, "client_id"@);
    lemma_last_value(seen, "scopes"@);
    text::lemma_without_trailing(stripped@, '/');
    if forall|i: int| 0 <= i < pairs@.len() ==> (#[trigger] pairs@[i]).0@ != "client_id"@ {
        assert forall|i: int| 0 <= i < seen.len() implies (#[trigger] seen[i]).0 != "client_id"@ by {
            assert(pairs@[i].0@ != "client_id"@);
        }
    }
    if forall|i: int| 0 <= i < pairs@.len() ==> (#[trigger] pairs@[i]).0@ != "scopes"@ {
        assert forall|i: int| 0 <= i < seen.len() implies (#[trigger] seen[i]).0 != "scopes"@ by {
            assert(pairs@[i].0@ != "scopes"@);
        }
    }
    assert forall|i: int|
        0 <= i < pairs@.len() && (#[trigger] pairs@[i]).0@ == "client_id"@ && (forall|k: int|
            i < k < pairs@.len() ==> (#[trigger] pairs@[k]).0@ != "client_id"@) implies last_value(
        seen,
        "client_id"@,
    ) == Some(pairs@[i].1@) by {
        assert(seen[i].0 == "client_id"@);
        assert forall|k: int| i < k < seen.len() implies (#[trigger] seen[k]).0 != "client_id"@ by {
            assert(pairs@[k].0@ != "client_id"@);
        }
    }
    assert forall|i: int|
        0 <= i < pairs@.len() && (#[trigger] pairs@[i]).0@ == "scopes"@ && (forall|k: int|
            i < k < pairs@.len() ==> (#[trigger] pairs@[k]).0@ != "scopes"@) implies last_value(
        seen,
        "scopes"@,
    ) == Some(pairs@[i].1@) by {
        assert(seen[i].0 == "scopes"@);
        assert forall|k: int| i < k < seen.len() implies (#[trigger] seen[k]).0 != "scopes"@ by {
            assert(pairs@[k].0@ != "scopes"@);
        }
    }
}

/// A login endpoint is read from the address that an auth URL stands for, as the `url` crate reads
/// it, and from nothing else:
///
/// - an address that does not parse is refused with the crate's message;
/// - the client is the value of the last pair with the key `client_id`, and without such a pair the
///   URL is refused;
/// - the scopes are the value of the last pair with the key `scopes`, character by character, with a
///   space in place of each plus sign; without such a pair they are `openid profile`;
/// - the issuer is the parsed address without what stands from its query to its fragment, and without
///   the slashes at its end.
pub proof fn law_endpoint_is_read_from_the_address(
    rest: Seq<char>,
    address: Seq<char>,
    auth_url: &str,
    endpoint: Result<Endpoint, ProtocolError>,
)
    requires
        (auth_url@ == "oidc://"@ + rest && address == "https://"@ + rest) || (auth_url@
            == "oidc-http://"@ + rest && address == "http://"@ + rest),
        call_ensures(parse_endpoint, (auth_url,), endpoint),
    ensures
        address::url_parse(address) matches Err(reason) ==> (endpoint matches Err(
            ProtocolError::Internal(message),
        ) && message@ == "invalid auth URL '"@ + auth_url@ + "': "@ + reason),
        address::url_parse(address) matches Ok(url) ==> {
            let pairs = address::url_query_pairs(address);
            &&& (forall|i: int| 0 <= i < pairs.len() ==> (#[trigger] pairs[i]).0 != "client_id"@) ==> (
            endpoint matches Err(ProtocolError::Internal(message)) && message@ == "auth URL '"@
                + auth_url@ + "' names no client_id"@)
            &&& forall|i: int|
                0 <= i < pairs.len() && (#[trigger] pairs[i]).0 == "client_id"@ && (forall|k: int|
                    i < k < pairs.len() ==> (#[trigger] pairs[k]).0 != "client_id"@) ==> (
                endpoint matches Ok(endpoint) && endpoint.client_id@ == pairs[i].1)
            &&& endpoint matches Ok(endpoint) ==> {
                &&& forall|i: int|
                    0 <= i < pairs.len() && (#[trigger] pairs[i]).0 == "scopes"@ && (forall|k: int|
                        i < k < pairs.len() ==> (#[trigger] pairs[k]).0 != "scopes"@) ==> {
                        &&& endpoint.scopes@.len() == pairs[i].1.len()
                        &&& forall|c: int|
                            0 <= c < endpoint.scopes@.len() ==> #[trigger] endpoint.scopes@[c] == if pairs[i].1[c]
                                == '+' {
                                ' '
                            } else {
                                pairs[i].1[c]
                            }
                    }
                &&& (forall|i: int| 0 <= i < pairs.len() ==> (#[trigger] pairs[i]).0 != "scopes"@)
                    ==> endpoint.scopes@ == "openid profile"@
                &&& forall|query: int, fragment: int|
                    0 <= query <= fragment <= url.len() && (forall|c: int|
                        0 <= c < fragment ==> #[trigger] url[c] != '#') && (forall|c: int|
                        0 <= c < query ==> #[trigger] url[c] != '?') && (fragment < url.len()
                        ==> url[fragment] == '#') && (query < fragment ==> url[query] == '?') ==> {
                        let kept = #[trigger] url.take(query) + #[trigger] url.skip(fragment);
                        &&& endpoint.issuer@.is_prefix_of(kept)
                        &&& forall|c: int|
                            endpoint.issuer@.len() <= c < kept.len() ==> #[trigger] kept[c] == '/'
                    }
                &&& endpoint.issuer@.len() > 0 ==> endpoint.issuer@.last() != '/'
            }
        },
{
    law_scheme_selects_the_transport(rest);
    assert(address_of(auth_url@) == Ok::<Seq<char>, ProtocolErrorView>(address));
    if let Ok(url) = address::url_parse(address) {
        let pairs = address::url_query_pairs(address);
        lemma_last_value(pairs, "client_id"@);
        lemma_last_value(pairs, "scopes"@);
        text::lemma_without_trailing(address::query_removed(url), '/');
        assert forall|query: int, fragment: int|
            0 <= query <= fragment <= url.len() && (forall|c: int|
                0 <= c < fragment ==> #[trigger] url[c] != '#') && (forall|c: int|
                0 <= c < query ==> #[trigger] url[c] != '?') && (fragment < url.len()
                ==> url[fragment] == '#') && (query < fragment ==> url[query]
                == '?') implies #[trigger] url.take(query) + #[trigger] url.skip(fragment)
            == address::query_removed(url) by {
            address::lemma_query_removed_at(url, query, fragment);
        }
    }
}

/// A login refuses every auth URL that stands for no address, with the same error.
pub proof fn law_login_needs_an_address(
    auth_url: &str,
    address: Result<String, ProtocolError>,
    endpoint: Result<Endpoint, ProtocolError>,
)
    requires
        call_ensures(issuer_address, (auth_url,), address),
        call_ensures(parse_endpoint, (auth_url,), endpoint),
    ensures
        address matches Err(ProtocolError::Internal(reason)) ==> (endpoint matches Err(
            ProtocolError::Internal(message),
        ) && message@ == reason@),
        !"oidc://"@.is_prefix_of(auth_url@) && !"oidc-http://"@.is_prefix_of(auth_url@)
            ==> endpoint is Err,
{
    lemma_auth_schemes(auth_url@);
}

} // verus!
