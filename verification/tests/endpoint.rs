use lore::endpoint::{endpoint_from_query, issuer_address, parse_endpoint, DEFAULT_SCOPES};
use lore::error::ProtocolError;
use lore::text::{replace_char, same_text, split_once, trim_end_char};

fn internal<T>(result: Result<T, ProtocolError>) -> String {
    match result {
        Err(ProtocolError::Internal(message)) => message,
        _ => panic!("an internal error was expected"),
    }
}

fn pair(key: &str, value: &str) -> (String, String) {
    (key.to_string(), value.to_string())
}

#[test]
fn https_scheme_addresses_the_issuer_over_tls() {
    let endpoint = parse_endpoint("oidc://auth.example.com/application/o/lore/?client_id=lore")
        .expect("a well-formed auth URL");
    assert_eq!(endpoint.issuer, "https://auth.example.com/application/o/lore");
    assert_eq!(endpoint.client_id, "lore");
    assert_eq!(endpoint.scopes, DEFAULT_SCOPES);
}

#[test]
fn plaintext_scheme_addresses_the_issuer_over_http() {
    let endpoint = parse_endpoint("oidc-http://127.0.0.1:9000/o/lore?client_id=lore")
        .expect("a well-formed auth URL");
    assert_eq!(endpoint.issuer, "http://127.0.0.1:9000/o/lore");
}

#[test]
fn scopes_are_read_from_the_query() {
    let endpoint =
        parse_endpoint("oidc://auth.example.com/?client_id=lore&scopes=openid+groups")
            .expect("a well-formed auth URL");
    assert_eq!(endpoint.scopes, "openid groups");
}

#[test]
fn an_auth_url_without_a_client_id_is_refused() {
    assert!(parse_endpoint("oidc://auth.example.com/").is_err());
}

#[test]
fn a_foreign_scheme_is_refused() {
    assert!(parse_endpoint("ucs-auth://auth.example.com").is_err());
    assert!(parse_endpoint("auth.example.com").is_err());
}

#[test]
fn the_documented_auth_url_carries_all_parameters() {
    let endpoint = parse_endpoint("oidc://host/path?client_id=lore&scopes=openid+profile")
        .expect("a well-formed auth URL");
    assert_eq!(endpoint.issuer, "https://host/path");
    assert_eq!(endpoint.client_id, "lore");
    assert_eq!(endpoint.scopes, "openid profile");
}

#[test]
fn refusals_say_what_is_wrong() {
    assert_eq!(
        internal(parse_endpoint("auth.example.com")),
        "invalid auth URL (missing scheme): 'auth.example.com'"
    );
    assert_eq!(
        internal(parse_endpoint("ucs-auth://auth.example.com")),
        "'ucs-auth' is not an OIDC auth URL scheme"
    );
    assert_eq!(
        internal(parse_endpoint("oidc://auth.example.com/")),
        "auth URL 'oidc://auth.example.com/' names no client_id"
    );
    assert_eq!(
        internal(parse_endpoint("oidc://host:notaport/?client_id=lore")),
        "invalid auth URL 'oidc://host:notaport/?client_id=lore': invalid port number"
    );
    assert_eq!(
        internal(parse_endpoint("oidc://?client_id=lore")),
        "invalid auth URL 'oidc://?client_id=lore': empty host"
    );
}

#[test]
fn schemes_are_told_apart_by_case() {
    assert!(parse_endpoint("OIDC://auth.example.com/?client_id=lore").is_err());
    assert!(parse_endpoint("oidc-https://auth.example.com/?client_id=lore").is_err());
}

#[test]
fn query_values_are_decoded() {
    let endpoint = parse_endpoint("oidc://h/?client_id=l%26re&scopes=a%2Bb%20c").unwrap();
    assert_eq!(endpoint.client_id, "l&re");
    assert_eq!(endpoint.scopes, "a b c");
}

#[test]
fn the_last_of_equal_keys_counts() {
    let endpoint =
        parse_endpoint("oidc://h/?client_id=a&client_id=b&scopes=x&scopes=y&other=z").unwrap();
    assert_eq!(endpoint.client_id, "b");
    assert_eq!(endpoint.scopes, "y");
}

#[test]
fn an_empty_client_id_is_a_client_id() {
    let endpoint = parse_endpoint("oidc://h/?client_id=").unwrap();
    assert_eq!(endpoint.client_id, "");
}

#[test]
fn the_issuer_is_normalized_and_loses_its_trailing_slashes() {
    let endpoint = parse_endpoint("oidc://Auth.Example.com:443/a/../b///?client_id=lore").unwrap();
    assert_eq!(endpoint.issuer, "https://auth.example.com/b");
    let bare = parse_endpoint("oidc-http://h?client_id=lore").unwrap();
    assert_eq!(bare.issuer, "http://h");
}

#[test]
fn the_issuer_carries_no_query_and_keeps_a_fragment() {
    let endpoint = parse_endpoint("oidc://h/p?client_id=lore#frag?ment").unwrap();
    assert_eq!(endpoint.issuer, "https://h/p#frag?ment");
    assert_eq!(endpoint.client_id, "lore");
}

#[test]
fn the_scheme_selects_the_transport_of_the_address() {
    assert_eq!(issuer_address("oidc://h/p?q").unwrap(), "https://h/p?q");
    assert_eq!(issuer_address("oidc-http://h://p").unwrap(), "http://h://p");
    assert!(issuer_address("https://h").is_err());
    assert!(issuer_address("").is_err());
}

#[test]
fn the_scheme_selects_nothing_but_the_transport() {
    for rest in ["h/p?client_id=a&scopes=b+c", "h:8080/?client_id=", "[::1]/a/?x=y&client_id=z#f"] {
        let over_https = parse_endpoint(&format!("oidc://{rest}")).unwrap();
        let over_http = parse_endpoint(&format!("oidc-http://{rest}")).unwrap();
        assert_eq!(over_https.client_id, over_http.client_id);
        assert_eq!(over_https.scopes, over_http.scopes);
        assert_eq!(over_https.issuer.replacen("https", "http", 1), over_http.issuer);
    }
    for rest in ["", "h/p", "h/?scopes=a", "a b/?client_id=x"] {
        assert!(parse_endpoint(&format!("oidc://{rest}")).is_err());
        assert!(parse_endpoint(&format!("oidc-http://{rest}")).is_err());
    }
}

#[test]
fn an_endpoint_is_put_together_from_its_parts() {
    let pairs = vec![pair("scopes", "a+b"), pair("client_id", "lore"), pair("x", "y")];
    let endpoint = endpoint_from_query("u", "https://h//", &pairs).unwrap();
    assert_eq!(endpoint.issuer, "https://h");
    assert_eq!(endpoint.client_id, "lore");
    assert_eq!(endpoint.scopes, "a b");
    let nobody = vec![pair("scopes", "a")];
    assert_eq!(
        internal(endpoint_from_query("u", "https://h", &nobody)),
        "auth URL 'u' names no client_id"
    );
}

#[test]
fn texts_are_split_at_the_first_separator() {
    assert_eq!(split_once("a://b://c", "://"), Some(("a", "b://c")));
    assert_eq!(split_once("://", "://"), Some(("", "")));
    assert_eq!(split_once("a:/b", "://"), None);
    assert_eq!(split_once("", "://"), None);
    assert_eq!(split_once("é::/://ü", "://"), Some(("é::/", "ü")));
    assert_eq!(split_once("ab", ""), Some(("", "ab")));
}

#[test]
fn characters_are_replaced_and_trimmed() {
    assert_eq!(replace_char("a+é++", '+', ' '), "a é  ");
    assert_eq!(replace_char("", '+', ' '), "");
    assert_eq!(trim_end_char("a/é//", '/'), "a/é");
    assert_eq!(trim_end_char("///", '/'), "");
    assert_eq!(trim_end_char("a", '/'), "a");
    assert!(same_text("a", "a"));
    assert!(!same_text("a", "A"));
}
