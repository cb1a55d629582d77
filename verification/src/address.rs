//! Web addresses, read by the `url` crate.

use vstd::prelude::*;

verus! {

/// What `url::Url::parse` makes of a text: the serialization of the URL, or the error's message.
pub uninterp spec fn url_parse(text: Seq<char>) -> Result<Seq<char>, Seq<char>>;

/// The pairs that `url::Url::query_pairs` reads from the URL that a text parses to.
pub uninterp spec fn url_query_pairs(text: Seq<char>) -> Seq<(Seq<char>, Seq<char>)>;

/// The text is a web address: it starts with `https://` or `http://`.
pub open spec fn is_web_address(text: Seq<char>) -> bool {
    "https://"@.is_prefix_of(text) || "http://"@.is_prefix_of(text)
}

/// A web address over the other of the two transports.
pub open spec fn over_other_transport(text: Seq<char>) -> Seq<char> {
    if "https://"@.is_prefix_of(text) {
        "http://"@ + text.skip("https://"@.len() as int)
    } else {
        "https://"@ + text.skip("http://"@.len() as int)
    }
}

/// The message of the error for a URL whose length does not fit.
pub open spec fn too_long() -> Seq<char> {
    "URLs more than 4 GB are not supported"@
}

/// `url` starts with the scheme and `://`, and an authority follows.
pub open spec fn addressed_over(url: Seq<char>, scheme: Seq<char>) -> bool {
    let prefix = scheme + "://"@;
    &&& prefix.len() < url.len()
    &&& url.subrange(0, prefix.len() as int) == prefix
    &&& url[prefix.len() as int] != '/'
    &&& url[prefix.len() as int] != '?'
    &&& url[prefix.len() as int] != '#'
}

/// The first position of a character in a text, or the text's length where it is not in it.
pub open spec fn position_of(text: Seq<char>, c: char) -> int
    decreases text.len(),
{
    if text.len() == 0 || text[0] == c {
        0
    } else {
        1 + position_of(text.drop_first(), c)
    }
}

/// `url` without its query: what stands from the first question mark to the fragment is gone.
pub open spec fn query_removed(url: Seq<char>) -> Seq<char> {
    let fragment = position_of(url, '#');
    let query = position_of(url.take(fragment), '?');
    url.take(query) + url.skip(fragment)
}

/// `url` has no query: a question mark stands in it at most within a fragment.
pub open spec fn query_free(url: Seq<char>) -> bool {
    forall|i: int|
        0 <= i < url.len() && #[trigger] url[i] == '?' ==> exists|j: int| 0 <= j < i && url[j] == '#'
}

/// At its first position the character stands, and before it does not.
proof fn lemma_position_of(text: Seq<char>, c: char)
    ensures
        0 <= position_of(text, c) <= text.len(),
        position_of(text, c) < text.len() ==> text[position_of(text, c)] == c,
        forall|i: int| 0 <= i < position_of(text, c) ==> text[i] != c,
    decreases text.len(),
{
    if text.len() > 0 && text[0] != c {
        let rest = text.drop_first();
        lemma_position_of(rest, c);
        assert forall|i: int| 0 <= i < position_of(text, c) implies text[i] != c by {
            if i > 0 {
                assert(rest[i - 1] != c);
            }
        }
    }
}

/// What is gone from a URL without its query stands between its first question mark and its first
/// number sign.
pub proof fn lemma_query_removed_at(url: Seq<char>, query: int, fragment: int)
    requires
        0 <= query <= fragment <= url.len(),
        forall|c: int| 0 <= c < fragment ==> #[trigger] url[c] != '#',
        forall|c: int| 0 <= c < query ==> #[trigger] url[c] != '?',
        fragment < url.len() ==> url[fragment] == '#',
        query < fragment ==> url[query] == '?',
    ensures
        query_removed(url) == url.take(query) + url.skip(fragment),
{
    let head = url.take(position_of(url, '#'));
    lemma_position_of(url, '#');
    lemma_position_of(head, '?');
    assert(position_of(url, '#') == fragment);
    assert(position_of(head, '?') < query ==> head[position_of(head, '?')] == '?');
    assert(query < fragment ==> head[query] == '?');
    assert(position_of(head, '?') == query);
}

/// A URL without its query has none, and is addressed as it was before.
pub proof fn lemma_query_removed(url: Seq<char>, scheme: Seq<char>)
    ensures
        query_free(query_removed(url)),
        !scheme.contains('?') && !scheme.contains('#') && addressed_over(url, scheme)
            ==> addressed_over(query_removed(url), scheme),
{
    let fragment = position_of(url, '#');
    let head = url.take(fragment);
    let query = position_of(head, '?');
    let left = query_removed(url);
    lemma_position_of(url, '#');
    lemma_position_of(head, '?');
    assert forall|i: int| 0 <= i < left.len() && #[trigger] left[i] == '?' implies exists|j: int|
        0 <= j < i && left[j] == '#' by {
        if i < query {
            assert(head[i] == '?');
        } else {
            assert(left[query] == url[fragment]);
        }
    }
    if !scheme.contains('?') && !scheme.contains('#') && addressed_over(url, scheme) {
        reveal_strlit("://");
        let prefix = scheme + "://"@;
        assert forall|i: int| 0 <= i <= prefix.len() implies url[i] != '#' && url[i] != '?' by {
            if i < prefix.len() {
                assert(url.subrange(0, prefix.len() as int)[i] == prefix[i]);
            }
        }
        assert(fragment > prefix.len());
        assert(query > prefix.len()) by {
            if query < head.len() {
                assert(head[query] == '?');
            }
        }
        assert(left.subrange(0, prefix.len() as int) =~= prefix);
    }
}

/// `url::Url::parse`: what it returns is named `url_parse`, a URL taken by its serialization and an
/// error by its message. Where the text starts with `https://` or `http://`, so does the
/// serialization, and a non-empty authority follows. Such a text parses over both transports or over
/// neither, except that over one of them alone the URL may be too long.
#[verifier::external_body]
pub(crate) fn parse_url(text: &str) -> (parsed: Result<String, String>)
    ensures
        match parsed {
            Ok(serialization) => url_parse(text@) == Ok::<Seq<char>, Seq<char>>(serialization@),
            Err(message) => url_parse(text@) == Err::<Seq<char>, Seq<char>>(message@),
        },
        "https://"@.is_prefix_of(text@) ==> (parsed matches Ok(serialization) ==> addressed_over(
            serialization@,
            "https"@,
        )),
        "http://"@.is_prefix_of(text@) ==> (parsed matches Ok(serialization) ==> addressed_over(
            serialization@,
            "http"@,
        )),
        is_web_address(text@) ==> match (parsed, url_parse(over_other_transport(text@))) {
            (Ok(_), Err(message)) => message == too_long(),
            (Err(message), Ok(_)) => message@ == too_long(),
            _ => true,
        },
{
    match url::Url::parse(text) {
        Ok(url) => Ok(String::from(url)),
        Err(error) => Err(error.to_string()),
    }
}

/// `url::Url::query_pairs` on the URL that the text parses to: the decoded pairs, in the order of
/// the query, are named `url_query_pairs`. A text without a question mark has no query, so no pairs.
/// Over the other transport, where that parses too, a web address has the same pairs.
#[verifier::external_body]
pub(crate) fn query_pairs(text: &str) -> (pairs: Vec<(String, String)>)
    requires
        url_parse(text@) is Ok,
    ensures
        pairs.deep_view() == url_query_pairs(text@),
        !text@.contains('?') ==> pairs@.len() == 0,
        is_web_address(text@) && url_parse(over_other_transport(text@)) is Ok ==> pairs.deep_view()
            == url_query_pairs(over_other_transport(text@)),
{
    let url = url::Url::parse(text).expect("a text that parses");
    url.query_pairs().into_owned().collect()
}

/// `url::Url::set_query` with no query, on the URL that a web address parses to: of the serialization
/// nothing but the query is gone.
#[verifier::external_body]
pub(crate) fn without_query(text: &str) -> (stripped: String)
    requires
        is_web_address(text@),
        url_parse(text@) is Ok,
    ensures
        stripped@ == query_removed(url_parse(text@)->Ok_0),
{
    let mut url = url::Url::parse(text).expect("a text that parses");
    url.set_query(None);
    String::from(url)
}

} // verus!
