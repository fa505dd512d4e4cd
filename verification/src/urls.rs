//! Trusted bridge to the `url` crate: parsing a server base and rendering
//! the subscription endpoints built from it.
use vstd::prelude::*;

verus! {

/// Whether `server` parses as an absolute URL able to take appended path
/// segments — as `url::Url::parse` and `Url::path_segments_mut` decide it.
pub uninterp spec fn server_base_ok(server: Seq<char>) -> bool;

/// The URL rendered from the server base plus path segments `topic` and
/// `"json"` and the query pair `since=<n>`.
pub uninterp spec fn topic_url_of(server: Seq<char>, topic: Seq<char>, since: u64) -> Seq<char>;

/// The URL rendered from the server base plus path segments `topic` and
/// `"auth"`.
pub uninterp spec fn auth_url_of(server: Seq<char>, topic: Seq<char>) -> Seq<char>;

/// Relies on url::Url::parse, PathSegmentsMut::push and
/// UrlQuery::append_pair: renders `{server}/{topic}/json?since=<n>`.
#[verifier::external_body]
pub(crate) fn render_topic_url(server: &str, topic: &str, since: u64) -> (r: Result<String, String>)
    ensures
        r is Ok <==> server_base_ok(server@),
        r matches Ok(u) ==> u@ == topic_url_of(server@, topic@, since),
{
    let mut url = url::Url::parse(server).map_err(|e| e.to_string())?;
    url.path_segments_mut()
        .map_err(|_| url::ParseError::RelativeUrlWithCannotBeABaseBase.to_string())?
        .push(topic)
        .push("json");
    url.query_pairs_mut().append_pair("since", &since.to_string());
    Ok(url.to_string())
}

/// Relies on url::Url::parse and PathSegmentsMut::push: renders
/// `{server}/{topic}/auth`.
#[verifier::external_body]
pub(crate) fn render_auth_url(server: &str, topic: &str) -> (r: Result<String, String>)
    ensures
        r is Ok <==> server_base_ok(server@),
        r matches Ok(u) ==> u@ == auth_url_of(server@, topic@),
{
    let mut url = url::Url::parse(server).map_err(|e| e.to_string())?;
    url.path_segments_mut()
        .map_err(|_| url::ParseError::RelativeUrlWithCannotBeABaseBase.to_string())?
        .push(topic)
        .push("auth");
    Ok(url.to_string())
}

} // verus!
