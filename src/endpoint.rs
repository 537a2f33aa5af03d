//! Endpoint base URLs: the instance label derived from them and the request
//! URLs built on them.
use crate::text::{strip_all, strip_prefix_all};
use vstd::prelude::*;
use vstd::string::*;

verus! {

/// The `instance` label of an endpoint: its base URL without leading
/// `http://` and then `https://` prefixes.
pub open spec fn instance_of(base: Seq<char>) -> Seq<char> {
    strip_all(strip_all(base, "http://"@), "https://"@)
}

/// The URL that lists an endpoint's connectors with their status expanded.
pub open spec fn list_url_of(base: Seq<char>) -> Seq<char> {
    base + "/connectors?expand=status"@
}

/// The URL of one connector's status document.
pub open spec fn status_url_of(base: Seq<char>, name: Seq<char>) -> Seq<char> {
    base + "/connectors/"@ + name + "/status"@
}

/// The `instance` label under which an endpoint's lines are reported.
pub fn instance_label(base_url: &str) -> (r: String)
    ensures
        r@ == instance_of(base_url@),
{
    proof {
        reveal_strlit("http://");
        reveal_strlit("https://");
    }
    let plain = strip_prefix_all(base_url, "http://");
    strip_prefix_all(plain.as_str(), "https://")
}

/// The request URL for the list of an endpoint's connectors.
pub fn list_url(base_url: &str) -> (r: String)
    ensures
        r@ == list_url_of(base_url@),
{
    let mut r = String::from_str(base_url);
    r.append("/connectors?expand=status");
    r
}

/// The request URL for the status of the connector `name`.
pub fn status_url(base_url: &str, name: &str) -> (r: String)
    ensures
        r@ == status_url_of(base_url@, name@),
{
    let mut r = String::from_str(base_url);
    r.append("/connectors/");
    r.append(name);
    r.append("/status");
    r
}

} // verus!
