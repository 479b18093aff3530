//! Same-host test between two URLs, used to keep a crawl on its start site.
use vstd::prelude::*;
use crate::text::{eq_ci, equals_ci};
use crate::web_url::{host_of, url_host};

verus! {

/// Both hosts are known and equal up to ASCII case.
pub open spec fn hosts_agree(a: Option<Seq<char>>, b: Option<Seq<char>>) -> bool {
    match (a, b) {
        (Some(x), Some(y)) => eq_ci(x, y),
        _ => false,
    }
}

/// The URLs `a` and `b` both parse, have a host, and share it.
pub open spec fn same_origin(a: Seq<char>, b: Seq<char>) -> bool {
    hosts_agree(host_of(a), host_of(b))
}

/// Whether two looked-up hosts are both present and equal, ignoring ASCII case.
pub fn hosts_match(a: &Option<String>, b: &Option<String>) -> (r: bool)
    ensures
        r == hosts_agree(a.deep_view(), b.deep_view()),
{
    match (a, b) {
        (Some(x), Some(y)) => equals_ci(x.as_str(), y.as_str()),
        _ => false,
    }
}

/// Whether the URLs `left` and `right` have the same host.
pub fn share_same_domain(left: &str, right: &str) -> (r: bool)
    ensures
        r == same_origin(left@, right@),
{
    let l = url_host(left);
    let r = url_host(right);
    hosts_match(&l, &r)
}

} // verus!
