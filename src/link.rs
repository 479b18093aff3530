//! Link normalization: turns a raw attribute value found on a page into an
//! absolute `http`/`https` URL, or rejects it.
use vstd::prelude::*;
use crate::text::{eq_ci, equals_ci, starts_ci, starts_with_ci, trim_spaces, trimmed};
use crate::web_url::{join_url, joined_url, parse_url, parsed_url};

verus! {

/// How a trimmed raw link is resolved.
#[derive(PartialEq, Eq, Structural, Debug, Clone, Copy)]
pub enum LinkKind {
    /// Empty, a fragment, or a `mailto:`, `tel:` or `javascript:` link.
    Excluded,
    /// Starts with `//`: takes the scheme of the page.
    ProtocolRelative,
    /// Starts with `/`, `./` or `../`, or is `.` or `..`: resolved against the page.
    Relative,
    /// Starts with `http://` or `https://`: kept as it is.
    Absolute,
    /// Anything else, such as a bare word or another scheme.
    Unresolvable,
}

pub open spec fn kind_of(t: Seq<char>) -> LinkKind {
    if t.len() == 0 || starts_ci(t, "#"@) || starts_ci(t, "mailto:"@) || starts_ci(t, "tel:"@)
        || starts_ci(t, "javascript:"@) {
        LinkKind::Excluded
    } else if starts_ci(t, "//"@) {
        LinkKind::ProtocolRelative
    } else if starts_ci(t, "/"@) || starts_ci(t, "./"@) || starts_ci(t, "../"@) || eq_ci(t, "."@)
        || eq_ci(t, ".."@) {
        LinkKind::Relative
    } else if has_web_scheme(t) {
        LinkKind::Absolute
    } else {
        LinkKind::Unresolvable
    }
}

/// `u` begins with `http://` or `https://`, up to ASCII case.
pub open spec fn has_web_scheme(u: Seq<char>) -> bool {
    starts_ci(u, "http://"@) || starts_ci(u, "https://"@)
}

/// `o`, where it holds a URL of scheme `http` or `https`.
pub open spec fn web_only(o: Option<Seq<char>>) -> Option<Seq<char>> {
    match o {
        Some(u) => if has_web_scheme(u) {
            Some(u)
        } else {
            None
        },
        None => None,
    }
}

/// Index of the first `:` in `s`, or its length if it has none.
pub open spec fn colon_index(s: Seq<char>) -> int
    decreases s.len(),
{
    if s.len() == 0 || s[0] == ':' {
        0
    } else {
        1 + colon_index(s.drop_first())
    }
}

/// `t` prefixed with the scheme of `base` and its colon; `None` if `base` has no colon.
pub open spec fn scheme_prefixed(base: Seq<char>, t: Seq<char>) -> Option<Seq<char>> {
    let k = colon_index(base);
    if k < base.len() {
        Some(base.subrange(0, k + 1) + t)
    } else {
        None
    }
}

/// The absolute URL that the raw link `raw`, found on the page at `base`, stands for.
pub open spec fn normalized(base: Seq<char>, raw: Seq<char>) -> Option<Seq<char>> {
    let t = trimmed(raw);
    match kind_of(t) {
        LinkKind::ProtocolRelative => match scheme_prefixed(base, t) {
            Some(u) => web_only(parsed_url(u)),
            None => None,
        },
        LinkKind::Relative => web_only(joined_url(base, t)),
        LinkKind::Absolute => if parsed_url(t) is Some {
            Some(t)
        } else {
            None
        },
        _ => None,
    }
}

/// Classifies a trimmed raw link.
pub fn classify_link(t: &str) -> (r: LinkKind)
    ensures
        r == kind_of(t@),
{
    if t.unicode_len() == 0 || starts_with_ci(t, "#") || starts_with_ci(t, "mailto:")
        || starts_with_ci(t, "tel:") || starts_with_ci(t, "javascript:") {
        LinkKind::Excluded
    } else if starts_with_ci(t, "//") {
        LinkKind::ProtocolRelative
    } else if starts_with_ci(t, "/") || starts_with_ci(t, "./") || starts_with_ci(t, "../")
        || equals_ci(t, ".") || equals_ci(t, "..") {
        LinkKind::Relative
    } else if is_web_url(t) {
        LinkKind::Absolute
    } else {
        LinkKind::Unresolvable
    }
}

/// Whether `u` begins with `http://` or `https://`, ignoring ASCII case.
pub fn is_web_url(u: &str) -> (r: bool)
    ensures
        r == has_web_scheme(u@),
{
    starts_with_ci(u, "http://") || starts_with_ci(u, "https://")
}

/// Keeps a resolved URL only where its scheme is `http` or `https`.
pub fn keep_web_url(resolved: Option<String>) -> (r: Option<String>)
    ensures
        r.deep_view() == web_only(resolved.deep_view()),
{
    match resolved {
        Some(u) => if is_web_url(u.as_str()) {
            Some(u)
        } else {
            None
        },
        None => None,
    }
}

/// Position of the first `:` in `s`, or its length if it has none.
pub fn find_colon(s: &str) -> (r: usize)
    ensures
        r as int == colon_index(s@),
{
    let n = s.unicode_len();
    let mut i: usize = 0;
    assert(s@.subrange(0, n as int) =~= s@);
    while i < n && s.get_char(i) != ':'
        invariant
            n == s@.len(),
            i <= n,
            colon_index(s@) == i + colon_index(s@.subrange(i as int, n as int)),
        decreases n - i,
    {
        assert(s@.subrange(i as int, n as int).drop_first() =~= s@.subrange(i + 1, n as int));
        i += 1;
    }
    i
}

/// A protocol-relative link `t` with the scheme of the page `base` put in front.
pub fn protocol_relative_target(base: &str, t: &str) -> (r: Option<String>)
    ensures
        r.deep_view() == scheme_prefixed(base@, t@),
{
    let k = find_colon(base);
    if k < base.unicode_len() {
        let scheme = String::from_str(base.substring_char(0, k + 1));
        Some(scheme.concat(t))
    } else {
        None
    }
}

/// Resolves the raw link `link`, found on the page at `url`, to an absolute
/// `http` or `https` URL; `None` where the link is excluded or cannot be resolved.
pub fn format_link(url: &str, link: &str) -> (r: Option<String>)
    ensures
        r.deep_view() == normalized(url@, link@),
        r matches Some(u) ==> has_web_scheme(u@),
{
    let t = trim_spaces(link);
    match classify_link(t) {
        LinkKind::ProtocolRelative => match protocol_relative_target(url, t) {
            Some(u) => keep_web_url(parse_url(u.as_str())),
            None => None,
        },
        LinkKind::Relative => keep_web_url(join_url(url, t)),
        LinkKind::Absolute => if parse_url(t).is_some() {
            Some(String::from_str(t))
        } else {
            None
        },
        _ => None,
    }
}

} // verus!
