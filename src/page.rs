//! The links of a fetched page: raw attribute values taken from its markup
//! by the HTML parser, each normalized against the page's URL.
use vstd::prelude::*;
use crate::link::{format_link, normalized};

verus! {

/// For each element named `tag` in the HTML document `html`, in document
/// order, the value of its attribute `attr`, or `None` where it has none.
pub uninterp spec fn tag_attributes(html: Seq<char>, tag: Seq<char>, attr: Seq<char>) -> Seq<Option<Seq<char>>>;

/// Relies on scraper's `Html::parse_document`, `Selector::parse`,
/// `Html::select` and `Element::attr`: the attribute `attr` of each element
/// named `tag`, in document order; the result depends on the three texts alone.
#[verifier::external_body]
fn tag_attribute_values(html: &str, tag: &str, attr: &str) -> (r: Vec<Option<String>>)
    ensures
        r.deep_view() == tag_attributes(html@, tag@, attr@),
{
    let document = scraper::Html::parse_document(html);
    match scraper::Selector::parse(tag) {
        Ok(selector) => document
            .select(&selector)
            .map(|e| e.value().attr(attr).map(|v| v.to_string()))
            .collect(),
        Err(_) => Vec::new(),
    }
}

/// The raw references of a page: anchor `href`, script `src` and link `href`.
pub open spec fn page_references(html: Seq<char>) -> Seq<Option<Seq<char>>> {
    tag_attributes(html, "a"@, "href"@) + tag_attributes(html, "script"@, "src"@)
        + tag_attributes(html, "link"@, "href"@)
}

/// The normalized forms of the present raw links in `raws`, in order, the
/// rejected ones left out.
pub open spec fn normalize_all(base: Seq<char>, raws: Seq<Option<Seq<char>>>) -> Seq<Seq<char>>
    decreases raws.len(),
{
    if raws.len() == 0 {
        Seq::empty()
    } else {
        let prev = normalize_all(base, raws.drop_last());
        match raws.last() {
            Some(raw) => match normalized(base, raw) {
                Some(u) => prev.push(u),
                None => prev,
            },
            None => prev,
        }
    }
}

/// The links of the page at `url` whose markup is `html`.
pub open spec fn links_in(url: Seq<char>, html: Seq<char>) -> Seq<Seq<char>> {
    normalize_all(url, page_references(html))
}

/// Normalizes each present raw link against `base`, dropping the rejected ones.
pub fn normalize_links(base: &str, raws: &Vec<Option<String>>) -> (r: Vec<String>)
    ensures
        r.deep_view() == normalize_all(base@, raws.deep_view()),
{
    let mut out: Vec<String> = Vec::new();
    let mut i: usize = 0;
    while i < raws.len()
        invariant
            i <= raws.len(),
            out.deep_view() == normalize_all(base@, raws.deep_view().take(i as int)),
        decreases raws.len() - i,
    {
        let ghost before = out.deep_view();
        assert(raws.deep_view().take(i + 1).drop_last() =~= raws.deep_view().take(i as int));
        match &raws[i] {
            Some(raw) => match format_link(base, raw.as_str()) {
                Some(u) => {
                    out.push(u);
                    assert(out.deep_view() =~= before.push(u@));
                },
                None => {},
            },
            None => {},
        }
        i += 1;
    }
    assert(raws.deep_view().take(raws.len() as int) =~= raws.deep_view());
    out
}

/// The links of the page at `url` whose markup is `html`: each anchor
/// `href`, script `src` and link `href`, normalized against `url`.
pub fn collect_links(url: &str, html: &str) -> (r: Vec<String>)
    ensures
        r.deep_view() == links_in(url@, html@),
{
    let mut raws = tag_attribute_values(html, "a", "href");
    let mut scripts = tag_attribute_values(html, "script", "src");
    let mut styles = tag_attribute_values(html, "link", "href");
    let ghost a = raws.deep_view();
    let ghost s = scripts.deep_view();
    let ghost l = styles.deep_view();
    raws.append(&mut scripts);
    raws.append(&mut styles);
    assert(raws.deep_view() =~= a + s + l);
    normalize_links(url, &raws)
}

} // verus!
