//! The crawl state machine. The caller fetches the pages of the frontier,
//! hands their bodies to `advance`, and prints the URLs it returns, until
//! the crawl is done.
use vstd::prelude::*;
use vstd::hash_set::StringHashSet;
use crate::cli::Args;
use crate::crawl::{
    admit_links, admit_pages, fetched_links, lemma_step_wf, links_of, step, Admission, CrawlView,
};
use crate::origin::{hosts_match, same_origin};
use crate::page::{collect_links, links_in};
use crate::web_url::{host_of, parse_url, parsed_url, url_host};

verus! {

/// Why a crawl cannot start.
#[derive(PartialEq, Eq, Structural, Debug, Clone, Copy)]
pub enum CrawlError {
    /// The start URL does not parse.
    InvalidStartUrl,
}

/// A breadth-first crawl from one start URL, bounded in depth.
pub struct Crawler {
    start: String,
    start_host: Option<String>,
    filter: bool,
    max_depth: u8,
    level: u16,
    frontier: Vec<String>,
    seen: Vec<String>,
    index: StringHashSet,
}

impl View for Crawler {
    type V = CrawlView;

    closed spec fn view(&self) -> CrawlView {
        CrawlView {
            start: self.start@,
            filter: self.filter,
            max_depth: self.max_depth as nat,
            level: self.level as nat,
            frontier: self.frontier.deep_view(),
            seen: self.seen.deep_view(),
        }
    }
}

impl Crawler {
    /// The start URL's host is known, and the index holds exactly the seen URLs.
    closed spec fn tables_ok(&self) -> bool {
        &&& self.start_host.deep_view() == host_of(self.start@)
        &&& self.index@ == self.seen.deep_view().to_set()
    }

    pub closed spec fn wf(&self) -> bool {
        self@.wf() && self.tables_ok()
    }

    /// Starts a crawl from `args.url`, which is parsed into its canonical form.
    pub fn new(args: &Args) -> (r: Result<Crawler, CrawlError>)
        ensures
            r is Ok <==> parsed_url(args.url@) is Some,
            r matches Ok(c) ==> {
                &&& c.wf()
                &&& c@.wf()
                &&& parsed_url(args.url@) == Some(c@.start)
                &&& c@ == CrawlView::initial(
                    c@.start,
                    !args.no_domain_filter,
                    args.depth as nat,
                )
            },
            r matches Err(e) ==> e == CrawlError::InvalidStartUrl,
    {
        match parse_url(args.url.as_str()) {
            None => Err(CrawlError::InvalidStartUrl),
            Some(start) => {
                let start_host = url_host(start.as_str());
                let mut index = StringHashSet::new();
                index.insert(start.clone());
                let mut frontier: Vec<String> = Vec::new();
                frontier.push(start.clone());
                let mut seen: Vec<String> = Vec::new();
                seen.push(start.clone());
                let c = Crawler {
                    start,
                    start_host,
                    filter: !args.no_domain_filter,
                    max_depth: args.depth,
                    level: 0,
                    frontier,
                    seen,
                    index,
                };
                assert(c.seen.deep_view() =~= seq![c.start@]);
                assert(c.frontier.deep_view() =~= seq![c.start@]);
                assert(c.index@ =~= c.seen.deep_view().to_set()) by {
                    broadcast use vstd::seq_lib::group_seq_properties;
                }
                Ok(c)
            },
        }
    }

    /// No further round is to be fetched.
    pub fn is_done(&self) -> (r: bool)
        ensures
            r == self@.done(),
    {
        self.frontier.len() == 0 || self.level > self.max_depth as u16
    }

    /// The URLs to fetch in the coming round.
    pub fn frontier(&self) -> (r: &Vec<String>)
        ensures
            r.deep_view() == self@.frontier,
    {
        &self.frontier
    }

    /// Whether `url` has the start URL's host.
    pub fn same_domain(&self, url: &str) -> (r: bool)
        requires
            self.wf(),
        ensures
            r == same_origin(self@.start, url@),
    {
        let host = url_host(url);
        hosts_match(&self.start_host, &host)
    }

    /// Admits the links of one page, in order: each URL not seen before is
    /// recorded as seen and as emitted, and joins `next` where it may be crawled.
    fn admit_page(&mut self, links: &Vec<String>, next: &mut Vec<String>, emitted: &mut Vec<String>)
        requires
            old(self).tables_ok(),
            old(emitted).deep_view() == old(self).seen.deep_view().skip(
                old(self).seen.len() - old(emitted).len(),
            ),
            old(emitted).len() <= old(self).seen.len(),
        ensures
            final(self).tables_ok(),
            final(self).start == old(self).start,
            final(self).start_host == old(self).start_host,
            final(self).filter == old(self).filter,
            final(self).max_depth == old(self).max_depth,
            final(self).level == old(self).level,
            final(self).frontier == old(self).frontier,
            (final(self).seen.deep_view(), final(next).deep_view()) == admit_links(
                old(self).start@,
                old(self).filter,
                (old(self).seen.deep_view(), old(next).deep_view()),
                links.deep_view(),
            ),
            final(self).seen.len() >= old(self).seen.len(),
            final(emitted).len() <= final(self).seen.len(),
            final(emitted).deep_view() == final(self).seen.deep_view().skip(
                final(self).seen.len() - final(emitted).len(),
            ),
            final(emitted).len() - old(emitted).len() == final(self).seen.len() - old(
                self,
            ).seen.len(),
    {
        broadcast use vstd::seq_lib::group_seq_properties;

        let mut j: usize = 0;
        assert(links.deep_view().take(0) =~= Seq::<Seq<char>>::empty());
        while j < links.len()
            invariant
                j <= links.len(),
                self.tables_ok(),
                self.start == old(self).start,
                self.start_host == old(self).start_host,
                self.filter == old(self).filter,
                self.max_depth == old(self).max_depth,
                self.level == old(self).level,
                self.frontier == old(self).frontier,
                (self.seen.deep_view(), next.deep_view()) == admit_links(
                    old(self).start@,
                    old(self).filter,
                    (old(self).seen.deep_view(), old(next).deep_view()),
                    links.deep_view().take(j as int),
                ),
                self.seen.len() >= old(self).seen.len(),
                emitted.len() <= self.seen.len(),
                emitted.deep_view() == self.seen.deep_view().skip(
                    self.seen.len() - emitted.len(),
                ),
                emitted.len() - old(emitted).len() == self.seen.len() - old(self).seen.len(),
            decreases links.len() - j,
        {
            let ghost st: Admission = (self.seen.deep_view(), next.deep_view());
            assert(links.deep_view().take(j + 1).drop_last() =~= links.deep_view().take(
                j as int,
            ));
            let u = &links[j];
            assert(links.deep_view().take(j + 1).last() == u@);
            let ghost s0 = self.index@;
            if self.index.insert(u.clone()) {
                proof {
                    st.0.lemma_push_to_set_commute(u@);
                }
                let host = url_host(u.as_str());
                let ghost e0 = emitted.deep_view();
                self.seen.push(u.clone());
                emitted.push(u.clone());
                assert(self.seen.deep_view() =~= st.0.push(u@));
                assert(emitted.deep_view() =~= e0.push(u@));
                assert(emitted.deep_view() =~= self.seen.deep_view().skip(
                    self.seen.len() - emitted.len(),
                ));
                assert(self.index@ =~= self.seen.deep_view().to_set());
                if !self.filter || hosts_match(&self.start_host, &host) {
                    let ghost n0 = next.deep_view();
                    next.push(u.clone());
                    assert(next.deep_view() =~= n0.push(u@));
                }
            } else {
                assert(self.index@ =~= s0);
            }
            j += 1;
        }
        assert(links.deep_view().take(links.len() as int) =~= links.deep_view());
    }

    /// Runs one round on the links of the frontier's pages: `pages[i]` holds
    /// the links found on `frontier()[i]`, or `None` where its fetch failed.
    /// Returns the URLs seen for the first time, in order of discovery.
    pub fn advance_links(&mut self, pages: Vec<Option<Vec<String>>>) -> (r: Vec<String>)
        requires
            old(self).wf(),
            pages.len() == old(self)@.frontier.len(),
        ensures
            final(self).wf(),
            final(self)@.wf(),
            final(self)@ == step(old(self)@, pages.deep_view()),
            final(self)@.stream() == old(self)@.stream() + r.deep_view(),
    {
        proof {
            lemma_step_wf(self@, pages.deep_view());
        }
        if self.is_done() {
            assert(self@.stream() =~= self@.stream() + Seq::<Seq<char>>::empty());
            return Vec::new();
        }
        let mut next: Vec<String> = Vec::new();
        let mut emitted: Vec<String> = Vec::new();
        let n = pages.len();
        let mut i: usize = 0;
        assert(pages.deep_view().take(0) =~= Seq::<Option<Seq<Seq<char>>>>::empty());
        assert(emitted.deep_view() =~= self.seen.deep_view().skip(self.seen.len() as int));
        while i < n
            invariant
                i <= n,
                n == pages.len(),
                self.tables_ok(),
                self.start == old(self).start,
                self.start_host == old(self).start_host,
                self.filter == old(self).filter,
                self.max_depth == old(self).max_depth,
                self.level == old(self).level,
                self.frontier == old(self).frontier,
                (self.seen.deep_view(), next.deep_view()) == admit_pages(
                    old(self).start@,
                    old(self).filter,
                    (old(self).seen.deep_view(), Seq::empty()),
                    pages.deep_view().take(i as int),
                ),
                self.seen.len() >= old(self).seen.len(),
                emitted.len() <= self.seen.len(),
                emitted.deep_view() == self.seen.deep_view().skip(
                    self.seen.len() - emitted.len(),
                ),
                emitted.len() == self.seen.len() - old(self).seen.len(),
            decreases n - i,
        {
            assert(pages.deep_view().take(i + 1).drop_last() =~= pages.deep_view().take(i as int));
            assert(pages.deep_view().take(i + 1).last() == pages[i as int].deep_view());
            match &pages[i] {
                Some(links) => {
                    self.admit_page(links, &mut next, &mut emitted);
                },
                None => {
                    assert(links_of(None) =~= Seq::<Seq<char>>::empty());
                },
            }
            i += 1;
        }
        assert(pages.deep_view().take(n as int) =~= pages.deep_view());
        self.frontier = next;
        self.level = self.level + 1;
        assert(self@ == step(old(self)@, pages.deep_view()));
        assert(self@.stream() =~= old(self)@.stream() + emitted.deep_view());
        emitted
    }

    /// Runs one round on the fetched frontier: `bodies[i]` is the body
    /// fetched from `frontier()[i]`, or `None` where the fetch failed.
    /// Returns the URLs seen for the first time, in order of discovery.
    pub fn advance(&mut self, bodies: Vec<Option<String>>) -> (r: Vec<String>)
        requires
            old(self).wf(),
            bodies.len() == old(self)@.frontier.len(),
        ensures
            final(self).wf(),
            final(self)@.wf(),
            final(self)@ == step(
                old(self)@,
                fetched_links(old(self)@.frontier, bodies.deep_view()),
            ),
            final(self)@.stream() == old(self)@.stream() + r.deep_view(),
    {
        let ghost want = fetched_links(self@.frontier, bodies.deep_view());
        let mut pages: Vec<Option<Vec<String>>> = Vec::new();
        let n = bodies.len();
        let mut i: usize = 0;
        while i < n
            invariant
                i <= n,
                n == bodies.len(),
                n == self.frontier.len(),
                want == fetched_links(self@.frontier, bodies.deep_view()),
                pages.deep_view() == want.take(i as int),
            decreases n - i,
        {
            let ghost before = pages.deep_view();
            match &bodies[i] {
                Some(html) => {
                    let links = collect_links(self.frontier[i].as_str(), html.as_str());
                    pages.push(Some(links));
                    assert(self@.frontier[i as int] == self.frontier[i as int]@);
                    assert(pages.deep_view() =~= before.push(Some(links_in(self@.frontier[i as int], html@))));
                },
                None => {
                    pages.push(None);
                    assert(pages.deep_view() =~= before.push(None));
                },
            }
            assert(pages.deep_view() =~= want.take(i + 1));
            i += 1;
        }
        assert(want.take(n as int) =~= want);
        self.advance_links(pages)
    }
}

} // verus!
