//! The mathematical model of a crawl: its state, one breadth-first round as
//! a function of the pages fetched in it, and the laws that hold of it.
use vstd::prelude::*;
use crate::origin::same_origin;
use crate::page::links_in;

verus! {

/// The state of a crawl between two rounds.
pub struct CrawlView {
    /// The canonical start URL.
    pub start: Seq<char>,
    /// Whether recursion is kept to the start URL's host.
    pub filter: bool,
    /// The last round that may be fetched (rounds count from zero).
    pub max_depth: nat,
    /// The number of rounds done.
    pub level: nat,
    /// The URLs to fetch in the next round.
    pub frontier: Seq<Seq<char>>,
    /// Every URL admitted so far, the start URL first, in order of admission.
    pub seen: Seq<Seq<char>>,
}

/// What a round builds up: the URLs seen so far and the next frontier.
pub type Admission = (Seq<Seq<char>>, Seq<Seq<char>>);

/// A URL may be crawled: recursion is unrestricted, or it shares the start's host.
pub open spec fn eligible(start: Seq<char>, filter: bool, u: Seq<char>) -> bool {
    !filter || same_origin(start, u)
}

impl CrawlView {
    /// No further round is fetched.
    pub open spec fn done(self) -> bool {
        self.frontier.len() == 0 || self.level > self.max_depth
    }

    /// The URLs reported so far, in order: every admitted URL but the start.
    pub open spec fn stream(self) -> Seq<Seq<char>> {
        self.seen.drop_first()
    }

    /// The state that a crawl from `start` begins in.
    pub open spec fn initial(start: Seq<char>, filter: bool, max_depth: nat) -> CrawlView {
        CrawlView {
            start,
            filter,
            max_depth,
            level: 0,
            frontier: seq![start],
            seen: seq![start],
        }
    }

    /// The invariant of every reachable state.
    pub open spec fn wf(self) -> bool {
        &&& self.seen.len() >= 1
        &&& self.seen[0] == self.start
        &&& self.level <= self.max_depth + 1
        &&& self.seen.no_duplicates()
        &&& self.frontier.no_duplicates()
        &&& forall|k: int|
            0 <= k < self.frontier.len() ==> self.seen.contains(#[trigger] self.frontier[k])
        &&& forall|k: int|
            0 <= k < self.frontier.len() && self.frontier[k] != self.start ==> eligible(
                self.start,
                self.filter,
                #[trigger] self.frontier[k],
            )
    }
}

/// Seen URLs are distinct; the next frontier is made of distinct seen URLs,
/// all of which may be crawled.
pub open spec fn admission_ok(start: Seq<char>, filter: bool, st: Admission) -> bool {
    &&& st.0.no_duplicates()
    &&& st.1.no_duplicates()
    &&& forall|k: int| 0 <= k < st.1.len() ==> st.0.contains(#[trigger] st.1[k])
    &&& forall|k: int| 0 <= k < st.1.len() ==> eligible(start, filter, #[trigger] st.1[k])
}

/// Admits one discovered URL: a URL not seen before is seen from now on, and
/// joins the next frontier where it may be crawled.
pub open spec fn admit_one(start: Seq<char>, filter: bool, st: Admission, u: Seq<char>) -> Admission {
    if st.0.contains(u) {
        st
    } else if eligible(start, filter, u) {
        (st.0.push(u), st.1.push(u))
    } else {
        (st.0.push(u), st.1)
    }
}

/// Admits the URLs `links` in order.
pub open spec fn admit_links(
    start: Seq<char>,
    filter: bool,
    st: Admission,
    links: Seq<Seq<char>>,
) -> Admission
    decreases links.len(),
{
    if links.len() == 0 {
        st
    } else {
        admit_one(start, filter, admit_links(start, filter, st, links.drop_last()), links.last())
    }
}

/// The links found on a page: none where its fetch failed.
pub open spec fn links_of(page: Option<Seq<Seq<char>>>) -> Seq<Seq<char>> {
    match page {
        Some(links) => links,
        None => Seq::empty(),
    }
}

/// What the pages of a round give: for the page at `urls[i]`, the links of
/// the body `bodies[i]` fetched from it, or `None` where the fetch failed.
pub open spec fn fetched_links(
    urls: Seq<Seq<char>>,
    bodies: Seq<Option<Seq<char>>>,
) -> Seq<Option<Seq<Seq<char>>>> {
    Seq::new(
        urls.len(),
        |i: int|
            match bodies[i] {
                Some(html) => Some(links_in(urls[i], html)),
                None => None,
            },
    )
}

/// Admits the links of each page in turn.
pub open spec fn admit_pages(
    start: Seq<char>,
    filter: bool,
    st: Admission,
    pages: Seq<Option<Seq<Seq<char>>>>,
) -> Admission
    decreases pages.len(),
{
    if pages.len() == 0 {
        st
    } else {
        admit_links(
            start,
            filter,
            admit_pages(start, filter, st, pages.drop_last()),
            links_of(pages.last()),
        )
    }
}

/// One round: the links of the frontier's pages (`pages[i]` those of the
/// page at `frontier[i]`) are admitted; the new crawlable ones form the next
/// frontier. A finished crawl stays as it is.
pub open spec fn step(c: CrawlView, pages: Seq<Option<Seq<Seq<char>>>>) -> CrawlView {
    if c.done() {
        c
    } else {
        let a = admit_pages(c.start, c.filter, (c.seen, Seq::empty()), pages);
        CrawlView {
            start: c.start,
            filter: c.filter,
            max_depth: c.max_depth,
            level: c.level + 1,
            frontier: a.1,
            seen: a.0,
        }
    }
}

/// Rounds run one after another, `rounds[i]` being what round `i` fetched.
pub open spec fn run(c: CrawlView, rounds: Seq<Seq<Option<Seq<Seq<char>>>>>) -> CrawlView
    decreases rounds.len(),
{
    if rounds.len() == 0 {
        c
    } else {
        step(run(c, rounds.drop_last()), rounds.last())
    }
}

proof fn lemma_admit_one(start: Seq<char>, filter: bool, st: Admission, u: Seq<char>)
    requires
        admission_ok(start, filter, st),
    ensures
        admission_ok(start, filter, admit_one(start, filter, st, u)),
        admit_one(start, filter, st, u).0.len() >= st.0.len(),
        admit_one(start, filter, st, u).0.subrange(0, st.0.len() as int) == st.0,
        forall|v: Seq<char>|
            #[trigger] admit_one(start, filter, st, u).0.contains(v) <==> (st.0.contains(v) || v
                == u),
{
    broadcast use vstd::seq_lib::group_seq_properties;

    let r = admit_one(start, filter, st, u);
    assert(r.0.subrange(0, st.0.len() as int) =~= st.0);
    if !st.0.contains(u) {
        assert forall|k: int| 0 <= k < r.1.len() implies r.0.contains(#[trigger] r.1[k]) by {
            if k < st.1.len() {
                assert(r.1[k] == st.1[k]);
            }
        }
        assert forall|k: int| 0 <= k < r.1.len() implies eligible(start, filter, #[trigger] r.1[k]) by {
            if k < st.1.len() {
                assert(r.1[k] == st.1[k]);
            }
        }
        if eligible(start, filter, u) {
            assert(!st.1.contains(u));
        }
    }
}

proof fn lemma_admit_links(start: Seq<char>, filter: bool, st: Admission, links: Seq<Seq<char>>)
    requires
        admission_ok(start, filter, st),
    ensures
        admission_ok(start, filter, admit_links(start, filter, st, links)),
        admit_links(start, filter, st, links).0.len() >= st.0.len(),
        admit_links(start, filter, st, links).0.subrange(0, st.0.len() as int) == st.0,
        forall|v: Seq<char>|
            #[trigger] admit_links(start, filter, st, links).0.contains(v) <==> (st.0.contains(v)
                || links.contains(v)),
    decreases links.len(),
{
    broadcast use vstd::seq_lib::group_seq_properties;

    if links.len() > 0 {
        let prev = admit_links(start, filter, st, links.drop_last());
        lemma_admit_links(start, filter, st, links.drop_last());
        lemma_admit_one(start, filter, prev, links.last());
        let r = admit_links(start, filter, st, links);
        assert(r.0.subrange(0, st.0.len() as int) =~= prev.0.subrange(0, prev.0.len() as int).subrange(0, st.0.len() as int));
        assert(prev.0.subrange(0, prev.0.len() as int) =~= prev.0);
        assert(links =~= links.drop_last().push(links.last()));
    }
}

proof fn lemma_admit_pages(
    start: Seq<char>,
    filter: bool,
    st: Admission,
    pages: Seq<Option<Seq<Seq<char>>>>,
)
    requires
        admission_ok(start, filter, st),
    ensures
        admission_ok(start, filter, admit_pages(start, filter, st, pages)),
        admit_pages(start, filter, st, pages).0.len() >= st.0.len(),
        admit_pages(start, filter, st, pages).0.subrange(0, st.0.len() as int) == st.0,
        forall|i: int, v: Seq<char>|
            0 <= i < pages.len() && #[trigger] links_of(pages[i]).contains(v)
                ==> #[trigger] admit_pages(start, filter, st, pages).0.contains(v),
    decreases pages.len(),
{
    broadcast use vstd::seq_lib::group_seq_properties;

    if pages.len() > 0 {
        let prev = admit_pages(start, filter, st, pages.drop_last());
        let links = links_of(pages.last());
        lemma_admit_pages(start, filter, st, pages.drop_last());
        lemma_admit_links(start, filter, prev, links);
        let r = admit_pages(start, filter, st, pages);
        assert(r.0.subrange(0, st.0.len() as int) =~= r.0.subrange(0, prev.0.len() as int).subrange(0, st.0.len() as int));
        assert forall|i: int, v: Seq<char>|
            0 <= i < pages.len() && #[trigger] links_of(pages[i]).contains(v)
                implies #[trigger] r.0.contains(v) by {
            if i < pages.len() - 1 {
                assert(pages.drop_last()[i] == pages[i]);
                assert(prev.0.contains(v));
                let k = choose|k: int| 0 <= k < prev.0.len() && prev.0[k] == v;
                assert(r.0.subrange(0, prev.0.len() as int)[k] == v);
                assert(r.0[k] == v);
            }
        }
    }
}

/// A round keeps the crawl's invariant, keeps what was seen before it in
/// front of what it admits, and counts one more round unless the crawl was done.
pub proof fn lemma_step_wf(c: CrawlView, pages: Seq<Option<Seq<Seq<char>>>>)
    requires
        c.wf(),
    ensures
        step(c, pages).wf(),
        step(c, pages).start == c.start,
        step(c, pages).filter == c.filter,
        step(c, pages).max_depth == c.max_depth,
        step(c, pages).seen.len() >= c.seen.len(),
        step(c, pages).seen.subrange(0, c.seen.len() as int) == c.seen,
        step(c, pages).stream().subrange(0, c.stream().len() as int) == c.stream(),
        step(c, pages).level == if c.done() { c.level } else { c.level + 1 },
{
    broadcast use vstd::seq_lib::group_seq_properties;

    if !c.done() {
        let st: Admission = (c.seen, Seq::empty());
        lemma_admit_pages(c.start, c.filter, st, pages);
        let d = step(c, pages);
        assert(d.seen[0] == d.seen.subrange(0, c.seen.len() as int)[0]);
        assert(d.stream().subrange(0, c.stream().len() as int) =~= d.seen.subrange(0, c.seen.len() as int).drop_first());
    } else {
        assert(c.stream().subrange(0, c.stream().len() as int) =~= c.stream());
        assert(c.seen.subrange(0, c.seen.len() as int) =~= c.seen);
    }
}

/// Rounds keep the invariant; each round that is fetched counts one more
/// level, until the crawl is done.
pub proof fn lemma_run(c: CrawlView, rounds: Seq<Seq<Option<Seq<Seq<char>>>>>)
    requires
        c.wf(),
    ensures
        run(c, rounds).wf(),
        run(c, rounds).start == c.start,
        run(c, rounds).max_depth == c.max_depth,
        run(c, rounds).done() || run(c, rounds).level == c.level + rounds.len(),
        run(c, rounds).stream().len() >= c.stream().len(),
        run(c, rounds).stream().subrange(0, c.stream().len() as int) == c.stream(),
    decreases rounds.len(),
{
    if rounds.len() > 0 {
        let prev = run(c, rounds.drop_last());
        lemma_run(c, rounds.drop_last());
        lemma_step_wf(prev, rounds.last());
        let r = run(c, rounds);
        assert(r.stream().subrange(0, c.stream().len() as int) =~= r.stream().subrange(
            0,
            prev.stream().len() as int,
        ).subrange(0, c.stream().len() as int));
    } else {
        assert(c.stream().subrange(0, c.stream().len() as int) =~= c.stream());
    }
}

/// A crawl ends after at most `max_depth + 1` rounds, whatever the pages link
/// to, cycles included.
pub proof fn lemma_crawl_ends(c: CrawlView, rounds: Seq<Seq<Option<Seq<Seq<char>>>>>)
    requires
        c.wf(),
        c.level + rounds.len() >= c.max_depth + 1,
    ensures
        run(c, rounds).done(),
{
    lemma_run(c, rounds);
}

/// Each URL is reported at most once over a whole crawl: the stream of
/// reported URLs only grows, and never holds a URL twice nor the start URL.
pub proof fn lemma_reported_once(c: CrawlView, rounds: Seq<Seq<Option<Seq<Seq<char>>>>>)
    requires
        c.wf(),
    ensures
        run(c, rounds).stream().no_duplicates(),
        !run(c, rounds).stream().contains(c.start),
        run(c, rounds).stream().subrange(0, c.stream().len() as int) == c.stream(),
{
    broadcast use vstd::seq_lib::group_seq_properties;

    lemma_run(c, rounds);
    let r = run(c, rounds);
    assert forall|i: int, j: int|
        0 <= i < r.stream().len() && 0 <= j < r.stream().len() && i != j implies r.stream()[i]
        != r.stream()[j] by {
        assert(r.stream()[i] == r.seen[i + 1]);
        assert(r.stream()[j] == r.seen[j + 1]);
    }
    if r.stream().contains(c.start) {
        let k = choose|k: int| 0 <= k < r.stream().len() && r.stream()[k] == c.start;
        assert(r.seen[k + 1] == r.seen[0]);
    }
}

/// With a maximum depth of zero, one page is fetched, the start URL's; the
/// crawl is then done, having reported exactly the links of that page other
/// than the start URL itself.
pub proof fn lemma_depth_zero(start: Seq<char>, filter: bool, pages: Seq<Option<Seq<Seq<char>>>>)
    requires
        pages.len() == 1,
    ensures
        CrawlView::initial(start, filter, 0).frontier == seq![start],
        step(CrawlView::initial(start, filter, 0), pages).done(),
        forall|v: Seq<char>|
            #[trigger] step(CrawlView::initial(start, filter, 0), pages).stream().contains(v) <==> (
            links_of(pages[0]).contains(v) && v != start),
{
    broadcast use vstd::seq_lib::group_seq_properties;

    let c = CrawlView::initial(start, filter, 0);
    let st: Admission = (c.seen, Seq::empty());
    let links = links_of(pages[0]);
    assert(pages.drop_last() =~= Seq::<Option<Seq<Seq<char>>>>::empty());
    assert(admit_pages(start, filter, st, pages.drop_last()) == st);
    assert(admit_pages(start, filter, st, pages) == admit_links(start, filter, st, links));
    lemma_admit_links(start, filter, st, links);
    lemma_step_wf(c, pages);
    let d = step(c, pages);
    assert forall|v: Seq<char>| #[trigger] d.stream().contains(v) <==> (links.contains(v) && v
        != start) by {
        if d.stream().contains(v) {
            let k = choose|k: int| 0 <= k < d.stream().len() && d.stream()[k] == v;
            assert(d.seen[k + 1] == v);
            assert(d.seen.contains(v));
            assert(v != start) by {
                if v == start {
                    assert(d.seen[k + 1] == d.seen[0]);
                }
            }
        }
        if links.contains(v) && v != start {
            assert(d.seen.contains(v));
            let k = choose|k: int| 0 <= k < d.seen.len() && d.seen[k] == v;
            assert(k != 0);
            assert(d.stream()[k - 1] == v);
        }
    }
}

/// With recursion kept to the start's host, a link of a fetched page that
/// leads elsewhere is reported (in this round or before) but never joins the
/// frontier, so it is never fetched.
pub proof fn lemma_off_host_not_fetched(
    c: CrawlView,
    pages: Seq<Option<Seq<Seq<char>>>>,
    i: int,
    u: Seq<char>,
)
    requires
        c.wf(),
        !c.done(),
        c.filter,
        0 <= i < pages.len(),
        links_of(pages[i]).contains(u),
        !same_origin(c.start, u),
    ensures
        step(c, pages).seen.contains(u),
        !step(c, pages).frontier.contains(u),
{
    let st: Admission = (c.seen, Seq::empty());
    lemma_admit_pages(c.start, c.filter, st, pages);
    let d = step(c, pages);
    if d.frontier.contains(u) {
        let k = choose|k: int| 0 <= k < d.frontier.len() && d.frontier[k] == u;
        assert(eligible(c.start, c.filter, d.frontier[k]));
    }
}

proof fn lemma_admit_pages_skip(
    start: Seq<char>,
    filter: bool,
    st: Admission,
    pages: Seq<Option<Seq<Seq<char>>>>,
    i: int,
)
    requires
        0 <= i < pages.len(),
        pages[i] is None,
    ensures
        admit_pages(start, filter, st, pages) == admit_pages(start, filter, st, pages.remove(i)),
    decreases pages.len(),
{
    if i == pages.len() - 1 {
        assert(pages.remove(i) =~= pages.drop_last());
        let prev = admit_pages(start, filter, st, pages.drop_last());
        assert(links_of(pages.last()) =~= Seq::<Seq<char>>::empty());
        assert(admit_links(start, filter, prev, Seq::<Seq<char>>::empty()) == prev);
    } else {
        lemma_admit_pages_skip(start, filter, st, pages.drop_last(), i);
        assert(pages.remove(i).drop_last() =~= pages.drop_last().remove(i));
        assert(pages.remove(i).last() == pages.last());
    }
}

/// A page whose fetch failed takes nothing from its round: the round admits
/// exactly what the other pages of its frontier give, and the crawl still
/// moves on to the next level.
pub proof fn lemma_failed_fetch_isolated(c: CrawlView, pages: Seq<Option<Seq<Seq<char>>>>, i: int)
    requires
        !c.done(),
        0 <= i < pages.len(),
        pages[i] is None,
    ensures
        step(c, pages).seen == admit_pages(
            c.start,
            c.filter,
            (c.seen, Seq::empty()),
            pages.remove(i),
        ).0,
        step(c, pages).frontier == admit_pages(
            c.start,
            c.filter,
            (c.seen, Seq::empty()),
            pages.remove(i),
        ).1,
        step(c, pages).level == c.level + 1,
{
    lemma_admit_pages_skip(c.start, c.filter, (c.seen, Seq::empty()), pages, i);
}

} // verus!
