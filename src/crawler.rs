use vstd::prelude::*;

use crate::html_parser::{
    anchor_hrefs, has_link, has_text, is_duplicate, links_of_hrefs, parsed_from, seen_after,
    HtmlParser,
};
use crate::robots::fit_rules;
use crate::types::{parsed_url, CrawlerError, HtmlPage, Link};
use crate::url_filter::{lemma_passing_text_member, lemma_passing_text_source, passing_texts, UrlFilter};
use crate::url_scheduler::{FrontierState, UrlScheduler};

verus! {

/// How many URLs may wait in the frontier's queue at once.
pub const QUEUE_CAPACITY: usize = 100000;

/// How many fetches may be in flight at once.
pub const MAX_CONCURRENCY: usize = 8;

/// The normalized texts of a sequence of links.
pub open spec fn texts(links: Seq<Link>) -> Seq<Seq<char>> {
    links.map_values(|l: Link| l@.0)
}

/// The texts of the URLs that the anchors in `hrefs` parse to and that pass
/// the host and robots checks of `f`.
pub open spec fn page_passing_texts(f: UrlFilter, hrefs: Seq<Seq<char>>) -> Set<Seq<char>> {
    Set::new(
        |t: Seq<char>|
            exists|j: int|
                0 <= j < hrefs.len() && (#[trigger] parsed_url(hrefs[j])).is_some() && f.passes(
                    parsed_url(hrefs[j]).unwrap(),
                ) && parsed_url(hrefs[j]).unwrap().0 == t,
    )
}

/// The texts of the URLs that the anchors in `hrefs` parse to.
pub open spec fn page_link_texts(hrefs: Seq<Seq<char>>) -> Set<Seq<char>> {
    Set::new(
        |t: Seq<char>|
            exists|j: int|
                0 <= j < hrefs.len() && (#[trigger] parsed_url(hrefs[j])).is_some()
                    && parsed_url(hrefs[j]).unwrap().0 == t,
    )
}

/// The state of one crawl. The caller fetches: it asks for the next URL,
/// fetches it, and reports the outcome; the crawl decides what follows.
///
/// Admitted URLs wait in the frontier's bounded queue; those that find it
/// full wait behind it and move in as room frees, so none is dropped.
///
/// The seed is recorded as seen when the crawl starts, so a link back to it
/// is not admitted again and no URL is handed out twice.
pub struct Crawler {
    scheduler: UrlScheduler,
    held: Vec<Link>,
    filter: UrlFilter,
    parser: HtmlParser,
    dispatched: Ghost<Seq<Seq<char>>>,
    discovered: Ghost<Set<Seq<char>>>,
}

impl Crawler {
    /// The texts of the URLs handed out so far, in order.
    pub closed spec fn dispatched(&self) -> Seq<Seq<char>> {
        self.dispatched@
    }

    /// The seed's text and the texts of every link reported so far.
    pub closed spec fn discovered(&self) -> Set<Seq<char>> {
        self.discovered@
    }

    /// The URLs waiting to be handed out, oldest first: the queue, then
    /// those waiting for room in it.
    pub closed spec fn pending(&self) -> Seq<Link> {
        self.scheduler.pending() + self.held@
    }

    pub closed spec fn in_flight(&self) -> nat {
        self.scheduler.in_flight()
    }

    pub closed spec fn max_in_flight(&self) -> nat {
        self.scheduler.max_in_flight()
    }

    pub closed spec fn capacity(&self) -> nat {
        self.scheduler.capacity()
    }

    /// The only host crawled: the seed's.
    pub open spec fn subdomain(&self) -> Seq<char> {
        self.url_filter().subdomain()
    }

    pub closed spec fn url_filter(&self) -> UrlFilter {
        self.filter
    }

    pub closed spec fn seen_content(&self) -> Set<Seq<char>> {
        self.parser.seen()
    }

    pub closed spec fn wf(&self) -> bool {
        &&& self.scheduler.wf()
        &&& self.scheduler.capacity() > 0
        &&& self.scheduler.max_in_flight() > 0
        &&& self.filter.wf()
        &&& (self.dispatched@ + texts(self.pending())).no_duplicates()
        &&& forall|i: int|
            0 <= i < self.dispatched@.len() ==> self.filter.visited().contains(#[trigger] self.dispatched@[i])
        &&& forall|i: int|
            0 <= i < self.pending().len() ==> self.filter.visited().contains((#[trigger] self.pending()[i])@.0)
        &&& forall|i: int|
            0 <= i < self.pending().len() ==> (#[trigger] self.pending()[i])@.1 == Some(self.filter.subdomain())
        &&& self.filter.visited().subset_of(self.discovered@)
        &&& self.discovered@.finite()
    }

    /// No URL is handed out twice in one crawl.
    pub proof fn lemma_no_refetch(&self)
        requires
            self.wf(),
        ensures
            self.dispatched().no_duplicates(),
    {
        let s = self.dispatched@ + texts(self.pending());
        assert forall|x: int, y: int| 0 <= x < y < self.dispatched@.len()
            implies self.dispatched@[x] != self.dispatched@[y] by {
            assert(s[x] == self.dispatched@[x]);
            assert(s[y] == self.dispatched@[y]);
        }
    }

    /// The URLs in flight never outnumber the concurrency limit.
    pub proof fn lemma_concurrency_bound(&self)
        requires
            self.wf(),
        ensures
            self.in_flight() <= self.max_in_flight(),
    {
        self.scheduler.lemma_bounds();
    }

    /// Every waiting URL has exactly the crawl's host.
    pub proof fn lemma_queue_on_host(&self)
        requires
            self.wf(),
        ensures
            forall|i: int|
                0 <= i < self.pending().len() ==> (#[trigger] self.pending()[i])@.1 == Some(self.subdomain()),
    {
    }

    /// When every link that pages report lies in a finite set of URLs, the
    /// URLs handed out and waiting number at most that set's size, so a crawl
    /// of a finite site, cycles included, hands out finitely many URLs and
    /// ends.
    pub proof fn lemma_crawl_bounded(&self, site: Set<Seq<char>>)
        requires
            self.wf(),
            site.finite(),
            self.discovered().subset_of(site),
        ensures
            self.dispatched().len() + self.pending().len() <= site.len(),
    {
        let s = self.dispatched@ + texts(self.pending());
        s.unique_seq_to_set();
        assert forall|t: Seq<char>| s.to_set().contains(t) implies site.contains(t) by {
            let x = choose|x: int| 0 <= x < s.len() && s[x] == t;
            if x < self.dispatched@.len() {
                assert(s[x] == self.dispatched@[x]);
            } else {
                let y = x - self.dispatched@.len();
                assert(s[x] == self.pending()[y]@.0);
            }
        }
        vstd::set_lib::lemma_len_subset(s.to_set(), site);
    }

    /// A measure of the work left when every reported link lies in `site`:
    /// each step of a crawl lowers it, and it is never negative, so a crawl
    /// of a finite site ends.
    pub open spec fn progress(&self, site: Set<Seq<char>>) -> int {
        3 * (site.len() - self.dispatched().len() - self.pending().len()) + 2 * self.pending().len()
            + self.in_flight()
    }

    /// The progress measure is never negative.
    pub proof fn lemma_progress_nonneg(&self, site: Set<Seq<char>>)
        requires
            self.wf(),
            site.finite(),
            self.discovered().subset_of(site),
        ensures
            self.progress(site) >= 0,
    {
        self.lemma_crawl_bounded(site);
    }

    /// The seed, when it has a host; a seed without one cannot start a crawl.
    pub fn check_seed(seed: Link) -> (r: Result<Link, CrawlerError>)
        requires
            seed.wf(),
        ensures
            seed.host is None <==> r is Err,
            match r {
                Ok(l) => l == seed,
                Err(CrawlerError::SubdomainError { url }) => url == seed,
                Err(_) => false,
            },
    {
        if seed.host.is_none() {
            Err(CrawlerError::SubdomainError { url: seed })
        } else {
            Ok(seed)
        }
    }

    /// Starts a crawl from `seed` with the default limits.
    pub fn new(seed: Link, robots_txt: String) -> (r: Result<Crawler, CrawlerError>)
        requires
            seed.wf(),
        ensures
            seed.host is None <==> r is Err,
            match r {
                Ok(c) => c.wf() && c.pending() == seq![seed] && c.in_flight() == 0
                    && c.dispatched() == Seq::<Seq<char>>::empty()
                    && Some(c.subdomain()) == seed@.1
                    && c.url_filter().robots() == fit_rules(robots_txt@)
                    && c.capacity() == QUEUE_CAPACITY
                    && c.max_in_flight() == MAX_CONCURRENCY,
                Err(CrawlerError::SubdomainError { url }) => url == seed,
                Err(_) => false,
            },
    {
        Self::with_limits(seed, robots_txt, QUEUE_CAPACITY, MAX_CONCURRENCY)
    }

    /// Starts a crawl from `seed`: the seed's host is the only host crawled,
    /// and `robots_txt` the ruleset. Fails when the seed has no host.
    pub fn with_limits(seed: Link, robots_txt: String, capacity: usize, max_in_flight: usize) -> (r:
        Result<Crawler, CrawlerError>)
        requires
            seed.wf(),
            capacity > 0,
            max_in_flight > 0,
        ensures
            seed.host is None <==> r is Err,
            match r {
                Ok(c) => c.wf() && c.pending() == seq![seed] && c.in_flight() == 0
                    && c.dispatched() == Seq::<Seq<char>>::empty()
                    && Some(c.subdomain()) == seed@.1
                    && c.url_filter().robots() == fit_rules(robots_txt@)
                    && c.capacity() == capacity
                    && c.max_in_flight() == max_in_flight,
                Err(CrawlerError::SubdomainError { url }) => url == seed,
                Err(_) => false,
            },
    {
        let subdomain = match &seed.host {
            Some(h) => h.clone(),
            None => {
                return Err(CrawlerError::SubdomainError { url: seed });
            },
        };
        let mut filter = UrlFilter::new(subdomain, robots_txt);
        filter.record(&seed);
        let mut scheduler = UrlScheduler::new(capacity, max_in_flight);
        let ghost s = seed;
        let _ = scheduler.send(seed);
        let ghost d0: Seq<Seq<char>> = Seq::empty();
        let ghost found: Set<Seq<char>> = set![s@.0];
        let c = Crawler {
            scheduler,
            held: Vec::new(),
            filter,
            parser: HtmlParser::new(),
            dispatched: Ghost(d0),
            discovered: Ghost(found),
        };
        proof {
            assert(c.pending() =~= seq![s]);
            assert(Seq::<Seq<char>>::empty() + texts(c.pending()) =~= seq![s@.0]);
            assert(c.filter.visited() =~= set![s@.0]);
        }
        Ok(c)
    }

    /// Hands out the next URL to fetch, unless none waits or the
    /// concurrency limit is reached. A URL is handed out at most once.
    pub fn next_url(&mut self) -> (r: Option<Link>)
        requires
            old(self).wf(),
        ensures
            final(self).wf(),
            final(self).url_filter() == old(self).url_filter(),
            final(self).subdomain() == old(self).subdomain(),
            final(self).seen_content() == old(self).seen_content(),
            final(self).discovered() == old(self).discovered(),
            final(self).max_in_flight() == old(self).max_in_flight(),
            final(self).capacity() == old(self).capacity(),
            (old(self).pending().len() > 0 && old(self).in_flight() < old(self).max_in_flight())
                ==> r == Some(old(self).pending()[0])
                && final(self).pending() == old(self).pending().drop_first()
                && final(self).in_flight() == old(self).in_flight() + 1,
            !(old(self).pending().len() > 0 && old(self).in_flight() < old(self).max_in_flight())
                ==> r.is_none()
                && final(self).pending() == old(self).pending()
                && final(self).in_flight() == old(self).in_flight(),
            r is Some ==> forall|site: Set<Seq<char>>|
                #[trigger] final(self).progress(site) < old(self).progress(site),
            match r {
                Some(u) => !old(self).dispatched().contains(u@.0)
                    && final(self).dispatched() == old(self).dispatched().push(u@.0)
                    && u@.1 == Some(old(self).subdomain()),
                None => final(self).dispatched() == old(self).dispatched(),
            },
    {
        let ghost p0 = self.pending();
        if self.held.len() > 0 && self.scheduler.has_room() {
            let ghost q0 = self.scheduler.pending();
            let ghost h0 = self.held@;
            let l = self.held.remove(0);
            let _ = self.scheduler.send(l);
            proof {
                assert(self.pending() =~= q0.push(h0[0]) + h0.drop_first());
                assert(self.pending() =~= p0);
            }
        }
        proof {
            self.scheduler.lemma_bounds();
        }
        let r = self.scheduler.recv();
        proof {
            if r.is_some() {
                let u = r.unwrap();
                let d0 = self.dispatched@;
                assert(p0[0] == u);
                assert(self.pending() =~= p0.drop_first());
                assert(d0 + texts(p0) =~= d0.push(u@.0) + texts(self.pending()));
                assert((d0 + texts(p0))[d0.len() as int] == u@.0);
                assert forall|i: int| 0 <= i < d0.len() implies d0[i] != u@.0 by {
                    assert((d0 + texts(p0))[i] == d0[i]);
                }
                self.dispatched@ = d0.push(u@.0);
                assert forall|i: int| 0 <= i < self.pending().len() implies
                    #[trigger] self.pending()[i] == p0[i + 1] by {}
            } else {
                assert(self.pending() =~= p0);
            }
        }
        r
    }

    /// Finishes a URL handed out earlier, given what its fetch gave: a page,
    /// or nothing when the fetch failed. A failed fetch or a status outside
    /// the success class gives `None` and changes nothing but the in-flight
    /// count. A page with a success status gives the links it contributes:
    /// none when its content was seen before, else those of its links that
    /// admission lets through, which join the waiting URLs.
    pub fn complete(&mut self, page: Option<HtmlPage>) -> (r: Option<Vec<Link>>)
        requires
            old(self).wf(),
            old(self).in_flight() > 0,
        ensures
            final(self).wf(),
            final(self).in_flight() == old(self).in_flight() - 1,
            final(self).max_in_flight() == old(self).max_in_flight(),
            final(self).capacity() == old(self).capacity(),
            final(self).dispatched() == old(self).dispatched(),
            final(self).subdomain() == old(self).subdomain(),
            final(self).url_filter().robots() == old(self).url_filter().robots(),
            old(self).discovered().subset_of(final(self).discovered()),
            forall|site: Set<Seq<char>>| #[trigger] final(self).progress(site) < old(self).progress(site),
            match page {
                Some(p) => HtmlPage::success_status(p.status) <==> r is Some,
                None => r is None,
            },
            match r {
                None => {
                    &&& final(self).pending() == old(self).pending()
                    &&& final(self).url_filter() == old(self).url_filter()
                    &&& final(self).seen_content() == old(self).seen_content()
                    &&& final(self).discovered() == old(self).discovered()
                },
                Some(links) => Self::page_step(*old(self), *final(self), page.unwrap().body@, links@),
            },
    {
        let ghost c0 = *self;
        match page {
            Some(p) => {
                if p.is_success() {
                    let ghost body = p.body@;
                    let dup = self.parser.visited_before(p.body.as_str());
                    if dup {
                        self.scheduler.finish();
                        proof {
                            assert(self.pending() == c0.pending());
                        }
                        Some(Vec::new())
                    } else {
                        let links = HtmlParser::extract_urls(p.body.as_str());
                        let ghost lv = links@;
                        let ghost c1 = *self;
                        let r = self.schedule_links(links);
                        proof {
                            let h = anchor_hrefs(body);
                            assert(page_passing_texts(c0.filter, h) =~= passing_texts(&c0.filter, lv)) by {
                                assert forall|t: Seq<char>| page_passing_texts(c0.filter, h).contains(t)
                                    implies passing_texts(&c0.filter, lv).contains(t) by {
                                    let j = choose|j: int|
                                        0 <= j < h.len() && (#[trigger] parsed_url(h[j])).is_some()
                                            && c0.filter.passes(parsed_url(h[j]).unwrap())
                                            && parsed_url(h[j]).unwrap().0 == t;
                                    let i = choose|i: int| 0 <= i < lv.len() && (#[trigger] lv[i])@ == parsed_url(h[j]).unwrap();
                                    lemma_passing_text_member(&c0.filter, lv, i);
                                }
                                assert forall|t: Seq<char>| passing_texts(&c0.filter, lv).contains(t)
                                    implies page_passing_texts(c0.filter, h).contains(t) by {
                                    lemma_passing_text_source(&c0.filter, lv, t);
                                    let i = choose|i: int| 0 <= i < lv.len() && c0.filter.passes(#[trigger] lv[i]@) && lv[i]@.0 == t;
                                    assert(parsed_from(h, h.len() as int, lv[i]@));
                                    let j = choose|j: int| 0 <= j < h.len() && parsed_url(#[trigger] h[j]) == Some(lv[i]@);
                                    assert(parsed_url(h[j]).is_some());
                                }
                            }
                            assert(texts(lv).to_set() =~= page_link_texts(h)) by {
                                assert forall|t: Seq<char>| texts(lv).to_set().contains(t)
                                    implies page_link_texts(h).contains(t) by {
                                    let i = choose|i: int| 0 <= i < texts(lv).len() && texts(lv)[i] == t;
                                    assert(texts(lv)[i] == lv[i]@.0);
                                    assert(parsed_from(h, h.len() as int, lv[i]@));
                                    let j = choose|j: int| 0 <= j < h.len() && parsed_url(#[trigger] h[j]) == Some(lv[i]@);
                                    assert(parsed_url(h[j]).is_some());
                                }
                                assert forall|t: Seq<char>| page_link_texts(h).contains(t)
                                    implies texts(lv).to_set().contains(t) by {
                                    let j = choose|j: int|
                                        0 <= j < h.len() && (#[trigger] parsed_url(h[j])).is_some()
                                            && parsed_url(h[j]).unwrap().0 == t;
                                    assert(has_link(lv, parsed_url(h[j]).unwrap()));
                                    let i = choose|i: int| 0 <= i < lv.len() && (#[trigger] lv[i])@ == parsed_url(h[j]).unwrap();
                                    assert(texts(lv)[i] == t);
                                }
                            }
                            assert forall|i: int| 0 <= i < r@.len()
                                implies parsed_from(h, h.len() as int, (#[trigger] r@[i])@) by {
                                let j = choose|j: int| 0 <= j < lv.len() && (#[trigger] lv[j])@ == r@[i]@;
                                assert(parsed_from(h, h.len() as int, lv[j]@));
                            }
                            assert forall|j: int|
                                0 <= j < h.len() && (#[trigger] parsed_url(h[j])).is_some()
                                    && c0.filter.admits(parsed_url(h[j]).unwrap())
                                implies has_text(r@, parsed_url(h[j]).unwrap().0) by {
                                assert(has_link(lv, parsed_url(h[j]).unwrap()));
                                let i = choose|i: int| 0 <= i < lv.len() && (#[trigger] lv[i])@ == parsed_url(h[j]).unwrap();
                                assert(c1.filter.admits(lv[i]@));
                            }
                        }
                        Some(r)
                    }
                } else {
                    self.scheduler.finish();
                    proof {
                        assert(self.pending() == c0.pending());
                    }
                    None
                }
            },
            None => {
                self.scheduler.finish();
                proof {
                    assert(self.pending() == c0.pending());
                }
                None
            },
        }
    }

    /// What a page with a success status does to the crawl: its content is
    /// recorded; seen before, it contributes nothing; new, the links it
    /// contributes are the URLs its anchors parse to that admission lets
    /// through, each text once, and they join the waiting URLs.
    pub open spec fn page_step(c0: Crawler, c1: Crawler, body: Seq<char>, links: Seq<Link>) -> bool {
        let h = anchor_hrefs(body);
        &&& c1.seen_content() == seen_after(c0.seen_content(), body)
        &&& is_duplicate(c0.seen_content(), body) ==> {
            &&& links.len() == 0
            &&& c1.pending() == c0.pending()
            &&& c1.url_filter() == c0.url_filter()
            &&& c1.discovered() == c0.discovered()
        }
        &&& !is_duplicate(c0.seen_content(), body) ==> {
            &&& forall|i: int|
                0 <= i < links.len() ==> parsed_from(h, h.len() as int, (#[trigger] links[i])@)
                    && c0.url_filter().admits(links[i]@)
            &&& forall|j: int|
                0 <= j < h.len() && (#[trigger] parsed_url(h[j])).is_some() && c0.url_filter().admits(
                    parsed_url(h[j]).unwrap(),
                ) ==> has_text(links, parsed_url(h[j]).unwrap().0)
            &&& forall|i: int, k: int| 0 <= i < k < links.len() ==> links[i]@.0 != links[k]@.0
            &&& c1.pending() == c0.pending() + links
            &&& c1.discovered() == c0.discovered().union(page_link_texts(h))
            &&& c1.url_filter().visited() == c0.url_filter().visited().union(
                page_passing_texts(c0.url_filter(), h),
            )
        }
    }

    /// Finishes a URL handed out earlier whose page gave `links`: the
    /// admitted ones join the waiting URLs, and are returned.
    pub fn schedule_links(&mut self, links: Vec<Link>) -> (r: Vec<Link>)
        requires
            old(self).wf(),
            old(self).in_flight() > 0,
        ensures
            final(self).wf(),
            final(self).in_flight() == old(self).in_flight() - 1,
            final(self).max_in_flight() == old(self).max_in_flight(),
            final(self).capacity() == old(self).capacity(),
            final(self).dispatched() == old(self).dispatched(),
            final(self).seen_content() == old(self).seen_content(),
            final(self).discovered() == old(self).discovered().union(texts(links@).to_set()),
            final(self).url_filter().visited() == old(self).url_filter().visited().union(
                passing_texts(&old(self).url_filter(), links@),
            ),
            final(self).subdomain() == old(self).subdomain(),
            final(self).url_filter().robots() == old(self).url_filter().robots(),
            forall|i: int| 0 <= i < r@.len() ==> old(self).url_filter().admits(#[trigger] r@[i]@),
            forall|i: int|
                0 <= i < r@.len() ==> exists|j: int| 0 <= j < links@.len() && (#[trigger] links@[j])@ == (#[trigger] r@[i])@,
            forall|j: int|
                0 <= j < links@.len() && old(self).url_filter().admits(#[trigger] links@[j]@)
                    ==> exists|i: int| 0 <= i < r@.len() && r@[i]@.0 == links@[j]@.0,
            forall|i: int, k: int| 0 <= i < k < r@.len() ==> r@[i]@.0 != r@[k]@.0,
            final(self).pending() == old(self).pending() + r@,
    {
        let ghost c0 = *self;
        let ghost links_v = links@;
        let admitted = self.filter.filter(links);
        proof {
            assert forall|t: Seq<char>| passing_texts(&c0.filter, links_v).contains(t)
                implies texts(links_v).to_set().contains(t) by {
                lemma_passing_text_source(&c0.filter, links_v, t);
                let j = choose|j: int| 0 <= j < links_v.len() && c0.filter.passes(#[trigger] links_v[j]@) && links_v[j]@.0 == t;
                assert(texts(links_v)[j] == t);
            }
            self.discovered@ = c0.discovered@.union(texts(links_v).to_set());
        }
        let ghost p0 = c0.pending();
        let ghost c1 = *self;
        assert(p0 + admitted@.take(0) =~= p0);
        let mut i: usize = 0;
        while i < admitted.len()
            invariant
                0 <= i <= admitted@.len(),
                p0 == c0.pending(),
                self.dispatched == c1.dispatched,
                self.discovered == c1.discovered,
                self.filter == c1.filter,
                self.parser == c1.parser,
                self.scheduler.wf(),
                self.scheduler.capacity() == c0.scheduler.capacity(),
                self.scheduler.max_in_flight() == c0.scheduler.max_in_flight(),
                self.scheduler.in_flight() == c0.scheduler.in_flight(),
                self.pending() == p0 + admitted@.take(i as int),
            decreases admitted@.len() - i,
        {
            let ghost before = self.pending();
            let a = admitted[i].clone();
            if self.held.len() == 0 && self.scheduler.has_room() {
                let _ = self.scheduler.send(a);
            } else {
                self.held.push(a);
            }
            proof {
                assert(self.pending() =~= before.push(admitted@[i as int]));
                assert(p0 + admitted@.take(i + 1) =~= before.push(admitted@[i as int]));
            }
            i = i + 1;
        }
        self.scheduler.finish();
        proof {
            let added = admitted@;
            assert(added.take(added.len() as int) =~= added);
            let d = self.dispatched@;
            assert(texts(p0 + added) =~= texts(p0) + texts(added));
            assert(d + texts(self.pending()) =~= (d + texts(p0)) + texts(added));
            let a = d + texts(p0);
            let b = texts(added);
            assert forall|x: int, y: int| 0 <= x < a.len() && 0 <= y < b.len() implies a[x] != b[y] by {
                assert(b[y] == added[y]@.0);
                assert(c0.filter.admits(admitted@[y]@));
                if x < d.len() {
                    assert(a[x] == d[x]);
                    assert(d[x] == c0.dispatched@[x]);
                } else {
                    assert(a[x] == texts(p0)[x - d.len()]);
                    assert(texts(p0)[x - d.len()] == p0[x - d.len()]@.0);
                }
                assert(c0.filter.visited().contains(a[x]));
            }
            assert forall|x: int, y: int| 0 <= x < y < b.len() implies b[x] != b[y] by {
                assert(b[x] == added[x]@.0);
                assert(b[y] == added[y]@.0);
            }
            assert((a + b).no_duplicates()) by {
                assert forall|x: int, y: int| 0 <= x < y < (a + b).len() implies (a + b)[x] != (a + b)[y] by {
                    if y < a.len() {
                        assert((a + b)[x] == a[x]);
                        assert((a + b)[y] == a[y]);
                        assert(a == c0.dispatched@ + texts(c0.pending()));
                    } else if x < a.len() {
                        assert((a + b)[x] == a[x]);
                        assert((a + b)[y] == b[y - a.len()]);
                    } else {
                        assert((a + b)[x] == b[x - a.len()]);
                        assert((a + b)[y] == b[y - a.len()]);
                    }
                }
            }
            let q = self.pending();
            assert forall|x: int| 0 <= x < q.len() implies self.filter.visited().contains((#[trigger] q[x])@.0)
                && q[x]@.1 == Some(self.filter.subdomain()) by {
                if x >= p0.len() {
                    assert(q[x] == admitted@[x - p0.len()]);
                    assert(c0.filter.admits(admitted@[x - p0.len()]@));
                } else {
                    assert(q[x] == p0[x]);
                }
            }
        }
        admitted
    }

    /// The number of URLs in flight.
    pub fn active(&self) -> (r: usize)
        requires
            self.wf(),
        ensures
            r == self.in_flight(),
    {
        self.scheduler.active()
    }

    pub fn state(&self) -> (r: FrontierState)
        requires
            self.wf(),
        ensures
            r == UrlScheduler::state_of(self.pending().len(), self.in_flight()),
    {
        let waiting: usize = if self.held.len() > 0 {
            self.held.len()
        } else {
            self.scheduler.len()
        };
        UrlScheduler::state_of_counts(waiting, self.scheduler.active())
    }

    /// Whether the crawl is over: nothing waits and nothing is in flight.
    pub fn is_done(&self) -> (r: bool)
        requires
            self.wf(),
        ensures
            r == (self.pending().len() == 0 && self.in_flight() == 0),
    {
        self.scheduler.len() == 0 && self.held.len() == 0 && self.scheduler.active() == 0
    }
}

} // verus!
