use vstd::prelude::*;

use crate::store::Store;
use crate::robots::{fit_rules, robots_allow, robots_allowed, robots_rules, rules_fit};
use crate::types::Link;

verus! {

/// Admission of discovered links: same host, allowed by robots.txt, and not
/// admitted before.
pub struct UrlFilter {
    subdomain: String,
    url_store: Store,
    robots_txt: String,
}

/// The texts of the links among `urls` that pass the host and robots checks.
pub open spec fn passing_texts(f: &UrlFilter, urls: Seq<Link>) -> Set<Seq<char>>
    decreases urls.len(),
{
    if urls.len() == 0 {
        Set::empty()
    } else {
        let rest = passing_texts(f, urls.drop_last());
        if f.passes(urls.last()@) {
            rest.insert(urls.last()@.0)
        } else {
            rest
        }
    }
}

pub proof fn lemma_passing_text_source(f: &UrlFilter, urls: Seq<Link>, t: Seq<char>)
    requires
        passing_texts(f, urls).contains(t),
    ensures
        exists|j: int| 0 <= j < urls.len() && f.passes(#[trigger] urls[j]@) && urls[j]@.0 == t,
    decreases urls.len(),
{
    if urls.len() > 0 {
        let rest = urls.drop_last();
        if f.passes(urls.last()@) && urls.last()@.0 == t {
            assert(urls[urls.len() - 1] == urls.last());
        } else {
            lemma_passing_text_source(f, rest, t);
            let j = choose|j: int| 0 <= j < rest.len() && f.passes(#[trigger] rest[j]@) && rest[j]@.0 == t;
            assert(urls[j] == rest[j]);
        }
    }
}

pub proof fn lemma_passing_text_member(f: &UrlFilter, urls: Seq<Link>, j: int)
    requires
        0 <= j < urls.len(),
        f.passes(urls[j]@),
    ensures
        passing_texts(f, urls).contains(urls[j]@.0),
    decreases urls.len(),
{
    if j < urls.len() - 1 {
        lemma_passing_text_member(f, urls.drop_last(), j);
    }
}

impl UrlFilter {
    /// The host that admitted links must have.
    pub closed spec fn subdomain(&self) -> Seq<char> {
        self.subdomain@
    }

    /// The robots.txt ruleset.
    pub closed spec fn robots(&self) -> Seq<char> {
        self.robots_txt@
    }

    /// The texts of the URLs recorded as seen.
    pub closed spec fn visited(&self) -> Set<Seq<char>> {
        self.url_store@
    }

    /// The matcher reads all of the ruleset.
    pub open spec fn wf(&self) -> bool {
        rules_fit(self.robots())
    }

    /// Host and robots checks, which do not depend on what was seen: the
    /// host must be exactly the subdomain.
    pub open spec fn passes(&self, l: (Seq<char>, Option<Seq<char>>)) -> bool {
        l.1 == Some(self.subdomain()) && robots_allowed(self.robots(), l.0)
    }

    /// Whether `l` would be admitted now.
    pub open spec fn admits(&self, l: (Seq<char>, Option<Seq<char>>)) -> bool {
        self.passes(l) && !self.visited().contains(l.0)
    }

    /// The filter after deciding on `l`: a link that passes the host and
    /// robots checks is recorded as seen.
    pub open spec fn visited_after(&self, l: (Seq<char>, Option<Seq<char>>)) -> Set<Seq<char>> {
        if self.passes(l) {
            self.visited().insert(l.0)
        } else {
            self.visited()
        }
    }

    /// A URL admitted once is refused when it comes again, by any path and
    /// with any host reading, to a filter that has seen at least as much.
    pub proof fn lemma_rediscovery_refused(
        &self,
        later: &UrlFilter,
        l: (Seq<char>, Option<Seq<char>>),
        again: (Seq<char>, Option<Seq<char>>),
    )
        requires
            self.admits(l),
            self.visited_after(l).subset_of(later.visited()),
            again.0 == l.0,
        ensures
            !later.admits(again),
    {
    }

    /// A filter for `subdomain` under the ruleset `robots_txt`, cut to what
    /// the matcher reads of it: a ruleset that it reads whole is kept as is.
    pub fn new(subdomain: String, robots_txt: String) -> (r: UrlFilter)
        ensures
            r.wf(),
            r.subdomain() == subdomain@,
            r.robots() == fit_rules(robots_txt@),
            rules_fit(robots_txt@) ==> r.robots() == robots_txt@,
            r.visited() == Set::<Seq<char>>::empty(),
    {
        let rules = robots_rules(robots_txt.as_str());
        UrlFilter { subdomain, url_store: Store::new(), robots_txt: rules }
    }

    /// Whether robots.txt allows the URL.
    pub fn allowed(&self, url: &Link) -> (r: bool)
        requires
            self.wf(),
        ensures
            r == robots_allowed(self.robots(), url@.0),
            self.robots().len() == 0 ==> r,
    {
        robots_allow(self.robots_txt.as_str(), url.text.as_str())
    }

    fn host_matches(&self, url: &Link) -> (r: bool)
        ensures
            r == (url@.1 == Some(self.subdomain())),
    {
        match &url.host {
            Some(h) => *h == self.subdomain,
            None => false,
        }
    }

    /// Records a URL as seen without checking it (used for the seed).
    pub fn record(&mut self, url: &Link) -> (r: bool)
        ensures
            r == !old(self).visited().contains(url@.0),
            final(self).visited() == old(self).visited().insert(url@.0),
            final(self).subdomain() == old(self).subdomain(),
            final(self).robots() == old(self).robots(),
    {
        self.url_store.insert(url.text.clone())
    }

    /// Decides on one candidate: admitted exactly when its host is the
    /// subdomain, robots.txt allows it, and it was not seen before.
    pub fn consider(&mut self, url: &Link) -> (r: bool)
        requires
            old(self).wf(),
        ensures
            r == old(self).admits(url@),
            final(self).visited() == old(self).visited_after(url@),
            final(self).subdomain() == old(self).subdomain(),
            final(self).robots() == old(self).robots(),
            old(self).robots().len() == 0 && url@.1 == Some(old(self).subdomain())
                ==> robots_allowed(old(self).robots(), url@.0),
            old(self).robots().len() == 0 && url@.1 == Some(old(self).subdomain())
                && !old(self).visited().contains(url@.0) ==> r,
    {
        if !self.host_matches(url) {
            return false;
        }
        if !self.allowed(url) {
            return false;
        }
        self.url_store.insert(url.text.clone())
    }

    /// Keeps the candidates that are admitted, in their order, each text once.
    #[verifier::rlimit(40)]
    pub fn filter(&mut self, urls: Vec<Link>) -> (r: Vec<Link>)
        requires
            old(self).wf(),
        ensures
            final(self).subdomain() == old(self).subdomain(),
            final(self).robots() == old(self).robots(),
            final(self).visited() == old(self).visited().union(passing_texts(old(self), urls@)),
            forall|i: int| 0 <= i < r@.len() ==> old(self).admits(#[trigger] r@[i]@),
            forall|i: int| 0 <= i < r@.len() ==> final(self).visited().contains(#[trigger] r@[i]@.0),
            forall|i: int| 0 <= i < r@.len() ==> exists|j: int| 0 <= j < urls@.len() && (#[trigger] urls@[j])@ == (#[trigger] r@[i])@,
            forall|j: int| 0 <= j < urls@.len() && old(self).admits(#[trigger] urls@[j]@)
                ==> exists|i: int| 0 <= i < r@.len() && r@[i]@.0 == urls@[j]@.0,
            forall|i: int, k: int| 0 <= i < k < r@.len() ==> r@[i]@.0 != r@[k]@.0,
            old(self).robots().len() == 0 ==> forall|j: int|
                0 <= j < urls@.len() && (#[trigger] urls@[j])@.1 == Some(old(self).subdomain())
                    ==> robots_allowed(old(self).robots(), urls@[j]@.0),
            old(self).robots().len() == 0 ==> forall|j: int|
                0 <= j < urls@.len() && (#[trigger] urls@[j])@.1 == Some(old(self).subdomain())
                    && !old(self).visited().contains(urls@[j]@.0)
                    ==> exists|i: int| 0 <= i < r@.len() && r@[i]@.0 == urls@[j]@.0,
    {
        let ghost f0 = *self;
        let mut out: Vec<Link> = Vec::new();
        let mut i: usize = 0;
        while i < urls.len()
            invariant
                0 <= i <= urls@.len(),
                f0.wf(),
                self.subdomain() == f0.subdomain(),
                self.robots() == f0.robots(),
                self.visited() == f0.visited().union(passing_texts(&f0, urls@.subrange(0, i as int))),
                forall|a: int| 0 <= a < out@.len() ==> f0.admits(#[trigger] out@[a]@),
                forall|a: int| 0 <= a < out@.len() ==> self.visited().contains(#[trigger] out@[a]@.0),
                forall|a: int| 0 <= a < out@.len() ==> exists|j: int| 0 <= j < i && (#[trigger] urls@[j])@ == (#[trigger] out@[a])@,
                forall|j: int| 0 <= j < i && f0.admits(#[trigger] urls@[j]@)
                    ==> exists|a: int| 0 <= a < out@.len() && out@[a]@.0 == urls@[j]@.0,
                forall|a: int, k: int| 0 <= a < k < out@.len() ==> out@[a]@.0 != out@[k]@.0,
                f0.robots().len() == 0 ==> forall|j: int|
                    0 <= j < i && (#[trigger] urls@[j])@.1 == Some(f0.subdomain())
                        ==> robots_allowed(f0.robots(), urls@[j]@.0),
            decreases urls@.len() - i,
        {
            let ghost before = *self;
            let ghost out0 = out@;
            let url = &urls[i];
            let ok = self.consider(url);
            proof {
                let s1 = urls@.subrange(0, i + 1);
                assert(s1.drop_last() =~= urls@.subrange(0, i as int));
                assert(s1.last() == urls@[i as int]);
            }
            if ok {
                out.push(url.clone());
                proof {
                    assert(out@.last()@ == urls@[i as int]@);
                }
            }
            proof {
                assert forall|j: int| 0 <= j < i + 1 && f0.admits(#[trigger] urls@[j]@)
                    implies exists|a: int| 0 <= a < out@.len() && out@[a]@.0 == urls@[j]@.0 by {
                    if j < i {
                        let a = choose|a: int| 0 <= a < out0.len() && out0[a]@.0 == urls@[j]@.0;
                        assert(out@[a] == out0[a]);
                    } else {
                        if !ok {
                            // Already seen: it was admitted earlier in this call.
                            assert(before.visited().contains(urls@[j]@.0));
                            let s0 = urls@.subrange(0, i as int);
                            assert(passing_texts(&f0, s0).contains(urls@[j]@.0));
                            lemma_passing_text_source(&f0, s0, urls@[j]@.0);
                            let jj = choose|jj: int| 0 <= jj < s0.len() && f0.passes(#[trigger] s0[jj]@) && s0[jj]@.0 == urls@[j]@.0;
                            assert(s0[jj] == urls@[jj]);
                            assert(f0.admits(urls@[jj]@));
                            let a = choose|a: int| 0 <= a < out0.len() && out0[a]@.0 == urls@[jj]@.0;
                            assert(out@[a] == out0[a]);
                        } else {
                            assert(out@[out@.len() - 1]@.0 == urls@[j]@.0);
                        }
                    }
                }
            }
            i = i + 1;
        }
        assert(urls@.subrange(0, urls@.len() as int) =~= urls@);
        proof {
            if f0.robots().len() == 0 {
                assert forall|j: int|
                    0 <= j < urls@.len() && (#[trigger] urls@[j])@.1 == Some(f0.subdomain())
                        && !f0.visited().contains(urls@[j]@.0)
                    implies exists|a: int| 0 <= a < out@.len() && out@[a]@.0 == urls@[j]@.0 by {
                    assert(f0.admits(urls@[j]@));
                }
            }
        }
        out
    }
}

} // verus!
