use vstd::prelude::*;

use crate::store::Store;
use crate::types::{parsed_url, Link};
use sha2::Digest;

verus! {

/// The SHA-256 digest of a body, as lower-case hex text.
pub uninterp spec fn content_digest(body: Seq<char>) -> Seq<char>;

/// The `href` values of the anchor elements of an HTML document, in the
/// order that the parsed tree holds them.
pub uninterp spec fn anchor_hrefs(body: Seq<char>) -> Seq<Seq<char>>;

/// Sixty-four characters, each a digit or a letter from a to f.
pub open spec fn is_digest_text(s: Seq<char>) -> bool {
    &&& s.len() == 64
    &&& forall|i: int| 0 <= i < s.len() ==> ('0' <= #[trigger] s[i] <= '9') || ('a' <= s[i] <= 'f')
}

/// Relies on sha2::Sha256 (new, update, finalize): a 32-byte digest, which
/// the `{:x}` format writes as two lower-case hex digits per byte.
#[verifier::external_body]
fn calculate_hash(body: &str) -> (r: String)
    ensures
        r@ == content_digest(body@),
        is_digest_text(r@),
{
    let mut hasher = sha2::Sha256::new();
    hasher.update(body);
    format!("{:x}", hasher.finalize())
}

/// Relies on scraper: Html::parse_document, the selector "a", and the
/// `href` attribute of each element it selects.
#[verifier::external_body]
fn find_hrefs(body: &str) -> (r: Vec<String>)
    ensures
        r@.map_values(|s: String| s@) == anchor_hrefs(body@),
{
    let html = scraper::Html::parse_document(body);
    let selector = scraper::Selector::parse("a").unwrap();
    html.select(&selector).filter_map(|e| e.value().attr("href")).map(|h| h.to_string()).collect()
}

/// Whether a body with this content counts as seen under `seen`.
pub open spec fn is_duplicate(seen: Set<Seq<char>>, body: Seq<char>) -> bool {
    seen.contains(content_digest(body))
}

/// The seen digests after a body has gone through the content filter.
pub open spec fn seen_after(seen: Set<Seq<char>>, body: Seq<char>) -> Set<Seq<char>> {
    seen.insert(content_digest(body))
}

/// Some text among the first `n` of `hrefs` parses to `l`.
pub open spec fn parsed_from(hrefs: Seq<Seq<char>>, n: int, l: (Seq<char>, Option<Seq<char>>)) -> bool {
    exists|k: int| 0 <= k < n && parsed_url(#[trigger] hrefs[k]) == Some(l)
}

/// Some link in `links` has the normalized text `t`.
pub open spec fn has_text(links: Seq<Link>, t: Seq<char>) -> bool {
    exists|i: int| 0 <= i < links.len() && (#[trigger] links[i])@.0 == t
}

/// Some link in `links` is `v`.
pub open spec fn has_link(links: Seq<Link>, v: (Seq<char>, Option<Seq<char>>)) -> bool {
    exists|i: int| 0 <= i < links.len() && (#[trigger] links[i])@ == v
}

/// `links` holds exactly the URLs that the texts in `hrefs` parse to, each
/// once.
pub open spec fn links_of_hrefs(hrefs: Seq<Seq<char>>, links: Seq<Link>) -> bool {
    &&& forall|i: int| 0 <= i < links.len() ==> parsed_from(hrefs, hrefs.len() as int, (#[trigger] links[i])@)
    &&& forall|j: int|
        0 <= j < hrefs.len() && (#[trigger] parsed_url(hrefs[j])).is_some()
            ==> has_link(links, parsed_url(hrefs[j]).unwrap())
    &&& forall|i: int, k: int| 0 <= i < k < links.len() ==> links[i]@ != links[k]@
}

/// Feeding the same body twice through the content filter: the second time
/// it is a duplicate and nothing more is recorded; the first time it is new
/// exactly when its digest had not been seen, so always on a fresh filter.
pub proof fn lemma_content_dedup_idempotent(seen: Set<Seq<char>>, body: Seq<char>)
    ensures
        is_duplicate(seen_after(seen, body), body),
        seen_after(seen_after(seen, body), body) == seen_after(seen, body),
        !is_duplicate(Set::empty(), body),
{
    assert(seen_after(seen_after(seen, body), body) =~= seen_after(seen, body));
}

/// Turns page bodies into the links they hold, skipping bodies whose content
/// was seen before.
pub struct HtmlParser {
    html_store: Store,
}

impl Default for HtmlParser {
    fn default() -> (r: HtmlParser)
        ensures
            r.seen() == Set::<Seq<char>>::empty(),
    {
        HtmlParser::new()
    }
}

impl HtmlParser {
    /// The digests of the bodies seen so far.
    pub closed spec fn seen(&self) -> Set<Seq<char>> {
        self.html_store@
    }

    pub fn new() -> (r: HtmlParser)
        ensures
            r.seen() == Set::<Seq<char>>::empty(),
    {
        HtmlParser { html_store: Store::new() }
    }

    /// The links in a body, or none when the same content was seen before.
    pub fn parse(&mut self, body: &str) -> (r: Vec<Link>)
        ensures
            final(self).seen() == seen_after(old(self).seen(), body@),
            is_duplicate(old(self).seen(), body@) ==> r@.len() == 0,
            !is_duplicate(old(self).seen(), body@) ==> links_of_hrefs(anchor_hrefs(body@), r@),
    {
        if self.visited_before(body) {
            return Vec::new();
        }
        Self::extract_urls(body)
    }

    /// Records the body's digest; true when it had been recorded before.
    pub fn visited_before(&mut self, body: &str) -> (r: bool)
        ensures
            r == is_duplicate(old(self).seen(), body@),
            final(self).seen() == seen_after(old(self).seen(), body@),
    {
        let body_hash = calculate_hash(body);
        !self.html_store.insert(body_hash)
    }

    /// The absolute URLs that the anchors of a body point to.
    pub fn extract_urls(body: &str) -> (r: Vec<Link>)
        ensures
            links_of_hrefs(anchor_hrefs(body@), r@),
    {
        let hrefs = find_hrefs(body);
        let r = Self::collect_links(&hrefs);
        proof {
            let m = hrefs@.map_values(|s: String| s@);
            assert forall|j: int| 0 <= j < hrefs@.len() implies #[trigger] m[j] == hrefs@[j]@ by {}
        }
        r
    }

    /// Whether `links` holds a link equal to `l`.
    fn holds_link(links: &Vec<Link>, l: &Link) -> (r: bool)
        ensures
            r == has_link(links@, l@),
    {
        let mut i: usize = 0;
        while i < links.len()
            invariant
                0 <= i <= links@.len(),
                forall|a: int| 0 <= a < i ==> (#[trigger] links@[a])@ != l@,
            decreases links@.len() - i,
        {
            let same_host = match (&links[i].host, &l.host) {
                (Some(a), Some(b)) => *a == *b,
                (None, None) => true,
                _ => false,
            };
            if links[i].text == l.text && same_host {
                assert(links@[i as int]@ == l@);
                return true;
            }
            i = i + 1;
        }
        false
    }

    /// Parses each text; keeps those that parse, each URL once.
    pub fn collect_links(hrefs: &Vec<String>) -> (r: Vec<Link>)
        ensures
            links_of_hrefs(hrefs@.map_values(|s: String| s@), r@),
    {
        let ghost h = hrefs@.map_values(|s: String| s@);
        let mut out: Vec<Link> = Vec::new();
        let mut j: usize = 0;
        while j < hrefs.len()
            invariant
                0 <= j <= hrefs@.len(),
                h == hrefs@.map_values(|s: String| s@),
                forall|i: int| 0 <= i < out@.len() ==> parsed_from(h, j as int, (#[trigger] out@[i])@),
                forall|k: int|
                    0 <= k < j && (#[trigger] parsed_url(h[k])).is_some()
                        ==> has_link(out@, parsed_url(h[k]).unwrap()),
                forall|a: int, b: int| 0 <= a < b < out@.len() ==> out@[a]@ != out@[b]@,
            decreases hrefs@.len() - j,
        {
            let ghost out0 = out@;
            assert(h[j as int] == hrefs@[j as int]@);
            match Link::parse(hrefs[j].as_str()) {
                Ok(l) => {
                    if !Self::holds_link(&out, &l) {
                        out.push(l);
                        proof {
                            assert(out@[out@.len() - 1] == l);
                            assert forall|v: (Seq<char>, Option<Seq<char>>)| has_link(out0, v) implies has_link(out@, v) by {
                                let a = choose|a: int| 0 <= a < out0.len() && (#[trigger] out0[a])@ == v;
                                assert(out@[a] == out0[a]);
                            }
                        }
                    }
                },
                Err(_) => {},
            }
            proof {
                assert forall|i: int| 0 <= i < out@.len() implies parsed_from(h, j + 1, (#[trigger] out@[i])@) by {
                    if i < out0.len() {
                        assert(out@[i] == out0[i]);
                        let k = choose|k: int| 0 <= k < j && parsed_url(#[trigger] h[k]) == Some(out0[i]@);
                    } else {
                        assert(parsed_url(h[j as int]) == Some(out@[i]@));
                    }
                }
            }
            j = j + 1;
        }
        out
    }
}

} // verus!
