use vstd::prelude::*;

use crate::types::HtmlPage;

verus! {

/// The robots.txt matcher keeps a character on a line only while the line
/// so far holds fewer than this many bytes of UTF-8; it drops the rest of
/// the line.
pub const MATCHER_LINE_LIMIT: usize = 16663;

/// What the robots.txt matcher decides for a URL under a ruleset, for the
/// user agent "*".
pub uninterp spec fn robots_allowed(robots_txt: Seq<char>, url: Seq<char>) -> bool;

pub open spec fn is_line_end(c: char) -> bool {
    c == '\n' || c == '\r'
}

/// The number of bytes that UTF-8 takes for `c`.
pub open spec fn utf8_len(c: char) -> nat {
    if (c as u32) < 0x80 {
        1
    } else if (c as u32) < 0x800 {
        2
    } else if (c as u32) < 0x10000 {
        3
    } else {
        4
    }
}

/// How many of the characters U+00EF, U+00BB, U+00BF begin `s`, in that
/// order: the matcher skips them before the first line.
pub open spec fn bom_len(s: Seq<char>) -> nat {
    if s.len() > 0 && s[0] == '\u{ef}' {
        if s.len() > 1 && s[1] == '\u{bb}' {
            if s.len() > 2 && s[2] == '\u{bf}' {
                3
            } else {
                2
            }
        } else {
            1
        }
    } else {
        0
    }
}

/// `s` with every line cut where the matcher stops reading it, where the
/// line under way already holds `run` bytes.
pub open spec fn cut_lines(s: Seq<char>, run: nat) -> Seq<char>
    decreases s.len(),
{
    if s.len() == 0 {
        Seq::empty()
    } else if is_line_end(s[0]) {
        seq![s[0]] + cut_lines(s.drop_first(), 0)
    } else if run < MATCHER_LINE_LIMIT {
        seq![s[0]] + cut_lines(s.drop_first(), run + utf8_len(s[0]))
    } else {
        cut_lines(s.drop_first(), run)
    }
}

/// The matcher reads every character of every line of `s`, where the line
/// under way already holds `run` bytes.
pub open spec fn lines_within(s: Seq<char>, run: nat) -> bool
    decreases s.len(),
{
    if s.len() == 0 {
        true
    } else if is_line_end(s[0]) {
        lines_within(s.drop_first(), 0)
    } else {
        run < MATCHER_LINE_LIMIT && lines_within(s.drop_first(), run + utf8_len(s[0]))
    }
}

/// The matcher reads all of the ruleset `s`.
pub open spec fn rules_fit(s: Seq<char>) -> bool {
    lines_within(s.skip(bom_len(s) as int), 0)
}

/// The ruleset `s` cut to what the matcher reads of it.
pub open spec fn fit_rules(s: Seq<char>) -> Seq<char> {
    s.take(bom_len(s) as int) + cut_lines(s.skip(bom_len(s) as int), 0)
}

/// Relies on robotstxt::DefaultMatcher::one_agent_allowed_by_robots, asked
/// for the user agent "*". Its line splitter counts what it drops from a
/// line past its limit in characters, not bytes, and can then slice inside
/// a character; the `requires` keeps every line within the limit. An empty
/// ruleset disallows nothing.
#[verifier::external_body]
pub(crate) fn robots_allow(robots_txt: &str, url: &str) -> (r: bool)
    requires
        rules_fit(robots_txt@),
    ensures
        r == robots_allowed(robots_txt@, url@),
        robots_txt@.len() == 0 ==> r,
{
    let mut matcher = robotstxt::DefaultMatcher::default();
    matcher.one_agent_allowed_by_robots(robots_txt, "*", url)
}

/// Relies on str::chars, collected: the characters of the text, in order.
#[verifier::external_body]
fn chars_of(s: &str) -> (r: Vec<char>)
    ensures
        r@ == s@,
{
    s.chars().collect()
}

/// Relies on String's FromIterator<char>: the text of the characters.
#[verifier::external_body]
fn string_of(v: &Vec<char>) -> (r: String)
    ensures
        r@ == v@,
{
    v.iter().collect()
}

proof fn lemma_cut_lines_within(s: Seq<char>, run: nat)
    ensures
        lines_within(cut_lines(s, run), run),
    decreases s.len(),
{
    if s.len() > 0 {
        let rest = s.drop_first();
        if is_line_end(s[0]) {
            lemma_cut_lines_within(rest, 0);
            assert((seq![s[0]] + cut_lines(rest, 0)).drop_first() =~= cut_lines(rest, 0));
        } else if run < MATCHER_LINE_LIMIT {
            lemma_cut_lines_within(rest, run + utf8_len(s[0]));
            assert((seq![s[0]] + cut_lines(rest, run + utf8_len(s[0]))).drop_first() =~= cut_lines(
                rest,
                run + utf8_len(s[0]),
            ));
        } else {
            lemma_cut_lines_within(rest, run);
        }
    }
}

proof fn lemma_cut_lines_keeps_short(s: Seq<char>, run: nat)
    requires
        lines_within(s, run),
    ensures
        cut_lines(s, run) == s,
    decreases s.len(),
{
    if s.len() > 0 {
        let rest = s.drop_first();
        if is_line_end(s[0]) {
            lemma_cut_lines_keeps_short(rest, 0);
        } else {
            lemma_cut_lines_keeps_short(rest, run + utf8_len(s[0]));
        }
        assert(seq![s[0]] + rest =~= s);
    }
}

/// The number of bytes that UTF-8 takes for `c`.
fn char_utf8_len(c: char) -> (r: usize)
    ensures
        r == utf8_len(c),
{
    let code = c as u32;
    if code < 0x80 {
        1
    } else if code < 0x800 {
        2
    } else if code < 0x10000 {
        3
    } else {
        4
    }
}

/// The ruleset cut to what the matcher reads of it: each line ends where
/// the matcher stops reading it. A ruleset that the matcher reads whole is
/// kept as it is.
pub fn robots_rules(body: &str) -> (r: String)
    ensures
        r@ == fit_rules(body@),
        rules_fit(r@),
        rules_fit(body@) ==> r@ == body@,
{
    let chars = chars_of(body);
    let ghost b = bom_len(body@);
    let mut out: Vec<char> = Vec::new();
    let mut i: usize = 0;
    if chars.len() > 0 && chars[0] == '\u{ef}' {
        out.push(chars[0]);
        i = 1;
        if chars.len() > 1 && chars[1] == '\u{bb}' {
            out.push(chars[1]);
            i = 2;
            if chars.len() > 2 && chars[2] == '\u{bf}' {
                out.push(chars[2]);
                i = 3;
            }
        }
    }
    assert(i == b);
    assert(out@ =~= body@.take(b as int));
    let mut run: usize = 0;
    while i < chars.len()
        invariant
            b <= i <= chars@.len(),
            chars@ == body@,
            b == bom_len(body@),
            run <= MATCHER_LINE_LIMIT + 3,
            out@ + cut_lines(chars@.skip(i as int), run as nat) == fit_rules(body@),
        decreases chars@.len() - i,
    {
        let c = chars[i];
        let ghost rest = chars@.skip(i as int);
        proof {
            assert(rest[0] == c);
            assert(rest.drop_first() =~= chars@.skip(i + 1));
        }
        if c == '\n' || c == '\r' {
            out.push(c);
            run = 0;
        } else if run < MATCHER_LINE_LIMIT {
            out.push(c);
            run = run + char_utf8_len(c);
        }
        proof {
            assert(out@ + cut_lines(chars@.skip(i + 1), run as nat) =~= fit_rules(body@));
        }
        i = i + 1;
    }
    proof {
        assert(chars@.skip(i as int) =~= Seq::<char>::empty());
        assert(out@ =~= fit_rules(body@));
        let s = body@;
        let tail = cut_lines(s.skip(b as int), 0);
        lemma_cut_lines_within(s.skip(b as int), 0);
        assert(bom_len(out@) == b) by {
            assert(out@.take(b as int) =~= s.take(b as int));
            if b < 3 && out@.len() > b {
                assert(out@[b as int] == tail[0]);
            }
        }
        assert(out@.skip(b as int) =~= tail);
        if rules_fit(s) {
            lemma_cut_lines_keeps_short(s.skip(b as int), 0);
            assert(s.take(b as int) + s.skip(b as int) =~= s);
        }
    }
    string_of(&out)
}

/// The ruleset a crawl starts with, from what fetching robots.txt gave: the
/// body of a page with a success status; otherwise no rules, so that a
/// missing or failing robots.txt allows everything.
pub fn robots_rules_from(page: Option<HtmlPage>) -> (r: String)
    ensures
        match page {
            Some(p) => if HtmlPage::success_status(p.status) {
                r@ == fit_rules(p.body@)
            } else {
                r@.len() == 0
            },
            None => r@.len() == 0,
        },
{
    match page {
        Some(p) => if p.is_success() {
            robots_rules(p.body.as_str())
        } else {
            String::new()
        },
        None => String::new(),
    }
}

} // verus!
