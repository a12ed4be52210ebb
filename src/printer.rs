use vstd::prelude::*;

use crate::types::Link;

verus! {

/// One line "-- <link>" for each link, in order.
pub open spec fn link_lines(links: Seq<Link>) -> Seq<char>
    decreases links.len(),
{
    if links.len() == 0 {
        Seq::empty()
    } else {
        link_lines(links.drop_last()) + seq!['-', '-', ' '] + links.last()@.0 + seq!['\n']
    }
}

/// The report for a visited URL: its own line, then one line per link.
pub open spec fn report(url: Seq<char>, links: Seq<Link>) -> Seq<char> {
    url + seq!['\n'] + link_lines(links)
}

/// Renders what a crawl found at one URL.
pub struct Printer;

impl Printer {
    pub fn render(url: &Link, links: &Vec<Link>) -> (r: String)
        ensures
            r@ == report(url@.0, links@),
    {
        let newline = "\n";
        let dashes = "-- ";
        proof {
            reveal_strlit("\n");
            reveal_strlit("-- ");
        }
        let mut buffer = url.text.clone();
        buffer.append(newline);
        let mut i: usize = 0;
        while i < links.len()
            invariant
                0 <= i <= links@.len(),
                newline@ == seq!['\n'],
                dashes@ == seq!['-', '-', ' '],
                buffer@ == report(url@.0, links@.subrange(0, i as int)),
            decreases links@.len() - i,
        {
            buffer.append(dashes);
            buffer.append(links[i].text.as_str());
            buffer.append(newline);
            proof {
                let s = links@.subrange(0, i + 1);
                assert(s.drop_last() =~= links@.subrange(0, i as int));
                assert(s.last() == links@[i as int]);
                assert(buffer@ =~= report(url@.0, s));
            }
            i = i + 1;
        }
        assert(links@.subrange(0, links@.len() as int) =~= links@);
        buffer
    }
}

} // verus!
