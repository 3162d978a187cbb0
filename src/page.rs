//! The document shell around a rendered body.
use vstd::prelude::*;

use crate::links::{rewrite, rewrite_links};
use crate::text::{chars_of, push_seq, string_of};

verus! {

/// The page for a body: the rewritten body inside one `<pre>` block.
pub open spec fn page_of(body: Seq<char>) -> Seq<char> {
    seq!['<', 'p', 'r', 'e', '>'] + rewrite(body) + seq!['<', '/', 'p', 'r', 'e', '>']
}

/// Renders the whole text of a recognized file into its page.
pub fn render_page(content: &str) -> (r: String)
    ensures
        r@ == page_of(content@),
{
    let chars = chars_of(content);
    let body = rewrite_links(&chars);
    let mut out: Vec<char> = Vec::new();
    push_seq(&mut out, &vec!['<', 'p', 'r', 'e', '>']);
    push_seq(&mut out, &body);
    push_seq(&mut out, &vec!['<', '/', 'p', 'r', 'e', '>']);
    proof {
        assert(out@ =~= page_of(content@));
    }
    string_of(&out)
}

} // verus!
