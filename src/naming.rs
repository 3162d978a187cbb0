//! File names: which files are rendered, and what their pages are called.
use vstd::prelude::*;

use crate::text::{chars_of, push_range, push_seq, string_of};

verus! {

/// `.md`, the suffix of the files that are rendered.
pub open spec fn markup_suffix() -> Seq<char> {
    seq!['.', 'm', 'd']
}

/// `.html`, the suffix of rendered pages.
pub open spec fn page_suffix() -> Seq<char> {
    seq!['.', 'h', 't', 'm', 'l']
}

/// True when `s` ends with `suffix`.
pub open spec fn ends_with(s: Seq<char>, suffix: Seq<char>) -> bool {
    suffix.len() <= s.len() && s.subrange(s.len() - suffix.len(), s.len() as int) == suffix
}

/// Checks whether `s` ends with `suffix`.
pub fn has_suffix(s: &Vec<char>, suffix: &Vec<char>) -> (r: bool)
    ensures
        r == ends_with(s@, suffix@),
{
    if suffix.len() > s.len() {
        return false;
    }
    let n = s.len();
    let off = n - suffix.len();
    let mut i: usize = 0;
    while i < suffix.len()
        invariant
            off + suffix@.len() == s@.len(),
            i <= suffix@.len(),
            off + i <= s@.len(),
            n == s@.len(),
            forall|k: int| 0 <= k < i ==> s@[off + k] == suffix@[k],
        decreases suffix.len() - i,
    {
        if s[off + i] != suffix[i] {
            assert(s@.subrange(off as int, s@.len() as int)[i as int] != suffix@[i as int]);
            return false;
        }
        i += 1;
    }
    assert(s@.subrange(off as int, s@.len() as int) =~= suffix@);
    true
}

} // verus!

verus! {

/// A file name with the recognized extension: it ends in `.md` and something
/// stands before that suffix (`.md` alone is a hidden file without extension).
pub open spec fn is_markup_name(name: Seq<char>) -> bool {
    name.len() > 3 && ends_with(name, markup_suffix())
}

/// The page name of a recognized file: its stem followed by `.html`.
pub open spec fn page_name(name: Seq<char>) -> Seq<char> {
    name.subrange(0, name.len() - 3) + page_suffix()
}

/// Checks whether a file name has the recognized extension.
pub fn is_markup_file_name(name: &str) -> (r: bool)
    ensures
        r == is_markup_name(name@),
{
    let chars = chars_of(name);
    let md: Vec<char> = vec!['.', 'm', 'd'];
    chars.len() > 3 && has_suffix(&chars, &md)
}

/// The name under which a recognized file is written: `a.md` becomes `a.html`.
pub fn page_file_name(name: &str) -> (r: String)
    requires
        is_markup_name(name@),
    ensures
        r@ == page_name(name@),
{
    let chars = chars_of(name);
    let mut out: Vec<char> = Vec::new();
    push_range(&mut out, &chars, 0, chars.len() - 3);
    push_seq(&mut out, &vec!['.', 'h', 't', 'm', 'l']);
    proof {
        assert(out@ =~= page_name(name@));
    }
    string_of(&out)
}

} // verus!
