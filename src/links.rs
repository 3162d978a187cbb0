//! Link markup: `[text](target)` and `![text](target)` become
//! `<a href="target">text</a>`, with a `.md` target re-suffixed to `.html`.
use vstd::prelude::*;

use crate::naming::{ends_with, has_suffix, markup_suffix, page_suffix};
use crate::text::{chars_of, push_range, push_seq, string_of};

verus! {

/// Index of the first `c` in `s` at or after `from`; `s.len()` when there is none.
pub open spec fn find_from(s: Seq<char>, from: int, c: char) -> int
    decreases s.len() - from,
{
    if from < 0 || from >= s.len() {
        s.len() as int
    } else if s[from] == c {
        from
    } else {
        find_from(s, from + 1, c)
    }
}

/// Index of the `]` that closes the display text opened at `j`.
pub open spec fn text_end(s: Seq<char>, j: int) -> int {
    find_from(s, j + 1, ']')
}

/// Index of the `)` that closes the target that follows the display text opened at `j`.
pub open spec fn target_end(s: Seq<char>, j: int) -> int {
    find_from(s, text_end(s, j) + 2, ')')
}

/// A complete `[text](target)` starts at `j`, with non-empty text and target.
pub open spec fn link_at(s: Seq<char>, j: int) -> bool {
    let k = text_end(s, j);
    let m = target_end(s, j);
    &&& 0 <= j < s.len()
    &&& s[j] == '['
    &&& j + 1 < k
    &&& k + 1 < s.len()
    &&& s[k + 1] == '('
    &&& k + 2 < m < s.len()
}

/// A link (with or without a leading `!`) starts at `i`.
pub open spec fn opens_link(s: Seq<char>, i: int) -> bool {
    link_at(s, i) || (0 <= i < s.len() && s[i] == '!' && link_at(s, i + 1))
}

/// Where the `[` of the link that starts at `i` stands.
pub open spec fn bracket_of(s: Seq<char>, i: int) -> int {
    if link_at(s, i) {
        i
    } else {
        i + 1
    }
}

/// The display text of the link opened by the bracket at `j`.
pub open spec fn link_text(s: Seq<char>, j: int) -> Seq<char> {
    s.subrange(j + 1, text_end(s, j))
}

/// The target of the link opened by the bracket at `j`.
pub open spec fn link_target(s: Seq<char>, j: int) -> Seq<char> {
    s.subrange(text_end(s, j) + 2, target_end(s, j))
}

/// A target ending in `.md` points at the mirrored `.html` page instead.
pub open spec fn retarget(url: Seq<char>) -> Seq<char> {
    if ends_with(url, markup_suffix()) {
        url.subrange(0, url.len() - 3) + page_suffix()
    } else {
        url
    }
}

/// `<a href="url">text</a>`
pub open spec fn anchor(url: Seq<char>, text: Seq<char>) -> Seq<char> {
    seq!['<', 'a', ' ', 'h', 'r', 'e', 'f', '=', '"'] + url + seq!['"', '>'] + text + seq![
        '<',
        '/',
        'a',
        '>',
    ]
}

/// The rewritten form of `s` from index `i` on, scanning left to right:
/// each link that starts at the scan position is replaced by its anchor,
/// and scanning resumes after its closing `)`.
pub open spec fn rewrite_from(s: Seq<char>, i: int) -> Seq<char>
    decreases s.len() - i,
{
    if i < 0 || i >= s.len() {
        Seq::empty()
    } else if opens_link(s, i) {
        let j = bracket_of(s, i);
        anchor(retarget(link_target(s, j)), link_text(s, j)) + rewrite_from(
            s,
            target_end(s, j) + 1,
        )
    } else {
        seq![s[i]] + rewrite_from(s, i + 1)
    }
}

/// The whole body with every link rewritten.
pub open spec fn rewrite(s: Seq<char>) -> Seq<char> {
    rewrite_from(s, 0)
}

/// `[text](target)`
pub open spec fn link_markup(text: Seq<char>, target: Seq<char>) -> Seq<char> {
    seq!['['] + text + seq![']', '('] + target + seq![')']
}

/// The search ends inside the sequence, or just past its end.
proof fn lemma_find_bounds(s: Seq<char>, from: int, c: char)
    requires
        0 <= from,
    ensures
        0 <= find_from(s, from, c) <= s.len(),
    decreases s.len() - from,
{
    if from < s.len() && s[from] != c {
        lemma_find_bounds(s, from + 1, c);
    }
}

/// Searching past a prefix is searching the rest.
proof fn lemma_find_shift(a: Seq<char>, b: Seq<char>, x: int, c: char)
    requires
        0 <= x,
    ensures
        find_from(a + b, a.len() + x, c) == a.len() + find_from(b, x, c),
    decreases b.len() - x,
{
    if x < b.len() {
        assert((a + b)[a.len() + x] == b[x]);
        if b[x] != c {
            lemma_find_shift(a, b, x + 1, c);
        }
    }
}

/// The search stops at the first `c`, skipping everything before it.
proof fn lemma_find_at(s: Seq<char>, from: int, to: int, c: char)
    requires
        0 <= from <= to < s.len(),
        s[to] == c,
        forall|k: int| from <= k < to ==> s[k] != c,
    ensures
        find_from(s, from, c) == to,
    decreases to - from,
{
    if from < to {
        lemma_find_at(s, from + 1, to, c);
    }
}

/// A link past a prefix is found, and read, as in the rest alone.
proof fn lemma_link_shift(a: Seq<char>, b: Seq<char>, y: int)
    requires
        0 <= y,
    ensures
        link_at(a + b, a.len() + y) == link_at(b, y),
        link_at(b, y) ==> text_end(a + b, a.len() + y) == a.len() + text_end(b, y)
            && target_end(a + b, a.len() + y) == a.len() + target_end(b, y)
            && link_text(a + b, a.len() + y) == link_text(b, y)
            && link_target(a + b, a.len() + y) == link_target(b, y),
{
    let s = a + b;
    lemma_find_shift(a, b, y + 1, ']');
    let k = text_end(b, y);
    lemma_find_bounds(b, y + 1, ']');
    lemma_find_shift(a, b, k + 2, ')');
    if y < b.len() {
        assert(s[a.len() + y] == b[y]);
    }
    if k + 1 < b.len() {
        assert(s[a.len() + k + 1] == b[k + 1]);
    }
    if link_at(b, y) {
        assert(link_text(s, a.len() + y) =~= link_text(b, y));
        assert(link_target(s, a.len() + y) =~= link_target(b, y));
    }
}

/// Rewriting past a prefix is rewriting the rest alone.
proof fn lemma_rewrite_shift(a: Seq<char>, b: Seq<char>, x: int)
    requires
        0 <= x,
    ensures
        rewrite_from(a + b, a.len() + x) == rewrite_from(b, x),
    decreases b.len() - x,
{
    let s = a + b;
    if x < b.len() {
        assert(s[a.len() + x] == b[x]);
        lemma_link_shift(a, b, x);
        lemma_link_shift(a, b, x + 1);
        if opens_link(b, x) {
            let j = bracket_of(b, x);
            assert(bracket_of(s, a.len() + x) == a.len() + j);
            lemma_rewrite_shift(a, b, target_end(b, j) + 1);
        } else {
            lemma_rewrite_shift(a, b, x + 1);
        }
    }
}

/// Links are rewritten one after another, left to right: a body that opens
/// with a complete link renders as that link's anchor followed by the
/// rewritten remainder, whatever the remainder holds.
pub proof fn lemma_links_rewritten_in_turn(text: Seq<char>, target: Seq<char>, rest: Seq<char>)
    requires
        text.len() > 0,
        target.len() > 0,
        forall|k: int| 0 <= k < text.len() ==> text[k] != ']',
        forall|k: int| 0 <= k < target.len() ==> target[k] != ')',
    ensures
        rewrite(link_markup(text, target) + rest) == anchor(retarget(target), text) + rewrite(rest),
{
    let m = link_markup(text, target);
    let s = m + rest;
    let k: int = text.len() as int + 1;
    let e: int = k + 2 + target.len();
    assert(s[0] == '[');
    assert(s[k] == ']');
    assert(s[k + 1] == '(');
    assert(s[e] == ')');
    assert forall|i: int| 1 <= i < k implies s[i] != ']' by {
        assert(s[i] == text[i - 1]);
    }
    assert forall|i: int| k + 2 <= i < e implies s[i] != ')' by {
        assert(s[i] == target[i - k - 2]);
    }
    lemma_find_at(s, 1, k, ']');
    lemma_find_at(s, k + 2, e, ')');
    assert(link_at(s, 0));
    assert(link_text(s, 0) =~= text);
    assert(link_target(s, 0) =~= target);
    assert(m.len() == e + 1);
    lemma_rewrite_shift(m, rest, 0);
}

/// Finds the first `c` at or after `from`.
fn find_char(s: &Vec<char>, from: usize, c: char) -> (r: usize)
    requires
        from <= s@.len(),
    ensures
        r as int == find_from(s@, from as int, c),
        from <= r <= s@.len(),
{
    let mut i = from;
    while i < s.len()
        invariant
            from <= i <= s@.len(),
            find_from(s@, from as int, c) == find_from(s@, i as int, c),
        decreases s.len() - i,
    {
        if s[i] == c {
            return i;
        }
        i += 1;
    }
    i
}

/// When a link's `[` stands at `j`, the ends of its text and its target.
fn link_bounds(s: &Vec<char>, j: usize) -> (r: Option<(usize, usize)>)
    requires
        j <= s@.len(),
    ensures
        r is Some <==> link_at(s@, j as int),
        r matches Some((k, m)) ==> k == text_end(s@, j as int) && m == target_end(s@, j as int),
{
    if j >= s.len() || s[j] != '[' {
        return None;
    }
    let n = s.len();
    let k = find_char(s, j + 1, ']');
    if k <= j + 1 || k >= n - 1 || s[k + 1] != '(' {
        return None;
    }
    let m = find_char(s, k + 2, ')');
    if m <= k + 2 || m >= s.len() {
        return None;
    }
    Some((k, m))
}

/// When a link starts at `i`, its bracket and the ends of its text and target.
fn link_starting_at(s: &Vec<char>, i: usize) -> (r: Option<(usize, usize, usize)>)
    requires
        i < s@.len(),
    ensures
        r is Some <==> opens_link(s@, i as int),
        r matches Some((j, k, m)) ==> j == bracket_of(s@, i as int) && k == text_end(s@, j as int)
            && m == target_end(s@, j as int),
{
    if let Some((k, m)) = link_bounds(s, i) {
        return Some((i, k, m));
    }
    if s[i] == '!' && i < s.len() - 1 {
        if let Some((k, m)) = link_bounds(s, i + 1) {
            return Some((i + 1, k, m));
        }
    }
    None
}

/// Appends `<a href="target">text</a>` for the link whose bracket is at `j`.
fn push_anchor(out: &mut Vec<char>, s: &Vec<char>, j: usize, k: usize, m: usize)
    requires
        link_at(s@, j as int),
        k == text_end(s@, j as int),
        m == target_end(s@, j as int),
    ensures
        final(out)@ == old(out)@ + anchor(
            retarget(link_target(s@, j as int)),
            link_text(s@, j as int),
        ),
{
    let ghost start = out@;
    let ghost url = link_target(s@, j as int);
    push_seq(out, &vec!['<', 'a', ' ', 'h', 'r', 'e', 'f', '=', '"']);
    let target: Vec<char> = s_range(s, k + 2, m);
    let md: Vec<char> = vec!['.', 'm', 'd'];
    if has_suffix(&target, &md) {
        push_range(out, s, k + 2, m - 3);
        push_seq(out, &vec!['.', 'h', 't', 'm', 'l']);
        proof {
            assert(url.subrange(0, url.len() - 3) =~= s@.subrange(k + 2, m - 3));
        }
    } else {
        push_range(out, s, k + 2, m);
    }
    push_seq(out, &vec!['"', '>']);
    push_range(out, s, j + 1, k);
    push_seq(out, &vec!['<', '/', 'a', '>']);
    proof {
        assert(out@ =~= start + anchor(retarget(url), link_text(s@, j as int)));
    }
}

/// The characters of `s` from `from` up to `to`.
fn s_range(s: &Vec<char>, from: usize, to: usize) -> (r: Vec<char>)
    requires
        from <= to <= s@.len(),
    ensures
        r@ == s@.subrange(from as int, to as int),
{
    let mut r: Vec<char> = Vec::new();
    push_range(&mut r, s, from, to);
    proof {
        assert(r@ =~= s@.subrange(from as int, to as int));
    }
    r
}

/// Rewrites every link in `s`, scanning left to right without overlap.
pub fn rewrite_links(s: &Vec<char>) -> (r: Vec<char>)
    ensures
        r@ == rewrite(s@),
{
    let mut out: Vec<char> = Vec::new();
    let mut i: usize = 0;
    while i < s.len()
        invariant
            i <= s@.len(),
            out@ + rewrite_from(s@, i as int) == rewrite(s@),
        decreases s.len() - i,
    {
        let ghost before = out@;
        match link_starting_at(s, i) {
            Some((j, k, m)) => {
                push_anchor(&mut out, s, j, k, m);
                proof {
                    let a = anchor(retarget(link_target(s@, j as int)), link_text(s@, j as int));
                    let rest = rewrite_from(s@, m + 1);
                    assert(rewrite_from(s@, i as int) == a + rest);
                    assert(before + (a + rest) =~= (before + a) + rest);
                }
                i = m + 1;
            },
            None => {
                out.push(s[i]);
                proof {
                    let rest = rewrite_from(s@, i + 1);
                    assert(rewrite_from(s@, i as int) == seq![s@[i as int]] + rest);
                    assert(before + (seq![s@[i as int]] + rest) =~= out@ + rest);
                }
                i += 1;
            },
        }
    }
    proof {
        assert(out@ + rewrite_from(s@, i as int) =~= out@);
    }
    out
}

/// Converts link markup in `content` into anchors.
pub fn convert_markdown_links(content: &str) -> (r: String)
    ensures
        r@ == rewrite(content@),
{
    let chars = chars_of(content);
    let out = rewrite_links(&chars);
    string_of(&out)
}

} // verus!
