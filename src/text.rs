//! Moving between `str`/`String` and vectors of characters.
use vstd::prelude::*;

verus! {

/// Relies on `str::chars`, collected into a `Vec`: it yields the characters
/// of the string in order.
#[verifier::external_body]
pub(crate) fn chars_of(s: &str) -> (r: Vec<char>)
    ensures
        r@ == s@,
{
    s.chars().collect()
}

/// Relies on `String::from_iter` over characters: it concatenates them in order.
#[verifier::external_body]
pub(crate) fn string_of(v: &Vec<char>) -> (r: String)
    ensures
        r@ == v@,
{
    String::from_iter(v.iter())
}

/// Appends `s[from..to]` to `out`.
pub(crate) fn push_range(out: &mut Vec<char>, s: &Vec<char>, from: usize, to: usize)
    requires
        from <= to <= s@.len(),
    ensures
        final(out)@ == old(out)@ + s@.subrange(from as int, to as int),
{
    let ghost start = out@;
    let mut i = from;
    while i < to
        invariant
            from <= i <= to <= s@.len(),
            out@ == start + s@.subrange(from as int, i as int),
        decreases to - i,
    {
        out.push(s[i]);
        proof {
            assert(out@ =~= start + s@.subrange(from as int, i + 1));
        }
        i += 1;
    }
}

/// Appends all of `piece` to `out`.
pub(crate) fn push_seq(out: &mut Vec<char>, piece: &Vec<char>)
    ensures
        final(out)@ == old(out)@ + piece@,
{
    push_range(out, piece, 0, piece.len());
    proof {
        assert(piece@.subrange(0, piece@.len() as int) =~= piece@);
    }
}

} // verus!
