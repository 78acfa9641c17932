//! Character-level helpers shared by the scanner and the parser.
use vstd::prelude::*;
use vstd::std_specs::iter::IteratorSpec;

verus! {

broadcast use vstd::string::axiom_spec_iter, vstd::string::next_postcondition;

/// Relies on `String::push`: the character is appended at the end.
#[verifier::external_body]
pub(crate) fn push_char(s: &mut String, c: char)
    ensures
        final(s)@ == old(s)@.push(c),
{
    s.push(c)
}

/// The characters of `src`, in order.
pub fn chars_of(src: &str) -> (r: Vec<char>)
    ensures
        r@ == src@,
{
    let mut it = src.chars();
    let mut out: Vec<char> = Vec::new();
    loop
        invariant
            it.remaining() == src@.skip(out.len() as int),
            out@ == src@.take(out.len() as int),
            out.len() <= src@.len(),
        ensures
            out@ == src@,
        decreases src@.len() - out.len(),
    {
        match it.next() {
            Some(c) => {
                out.push(c);
                assert(out@ =~= src@.take(out.len() as int));
            },
            None => {
                assert(out@ =~= src@);
                break;
            },
        }
    }
    out
}

/// A string holding `s[start..end]`.
pub fn text_of(s: &Vec<char>, start: usize, end: usize) -> (r: String)
    requires
        start <= end <= s@.len(),
    ensures
        r@ == s@.subrange(start as int, end as int),
{
    let mut out = String::new();
    let mut i = start;
    while i < end
        invariant
            start <= i <= end <= s@.len(),
            out@ == s@.subrange(start as int, i as int),
        decreases end - i,
    {
        push_char(&mut out, s[i]);
        assert(out@ =~= s@.subrange(start as int, i + 1));
        i += 1;
    }
    out
}

} // verus!
