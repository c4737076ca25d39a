//! Small things that the standard library and the random number generator do
//! for the library.
use vstd::prelude::*;
use rand::Rng;

verus! {

/// `String::push` appends the given character to the end of the string.
#[verifier::external_body]
pub(crate) fn push_char(s: &mut String, c: char)
    ensures
        final(s)@ == old(s)@.push(c),
{
    s.push(c);
}

/// `thread_rng` gives the generator of the thread, and `gen_range` a number of
/// the range that it is given, which must not be empty.
#[verifier::external_body]
pub(crate) fn random_below(n: usize) -> (r: usize)
    requires
        n > 0,
    ensures
        r < n,
{
    rand::thread_rng().gen_range(0..n)
}

} // verus!
