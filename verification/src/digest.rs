//! Message digests over a firmware image that arrives in pieces.

use vstd::prelude::*;

verus! {

/// A message digest that takes its message in pieces.
///
/// A verified implementation says, by its own `absorbed`, `digest_of` and `output_size`, what it
/// has taken in and what it makes of a message. The defaults do not serve it: each is one fixed
/// value, and a message that never changes cannot meet `update`. An implementation outside the
/// proof leaves them out, and is trusted as if it gave all three.
pub trait Digest: Sized {
    /// The message taken in so far.
    open spec fn absorbed(&self) -> Seq<u8> {
        arbitrary()
    }

    /// The digest of a whole message.
    open spec fn digest_of(message: Seq<u8>) -> Seq<u8> {
        arbitrary()
    }

    /// The number of bytes in a digest.
    open spec fn output_size() -> nat {
        arbitrary()
    }

    /// A digest that has taken in nothing.
    fn new() -> (result: Self)
        ensures
            result.absorbed() == Seq::<u8>::empty(),
    ;

    /// Takes in the next piece of the message.
    fn update(&mut self, data: &[u8])
        requires
            old(self).absorbed().len() + data@.len() <= usize::MAX,
        ensures
            final(self).absorbed() == old(self).absorbed() + data@,
    ;

    /// The digest of what was taken in.
    fn finalize(self) -> (output: Vec<u8>)
        ensures
            output@ == Self::digest_of(self.absorbed()),
            output@.len() == Self::output_size(),
    ;
}

} // verus!
