use vstd::prelude::*;

verus! {

/// What a resumable parser reports for the input it was shown.
#[derive(Clone, Debug, PartialEq, Eq)]
pub enum Outcome<O> {
    /// The first `consumed` items form a value; the rest is left for later.
    Success { consumed: usize, value: O },
    /// The input is a proper prefix of something that may still parse;
    /// `needed` is a size hint (0 when unknown).
    Incomplete { needed: usize },
    /// The input is ill-formed, but not catastrophically.
    SoftError,
    /// The input is malformed beyond recovery.
    HardFailure,
}

impl<O: View> View for Outcome<O> {
    type V = Outcome<O::V>;

    open spec fn view(&self) -> Outcome<O::V> {
        match *self {
            Outcome::Success { consumed, value } => Outcome::Success { consumed, value: value@ },
            Outcome::Incomplete { needed } => Outcome::Incomplete { needed },
            Outcome::SoftError => Outcome::SoftError,
            Outcome::HardFailure => Outcome::HardFailure,
        }
    }
}

/// A resumable parser over bytes.
///
/// Its behaviour is a function of the input alone (`parse_spec`), and it is a
/// streaming parser: any answer other than `Incomplete` is final, so more input
/// appended behind a prefix cannot change it.
pub trait StreamParser {
    /// The values this parser produces.
    type Output: View;

    /// What the parser reports for `input`, over the views of its values.
    spec fn parse_spec(&self, input: Seq<u8>) -> Outcome<<Self::Output as View>::V>;

    /// Parses a prefix of `input`; never changes it.
    fn parse(&self, input: &[u8]) -> (r: Outcome<Self::Output>)
        ensures
            r@ == self.parse_spec(input@),
    ;

    /// A success consumes at least one item and no more than it was shown
    /// (otherwise a sequence could repeat one value forever), and every answer
    /// but `Incomplete` stays the same when more input is appended; both for
    /// inputs that fit in memory.
    proof fn lemma_streaming(&self, input: Seq<u8>, more: Seq<u8>)
        requires
            input.len() + more.len() <= usize::MAX,
        ensures
            self.parse_spec(input) matches Outcome::Success { consumed, .. } ==> 1 <= consumed
                <= input.len(),
            !(self.parse_spec(input) is Incomplete) ==> self.parse_spec(input + more)
                == self.parse_spec(input),
    ;
}

} // verus!
