use vstd::prelude::*;
use crate::parser::{Outcome, StreamParser};
use crate::engine::{drive, StreamEnd};

verus! {

/// The chunks joined end to end.
pub open spec fn concat(chunks: Seq<Seq<u8>>) -> Seq<u8>
    decreases chunks.len(),
{
    if chunks.len() == 0 {
        Seq::empty()
    } else {
        chunks[0] + concat(chunks.drop_first())
    }
}

/// A source that yields exactly `chunks`, with no error.
pub open spec fn ok_chunks<E>(chunks: Seq<Seq<u8>>) -> Seq<Result<Seq<u8>, E>> {
    chunks.map_values(|c: Seq<u8>| Ok(c))
}

/// What parsing the whole of `input` at once gives: the values, and why
/// parsing stops.
pub open spec fn parse_all<P: StreamParser, E>(p: P, input: Seq<u8>) -> (
    Seq<<P::Output as View>::V>,
    StreamEnd<E>,
) {
    drive(p, input, Seq::empty())
}

/// Driving over a buffer and then a run of chunks gives what driving over the
/// buffer with the chunks already appended gives.
pub proof fn lemma_drive_flattens<P: StreamParser, E>(p: P, buf: Seq<u8>, chunks: Seq<Seq<u8>>)
    requires
        buf.len() + concat(chunks).len() <= usize::MAX,
    ensures
        drive(p, buf, ok_chunks::<E>(chunks)) == parse_all::<P, E>(p, buf + concat(chunks)),
    decreases chunks.len(), buf.len(),
{
    let all = buf + concat(chunks);
    p.lemma_streaming(buf, concat(chunks));
    p.lemma_streaming(all, Seq::empty());
    match p.parse_spec(buf) {
        Outcome::Success { consumed, value } => {
            let k = consumed as int;
            lemma_drive_flattens::<P, E>(p, buf.subrange(k, buf.len() as int), chunks);
            assert(all.subrange(k, all.len() as int) =~= buf.subrange(k, buf.len() as int) + concat(
                chunks,
            ));
        },
        Outcome::Incomplete { .. } => {
            if chunks.len() == 0 {
                assert(all =~= buf);
            } else {
                let rest = chunks.drop_first();
                assert(ok_chunks::<E>(chunks)[0] == Ok::<Seq<u8>, E>(chunks[0]));
                assert(ok_chunks::<E>(chunks).drop_first() =~= ok_chunks::<E>(rest));
                lemma_drive_flattens::<P, E>(p, buf + chunks[0], rest);
                assert(buf + chunks[0] + concat(rest) =~= all);
            }
        },
        _ => {},
    }
}

/// Driving the engine from an empty buffer over a source that yields the
/// chunks `chunks` gives the same values, ending for the same reason, as
/// parsing their concatenation at once, however the input is split.
pub proof fn lemma_concatenation_equivalence<P: StreamParser, E>(p: P, chunks: Seq<Seq<u8>>)
    requires
        concat(chunks).len() <= usize::MAX,
    ensures
        drive(p, Seq::empty(), ok_chunks::<E>(chunks)) == parse_all::<P, E>(p, concat(chunks)),
{
    lemma_drive_flattens::<P, E>(p, Seq::empty(), chunks);
    assert(Seq::<u8>::empty() + concat(chunks) =~= concat(chunks));
}

/// Two ways of splitting the same input into chunks (one of them may be a
/// single chunk) give the same values and the same ending.
pub proof fn lemma_chunk_boundary_invariance<P: StreamParser, E>(
    p: P,
    a: Seq<Seq<u8>>,
    b: Seq<Seq<u8>>,
)
    requires
        concat(a) == concat(b),
        concat(a).len() <= usize::MAX,
    ensures
        drive(p, Seq::empty(), ok_chunks::<E>(a)) == drive(p, Seq::empty(), ok_chunks::<E>(b)),
{
    lemma_concatenation_equivalence::<P, E>(p, a);
    lemma_concatenation_equivalence::<P, E>(p, b);
}

proof fn lemma_concat_of_empty_chunks(chunks: Seq<Seq<u8>>)
    requires
        forall|i: int| 0 <= i < chunks.len() ==> #[trigger] chunks[i].len() == 0,
    ensures
        concat(chunks) == Seq::<u8>::empty(),
    decreases chunks.len(),
{
    if chunks.len() > 0 {
        let rest = chunks.drop_first();
        assert forall|i: int| 0 <= i < rest.len() implies #[trigger] rest[i].len() == 0 by {
            assert(rest[i] == chunks[i + 1]);
        }
        lemma_concat_of_empty_chunks(rest);
        assert(chunks[0] + concat(rest) =~= Seq::<u8>::empty());
    }
}

/// With nothing buffered, a source that yields only empty chunks and then
/// runs dry gives no value and ends gracefully, for a parser that asks for
/// more input when shown nothing.
pub proof fn lemma_graceful_end<P: StreamParser, E>(p: P, chunks: Seq<Seq<u8>>)
    requires
        p.parse_spec(Seq::empty()) is Incomplete,
        forall|i: int| 0 <= i < chunks.len() ==> #[trigger] chunks[i].len() == 0,
    ensures
        drive(p, Seq::empty(), ok_chunks::<E>(chunks)) == (
            Seq::<<P::Output as View>::V>::empty(),
            StreamEnd::<E>::Exhausted,
        ),
{
    lemma_concat_of_empty_chunks(chunks);
    lemma_concatenation_equivalence::<P, E>(p, chunks);
    assert(drive(p, Seq::<u8>::empty(), Seq::<Result<Seq<u8>, E>>::empty()).0 =~= Seq::empty());
}

/// Once the parser reports a hard failure, no value follows, whatever the
/// source still holds.
pub proof fn lemma_malformed_input_ends<P: StreamParser, E>(
    p: P,
    buf: Seq<u8>,
    chunks: Seq<Result<Seq<u8>, E>>,
)
    requires
        p.parse_spec(buf) is HardFailure,
    ensures
        drive(p, buf, chunks) == (
            Seq::<<P::Output as View>::V>::empty(),
            StreamEnd::<E>::Malformed,
        ),
{
}

} // verus!
