use vstd::prelude::*;
use std::collections::VecDeque;
use crate::parser::{Outcome, StreamParser};

verus! {

/// Why a sequence of values stopped.
#[derive(Clone, Debug, PartialEq, Eq)]
pub enum StreamEnd<E> {
    /// The source ran dry while the parser still wanted more input.
    Exhausted,
    /// The parser reported a soft error.
    Rejected,
    /// The parser reported a hard failure.
    Malformed,
    /// The source reported an error.
    SourceFailed(E),
}

/// What one step of the drive loop asks of its caller.
#[derive(Clone, Debug, PartialEq, Eq)]
pub enum Step<O> {
    /// A value was parsed; the engine is ready to parse again at once.
    Ready(O),
    /// The buffer holds an incomplete value: feed the next source item.
    NeedInput,
    /// The sequence has ended; nothing more will be parsed or pulled.
    Finished,
}

/// The views of the chunks of a source, errors kept as they are.
pub open spec fn chunk_views<E>(items: Seq<Result<Vec<u8>, E>>) -> Seq<Result<Seq<u8>, E>> {
    items.map_values(|r: Result<Vec<u8>, E>|
        match r {
            Ok(c) => Ok(c@),
            Err(e) => Err(e),
        }
    )
}

/// The values (their views) that driving `p` over the buffer `buf` and then the
/// source items `chunks` produces, and why the sequence ends.
pub open spec fn drive<P: StreamParser, E>(p: P, buf: Seq<u8>, chunks: Seq<Result<Seq<u8>, E>>) -> (
    Seq<<P::Output as View>::V>,
    StreamEnd<E>,
)
    decreases chunks.len(), buf.len(),
{
    match p.parse_spec(buf) {
        Outcome::Success { consumed, value } => {
            if 1 <= consumed <= buf.len() {
                let rest = drive(p, buf.subrange(consumed as int, buf.len() as int), chunks);
                (seq![value] + rest.0, rest.1)
            } else {
                (seq![], StreamEnd::Malformed)
            }
        },
        Outcome::Incomplete { .. } => {
            if chunks.len() == 0 {
                (seq![], StreamEnd::Exhausted)
            } else {
                match chunks[0] {
                    Ok(c) => drive(p, buf + c, chunks.drop_first()),
                    Err(e) => (seq![], StreamEnd::SourceFailed(e)),
                }
            }
        },
        Outcome::SoftError => (seq![], StreamEnd::Rejected),
        Outcome::HardFailure => (seq![], StreamEnd::Malformed),
    }
}

/// How one step of the drive loop moves an engine from `before` to `after`,
/// answering `r`.
pub open spec fn stepped<P: StreamParser, E>(
    before: NomStream<P, E>,
    after: NomStream<P, E>,
    r: Step<P::Output>,
) -> bool {
    &&& after.parser() == before.parser()
    &&& before.ending() is Some ==> r is Finished && after == before
    &&& before.ending() is None ==> match before.parser().parse_spec(before.buffered()) {
        Outcome::Success { consumed, value } => {
            &&& 1 <= consumed <= before.buffered().len()
            &&& r matches Step::Ready(v) && v@ == value
            &&& after.ending() is None
            &&& after.buffered() == before.buffered().subrange(
                consumed as int,
                before.buffered().len() as int,
            )
        },
        Outcome::Incomplete { .. } => r is NeedInput && after == before,
        Outcome::SoftError => r is Finished && after.ending() == Some(StreamEnd::<E>::Rejected),
        Outcome::HardFailure => r is Finished && after.ending() == Some(StreamEnd::<E>::Malformed),
    }
}

/// How an engine takes the source item `item`, moving from `before` to `after`.
pub open spec fn fed<P: StreamParser, E>(
    before: NomStream<P, E>,
    after: NomStream<P, E>,
    item: Option<Result<Vec<u8>, E>>,
) -> bool {
    &&& after.parser() == before.parser()
    &&& before.ending() is Some ==> after == before
    &&& before.ending() is None ==> match item {
        Some(Ok(c)) => after.ending() is None && after.buffered() == before.buffered() + c@,
        Some(Err(e)) => after.ending() == Some(StreamEnd::SourceFailed(e)),
        None => after.ending() == Some(StreamEnd::<E>::Exhausted),
    }
}

/// The drive engine in sequence mode: a parser, the input not yet consumed,
/// and whether the sequence has ended.
pub struct NomStream<P, E> {
    parser: P,
    buffer: Vec<u8>,
    ended: Option<StreamEnd<E>>,
}

impl<P: StreamParser, E> NomStream<P, E> {
    /// The parser, fixed for the engine's lifetime.
    pub closed spec fn parser(&self) -> P {
        self.parser
    }

    /// The input received and not yet consumed.
    pub closed spec fn buffered(&self) -> Seq<u8> {
        self.buffer@
    }

    /// Why the sequence ended, once it has.
    pub closed spec fn ending(&self) -> Option<StreamEnd<E>> {
        self.ended
    }

    /// The values still to come, and why they stop, when the rest of the
    /// input is the source items `chunks`.
    pub open spec fn outputs(&self, chunks: Seq<Result<Seq<u8>, E>>) -> (
        Seq<<P::Output as View>::V>,
        StreamEnd<E>,
    ) {
        match self.ending() {
            Some(e) => (seq![], e),
            None => drive(self.parser(), self.buffered(), chunks),
        }
    }

    /// An engine with an empty buffer.
    pub fn new(parser: P) -> (s: Self)
        ensures
            s.parser() == parser,
            s.buffered() == Seq::<u8>::empty(),
            s.ending() is None,
    {
        NomStream { parser, buffer: Vec::new(), ended: None }
    }

    /// An engine whose buffer starts with input already read.
    pub fn new_with_buffer(parser: P, buffer: Vec<u8>) -> (s: Self)
        ensures
            s.parser() == parser,
            s.buffered() == buffer@,
            s.ending() is None,
    {
        NomStream { parser, buffer, ended: None }
    }

    /// Whether the sequence has ended.
    pub fn is_ended(&self) -> (r: bool)
        ensures
            r == self.ending() is Some,
    {
        self.ended.is_some()
    }

    /// Why the sequence ended, if it has.
    pub fn end_reason(&self) -> (r: Option<&StreamEnd<E>>)
        ensures
            r is Some <==> self.ending() is Some,
            r is Some ==> self.ending() == Some(*r->0),
    {
        self.ended.as_ref()
    }

    /// Gives up the engine, handing back why the sequence ended, if it has.
    pub fn into_ending(self) -> (r: Option<StreamEnd<E>>)
        ensures
            r == self.ending(),
    {
        self.ended
    }

    /// Runs the parser once on the buffer. A success drops the consumed
    /// prefix; an error ends the sequence; an ended engine does nothing.
    pub fn poll_step(&mut self) -> (r: Step<P::Output>)
        ensures
            stepped(*old(self), *final(self), r),
    {
        if self.ended.is_some() {
            return Step::Finished;
        }
        proof {
            assert(self.buffer@.len() == self.buffer.len());
            self.parser.lemma_streaming(self.buffer@, Seq::<u8>::empty());
        }
        match self.parser.parse(self.buffer.as_slice()) {
            Outcome::Success { consumed, value } => {
                let rest = self.buffer.split_off(consumed);
                self.buffer = rest;
                Step::Ready(value)
            },
            Outcome::Incomplete { .. } => Step::NeedInput,
            Outcome::SoftError => {
                self.ended = Some(StreamEnd::Rejected);
                Step::Finished
            },
            Outcome::HardFailure => {
                self.ended = Some(StreamEnd::Malformed);
                Step::Finished
            },
        }
    }

    /// Hands the engine what the source yielded: a chunk is appended to the
    /// buffer, an error or the end of the source ends the sequence. An ended
    /// engine ignores it.
    pub fn feed(&mut self, item: Option<Result<Vec<u8>, E>>)
        ensures
            fed(*old(self), *final(self), item),
    {
        if self.ended.is_some() {
            return;
        }
        match item {
            Some(Ok(c)) => {
                let mut c = c;
                self.buffer.append(&mut c);
            },
            Some(Err(e)) => {
                self.ended = Some(StreamEnd::SourceFailed(e));
            },
            None => {
                self.ended = Some(StreamEnd::Exhausted);
            },
        }
    }
    /// Produces the next value, pulling chunks from the front of `source` as
    /// the parser asks for them. Once the sequence has ended this returns
    /// `None` again and again, touching neither the parser nor the source.
    pub fn pull(&mut self, source: &mut VecDeque<Result<Vec<u8>, E>>) -> (r: Option<P::Output>)
        ensures
            final(self).parser() == old(self).parser(),
            old(self).ending() is Some ==> {
                &&& r is None
                &&& *final(self) == *old(self)
                &&& final(source)@ == old(source)@
            },
            ({
                let (vs, end) = old(self).outputs(chunk_views(old(source)@));
                if vs.len() > 0 {
                    &&& r matches Some(v) && v@ == vs[0]
                    &&& final(self).ending() is None
                    &&& final(self).outputs(chunk_views(final(source)@)) == (vs.drop_first(), end)
                } else {
                    &&& r is None
                    &&& final(self).ending() == Some(end)
                }
            }),
            exists|n: int|
                0 <= n <= old(source)@.len()
                    && final(source)@ == old(source)@.subrange(n, old(source)@.len() as int),
    {
        let ghost start = self.outputs(chunk_views(source@));
        let ghost src0 = source@;
        let ghost me0 = *old(self);
        proof {
            assert(src0.subrange(0, src0.len() as int) =~= src0);
        }
        loop
            invariant
                me0 == *old(self),
                src0 == old(source)@,
                self.parser() == me0.parser(),
                self.outputs(chunk_views(source@)) == start,
                start == me0.outputs(chunk_views(src0)),
                me0.ending() is Some ==> *self == me0 && source@ == src0,
                exists|n: int| 0 <= n <= src0.len() && source@ == src0.subrange(n, src0.len() as int),
            decreases source@.len() + if self.ending() is None { 1int } else { 0int },
        {
            let ghost items = source@;
            match self.poll_step() {
                Step::Ready(v) => {
                    proof {
                        let rest = drive(self.parser(), self.buffered(), chunk_views(source@));
                        assert(start.0 == seq![v@] + rest.0);
                        assert(start.0.drop_first() =~= rest.0);
                    }
                    return Some(v);
                },
                Step::Finished => {
                    return None;
                },
                Step::NeedInput => {
                    let item = source.pop_front();
                    proof {
                        if items.len() > 0 {
                            assert(chunk_views(source@) =~= chunk_views(items).drop_first());
                            let n = choose|n: int| 0 <= n <= src0.len() && items == src0.subrange(n, src0.len() as int);
                            assert(source@ =~= src0.subrange(n + 1, src0.len() as int));
                        }
                    }
                    self.feed(item);
                },
            }
        }
    }
}

/// The drive engine in single-value mode: it stops at the first value, and
/// reports every way of not reaching one as a failure.
pub struct NomFuture<P, E> {
    engine: NomStream<P, E>,
}

impl<P: StreamParser, E> NomFuture<P, E> {
    /// The engine that does the work.
    pub closed spec fn engine(&self) -> NomStream<P, E> {
        self.engine
    }

    /// A future with an empty buffer.
    pub fn new(parser: P) -> (f: Self)
        ensures
            f.engine().parser() == parser,
            f.engine().buffered() == Seq::<u8>::empty(),
            f.engine().ending() is None,
    {
        NomFuture { engine: NomStream::new(parser) }
    }

    /// A future whose buffer starts with input already read.
    pub fn new_with_buffer(parser: P, buffer: Vec<u8>) -> (f: Self)
        ensures
            f.engine().parser() == parser,
            f.engine().buffered() == buffer@,
            f.engine().ending() is None,
    {
        NomFuture { engine: NomStream::new_with_buffer(parser, buffer) }
    }

    /// One step of the drive loop, as [`NomStream::poll_step`] takes it.
    pub fn poll_step(&mut self) -> (r: Step<P::Output>)
        ensures
            stepped(old(self).engine(), final(self).engine(), r),
    {
        self.engine.poll_step()
    }

    /// Hands the future what the source yielded, as [`NomStream::feed`] takes it.
    pub fn feed(&mut self, item: Option<Result<Vec<u8>, E>>)
        ensures
            fed(old(self).engine(), final(self).engine(), item),
    {
        self.engine.feed(item)
    }

    /// Gives up the future after `poll_step` reported `Finished`, handing back
    /// why no value came.
    pub fn into_failure(self) -> (r: Option<StreamEnd<E>>)
        ensures
            r == self.engine().ending(),
    {
        self.engine.into_ending()
    }

    /// Drives the engine over `source` until the first value, which it
    /// returns. Every way of not reaching one is reported as the error: the
    /// source running dry (`Exhausted`), a parser error, or a source error.
    pub fn resolve(self, source: &mut VecDeque<Result<Vec<u8>, E>>) -> (r: Result<P::Output, StreamEnd<E>>)
        ensures
            ({
                let (vs, end) = self.engine().outputs(chunk_views(old(source)@));
                if vs.len() > 0 {
                    r matches Ok(v) && v@ == vs[0]
                } else {
                    r == Err::<P::Output, StreamEnd<E>>(end)
                }
            }),
    {
        let mut engine = self.engine;
        match engine.pull(source) {
            Some(v) => Ok(v),
            None => {
                match engine.into_ending() {
                    Some(e) => Err(e),
                    None => Err(StreamEnd::Exhausted),
                }
            },
        }
    }
}

} // verus!
