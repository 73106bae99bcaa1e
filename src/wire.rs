use vstd::prelude::*;
use vstd::string::{StringSliceAdditionalSpecFns, StrSliceExecFns};

verus! {

/// The bytes that carry one command line: the line's UTF-8 bytes, then CR LF.
pub fn frame_line(line: &str) -> (r: Vec<u8>)
    ensures
        r@ == line.spec_bytes() + seq![13u8, 10u8],
{
    let mut r = line.as_bytes_vec();
    r.push(13u8);
    r.push(10u8);
    proof {
        assert(r@ =~= line.spec_bytes() + seq![13u8, 10u8]);
    }
    r
}

/// What one read from the connection produced.
#[derive(Clone, Copy, Debug, PartialEq, Eq, Structural)]
pub enum ReadEvent {
    /// One byte arrived.
    Byte(u8),
    /// The device reported end of input; no terminator can follow.
    Closed,
    /// The read timeout elapsed with no byte.
    TimedOut,
    /// The read failed for another reason.
    Failed,
}

/// How a line read ended.
#[derive(Clone, Debug, PartialEq, Eq)]
pub enum LineRead {
    /// A complete line, with CR and LF removed.
    Line(Vec<u8>),
    /// No terminator arrived within the read timeout (or before end of input).
    TimedOut,
    /// The read failed.
    Failed,
}

/// Model of a finished line read.
pub enum LineReadModel {
    Line(Seq<u8>),
    TimedOut,
    Failed,
}

/// Accumulates the bytes of one response line, byte by byte.
pub struct LineReader {
    buf: Vec<u8>,
}

/// The bytes kept of a run of received bytes: all of them but CR.
pub open spec fn strip_cr(b: Seq<u8>) -> Seq<u8>
    decreases b.len(),
{
    if b.len() == 0 {
        b
    } else if b.last() == 13u8 {
        strip_cr(b.drop_last())
    } else {
        strip_cr(b.drop_last()).push(b.last())
    }
}

/// One step of a line read: the bytes kept so far and an event give either the
/// bytes kept afterwards or the end of the read.
pub open spec fn read_step(kept: Seq<u8>, ev: ReadEvent) -> Result<Seq<u8>, LineReadModel> {
    match ev {
        ReadEvent::Byte(b) => if b == 10u8 {
            Err(LineReadModel::Line(kept))
        } else if b == 13u8 {
            Ok(kept)
        } else {
            Ok(kept.push(b))
        },
        ReadEvent::Closed => Err(LineReadModel::TimedOut),
        ReadEvent::TimedOut => Err(LineReadModel::TimedOut),
        ReadEvent::Failed => Err(LineReadModel::Failed),
    }
}

/// The outcome of feeding `evs` to a fresh reader, with the bytes kept so far
/// `kept`: `None` while the read has not ended.
pub open spec fn read_outcome(kept: Seq<u8>, evs: Seq<ReadEvent>) -> Option<LineReadModel>
    decreases evs.len(),
{
    if evs.len() == 0 {
        None
    } else {
        match read_step(kept, evs[0]) {
            Ok(k) => read_outcome(k, evs.drop_first()),
            Err(m) => Some(m),
        }
    }
}

/// The view of a finished read.
pub open spec fn line_read_model(r: LineRead) -> LineReadModel {
    match r {
        LineRead::Line(b) => LineReadModel::Line(b@),
        LineRead::TimedOut => LineReadModel::TimedOut,
        LineRead::Failed => LineReadModel::Failed,
    }
}

impl LineReader {
    /// The bytes kept so far.
    pub closed spec fn kept(&self) -> Seq<u8> {
        self.buf@
    }

    /// A reader that has received nothing.
    pub fn new() -> (r: LineReader)
        ensures
            r.kept() == Seq::<u8>::empty(),
    {
        LineReader { buf: Vec::new() }
    }

    /// Takes one read event. Returns the finished read once a LF arrives, the
    /// device closes, the timeout elapses or the read fails; otherwise `None`.
    /// A read that ends without a LF is a timeout, never a partial line.
    pub fn feed(&mut self, ev: ReadEvent) -> (r: Option<LineRead>)
        ensures
            match read_step(old(self).kept(), ev) {
                Ok(k) => r is None && final(self).kept() == k,
                Err(m) => r is Some && line_read_model(r->Some_0) == m,
            },
    {
        match ev {
            ReadEvent::Byte(b) => {
                if b == 10u8 {
                    Some(LineRead::Line(self.buf.clone()))
                } else if b == 13u8 {
                    None
                } else {
                    self.buf.push(b);
                    None
                }
            },
            ReadEvent::Closed => Some(LineRead::TimedOut),
            ReadEvent::TimedOut => Some(LineRead::TimedOut),
            ReadEvent::Failed => Some(LineRead::Failed),
        }
    }
}

/// Index of the first LF in `b`, or its length when there is none.
pub open spec fn first_lf(b: Seq<u8>) -> nat
    decreases b.len(),
{
    if b.len() == 0 {
        0
    } else if b[0] == 10u8 {
        0
    } else {
        1 + first_lf(b.drop_first())
    }
}

/// Byte events for a run of bytes.
pub open spec fn byte_events(b: Seq<u8>) -> Seq<ReadEvent> {
    b.map_values(|x: u8| ReadEvent::Byte(x))
}

proof fn lemma_strip_cr_push(b: Seq<u8>, x: u8)
    ensures
        strip_cr(b.push(x)) == if x == 13u8 { strip_cr(b) } else { strip_cr(b).push(x) },
{
    assert(b.push(x).drop_last() =~= b);
}

proof fn lemma_read_bytes(kept: Seq<u8>, done: Seq<u8>, rest: Seq<u8>, tail: Seq<ReadEvent>)
    requires
        kept == strip_cr(done),
        forall|i: int| 0 <= i < rest.len() ==> rest[i] != 10u8,
    ensures
        read_outcome(kept, byte_events(rest) + tail) == read_outcome(strip_cr(done + rest), tail),
    decreases rest.len(),
{
    if rest.len() == 0 {
        assert(byte_events(rest) + tail =~= tail);
        assert(done + rest =~= done);
    } else {
        let x = rest[0];
        let evs = byte_events(rest) + tail;
        assert(evs[0] == ReadEvent::Byte(x));
        assert(evs.drop_first() =~= byte_events(rest.drop_first()) + tail);
        lemma_strip_cr_push(done, x);
        assert(done.push(x) + rest.drop_first() =~= done + rest);
        lemma_read_bytes(strip_cr(done.push(x)), done.push(x), rest.drop_first(), tail);
    }
}

/// A line read ends at the first LF: it returns exactly the bytes before that LF,
/// with every CR removed, whatever follows it.
pub proof fn lemma_read_ends_at_first_lf(b: Seq<u8>, tail: Seq<ReadEvent>)
    requires
        first_lf(b) < b.len(),
    ensures
        read_outcome(Seq::empty(), byte_events(b) + tail) == Some(
            LineReadModel::Line(strip_cr(b.take(first_lf(b) as int))),
        ),
{
    let k = first_lf(b) as int;
    lemma_first_lf(b);
    let evs = byte_events(b) + tail;
    let rest_evs = byte_events(b.skip(k)) + tail;
    assert(evs =~= byte_events(b.take(k)) + rest_evs);
    assert(strip_cr(Seq::<u8>::empty()) == Seq::<u8>::empty());
    lemma_read_bytes(Seq::empty(), Seq::empty(), b.take(k), rest_evs);
    assert(Seq::<u8>::empty() + b.take(k) =~= b.take(k));
    assert(rest_evs[0] == ReadEvent::Byte(10u8));
}

/// When no LF arrives before the timeout elapses (or before the device reports
/// end of input), a line read ends in a timeout, never in a partial line.
pub proof fn lemma_read_times_out(b: Seq<u8>, end: ReadEvent, tail: Seq<ReadEvent>)
    requires
        first_lf(b) == b.len(),
        end == ReadEvent::TimedOut || end == ReadEvent::Closed,
    ensures
        read_outcome(Seq::empty(), byte_events(b) + seq![end] + tail) == Some(
            LineReadModel::TimedOut,
        ),
{
    lemma_first_lf(b);
    let rest = seq![end] + tail;
    assert(byte_events(b) + seq![end] + tail =~= byte_events(b) + rest);
    assert(strip_cr(Seq::<u8>::empty()) == Seq::<u8>::empty());
    lemma_read_bytes(Seq::empty(), Seq::empty(), b, rest);
    assert(rest[0] == end);
}

proof fn lemma_first_lf(b: Seq<u8>)
    ensures
        first_lf(b) <= b.len(),
        forall|i: int| 0 <= i < first_lf(b) ==> b[i] != 10u8,
        first_lf(b) < b.len() ==> b[first_lf(b) as int] == 10u8,
    decreases b.len(),
{
    if b.len() > 0 && b[0] != 10u8 {
        lemma_first_lf(b.drop_first());
        assert forall|i: int| 0 <= i < first_lf(b) implies b[i] != 10u8 by {
            if i > 0 {
                assert(b[i] == b.drop_first()[i - 1]);
            }
        }
    }
}

} // verus!
