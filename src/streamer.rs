use vstd::prelude::*;
use crate::status::MachineState;
use crate::wire::LineRead;

verus! {

/// A response line of the controller to a sent line.
#[derive(Clone, Debug, PartialEq, Eq)]
pub enum Response {
    /// `ok`: the line was accepted.
    Acknowledged,
    /// `error:<text>`: the line was refused; holds the text after `error:`.
    Error(Vec<u8>),
    /// Any other line (a message, a status report, a banner).
    Other,
}

pub enum ResponseModel {
    Acknowledged,
    Error(Seq<u8>),
    Other,
}

/// Text `ok` as bytes.
pub open spec fn ok_bytes() -> Seq<u8> {
    seq![111u8, 107u8]
}

/// Text `error:` as bytes.
pub open spec fn error_prefix() -> Seq<u8> {
    seq![101u8, 114u8, 114u8, 111u8, 114u8, 58u8]
}

/// What a response line means.
pub open spec fn classify(line: Seq<u8>) -> ResponseModel {
    if line == ok_bytes() {
        ResponseModel::Acknowledged
    } else if line.len() >= 6 && line.take(6) == error_prefix() {
        ResponseModel::Error(line.skip(6))
    } else {
        ResponseModel::Other
    }
}

pub open spec fn response_model(r: Response) -> ResponseModel {
    match r {
        Response::Acknowledged => ResponseModel::Acknowledged,
        Response::Error(e) => ResponseModel::Error(e@),
        Response::Other => ResponseModel::Other,
    }
}

/// Classifies a response line (CR and LF already removed).
pub fn classify_response(line: &Vec<u8>) -> (r: Response)
    ensures
        response_model(r) == classify(line@),
{
    let n = line.len();
    if n == 2 && line[0] == 111u8 && line[1] == 107u8 {
        assert(line@ =~= ok_bytes());
        return Response::Acknowledged;
    }
    assert(line@ != ok_bytes());
    if n >= 6 && line[0] == 101u8 && line[1] == 114u8 && line[2] == 114u8 && line[3] == 111u8
        && line[4] == 114u8 && line[5] == 58u8 {
        assert(line@.take(6) =~= error_prefix());
        let mut rest: Vec<u8> = Vec::new();
        let mut i: usize = 6;
        while i < n
            invariant
                6 <= i <= n,
                n == line@.len(),
                rest@ =~= line@.subrange(6, i as int),
            decreases n - i,
        {
            rest.push(line[i]);
            i = i + 1;
        }
        assert(rest@ =~= line@.skip(6));
        return Response::Error(rest);
    }
    assert(!(line@.len() >= 6 && line@.take(6) == error_prefix())) by {
        if line@.len() >= 6 && line@.take(6) == error_prefix() {
            assert(line@[0] == line@.take(6)[0]);
            assert(line@[1] == line@.take(6)[1]);
            assert(line@[2] == line@.take(6)[2]);
            assert(line@[3] == line@.take(6)[3]);
            assert(line@[4] == line@.take(6)[4]);
            assert(line@[5] == line@.take(6)[5]);
        }
    }
    Response::Other
}

/// Outcome of a run: lines acknowledged, and the first error the controller reported.
#[derive(Clone, Debug, PartialEq, Eq)]
pub struct StreamResult {
    pub lines_acked: usize,
    pub error: Option<Vec<u8>>,
}

fn copy_bytes(b: &Vec<u8>) -> (r: Vec<u8>)
    ensures
        r@ == b@,
{
    let mut r: Vec<u8> = Vec::new();
    let mut i: usize = 0;
    while i < b.len()
        invariant
            i <= b@.len(),
            r@ =~= b@.take(i as int),
        decreases b@.len() - i,
    {
        r.push(b[i]);
        i = i + 1;
    }
    assert(r@ =~= b@);
    r
}

fn copy_result(r: &StreamResult) -> (c: StreamResult)
    ensures
        c.lines_acked == r.lines_acked,
        c.error is Some <==> r.error is Some,
        r.error is Some ==> c.error->Some_0@ == r.error->Some_0@,
{
    match &r.error {
        Some(e) => StreamResult { lines_acked: r.lines_acked, error: Some(copy_bytes(e)) },
        None => StreamResult { lines_acked: r.lines_acked, error: None },
    }
}

/// Why a run was cut short without a controller reply.
#[derive(Clone, Copy, Debug, PartialEq, Eq, Structural)]
pub enum StreamFailure {
    /// No reply within the per-line timeout.
    Timeout,
    /// Reading the reply failed.
    Io,
}

/// How a run ended.
pub enum OutcomeModel {
    Done(nat, Option<Seq<u8>>),
    Failed(StreamFailure),
}

/// Abstract state of a run.
pub struct StreamModel {
    pub total: nat,
    pub next: nat,
    pub acked: nat,
    pub awaiting: bool,
    pub outcome: Option<OutcomeModel>,
}

/// What the driver of a run does next.
pub enum StreamAction {
    /// Send line `i` (counting from 0), then read its reply.
    Send(usize),
    /// Read the reply to the line last sent.
    AwaitResponse,
    /// The machine is in Hold: wait for a fresh status and ask again.
    Wait,
    /// The run is over.
    Finished(Result<StreamResult, StreamFailure>),
}

pub enum ActionModel {
    Send(nat),
    AwaitResponse,
    Wait,
    Finished(OutcomeModel),
}

pub open spec fn action_model(a: StreamAction) -> ActionModel {
    match a {
        StreamAction::Send(i) => ActionModel::Send(i as nat),
        StreamAction::AwaitResponse => ActionModel::AwaitResponse,
        StreamAction::Wait => ActionModel::Wait,
        StreamAction::Finished(Ok(r)) => ActionModel::Finished(
            OutcomeModel::Done(r.lines_acked as nat, match r.error {
                Some(e) => Some(e@),
                None => None,
            }),
        ),
        StreamAction::Finished(Err(f)) => ActionModel::Finished(OutcomeModel::Failed(f)),
    }
}

/// The state of a run over `total` lines before anything was sent.
pub open spec fn stream_start(total: nat) -> StreamModel {
    StreamModel { total, next: 0, acked: 0, awaiting: false, outcome: None }
}

/// Deciding the next step from the run's state and the machine's latest state.
pub open spec fn poll_spec(m: StreamModel, st: MachineState) -> (StreamModel, ActionModel) {
    match m.outcome {
        Some(o) => (m, ActionModel::Finished(o)),
        None => if m.awaiting {
            (m, ActionModel::AwaitResponse)
        } else if st == MachineState::Hold {
            (m, ActionModel::Wait)
        } else if m.next < m.total {
            (StreamModel { next: m.next + 1, awaiting: true, ..m }, ActionModel::Send(m.next))
        } else {
            (
                StreamModel { outcome: Some(OutcomeModel::Done(m.acked, None)), ..m },
                ActionModel::Finished(OutcomeModel::Done(m.acked, None)),
            )
        },
    }
}

/// The run's state after the reply to the line last sent.
pub open spec fn reply_spec(m: StreamModel, r: ResponseModel) -> StreamModel {
    match r {
        ResponseModel::Acknowledged => StreamModel { acked: m.acked + 1, awaiting: false, ..m },
        ResponseModel::Error(e) => StreamModel {
            awaiting: false,
            outcome: Some(OutcomeModel::Done(m.acked, Some(e))),
            ..m
        },
        ResponseModel::Other => m,
    }
}

/// The run's state after a read that brought no reply.
pub open spec fn read_failed_spec(m: StreamModel, f: StreamFailure) -> StreamModel {
    StreamModel { awaiting: false, outcome: Some(OutcomeModel::Failed(f)), ..m }
}

/// Flow-controlled streaming of `total` lines: one line in flight at a time,
/// paused while the machine holds, stopped at the first error.
pub struct Streamer {
    total: usize,
    next: usize,
    acked: usize,
    awaiting: bool,
    outcome: Option<Result<StreamResult, StreamFailure>>,
}

impl Streamer {
    pub closed spec fn view(&self) -> StreamModel {
        StreamModel {
            total: self.total as nat,
            next: self.next as nat,
            acked: self.acked as nat,
            awaiting: self.awaiting,
            outcome: match self.outcome {
                Some(Ok(r)) => Some(
                    OutcomeModel::Done(r.lines_acked as nat, match r.error {
                        Some(e) => Some(e@),
                        None => None,
                    }),
                ),
                Some(Err(f)) => Some(OutcomeModel::Failed(f)),
                None => None,
            },
        }
    }

    pub closed spec fn wf(&self) -> bool {
        &&& self.next <= self.total
        &&& self.acked <= self.next
        &&& self.outcome is None ==> self.acked + (if self.awaiting { 1int } else { 0 }) == self.next
        &&& self.outcome is Some ==> !self.awaiting
    }

    /// A run over `total` lines.
    pub fn new(total: usize) -> (s: Streamer)
        ensures
            s.wf(),
            s@ == stream_start(total as nat),
    {
        Streamer { total, next: 0, acked: 0, awaiting: false, outcome: None }
    }

    /// Whether the driver must read a reply before asking for the next step.
    pub fn is_awaiting(&self) -> (r: bool)
        ensures
            r == self@.awaiting,
    {
        self.awaiting
    }

    /// Decides the next step given the machine's latest state.
    pub fn poll(&mut self, st: MachineState) -> (a: StreamAction)
        requires
            old(self).wf(),
        ensures
            final(self).wf(),
            (final(self)@, action_model(a)) == poll_spec(old(self)@, st),
    {
        match &self.outcome {
            Some(Ok(r)) => {
                return StreamAction::Finished(Ok(copy_result(r)));
            },
            Some(Err(f)) => {
                return StreamAction::Finished(Err(*f));
            },
            None => {},
        }
        if self.awaiting {
            StreamAction::AwaitResponse
        } else if st == MachineState::Hold {
            StreamAction::Wait
        } else if self.next < self.total {
            let i = self.next;
            self.next = self.next + 1;
            self.awaiting = true;
            StreamAction::Send(i)
        } else {
            self.outcome = Some(Ok(StreamResult { lines_acked: self.acked, error: None }));
            StreamAction::Finished(Ok(StreamResult { lines_acked: self.acked, error: None }))
        }
    }

    /// Takes the reply to the line last sent.
    pub fn on_response(&mut self, r: Response)
        requires
            old(self).wf(),
            old(self)@.awaiting,
        ensures
            final(self).wf(),
            final(self)@ == reply_spec(old(self)@, response_model(r)),
    {
        match r {
            Response::Acknowledged => {
                self.acked = self.acked + 1;
                self.awaiting = false;
            },
            Response::Error(e) => {
                self.awaiting = false;
                self.outcome = Some(Ok(StreamResult { lines_acked: self.acked, error: Some(e) }));
            },
            Response::Other => {},
        }
    }

    /// Takes the result of reading a reply: a line is classified, a timeout or a
    /// failed read ends the run.
    pub fn on_read(&mut self, read: &LineRead)
        requires
            old(self).wf(),
            old(self)@.awaiting,
        ensures
            final(self).wf(),
            final(self)@ == match read {
                LineRead::Line(b) => reply_spec(old(self)@, classify(b@)),
                LineRead::TimedOut => read_failed_spec(old(self)@, StreamFailure::Timeout),
                LineRead::Failed => read_failed_spec(old(self)@, StreamFailure::Io),
            },
    {
        match read {
            LineRead::Line(b) => {
                let r = classify_response(b);
                self.on_response(r);
            },
            LineRead::TimedOut => {
                self.awaiting = false;
                self.outcome = Some(Err(StreamFailure::Timeout));
            },
            LineRead::Failed => {
                self.awaiting = false;
                self.outcome = Some(Err(StreamFailure::Io));
            },
        }
    }
}

/// The run's state after `k` lines were each sent and acknowledged, the machine
/// never holding.
pub open spec fn after_acks(total: nat, k: nat, st: MachineState) -> StreamModel
    decreases k,
{
    if k == 0 {
        stream_start(total)
    } else {
        reply_spec(poll_spec(after_acks(total, (k - 1) as nat, st), st).0, ResponseModel::Acknowledged)
    }
}

proof fn lemma_after_acks(total: nat, k: nat, st: MachineState)
    requires
        k <= total,
        st != MachineState::Hold,
    ensures
        after_acks(total, k, st) == (StreamModel {
            total,
            next: k,
            acked: k,
            awaiting: false,
            outcome: None,
        }),
    decreases k,
{
    if k > 0 {
        lemma_after_acks(total, (k - 1) as nat, st);
    }
}

/// When the controller acknowledges every one of `n` lines, the run ends with
/// all `n` acknowledged and no error.
pub proof fn lemma_all_acked(n: nat, st: MachineState)
    requires
        st != MachineState::Hold,
    ensures
        poll_spec(after_acks(n, n, st), st).1 == ActionModel::Finished(OutcomeModel::Done(n, None)),
{
    lemma_after_acks(n, n, st);
}

/// When the reply to line `k + 1` is an error, the run ends with `k` lines
/// acknowledged and that error, `k + 1` lines sent, and no line is sent after it
/// whatever the machine's state.
pub proof fn lemma_stops_at_first_error(n: nat, k: nat, st: MachineState, e: Seq<u8>, later: MachineState)
    requires
        k < n,
        st != MachineState::Hold,
    ensures
        ({
            let sent = poll_spec(after_acks(n, k, st), st);
            let m = reply_spec(sent.0, ResponseModel::Error(e));
            &&& sent.1 == ActionModel::Send(k)
            &&& m.next == k + 1
            &&& poll_spec(m, later) == (m, ActionModel::Finished(OutcomeModel::Done(k, Some(e))))
        }),
{
    lemma_after_acks(n, k, st);
}

/// While the machine holds, a run between lines sends nothing and its state
/// stays as it was.
pub proof fn lemma_hold_sends_nothing(m: StreamModel)
    requires
        m.outcome is None,
        !m.awaiting,
    ensures
        poll_spec(m, MachineState::Hold) == (m, ActionModel::Wait),
{
}

/// Once the machine leaves Hold, a run resumes with the first line not yet sent:
/// none is sent twice and none is skipped.
pub proof fn lemma_resume_after_hold(m: StreamModel, st: MachineState)
    requires
        m.outcome is None,
        !m.awaiting,
        m.next < m.total,
        st != MachineState::Hold,
    ensures
        poll_spec(poll_spec(m, MachineState::Hold).0, st).1 == ActionModel::Send(m.next),
        poll_spec(poll_spec(m, MachineState::Hold).0, st).0.next == m.next + 1,
{
}

/// What a run's driver sees: the machine's latest state when asking for the next
/// step, or a reply line.
pub enum StreamEvent {
    Poll(MachineState),
    Reply(ResponseModel),
}

/// One event applied to a run: the new state, the line sent (if any), and whether
/// an acknowledgement was taken.
pub open spec fn event_step(m: StreamModel, e: StreamEvent) -> (StreamModel, Option<nat>, bool) {
    match e {
        StreamEvent::Poll(st) => {
            let (m2, a) = poll_spec(m, st);
            (m2, match a {
                ActionModel::Send(i) => Some(i),
                _ => None,
            }, false)
        },
        StreamEvent::Reply(r) => if m.awaiting {
            (reply_spec(m, r), None, r is Acknowledged)
        } else {
            (m, None, false)
        },
    }
}

/// A run over `total` lines driven by `evs`: its state, the lines sent in order,
/// and the number of acknowledgements taken.
pub open spec fn run_events(total: nat, evs: Seq<StreamEvent>) -> (StreamModel, Seq<nat>, nat)
    decreases evs.len(),
{
    if evs.len() == 0 {
        (stream_start(total), Seq::empty(), 0)
    } else {
        let (m, sent, oks) = run_events(total, evs.drop_last());
        let (m2, s, ok) = event_step(m, evs.last());
        (m2, match s {
            Some(i) => sent.push(i),
            None => sent,
        }, oks + if ok { 1nat } else { 0nat })
    }
}

/// The lines `0, 1, ..., n - 1`.
pub open spec fn first_lines(n: nat) -> Seq<nat> {
    Seq::new(n, |i: int| i as nat)
}

pub open spec fn has_error_reply(evs: Seq<StreamEvent>, e: Seq<u8>) -> bool {
    exists|i: int| 0 <= i < evs.len() && evs[i] == StreamEvent::Reply(ResponseModel::Error(e))
}

pub open spec fn no_error_reply(evs: Seq<StreamEvent>) -> bool {
    forall|i: int| 0 <= i < evs.len() ==> !(evs[i] is Reply && evs[i]->Reply_0 is Error)
}

pub open spec fn run_invariant(total: nat, evs: Seq<StreamEvent>) -> bool {
    let (m, sent, oks) = run_events(total, evs);
    &&& m.total == total
    &&& m.next <= total
    &&& sent == first_lines(m.next)
    &&& m.acked == oks
    &&& m.outcome is Some ==> !m.awaiting
    &&& m.outcome is None ==> m.acked + (if m.awaiting { 1nat } else { 0nat }) == m.next
    &&& m.outcome is Some ==> m.outcome->Some_0 is Done
    &&& (m.outcome is Some && m.outcome->Some_0->Done_1 is None) ==> m.outcome->Some_0->Done_0
        == total && m.acked == total && m.next == total
    &&& (m.outcome is Some && m.outcome->Some_0->Done_1 is Some) ==> m.outcome->Some_0->Done_0
        == m.acked && m.next == m.acked + 1 && has_error_reply(
        evs,
        m.outcome->Some_0->Done_1->Some_0,
    )
}

proof fn lemma_run_invariant(total: nat, evs: Seq<StreamEvent>)
    ensures
        run_invariant(total, evs),
    decreases evs.len(),
{
    if evs.len() > 0 {
        let pre = evs.drop_last();
        lemma_run_invariant(total, pre);
        let (m, sent, oks) = run_events(total, pre);
        let (m2, s, ok) = event_step(m, evs.last());
        if m.next < total {
            assert(first_lines(m.next).push(m.next) =~= first_lines(m.next + 1));
        }
        if m2.outcome is Some && m2.outcome->Some_0->Done_1 is Some {
            let e = m2.outcome->Some_0->Done_1->Some_0;
            if m.outcome is Some {
                let i = choose|i: int|
                    0 <= i < pre.len() && pre[i] == StreamEvent::Reply(ResponseModel::Error(e));
                assert(evs[i] == pre[i]);
            } else {
                assert(evs[evs.len() - 1] == StreamEvent::Reply(ResponseModel::Error(e)));
            }
        }
        assert(run_events(total, evs) == (m2, match s {
            Some(i) => sent.push(i),
            None => sent,
        }, oks + if ok { 1nat } else { 0nat }));
        assert(m2.total == total);
        assert(m2.next <= total);
        assert(m2.acked == oks + if ok { 1nat } else { 0nat });
        assert(match s {
            Some(i) => sent.push(i),
            None => sent,
        } == first_lines(m2.next));
    } else {
        assert(first_lines(0) =~= Seq::<nat>::empty());
    }
}

proof fn lemma_finished_frozen(total: nat, evs: Seq<StreamEvent>, more: Seq<StreamEvent>)
    requires
        run_events(total, evs).0.outcome is Some,
    ensures
        run_events(total, evs + more) == run_events(total, evs),
    decreases more.len(),
{
    if more.len() == 0 {
        assert(evs + more =~= evs);
    } else {
        lemma_run_invariant(total, evs);
        lemma_finished_frozen(total, evs, more.drop_last());
        assert((evs + more).drop_last() =~= evs + more.drop_last());
    }
}

/// Whatever the machine's states and the replies, a run sends lines `0, 1, ...`
/// in order, each once, none beyond the last; while the machine holds between
/// lines nothing is sent, and the next line sent is the first one not yet sent.
pub proof fn lemma_lines_sent_once_in_order(total: nat, evs: Seq<StreamEvent>)
    ensures
        run_events(total, evs).1 == first_lines(run_events(total, evs).0.next),
        run_events(total, evs).0.next <= total,
        !run_events(total, evs).0.awaiting && run_events(total, evs).0.outcome is None
            ==> run_events(total, evs.push(StreamEvent::Poll(MachineState::Hold))) == (
        run_events(total, evs).0,
        run_events(total, evs).1,
        run_events(total, evs).2,
    ),
{
    lemma_run_invariant(total, evs);
    assert(evs.push(StreamEvent::Poll(MachineState::Hold)).drop_last() =~= evs);
}

/// When the controller reports no error, a run that ends has every one of its
/// `total` lines sent and acknowledged, and no error.
pub proof fn lemma_no_error_all_acked(total: nat, evs: Seq<StreamEvent>)
    requires
        no_error_reply(evs),
        run_events(total, evs).0.outcome is Some,
    ensures
        run_events(total, evs).0.outcome == Some(OutcomeModel::Done(total, None)),
        run_events(total, evs).2 == total,
        run_events(total, evs).1 == first_lines(total),
{
    lemma_run_invariant(total, evs);
    let m = run_events(total, evs).0;
    if m.outcome->Some_0->Done_1 is Some {
        let e = m.outcome->Some_0->Done_1->Some_0;
        let i = choose|i: int|
            0 <= i < evs.len() && evs[i] == StreamEvent::Reply(ResponseModel::Error(e));
        assert(!(evs[i] is Reply && evs[i]->Reply_0 is Error));
    }
}

/// A run ended by an error reply `e` reports the acknowledgements taken before it
/// (`k`) and that error; exactly lines `0..=k` were sent, and no later event
/// sends anything or changes the result.
pub proof fn lemma_error_ends_run(
    total: nat,
    evs: Seq<StreamEvent>,
    more: Seq<StreamEvent>,
    k: nat,
    e: Seq<u8>,
)
    requires
        run_events(total, evs).0.outcome == Some(OutcomeModel::Done(k, Some(e))),
    ensures
        run_events(total, evs).2 == k,
        has_error_reply(evs, e),
        run_events(total, evs).1 == first_lines(k + 1),
        run_events(total, evs + more) == run_events(total, evs),
{
    lemma_run_invariant(total, evs);
    lemma_finished_frozen(total, evs, more);
}

} // verus!
