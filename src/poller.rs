use vstd::prelude::*;
use crate::status::{parse_status_line, status_spec, MachineStatus};
use crate::wire::LineRead;

verus! {

/// Period between two status queries, in milliseconds.
pub const POLL_PERIOD_MS: u64 = 200;

/// Bound on the wait for a status reply, in milliseconds.
pub const STATUS_READ_TIMEOUT_MS: u64 = 150;

/// Number of status updates a subscriber may fall behind before it misses some.
pub const STATUS_CHANNEL_DEPTH: usize = 16;

/// What the polling loop does next.
#[derive(Clone, Copy, Debug, PartialEq, Eq, Structural)]
pub enum PollStep {
    /// Send the status query and read one reply.
    Query,
    /// Leave the loop for good.
    Stop,
}

/// What happens to a poller between two decisions.
pub enum PollerEvent {
    /// A reply (or a failed read) came back.
    Reply(LineRead),
    /// The connection is being torn down.
    Stop,
}

/// The status a reply yields: a well-formed report gives a new status; anything
/// else (a timeout, a failed read, a malformed or foreign line) skips the cycle.
pub open spec fn reply_status(read: LineRead) -> Option<MachineStatus> {
    match read {
        LineRead::Line(b) => status_spec(b@),
        _ => None,
    }
}

/// Decisions of the background status loop.
pub struct Poller {
    running: bool,
}

impl Poller {
    pub closed spec fn is_running(&self) -> bool {
        self.running
    }

    /// A poller that has not been stopped.
    pub fn new() -> (p: Poller)
        ensures
            p.is_running(),
    {
        Poller { running: true }
    }

    /// Stops the poller; it cannot be started again.
    pub fn stop(&mut self)
        ensures
            !final(self).is_running(),
    {
        self.running = false;
    }

    /// The next step of the loop.
    pub fn next_step(&self) -> (r: PollStep)
        ensures
            r == (if self.is_running() { PollStep::Query } else { PollStep::Stop }),
    {
        if self.running {
            PollStep::Query
        } else {
            PollStep::Stop
        }
    }

    /// The status to publish for a reply, if any.
    pub fn on_reply(&self, read: &LineRead) -> (r: Option<MachineStatus>)
        ensures
            r == reply_status(*read),
    {
        match read {
            LineRead::Line(b) => parse_status_line(b),
            _ => None,
        }
    }
}

/// Whether the poller is running after `evs`, starting from `running`.
pub open spec fn running_after(running: bool, evs: Seq<PollerEvent>) -> bool
    decreases evs.len(),
{
    if evs.len() == 0 {
        running
    } else {
        match evs.last() {
            PollerEvent::Stop => false,
            PollerEvent::Reply(_) => running_after(running, evs.drop_last()),
        }
    }
}

/// Once stopped, a poller never queries again, whatever happens afterwards.
pub proof fn lemma_no_query_after_stop(running: bool, before: Seq<PollerEvent>, after: Seq<PollerEvent>)
    ensures
        !running_after(running, before.push(PollerEvent::Stop) + after),
    decreases after.len(),
{
    if after.len() == 0 {
        assert(before.push(PollerEvent::Stop) + after =~= before.push(PollerEvent::Stop));
        assert(before.push(PollerEvent::Stop).last() is Stop);
    } else {
        let all = before.push(PollerEvent::Stop) + after;
        assert(all.drop_last() =~= before.push(PollerEvent::Stop) + after.drop_last());
        lemma_no_query_after_stop(running, before, after.drop_last());
    }
}

} // verus!
