use vstd::prelude::*;

use crate::error::Error;
use crate::protocol::{
    classify_line, classify_output, frame_one_shot, frame_request, lemma_strip_without_newlines,
    one_shot_request, output_outcome, reply_outcome, request_line, ERROR_SIG_CHAR,
};
use vstd::utf8::{decode_utf8, encode_utf8, encode_utf8_decode_utf8, encode_utf8_valid_utf8};

verus! {

/// Where one request/response exchange with a persistent child stands.
#[derive(Clone, Copy, PartialEq, Eq, Structural, Debug)]
pub enum Phase {
    /// The process has to be probed for liveness first.
    Probe,
    /// The process was found gone: a replacement has to be started in its slot.
    Respawn,
    /// The request line has to be written.
    Send,
    /// One reply line has to be read.
    Receive,
    /// The exchange is over.
    Done,
}

/// What the driver of an exchange observed since the last step.
pub enum Event {
    /// The liveness probe found the process running.
    Alive,
    /// The liveness probe found the process exited, or could not tell.
    Exited,
    Spawned,
    SpawnFailed(String),
    Sent,
    SendFailed(String),
    /// One line of `.0` bytes was read.
    Received(usize, String),
    ReceiveFailed(String),
}

/// What the driver has to do next.
pub enum Action {
    /// Discard the process and start a replacement in the same slot.
    Spawn,
    /// Write the request line.
    Send,
    /// Read one reply line.
    Receive,
    /// Hand this result to the caller.
    Finish(Result<String, Error>),
}

/// One exchange with a persistent child: probe, restart if needed, send one
/// line, read one line.
pub struct Exchange {
    pub phase: Phase,
    pub request: String,
}

/// The phase that follows `p` on event `ev`.
pub open spec fn next_phase(p: Phase, ev: Event) -> Phase {
    match (p, ev) {
        (Phase::Probe, Event::Alive) => Phase::Send,
        (Phase::Probe, Event::Exited) => Phase::Respawn,
        (Phase::Respawn, Event::Spawned) => Phase::Send,
        (Phase::Send, Event::Sent) => Phase::Receive,
        _ => Phase::Done,
    }
}

/// The exchange `e` after event `ev`.
pub open spec fn after(e: Exchange, ev: Event) -> Exchange {
    Exchange { phase: next_phase(e.phase, ev), request: e.request }
}

/// `r` is a failure of the transport carrying `m`.
pub open spec fn is_transport_failure(r: Action, m: String) -> bool {
    r == Action::Finish(Err(Error::IoError(m)))
}

/// `r` ends the exchange because `ev` did not fit its phase.
pub open spec fn is_out_of_order(r: Action) -> bool {
    r is Finish && r->Finish_0 is Err && r->Finish_0->Err_0 is Other
}

/// `r` is the action taken in phase `p` on event `ev`.
pub open spec fn exchange_action(p: Phase, ev: Event, r: Action) -> bool {
    match (p, ev) {
        (Phase::Probe, Event::Alive) => r is Send,
        (Phase::Probe, Event::Exited) => r is Spawn,
        (Phase::Respawn, Event::Spawned) => r is Send,
        (Phase::Respawn, Event::SpawnFailed(m)) => is_transport_failure(r, m),
        (Phase::Send, Event::Sent) => r is Receive,
        (Phase::Send, Event::SendFailed(m)) => is_transport_failure(r, m),
        (Phase::Receive, Event::Received(nb, line)) => r is Finish && reply_outcome(
            nb,
            line@,
            r->Finish_0,
        ),
        (Phase::Receive, Event::ReceiveFailed(m)) => is_transport_failure(r, m),
        _ => is_out_of_order(r),
    }
}

impl Exchange {
    /// An exchange for `input`, which starts with a liveness probe.
    pub fn new(input: &str) -> (r: Exchange)
        ensures
            r.phase == Phase::Probe,
            r.request@ == request_line(input@),
    {
        Exchange { phase: Phase::Probe, request: frame_request(input) }
    }

    /// Takes in what the driver observed and says what it has to do next.
    pub fn step(&mut self, ev: Event) -> (r: Action)
        ensures
            *final(self) == after(*old(self), ev),
            exchange_action(old(self).phase, ev, r),
    {
        let p = self.phase;
        let (np, r) = match (p, ev) {
            (Phase::Probe, Event::Alive) => (Phase::Send, Action::Send),
            (Phase::Probe, Event::Exited) => (Phase::Respawn, Action::Spawn),
            (Phase::Respawn, Event::Spawned) => (Phase::Send, Action::Send),
            (Phase::Respawn, Event::SpawnFailed(m)) => (
                Phase::Done,
                Action::Finish(Err(Error::IoError(m))),
            ),
            (Phase::Send, Event::Sent) => (Phase::Receive, Action::Receive),
            (Phase::Send, Event::SendFailed(m)) => (
                Phase::Done,
                Action::Finish(Err(Error::IoError(m))),
            ),
            (Phase::Receive, Event::Received(nb, line)) => (
                Phase::Done,
                Action::Finish(classify_line(nb, line)),
            ),
            (Phase::Receive, Event::ReceiveFailed(m)) => (
                Phase::Done,
                Action::Finish(Err(Error::IoError(m))),
            ),
            _ => (
                Phase::Done,
                Action::Finish(Err(Error::Other("event out of order".to_owned()))),
            ),
        };
        self.phase = np;
        r
    }
}

/// A probe that finds the process gone, followed by a successful restart,
/// leaves an exchange exactly where a probe that finds the process alive
/// leaves it: about to send the same request, so the call goes on as if the
/// old process had never died.
pub proof fn lemma_restart_is_transparent(e: Exchange)
    requires
        e.phase == Phase::Probe,
    ensures
        after(e, Event::Exited).phase == Phase::Respawn,
        after(after(e, Event::Exited), Event::Spawned) == after(e, Event::Alive),
        after(e, Event::Alive).phase == Phase::Send,
        after(e, Event::Alive).request == e.request,
{
}

/// Where a run of a one-shot child stands.
#[derive(Clone, Copy, PartialEq, Eq, Structural, Debug)]
pub enum ShotPhase {
    /// The process is being started.
    Spawn,
    /// The input has to be written.
    Feed,
    /// The input has to be closed, the exit awaited and all output read.
    Collect,
    Done,
}

/// What the driver of a one-shot run observed.
pub enum ShotEvent {
    Spawned,
    SpawnFailed(String),
    Fed,
    FeedFailed(String),
    /// Everything the child wrote before it exited.
    Collected(Vec<u8>),
    CollectFailed(String),
}

/// What the driver of a one-shot run has to do next.
pub enum ShotAction {
    /// Write the request.
    Feed,
    /// Close the input, await the exit and read all output.
    Collect,
    Finish(Result<String, Error>),
}

/// One run of a fresh process per call: start it, feed it the request if
/// there is one, close its input and take everything it writes.
pub struct OneShot {
    pub phase: ShotPhase,
    pub request: String,
}

/// The phase of a one-shot run with request `req` that follows `p` on `ev`.
pub open spec fn next_shot_phase(p: ShotPhase, req: Seq<char>, ev: ShotEvent) -> ShotPhase {
    match (p, ev) {
        (ShotPhase::Spawn, ShotEvent::Spawned) => if req.len() == 0 {
            ShotPhase::Collect
        } else {
            ShotPhase::Feed
        },
        (ShotPhase::Feed, ShotEvent::Fed) => ShotPhase::Collect,
        _ => ShotPhase::Done,
    }
}

/// `r` is the action of a one-shot run with request `req` in phase `p` on `ev`.
pub open spec fn shot_action(p: ShotPhase, req: Seq<char>, ev: ShotEvent, r: ShotAction) -> bool {
    match (p, ev) {
        (ShotPhase::Spawn, ShotEvent::Spawned) => if req.len() == 0 {
            r is Collect
        } else {
            r is Feed
        },
        (ShotPhase::Spawn, ShotEvent::SpawnFailed(m)) => r == ShotAction::Finish(
            Err(Error::IoError(m)),
        ),
        (ShotPhase::Feed, ShotEvent::Fed) => r is Collect,
        (ShotPhase::Feed, ShotEvent::FeedFailed(m)) => r == ShotAction::Finish(
            Err(Error::IoError(m)),
        ),
        (ShotPhase::Collect, ShotEvent::Collected(out)) => r is Finish && output_outcome(
            out@,
            r->Finish_0,
        ),
        (ShotPhase::Collect, ShotEvent::CollectFailed(m)) => r == ShotAction::Finish(
            Err(Error::IoError(m)),
        ),
        _ => r is Finish && r->Finish_0 is Err && r->Finish_0->Err_0 is Other,
    }
}

impl OneShot {
    /// A run for `input`; the driver starts by spawning the process.
    pub fn new(input: &str) -> (r: OneShot)
        ensures
            r.phase == ShotPhase::Spawn,
            r.request@ == one_shot_request(input@),
    {
        OneShot { phase: ShotPhase::Spawn, request: frame_one_shot(input) }
    }

    /// Takes in what the driver observed and says what it has to do next.
    pub fn step(&mut self, ev: ShotEvent) -> (r: ShotAction)
        ensures
            final(self).request == old(self).request,
            final(self).phase == next_shot_phase(old(self).phase, old(self).request@, ev),
            shot_action(old(self).phase, old(self).request@, ev, r),
    {
        let p = self.phase;
        let (np, r) = match (p, ev) {
            (ShotPhase::Spawn, ShotEvent::Spawned) => {
                if self.request.as_str().is_empty() {
                    (ShotPhase::Collect, ShotAction::Collect)
                } else {
                    (ShotPhase::Feed, ShotAction::Feed)
                }
            },
            (ShotPhase::Spawn, ShotEvent::SpawnFailed(m)) => (
                ShotPhase::Done,
                ShotAction::Finish(Err(Error::IoError(m))),
            ),
            (ShotPhase::Feed, ShotEvent::Fed) => (ShotPhase::Collect, ShotAction::Collect),
            (ShotPhase::Feed, ShotEvent::FeedFailed(m)) => (
                ShotPhase::Done,
                ShotAction::Finish(Err(Error::IoError(m))),
            ),
            (ShotPhase::Collect, ShotEvent::Collected(out)) => (
                ShotPhase::Done,
                ShotAction::Finish(classify_output(out)),
            ),
            (ShotPhase::Collect, ShotEvent::CollectFailed(m)) => (
                ShotPhase::Done,
                ShotAction::Finish(Err(Error::IoError(m))),
            ),
            _ => (
                ShotPhase::Done,
                ShotAction::Finish(Err(Error::Other("event out of order".to_owned()))),
            ),
        };
        self.phase = np;
        r
    }
}

/// A one-shot child that writes back the reverse of what it is fed makes the
/// call return exactly the reversed input, for every input with no line feed,
/// not empty, and not ending in the sentinel (which would then open the reply).
pub proof fn lemma_one_shot_reverse(input: Seq<char>, r: Result<String, Error>)
    requires
        !input.contains('\n'),
        input.len() > 0,
        input.last() != ERROR_SIG_CHAR,
        output_outcome(encode_utf8(one_shot_request(input).reverse()), r),
    ensures
        r is Ok,
        r->Ok_0@ == input.reverse(),
{
    lemma_strip_without_newlines(input);
    let t = input.reverse();
    assert(t.len() > 0 && t[0] == input.last());
    encode_utf8_valid_utf8(t);
    encode_utf8_decode_utf8(t);
    assert(encode_utf8(t).len() > 0) by {
        if encode_utf8(t).len() == 0 {
            assert(encode_utf8(t) =~= Seq::<u8>::empty());
            assert(decode_utf8(Seq::<u8>::empty()).len() == 0);
        }
    }
}

} // verus!
