//! The decisions of the loop that reads the device: what each read outcome
//! does to the session, what is published, and when the session ends. The
//! loop itself (reading, sleeping, locking) is run by the caller, who hands
//! each outcome to `ReaderSession::on_read` and performs the action returned.
use vstd::prelude::*;
use crate::decoder::{decode, frames, lossy_text, views, lemma_residual_undelimited, DELIMITER};

verus! {

/// How many timeouts in a row the session tolerates; one more ends it.
pub const TIMEOUT_LIMIT: u64 = 5;

/// Why a session ended.
#[derive(Clone, Copy, Debug, PartialEq, Eq, Structural)]
pub enum Termination {
    /// More timeouts in a row than `TIMEOUT_LIMIT`: the device is taken to be
    /// gone or silent.
    Silent,
    /// A read failed for another reason than a timeout.
    Failed,
}

/// The outcome of one bounded-wait read of the device.
#[derive(Debug)]
pub enum ReadEvent {
    /// The read returned these bytes.
    Data(Vec<u8>),
    /// The read returned without bytes and without error.
    Nothing,
    /// The read failed because its wait ran out.
    TimedOut,
    /// The read failed for any other reason.
    Failed,
}

/// What the caller does after a read.
#[derive(Debug)]
pub enum Action {
    /// Publish these values to the latest-value slot, in order, then sleep and
    /// read again.
    Continue(Vec<String>),
    /// End the loop.
    Stop(Termination),
}

/// The state of one reading session: the text of the record that is not yet
/// complete, the timeouts since the last read that brought bytes, and how the
/// session ended, once it has.
pub struct ReaderSession {
    residual: String,
    timeouts: u64,
    ended: Option<Termination>,
}

/// The mathematical state of a session.
pub ghost struct SessionState {
    pub residual: Seq<char>,
    pub timeouts: nat,
    pub ended: Option<Termination>,
}

/// A session that has just been started.
pub open spec fn initial_state() -> SessionState {
    SessionState { residual: Seq::empty(), timeouts: 0, ended: None }
}

/// The state that a read outcome leads to. An ended session stays as it is.
pub open spec fn next_state(s: SessionState, e: ReadEvent) -> SessionState {
    if s.ended is Some {
        s
    } else {
        match e {
            ReadEvent::Data(b) => if b@.len() > 0 {
                SessionState {
                    residual: frames(s.residual + lossy_text(b@)).1,
                    timeouts: 0,
                    ended: None,
                }
            } else {
                s
            },
            ReadEvent::Nothing => s,
            ReadEvent::TimedOut => SessionState {
                timeouts: s.timeouts + 1,
                ended: if s.timeouts + 1 > TIMEOUT_LIMIT {
                    Some(Termination::Silent)
                } else {
                    None
                },
                ..s
            },
            ReadEvent::Failed => SessionState { ended: Some(Termination::Failed), ..s },
        }
    }
}

/// The values that a read outcome brings to publish, in stream order.
pub open spec fn published(s: SessionState, e: ReadEvent) -> Seq<Seq<char>> {
    match e {
        ReadEvent::Data(b) => if s.ended is None && b@.len() > 0 {
            frames(s.residual + lossy_text(b@)).0
        } else {
            Seq::empty()
        },
        _ => Seq::empty(),
    }
}

/// The state reached after a sequence of read outcomes.
pub open spec fn run_events(s: SessionState, es: Seq<ReadEvent>) -> SessionState
    decreases es.len(),
{
    if es.len() == 0 {
        s
    } else {
        next_state(run_events(s, es.drop_last()), es.last())
    }
}

/// `k` timeouts in a row.
pub open spec fn timeout_run(k: nat) -> Seq<ReadEvent> {
    Seq::new(k, |i: int| ReadEvent::TimedOut)
}

/// A state that a session can be in: no complete record is left pending, and
/// a running session has seen at most `TIMEOUT_LIMIT` timeouts in a row.
pub open spec fn state_wf(s: SessionState) -> bool {
    &&& !s.residual.contains(DELIMITER)
    &&& s.timeouts <= TIMEOUT_LIMIT + 1
    &&& s.ended is None ==> s.timeouts <= TIMEOUT_LIMIT
}

impl View for ReaderSession {
    type V = SessionState;

    closed spec fn view(&self) -> SessionState {
        SessionState {
            residual: self.residual@,
            timeouts: self.timeouts as nat,
            ended: self.ended,
        }
    }
}

impl ReaderSession {
    /// The session is in a state that `state_wf` admits.
    pub open spec fn wf(&self) -> bool {
        state_wf(self@)
    }

    /// A session with nothing pending and no timeout counted.
    pub fn new() -> (r: ReaderSession)
        ensures
            r@ == initial_state(),
            r.wf(),
    {
        ReaderSession { residual: String::new(), timeouts: 0, ended: None }
    }

    /// Takes the outcome of one read: bytes are decoded and their values
    /// returned for publishing, and reset the timeout count; a read without
    /// bytes changes nothing; a timeout is counted and ends the session once
    /// more than `TIMEOUT_LIMIT` come in a row; any other failure ends it at
    /// once. An ended session stops again.
    pub fn on_read(&mut self, event: ReadEvent) -> (a: Action)
        requires
            old(self).wf(),
        ensures
            final(self).wf(),
            final(self)@ == next_state(old(self)@, event),
            match a {
                Action::Continue(v) => final(self)@.ended is None && views(v@) == published(
                    old(self)@,
                    event,
                ),
                Action::Stop(t) => final(self)@.ended == Some(t),
            },
    {
        if let Some(t) = self.ended {
            return Action::Stop(t);
        }
        match event {
            ReadEvent::Data(b) => {
                if b.len() > 0 {
                    let (rest, values) = decode(self.residual.as_str(), b.as_slice());
                    proof {
                        lemma_residual_undelimited(self.residual@ + lossy_text(b@));
                    }
                    self.residual = rest;
                    self.timeouts = 0;
                    Action::Continue(values)
                } else {
                    Action::Continue(Vec::new())
                }
            },
            ReadEvent::Nothing => Action::Continue(Vec::new()),
            ReadEvent::TimedOut => {
                self.timeouts = self.timeouts + 1;
                if self.timeouts > TIMEOUT_LIMIT {
                    self.ended = Some(Termination::Silent);
                    Action::Stop(Termination::Silent)
                } else {
                    Action::Continue(Vec::new())
                }
            },
            ReadEvent::Failed => {
                self.ended = Some(Termination::Failed);
                Action::Stop(Termination::Failed)
            },
        }
    }

    /// The text of the record that is not yet complete.
    pub fn residual(&self) -> (r: &str)
        ensures
            r@ == self@.residual,
    {
        self.residual.as_str()
    }

    /// The timeouts counted since the last read that brought bytes.
    pub fn timeouts(&self) -> (r: u64)
        ensures
            r == self@.timeouts,
    {
        self.timeouts
    }

    /// How the session ended, if it has.
    pub fn ended(&self) -> (r: Option<Termination>)
        ensures
            r == self@.ended,
    {
        self.ended
    }
}

/// Overwrites the latest-value slot with each value in turn, so that the last
/// one stays; with no values the slot keeps what it held.
pub fn publish(latest: &mut String, values: &Vec<String>)
    ensures
        values@.len() == 0 ==> final(latest)@ == old(latest)@,
        values@.len() > 0 ==> final(latest)@ == values@.last()@,
{
    let mut i: usize = 0;
    while i < values.len()
        invariant
            i <= values@.len(),
            i == 0 ==> latest@ == old(latest)@,
            i > 0 ==> latest@ == values@[i - 1]@,
        decreases values@.len() - i,
    {
        *latest = values[i].clone();
        i = i + 1;
    }
}

/// A run of timeouts counts up from where the session stood and ends the
/// session exactly when the count passes `TIMEOUT_LIMIT`: from a fresh count
/// the session survives `TIMEOUT_LIMIT` timeouts in a row and ends at the next.
pub proof fn law_timeout_run(s: SessionState, k: nat)
    requires
        state_wf(s),
        s.ended is None,
    ensures
        s.timeouts + k <= TIMEOUT_LIMIT ==> (run_events(s, timeout_run(k)) == (SessionState {
            timeouts: s.timeouts + k,
            ..s
        })),
        s.timeouts + k > TIMEOUT_LIMIT ==> run_events(s, timeout_run(k)).ended == Some(
            Termination::Silent,
        ),
    decreases k,
{
    if k > 0 {
        assert(timeout_run(k).drop_last() =~= timeout_run((k - 1) as nat));
        law_timeout_run(s, (k - 1) as nat);
    } else {
        assert(timeout_run(k) =~= Seq::<ReadEvent>::empty());
    }
}

/// A read that brings bytes resets the timeout count: whatever count came
/// before, the session then survives `TIMEOUT_LIMIT` more timeouts in a row
/// and ends at the next one.
pub proof fn law_read_resets_timeouts(s: SessionState, b: Vec<u8>, k: nat)
    requires
        state_wf(s),
        s.ended is None,
        b@.len() > 0,
    ensures
        next_state(s, ReadEvent::Data(b)).timeouts == 0,
        k <= TIMEOUT_LIMIT ==> (run_events(next_state(s, ReadEvent::Data(b)), timeout_run(k)).ended
            is None),
        k > TIMEOUT_LIMIT ==> run_events(next_state(s, ReadEvent::Data(b)), timeout_run(k)).ended
            == Some(Termination::Silent),
{
    let t = next_state(s, ReadEvent::Data(b));
    lemma_residual_undelimited(s.residual + lossy_text(b@));
    law_timeout_run(t, k);
}

/// A read that fails for another reason than a timeout ends a running session
/// at once, whatever its timeout count.
pub proof fn law_failure_ends(s: SessionState)
    requires
        s.ended is None,
    ensures
        next_state(s, ReadEvent::Failed).ended == Some(Termination::Failed),
{
}

} // verus!
