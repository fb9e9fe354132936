use vstd::prelude::*;
use crate::errors::AudioError;

verus! {

/// Lifecycle of one playback session. `Stopped` is terminal.
#[derive(Clone, Copy, Debug, PartialEq, Eq, Structural)]
pub enum PumpState {
    Idle,
    Streaming,
    Stopped,
}

/// What the pump decides to do with one wake-up.
#[derive(Clone, Copy, Debug, PartialEq, Eq, Structural)]
pub enum PumpAction {
    /// Acquire a region of exactly this many frames, fill it and commit it
    /// with no special flags.
    Fill(u32),
    /// The buffer is already full; skip this cycle. Not an error.
    Skip,
    /// The configured run duration has elapsed; signal the session to stop
    /// and leave the loop. No buffer operation follows.
    Stop,
}

/// Number of frames the device can still accept: total buffer capacity minus
/// the frames already queued (the device's current padding).
pub fn frames_available(capacity: u32, queued: u32) -> (r: u32)
    requires
        queued <= capacity,
    ensures
        r == capacity - queued,
{
    capacity - queued
}

/// Decide whether a cycle has frames to fill: `Some(n)` exactly when the
/// buffer has room, with `n` the whole available span; `None` exactly when
/// the buffer is full, in which case no region is requested this cycle.
pub fn plan_fill(capacity: u32, queued: u32) -> (r: Option<u32>)
    requires
        queued <= capacity,
    ensures
        r is Some <==> queued < capacity,
        r is Some ==> r->0 == capacity - queued && r->0 > 0,
{
    if queued < capacity {
        Some(capacity - queued)
    } else {
        None
    }
}

/// Drives the fill-and-commit loop of one session. The pump only decides;
/// the embedding application performs the device call each decision names
/// and reports the next padding reading back.
#[derive(Clone, Copy, Debug)]
pub struct StreamPump {
    pub state: PumpState,
    /// Total device buffer capacity in frames, fixed at session start.
    pub capacity: u32,
    /// How long the session should run, in milliseconds.
    pub run_duration_ms: u64,
    /// Time elapsed at the most recent wake-up, in milliseconds.
    pub elapsed_ms: u64,
}

impl StreamPump {
    pub open spec fn wf(self) -> bool {
        self.capacity > 0
    }

    /// Set up the pump for a session whose device buffer holds `capacity`
    /// frames. A reported capacity of zero frames is fatal: the session
    /// cannot proceed and the streaming loop is never entered.
    pub fn new(capacity: u32, run_duration_ms: u64) -> (r: Result<StreamPump, AudioError>)
        ensures
            r is Ok <==> capacity > 0,
            r is Err ==> r->Err_0 == AudioError::DeviceSetupFailure,
            r is Ok ==> r->Ok_0 == (StreamPump {
                state: PumpState::Idle,
                capacity,
                run_duration_ms,
                elapsed_ms: 0,
            }),
    {
        if capacity == 0 {
            Err(AudioError::DeviceSetupFailure)
        } else {
            Ok(StreamPump { state: PumpState::Idle, capacity, run_duration_ms, elapsed_ms: 0 })
        }
    }

    /// Enter the streaming state. Allowed exactly once, from `Idle`, after
    /// the externally initialized session has started.
    pub fn start(&mut self) -> (r: Result<(), AudioError>)
        ensures
            r is Ok <==> old(self).state == PumpState::Idle,
            r is Ok ==> *final(self) == (StreamPump { state: PumpState::Streaming, ..*old(self) }),
            r is Err ==> *final(self) == *old(self) && r->Err_0 == AudioError::InvalidState,
    {
        if self.state == PumpState::Idle {
            self.state = PumpState::Streaming;
            Ok(())
        } else {
            Err(AudioError::InvalidState)
        }
    }

    /// Decide one wake-up of the streaming loop from the device's current
    /// padding and the elapsed time. While the run duration has not elapsed,
    /// the decision is `Fill(capacity - queued)` when the buffer has room and
    /// `Skip` when it is full; once the duration has elapsed the decision is
    /// `Stop` and the pump leaves the streaming state for good. Asking for a
    /// cycle outside the streaming state is an error and changes nothing, as
    /// is a padding reading that exceeds the buffer's capacity (a failed
    /// padding query).
    pub fn next_cycle(&mut self, queued: u32, now_elapsed_ms: u64) -> (r: Result<
        PumpAction,
        AudioError,
    >)
        ensures
            r is Ok <==> old(self).state == PumpState::Streaming && queued <= old(self).capacity,
            r is Err ==> *final(self) == *old(self),
            old(self).state != PumpState::Streaming ==> r is Err && r->Err_0
                == AudioError::InvalidState,
            old(self).state == PumpState::Streaming && queued > old(self).capacity ==> r is Err
                && r->Err_0 == AudioError::DeviceIoFailure,
            r is Ok ==> final(self).capacity == old(self).capacity
                && final(self).run_duration_ms == old(self).run_duration_ms
                && final(self).elapsed_ms == now_elapsed_ms,
            r is Ok && now_elapsed_ms >= old(self).run_duration_ms ==> r->Ok_0 == PumpAction::Stop
                && final(self).state == PumpState::Stopped,
            r is Ok && now_elapsed_ms < old(self).run_duration_ms ==> final(self).state
                == PumpState::Streaming,
            r is Ok && now_elapsed_ms < old(self).run_duration_ms && queued < old(self).capacity
                ==> r->Ok_0 == PumpAction::Fill((old(self).capacity - queued) as u32),
            r is Ok && now_elapsed_ms < old(self).run_duration_ms && queued == old(self).capacity
                ==> r->Ok_0 == PumpAction::Skip,
    {
        if self.state != PumpState::Streaming {
            return Err(AudioError::InvalidState);
        }
        if queued > self.capacity {
            return Err(AudioError::DeviceIoFailure);
        }
        self.elapsed_ms = now_elapsed_ms;
        if now_elapsed_ms >= self.run_duration_ms {
            self.state = PumpState::Stopped;
            return Ok(PumpAction::Stop);
        }
        match plan_fill(self.capacity, queued) {
            Some(n) => Ok(PumpAction::Fill(n)),
            None => Ok(PumpAction::Skip),
        }
    }

    /// Cooperative external cancellation: honored once per wake-up while
    /// streaming, after which the session is stopped for good.
    pub fn cancel(&mut self) -> (r: Result<(), AudioError>)
        ensures
            r is Ok <==> old(self).state == PumpState::Streaming,
            r is Ok ==> *final(self) == (StreamPump { state: PumpState::Stopped, ..*old(self) }),
            r is Err ==> *final(self) == *old(self) && r->Err_0 == AudioError::InvalidState,
    {
        if self.state == PumpState::Streaming {
            self.state = PumpState::Stopped;
            Ok(())
        } else {
            Err(AudioError::InvalidState)
        }
    }
}

} // verus!
