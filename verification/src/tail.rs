use vstd::prelude::*;

use crate::field::Record;
use crate::reader::ReadError;

verus! {

/// The per-input tail loop's state. Each input runs this machine
/// independently: `Draining` pulls records until end-of-stream, `Waiting`
/// blocks on the input's change notifications, `Terminated` ends the loop.
#[derive(Debug)]
pub enum TailState {
    Draining,
    Waiting,
    Terminated,
}

/// What the loop observed: the extractor's outcome while draining, or the
/// watch channel's outcome while waiting.
#[derive(Debug)]
pub enum TailEvent {
    Fields(Record),
    ReadFailed(ReadError),
    Notified,
    WatchFailed(String),
    WatchClosed,
}

/// What the loop must do before acting on its new state: hand a record to
/// the consumer, report a failure, or nothing.
#[derive(Debug)]
pub enum TailEffect {
    Emit(Record),
    Report(ReadError),
    ReportWatch(String),
    Quiet,
}

/// The tail loop's transition relation.
///
/// Draining: a record is emitted and draining goes on; a parse or internal
/// failure is reported and draining goes on — one bad line never aborts
/// tailing; end-of-stream ends the loop when the input is standard input or
/// follow mode is off, and otherwise suspends it until the input changes.
/// Waiting: a change notification resumes draining; a watch failure is
/// reported and the wait goes on — never fatal; a closed channel falls back
/// to draining. A terminated loop stays terminated, and an event that does
/// not belong to the state changes nothing.
pub open spec fn spec_tail_step(
    state: TailState,
    event: TailEvent,
    follow: bool,
    is_stdin: bool,
) -> (TailState, TailEffect) {
    match state {
        TailState::Draining => match event {
            TailEvent::Fields(rec) => (TailState::Draining, TailEffect::Emit(rec)),
            TailEvent::ReadFailed(e) => match e {
                ReadError::Eof => if is_stdin || !follow {
                    (TailState::Terminated, TailEffect::Quiet)
                } else {
                    (TailState::Waiting, TailEffect::Quiet)
                },
                _ => (TailState::Draining, TailEffect::Report(e)),
            },
            _ => (TailState::Draining, TailEffect::Quiet),
        },
        TailState::Waiting => match event {
            TailEvent::Notified => (TailState::Draining, TailEffect::Quiet),
            TailEvent::WatchFailed(msg) => (TailState::Waiting, TailEffect::ReportWatch(msg)),
            TailEvent::WatchClosed => (TailState::Draining, TailEffect::Quiet),
            _ => (TailState::Waiting, TailEffect::Quiet),
        },
        TailState::Terminated => (TailState::Terminated, TailEffect::Quiet),
    }
}

/// One step of the tail loop: from the current state and the observed
/// event to the next state and what to do, exactly as `spec_tail_step`
/// lays it out.
pub fn tail_step(state: TailState, event: TailEvent, follow: bool, is_stdin: bool) -> (r: (
    TailState,
    TailEffect,
))
    ensures
        r == spec_tail_step(state, event, follow, is_stdin),
{
    match state {
        TailState::Draining => match event {
            TailEvent::Fields(rec) => (TailState::Draining, TailEffect::Emit(rec)),
            TailEvent::ReadFailed(e) => match e {
                ReadError::Eof => if is_stdin || !follow {
                    (TailState::Terminated, TailEffect::Quiet)
                } else {
                    (TailState::Waiting, TailEffect::Quiet)
                },
                _ => (TailState::Draining, TailEffect::Report(e)),
            },
            _ => (TailState::Draining, TailEffect::Quiet),
        },
        TailState::Waiting => match event {
            TailEvent::Notified => (TailState::Draining, TailEffect::Quiet),
            TailEvent::WatchFailed(msg) => (TailState::Waiting, TailEffect::ReportWatch(msg)),
            TailEvent::WatchClosed => (TailState::Draining, TailEffect::Quiet),
            _ => (TailState::Waiting, TailEffect::Quiet),
        },
        TailState::Terminated => (TailState::Terminated, TailEffect::Quiet),
    }
}

} // verus!
