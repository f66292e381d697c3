//! Rotary-pulse decoding of hook-switch edges.
//!
//! While the handset is off the cradle, a rotary dial interrupts the hook
//! line in short pulses.  The decoder counts the pulses of a train; a quiet
//! period (the pulse timeout, 150 ms) ends the train and yields the digit.
//! A hook edge arriving outside a train is passed through as a plain hook
//! event, and a train that never pulses again before the timeout while the
//! line rests in the `ON` position reads as a hang-up.
//!
//! The decoder is a pure state machine; the timer and the channel that feed
//! it live outside the library, which hands in [`PulseEvent`]s.

use vstd::prelude::*;

verus! {

/// Position of the hook switch: `ON` means the handset rests on the cradle.
#[derive(Clone, Copy, PartialEq, Eq, Structural, Debug)]
pub enum SwitchHook {
    ON,
    OFF,
}

/// What the pulse decoder reacts to: a hook edge, or the pulse timeout
/// elapsing with no edge.
#[derive(Clone, Copy, PartialEq, Eq, Structural, Debug)]
pub enum PulseEvent {
    Edge(SwitchHook),
    Timeout,
}

/// What a transition may emit: a decoded rotary digit, or a pass-through
/// hook event.
#[derive(Clone, Copy, PartialEq, Eq, Structural, Debug)]
pub enum PulseOut {
    Digit(u8),
    Hook(SwitchHook),
}

/// Decoder state: outside any train, or inside one with the count so far.
/// Within a train the edges come in pairs (the line opens and closes once
/// per pulse); `AwaitEven` is the rest position, `AwaitOdd` halfway through
/// a pulse.
#[derive(Clone, Copy, PartialEq, Eq, Structural, Debug)]
pub enum PulseState {
    Idle,
    AwaitEven(u8),
    AwaitOdd(u8),
}

/// One decoder transition.
pub open spec fn pulse_step(s: PulseState, e: PulseEvent) -> (PulseState, Option<PulseOut>) {
    match s {
        PulseState::Idle => match e {
            PulseEvent::Edge(SwitchHook::OFF) => (
                PulseState::Idle,
                Some(PulseOut::Hook(SwitchHook::OFF)),
            ),
            PulseEvent::Edge(SwitchHook::ON) => (PulseState::AwaitEven(0), None),
            PulseEvent::Timeout => (PulseState::Idle, None),
        },
        PulseState::AwaitEven(c) => match e {
            PulseEvent::Timeout => (PulseState::Idle, Some(PulseOut::Hook(SwitchHook::ON))),
            PulseEvent::Edge(_) => (
                PulseState::AwaitOdd(
                    if c < 250 {
                        (c + 1) as u8
                    } else {
                        c
                    },
                ),
                None,
            ),
        },
        PulseState::AwaitOdd(c) => match e {
            PulseEvent::Timeout => (
                PulseState::Idle,
                if c <= 10 {
                    Some(PulseOut::Digit((c % 10) as u8))
                } else {
                    None
                },
            ),
            PulseEvent::Edge(_) => (PulseState::AwaitEven(c), None),
        },
    }
}

impl PulseState {
    pub fn new() -> (s: PulseState)
        ensures
            s == PulseState::Idle,
    {
        PulseState::Idle
    }

    /// Feed one event; returns the digit or hook event to emit downstream,
    /// if this event completes one.
    pub fn step(&mut self, e: PulseEvent) -> (out: Option<PulseOut>)
        ensures
            (*final(self), out) == pulse_step(*old(self), e),
    {
        match *self {
            PulseState::Idle => match e {
                PulseEvent::Edge(SwitchHook::OFF) => Some(PulseOut::Hook(SwitchHook::OFF)),
                PulseEvent::Edge(SwitchHook::ON) => {
                    *self = PulseState::AwaitEven(0);
                    None
                },
                PulseEvent::Timeout => None,
            },
            PulseState::AwaitEven(c) => match e {
                PulseEvent::Timeout => {
                    *self = PulseState::Idle;
                    Some(PulseOut::Hook(SwitchHook::ON))
                },
                PulseEvent::Edge(_) => {
                    *self = PulseState::AwaitOdd(
                        if c < 250 {
                            c + 1
                        } else {
                            c
                        },
                    );
                    None
                },
            },
            PulseState::AwaitOdd(c) => match e {
                PulseEvent::Timeout => {
                    *self = PulseState::Idle;
                    if c <= 10 {
                        Some(PulseOut::Digit(c % 10))
                    } else {
                        None
                    }
                },
                PulseEvent::Edge(_) => {
                    *self = PulseState::AwaitEven(c);
                    None
                },
            },
        }
    }
}

/// A full train decodes to its pulse count modulo ten: after the edges of
/// the train, the quiet timeout taken mid-pulse yields the count, and each
/// pulse's pair of edges raises it by one.
pub proof fn lemma_pulse_train(c: u8)
    requires
        c <= 10,
    ensures
        pulse_step(PulseState::AwaitOdd(c), PulseEvent::Timeout) == (
            PulseState::Idle,
            Some(PulseOut::Digit((c % 10) as u8)),
        ),
        pulse_step(PulseState::AwaitEven(c), PulseEvent::Edge(SwitchHook::OFF)).0
            == PulseState::AwaitOdd((c + 1) as u8),
        pulse_step(PulseState::AwaitOdd(c), PulseEvent::Edge(SwitchHook::ON)).0
            == PulseState::AwaitEven(c),
{
}

} // verus!
