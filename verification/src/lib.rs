//! Core logic of a SIP/RTP softphone endpoint: DTMF detection (a Goertzel
//! filter bank feeding a digit debouncer), rotary-pulse decoding, T9-style
//! text entry, call-progress tone cadencing, SIP message and SDP grammar,
//! dialog state with digest authentication, RTP frame assembly, and the
//! phone control state machine.
//!
//! Sockets, audio devices and timers live outside this crate; every function
//! here is a pure computation over plain values, with its behaviour stated in
//! `requires`/`ensures` clauses.

pub mod contacts;
pub mod deco;
pub mod dtmf;
pub mod goertzel;
pub mod outside;
pub mod phone;
pub mod pulse;
pub mod rtp;
pub mod sdp;
pub mod sip;
pub mod sipmsg;
pub mod strutil;
pub mod tone;
pub mod transport;
