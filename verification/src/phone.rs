//! The phone control state machine.
//!
//! Two-level state: while registered, [`Dial`] tracks one call from hook
//! lift through dialing, ringing and conversation back to rest; without
//! connectivity, [`WiFi`] tracks credential capture.  The machine is a pure
//! transition function from state and event to next state and actions; the
//! surrounding tasks (timers, sockets, audio) perform the actions and feed
//! the events back in.
//!
//! Compared with a blocking formulation that waits inside a state for the
//! peer's next message, the waits are explicit sub-states: `Answering`
//! (200 sent, ACK awaited), `InviteSent` / `InviteAuthSent` (the digest
//! dance of an outbound call), and `HangingUp` (BYE sent, 200 awaited).

use vstd::prelude::*;

use crate::contacts::contact_to;
use crate::pulse::SwitchHook;
use crate::sip::{find_header, good_challenge, header_cseq_number, is_response_of, Dialog};
use crate::sipmsg::{name_ok, text_ok, Header, Method, MsgModel, Request, Response, SipMessage};
use crate::strutil::dec_digit_char_exec;
use crate::transport::TlsSipConn;

verus! {

/// Configuration the machine dials with.
pub struct PhoneConfig {
    pub username: Vec<char>,
    pub password: Vec<char>,
    pub rtp_port: u16,
}

impl PhoneConfig {
    pub open spec fn wf(self) -> bool {
        crate::sip::user_ok(self.username@)
    }
}

/// Sub-state without connectivity.
pub enum WiFi {
    OnHook,
    Await,
    Error,
}

/// Sub-state of one call while registered.
pub enum Dial {
    OnHook,
    /// An inbound INVITE is ringing the bell.
    Ringing(Dialog, Request),
    /// Answered: 200 with SDP sent, ACK awaited.
    Answering(Dialog),
    /// Off hook, collecting digits.
    Await(Dialog, Vec<char>),
    /// First INVITE sent; the challenge is awaited.
    InviteSent(Dialog, Vec<char>, Vec<char>, Vec<char>),
    /// Authenticated INVITE sent; a provisional answer is awaited.
    InviteAuthSent(Dialog),
    /// The callee's phone is being rung.
    DialOut(Dialog),
    /// Ring-back: 180 received.
    Dialing(Dialog),
    /// Conversation in progress.
    Connected(Dialog),
    /// BYE sent, its 200 awaited.
    HangingUp(Dialog),
    Busy,
    Error,
}

/// Top-level state.
pub enum State {
    Connected(TlsSipConn, Dial),
    Disconnected(WiFi),
}

/// The call-progress tones the machine can start.
#[derive(Clone, Copy, PartialEq, Eq, Structural, Debug)]
pub enum ToneKind {
    OffHook,
    NoWifi,
    Busy,
    Ring,
}

/// What the surrounding tasks feed in.
pub enum PhoneEvent {
    Hook(SwitchHook),
    /// A debounced dial digit.
    Digit(u8),
    /// A SIP message for the active dialog (or the new-message queue).
    Message(SipMessage),
    /// One second of dialing silence.
    DialTimer,
    /// Five seconds with no answer to the outbound call.
    DialOutTimer,
    /// Connectivity came up; carries the public address.
    InternetUp((u8, u8, u8, u8)),
    /// Wi-Fi credentials were applied (with the public address) or failed.
    WifiResult(Option<(u8, u8, u8, u8)>),
}

/// What the machine asks the surrounding tasks to do.
pub enum PhoneAction {
    /// Write this message to the TLS stream.
    Send(SipMessage),
    StartTone(ToneKind),
    StartRing,
    /// Bind the RTP socket.
    BindRtp,
    /// Connect the RTP socket to the remote media address.
    ConnectRtp((u8, u8, u8, u8), u16),
    /// Run the REGISTER flow on a fresh dialog.
    DoRegister,
    /// Start capturing SSID and password through the T9 decoder.
    CaptureWifiCreds,
}

/// Headroom so that any one transition can build its few requests.
pub open spec fn dialog_ok(d: Dialog) -> bool {
    d.wf() && d.cseq < 0xFFFF_FF00u32
}

/// A request whose headers a response can safely echo.
pub open spec fn req_headers_ok(m: MsgModel) -> bool {
    forall|j: int|
        0 <= j < m.headers.len() ==> name_ok(#[trigger] m.headers[j].name) && text_ok(
            m.headers[j].value,
        )
}

pub open spec fn dial_wf(d: Dial) -> bool {
    match d {
        Dial::OnHook => true,
        Dial::Ringing(dg, inv) => dialog_ok(dg) && req_headers_ok(inv@),
        Dial::Answering(dg) => dialog_ok(dg),
        Dial::Await(dg, _) => dialog_ok(dg) && dg.to_value is None,
        Dial::InviteSent(dg, tv, tu, _) => dialog_ok(dg) && dg.to_value is None && tv@.len() > 0
            && text_ok(tv@) && crate::sipmsg::token_ok(tu@),
        Dial::InviteAuthSent(dg) => dialog_ok(dg),
        Dial::DialOut(dg) => dialog_ok(dg),
        Dial::Dialing(dg) => dialog_ok(dg),
        Dial::Connected(dg) => dialog_ok(dg),
        Dial::HangingUp(dg) => dialog_ok(dg),
        Dial::Busy => true,
        Dial::Error => true,
    }
}

pub open spec fn state_wf(s: State) -> bool {
    match s {
        State::Connected(conn, d) => conn.wf() && dial_wf(d),
        State::Disconnected(_) => true,
    }
}

/// The initial state: registered or not, handset down or lifted.
pub fn initial_state(conn: Option<TlsSipConn>, is_on_hook: bool, cfg: &PhoneConfig) -> (s: State)
    requires
        cfg.wf(),
        match conn {
            Some(c) => c.wf(),
            None => true,
        },
    ensures
        state_wf(s),
        conn is Some && is_on_hook ==> s matches State::Connected(_, Dial::OnHook),
        conn is Some && !is_on_hook ==> s matches State::Connected(_, Dial::Await(_, _)),
        conn is None ==> s == State::Disconnected(
            if is_on_hook {
                WiFi::OnHook
            } else {
                WiFi::Await
            },
        ),
{
    match conn {
        Some(c) => {
            if is_on_hook {
                State::Connected(c, Dial::OnHook)
            } else {
                let mut c2 = c;
                let user = copy_chars(&cfg.username);
                let (d, _inbox) = c2.dialog(user, cfg.rtp_port);
                State::Connected(c2, Dial::Await(d, Vec::new()))
            }
        },
        None => {
            if is_on_hook {
                State::Disconnected(WiFi::OnHook)
            } else {
                State::Disconnected(WiFi::Await)
            }
        },
    }
}

/// Copy a character vector.
fn copy_chars(v: &Vec<char>) -> (r: Vec<char>)
    ensures
        r@ == v@,
{
    let c = crate::strutil::subvec(v, 0, v.len());
    proof {
        assert(c@ =~= v@);
    }
    c
}

/// Whether every header of a list is safe to echo.
fn headers_all_ok(hs: &Vec<Header>) -> (r: bool)
    ensures
        r == (forall|j: int|
            #![trigger hs@[j]]
            0 <= j < hs@.len() ==> name_ok(hs@[j]@.name) && text_ok(hs@[j]@.value)),
{
    let mut i: usize = 0;
    while i < hs.len()
        invariant
            i <= hs.len(),
            forall|j: int|
                #![trigger hs@[j]]
                0 <= j < i ==> name_ok(hs@[j]@.name) && text_ok(hs@[j]@.value),
        decreases hs.len() - i,
    {
        let h = &hs[i];
        proof {
            assert(*h == hs@[i as int]);
            assert(h@ == hs@[i as int]@);
            assert(h@.name == hs@[i as int]@.name);
            assert(h.name@ == h@.name);
        }
        let good_name = header_name_ok(&h.name);
        let good_value = header_text_ok(&h.value);
        proof {
            assert(good_name == name_ok(hs@[i as int]@.name));
            assert(good_value == text_ok(hs@[i as int]@.value));
        }
        if !good_name || !good_value {
            return false;
        }
        i = i + 1;
    }
    true
}

/// Whether every header of a message is safe to echo (checked once at the
/// transport before the message enters the machine).
pub fn message_ok(msg: &SipMessage) -> (r: bool)
    ensures
        r == req_headers_ok(msg@),
{
    let ok = match msg {
        SipMessage::Request(rq) => headers_all_ok(&rq.headers),
        SipMessage::Response(rp) => headers_all_ok(&rp.headers),
    };
    proof {
        let hs: Seq<Header> = match msg {
            SipMessage::Request(rq) => rq.headers@,
            SipMessage::Response(rp) => rp.headers@,
        };
        assert forall|j: int| 0 <= j < msg@.headers.len() implies msg@.headers[j] == hs[j]@ by {
            assert(msg@.headers[j] == hs.map_values(|h: Header| h@)[j]);
        }
        if ok {
            assert forall|j: int| 0 <= j < msg@.headers.len() implies name_ok(
                #[trigger] msg@.headers[j].name,
            ) && text_ok(msg@.headers[j].value) by {
                assert(msg@.headers[j] == hs[j]@);
                assert(name_ok(hs[j]@.name) && text_ok(hs[j]@.value));
            }
        } else {
            if req_headers_ok(msg@) {
                assert forall|j: int|
                    #![trigger hs[j]]
                    0 <= j < hs.len() implies name_ok(hs[j]@.name) && text_ok(hs[j]@.value) by {
                    assert(msg@.headers[j] == hs[j]@);
                    assert(name_ok(msg@.headers[j].name));
                }
                assert(false);
            }
        }
    }
    ok
}

fn header_name_ok(v: &Vec<char>) -> (r: bool)
    ensures
        r == name_ok(v@),
{
    if v.len() == 0 {
        return false;
    }
    let mut i: usize = 0;
    while i < v.len()
        invariant
            v@.len() > 0,
            i <= v.len(),
            forall|j: int| 0 <= j < i ==> v@[j] != ':' && v@[j] != '\r' && v@[j] != '\n',
        decreases v.len() - i,
    {
        if v[i] == ':' || v[i] == '\r' || v[i] == '\n' {
            return false;
        }
        i = i + 1;
    }
    true
}

fn header_text_ok(v: &Vec<char>) -> (r: bool)
    ensures
        r == text_ok(v@),
{
    let mut i: usize = 0;
    while i < v.len()
        invariant
            i <= v.len(),
            forall|j: int| 0 <= j < i ==> v@[j] != '\r' && v@[j] != '\n',
        decreases v.len() - i,
    {
        if v[i] == '\r' || v[i] == '\n' {
            return false;
        }
        i = i + 1;
    }
    true
}


/// An unspecified value (used by the partial accessors below outside their
/// domain).
pub open spec fn arb_dialog() -> Dialog {
    vstd::pervasive::arbitrary()
}

pub open spec fn arb_dial() -> Dial {
    vstd::pervasive::arbitrary()
}

pub open spec fn arb_msg() -> MsgModel {
    vstd::pervasive::arbitrary()
}

pub open spec fn arb_chars() -> Seq<char> {
    vstd::pervasive::arbitrary()
}

pub open spec fn arb_digit() -> u8 {
    vstd::pervasive::arbitrary()
}

/// The dial sub-state of a registered state.
pub open spec fn st_dial(s: State) -> Dial {
    match s {
        State::Connected(_, d) => d,
        State::Disconnected(_) => arb_dial(),
    }
}

/// The dialog a dial sub-state owns.
pub open spec fn dial_dialog(d: Dial) -> Dialog {
    match d {
        Dial::Ringing(x, _) => x,
        Dial::Answering(x) => x,
        Dial::Await(x, _) => x,
        Dial::InviteSent(x, _, _, _) => x,
        Dial::InviteAuthSent(x) => x,
        Dial::DialOut(x) => x,
        Dial::Dialing(x) => x,
        Dial::Connected(x) => x,
        Dial::HangingUp(x) => x,
        _ => arb_dialog(),
    }
}

/// The digits collected while dialing.
pub open spec fn dial_number(d: Dial) -> Seq<char> {
    match d {
        Dial::Await(_, n) => n@,
        _ => arb_chars(),
    }
}

/// The pending INVITE of a ringing state.
pub open spec fn dial_invite(d: Dial) -> MsgModel {
    match d {
        Dial::Ringing(_, inv) => inv@,
        _ => arb_msg(),
    }
}

/// The message an event carries.
pub open spec fn ev_msg(ev: PhoneEvent) -> MsgModel {
    match ev {
        PhoneEvent::Message(m) => m@,
        _ => arb_msg(),
    }
}

pub open spec fn ev_digit(ev: PhoneEvent) -> u8 {
    match ev {
        PhoneEvent::Digit(g) => g,
        _ => arb_digit(),
    }
}

pub open spec fn is_message_req(ev: PhoneEvent) -> bool {
    ev matches PhoneEvent::Message(SipMessage::Request(_))
}

pub open spec fn is_message_resp(ev: PhoneEvent) -> bool {
    ev matches PhoneEvent::Message(SipMessage::Response(_))
}

pub open spec fn is_hook_on(ev: PhoneEvent) -> bool {
    ev matches PhoneEvent::Hook(SwitchHook::ON)
}

pub open spec fn is_hook_off(ev: PhoneEvent) -> bool {
    ev matches PhoneEvent::Hook(SwitchHook::OFF)
}

pub open spec fn is_digit_ev(ev: PhoneEvent) -> bool {
    ev matches PhoneEvent::Digit(_)
}

/// The message a Send action carries.
pub open spec fn act_msg(a: PhoneAction) -> MsgModel {
    match a {
        PhoneAction::Send(m) => m@,
        _ => arb_msg(),
    }
}

pub open spec fn is_send_resp(a: PhoneAction) -> bool {
    a matches PhoneAction::Send(SipMessage::Response(_))
}

pub open spec fn is_send_req(a: PhoneAction) -> bool {
    a matches PhoneAction::Send(SipMessage::Request(_))
}

pub open spec fn shape_onhook(s: State) -> bool {
    s matches State::Connected(_, Dial::OnHook)
}

pub open spec fn shape_await(s: State) -> bool {
    s matches State::Connected(_, Dial::Await(_, _))
}

pub open spec fn shape_ringing(s: State) -> bool {
    s matches State::Connected(_, Dial::Ringing(_, _))
}

pub open spec fn shape_answering(s: State) -> bool {
    s matches State::Connected(_, Dial::Answering(_))
}

pub open spec fn shape_invite_sent(s: State) -> bool {
    s matches State::Connected(_, Dial::InviteSent(_, _, _, _))
}

pub open spec fn shape_invite_auth_sent(s: State) -> bool {
    s matches State::Connected(_, Dial::InviteAuthSent(_))
}

pub open spec fn shape_dial_out(s: State) -> bool {
    s matches State::Connected(_, Dial::DialOut(_))
}

pub open spec fn shape_dialing(s: State) -> bool {
    s matches State::Connected(_, Dial::Dialing(_))
}

pub open spec fn shape_connected(s: State) -> bool {
    s matches State::Connected(_, Dial::Connected(_))
}

pub open spec fn shape_hanging_up(s: State) -> bool {
    s matches State::Connected(_, Dial::HangingUp(_))
}

pub open spec fn shape_busy(s: State) -> bool {
    s matches State::Connected(_, Dial::Busy)
}

pub open spec fn shape_dial_error(s: State) -> bool {
    s matches State::Connected(_, Dial::Error)
}

/// One transition of the phone: consume the current state and an event,
/// produce the next state and the actions the surrounding tasks must take.
///
/// The key rows of the transition table are stated below; every other
/// combination leaves the state's shape unchanged with no actions.
#[verifier::rlimit(100)]
#[verifier::spinoff_prover]
pub fn step(state: State, ev: PhoneEvent, cfg: &PhoneConfig) -> (r: (State, Vec<PhoneAction>))
    requires
        cfg.wf(),
        state_wf(state),
        ev matches PhoneEvent::Message(m) ==> req_headers_ok(m@),
    ensures
        state_wf(r.0),
        // a lifted handset at rest opens the dial tone
        (shape_onhook(state) && is_hook_off(ev)) ==> (shape_await(r.0) && dial_number(
            st_dial(r.0),
        ) == Seq::<char>::empty() && r.1@ == seq![PhoneAction::StartTone(ToneKind::OffHook)]),
        // a CANCEL while ringing is confirmed with 487 and the bell stops
        (shape_ringing(state) && is_message_req(ev) && ev_msg(ev).method == Method::Cancel
            && header_cseq_number(ev_msg(ev).headers) is Some) ==> (shape_onhook(r.0)
            && r.1@.len() == 1 && is_send_resp(r.1@[0]) && is_response_of(
            dial_dialog(st_dial(state)),
            ev_msg(ev).headers,
            487,
            Seq::empty(),
            act_msg(r.1@[0]),
        )),
        // answering sends 200 with the SDP answer and awaits the ACK
        (shape_ringing(state) && is_hook_off(ev) && crate::sdp::parse_sdp_spec(
            dial_invite(st_dial(state)).body,
        ) is Some && header_cseq_number(dial_invite(st_dial(state)).headers) is Some
            && header_cseq_number(dial_invite(st_dial(state)).headers).unwrap()
            < 0xFFFF_0000u32) ==> (
        shape_answering(r.0) && r.1@.len() == 1 && is_send_resp(r.1@[0]) && act_msg(
            r.1@[0],
        ).code == 200 && act_msg(r.1@[0]).body == crate::sdp::emit_sdp_spec(
            crate::sdp::SdpModel {
                sess_id: crate::sdp::parse_sdp_spec(dial_invite(st_dial(state)).body).unwrap().sess_id,
                ip: dial_dialog(st_dial(state)).client_ip,
                port: dial_dialog(st_dial(state)).rtp_port,
            },
        )),
        // the ACK completes the call
        (shape_answering(state) && is_message_req(ev) && ev_msg(ev).method == Method::Ack) ==> (
        shape_connected(r.0) && dial_dialog(st_dial(r.0)) == dial_dialog(st_dial(state))
            && r.1@ == Seq::<PhoneAction>::empty()),
        // dialed digits accumulate
        (shape_await(state) && is_digit_ev(ev) && ev_digit(ev) <= 9) ==> (shape_await(r.0)
            && dial_number(st_dial(r.0)) == dial_number(st_dial(state)).push(
            crate::strutil::dec_digit_char(ev_digit(ev) as nat),
        )),
        // a known number, after a second of silence, places the INVITE
        (shape_await(state) && (ev matches PhoneEvent::DialTimer) && crate::contacts::is_contact(
            dial_number(st_dial(state)),
        ) && dial_number(st_dial(state)) != cfg.username@ && dial_dialog(
            st_dial(state),
        ).cseq < 0xFFFF_0000u32) ==> (shape_invite_sent(r.0)
            && r.1@.len() == 1 && is_send_req(r.1@[0]) && act_msg(r.1@[0]).method
            == Method::Invite),
        // the challenge is answered with a second, authorized INVITE
        (shape_invite_sent(state) && is_message_resp(ev) && (ev_msg(ev).code == 401 || ev_msg(
            ev,
        ).code == 407) && good_challenge(ev_msg(ev).headers) && dial_dialog(
            st_dial(state),
        ).cseq < 0xFFFF_0000u32) ==> (shape_invite_auth_sent(r.0)
            && r.1@.len() == 1 && is_send_req(r.1@[0]) && act_msg(r.1@[0]).method
            == Method::Invite && act_msg(r.1@[0]).headers.len() == 12 && act_msg(
            r.1@[0],
        ).headers[10].name == "Authorization"@),
        // a provisional answer to the authorized INVITE starts the wait
        (shape_invite_auth_sent(state) && is_message_resp(ev) && 100 <= ev_msg(ev).code < 300)
            ==> (shape_dial_out(r.0) && dial_dialog(st_dial(r.0)) == dial_dialog(
            st_dial(state),
        ) && r.1@ == seq![PhoneAction::BindRtp]),
        // 180 moves to ring-back
        (shape_dial_out(state) && is_message_resp(ev) && ev_msg(ev).code == 180) ==> (
        shape_dialing(r.0) && dial_dialog(st_dial(r.0)) == dial_dialog(st_dial(state)) && r.1@
            == seq![PhoneAction::StartTone(ToneKind::Ring)]),
        // busy or decline is ACKed and the busy tone plays
        (shape_dial_out(state) && is_message_resp(ev) && (ev_msg(ev).code == 486 || ev_msg(
            ev,
        ).code == 603) && header_cseq_number(ev_msg(ev).headers) is Some && dial_dialog(
            st_dial(state),
        ).cseq < 0xFFFF_0000u32) ==> (shape_busy(r.0)
            && r.1@.len() == 2 && is_send_req(r.1@[0]) && act_msg(r.1@[0]).method == Method::Ack
            && r.1@[1] == PhoneAction::StartTone(ToneKind::Busy)),
        // five silent seconds cancel the call
        (shape_dial_out(state) && (ev matches PhoneEvent::DialOutTimer) && dial_dialog(
            st_dial(state),
        ).cseq < 0xFFFF_0000u32) ==> (shape_busy(r.0)
            && r.1@.len() == 2 && is_send_req(r.1@[0]) && act_msg(r.1@[0]).method
            == Method::Cancel && r.1@[1] == PhoneAction::StartTone(ToneKind::Busy)),
        // 200 to the INVITE is ACKed and the call connects
        (shape_dialing(state) && is_message_resp(ev) && ev_msg(ev).code == 200
            && header_cseq_number(ev_msg(ev).headers) is Some && dial_dialog(
            st_dial(state),
        ).cseq < 0xFFFF_0000u32) ==> (shape_connected(r.0)
            && r.1@.len() == 1 && is_send_req(r.1@[0]) && act_msg(r.1@[0]).method
            == Method::Ack),
        // hanging up sends BYE and awaits its 200 before resting
        (shape_connected(state) && is_hook_on(ev) && dial_dialog(st_dial(state)).cseq
            < 0xFFFF_0000u32) ==> (shape_hanging_up(r.0) && r.1@.len() == 1 && is_send_req(
            r.1@[0],
        ) && act_msg(r.1@[0]).method == Method::Bye && crate::sip::is_request_of(
            dial_dialog(st_dial(state)),
            Method::Bye,
            Seq::empty(),
            act_msg(r.1@[0]),
        )),
        // the BYE's 200 puts the phone back on the cradle
        (shape_hanging_up(state) && is_message_resp(ev) && 100 <= ev_msg(ev).code < 300) ==> (
        shape_onhook(r.0) && r.1@ == Seq::<PhoneAction>::empty()),
        // the other party's BYE is confirmed with 200 and the call is over
        (shape_connected(state) && is_message_req(ev) && ev_msg(ev).method == Method::Bye
            && header_cseq_number(ev_msg(ev).headers) is Some) ==> (shape_onhook(r.0)
            && r.1@.len() == 1 && is_send_resp(r.1@[0]) && is_response_of(
            dial_dialog(st_dial(state)),
            ev_msg(ev).headers,
            200,
            Seq::empty(),
            act_msg(r.1@[0]),
        )),
        // without connectivity, lifting the handset starts credential capture
        (state == State::Disconnected(WiFi::OnHook) && is_hook_off(ev)) ==> (r.0
            == State::Disconnected(WiFi::Await) && r.1@ == seq![
            PhoneAction::StartTone(ToneKind::NoWifi),
            PhoneAction::CaptureWifiCreds,
        ]),
        // an inbound INVITE at rest rings the phone: 180, bell, RTP socket
        (shape_onhook(state) && is_message_req(ev) && ev_msg(ev).method == Method::Invite
            && header_cseq_number(ev_msg(ev).headers) is Some && header_cseq_number(
            ev_msg(ev).headers,
        ).unwrap() < 0xFFFF_0000u32 && find_header(ev_msg(ev).headers, "Call-ID"@) is Some
            && crate::sipmsg::token_ok(
            find_header(ev_msg(ev).headers, "Call-ID"@).unwrap().value,
        ) && find_header(ev_msg(ev).headers, "From"@) is Some && find_header(
            ev_msg(ev).headers,
            "From"@,
        ).unwrap().value.len() > 0 && crate::sip::to_user_of(ev_msg(ev).headers) is Some
            && crate::sip::user_ok(crate::sip::to_user_of(ev_msg(ev).headers).unwrap())) ==> (
        shape_ringing(r.0) && dial_invite(st_dial(r.0)) == ev_msg(ev) && r.1@.len() == 3
            && is_send_resp(r.1@[0]) && act_msg(r.1@[0]).code == 180 && r.1@[1]
            == PhoneAction::StartRing && r.1@[2] == PhoneAction::BindRtp),
        // collecting digits ends when the handset is cradled
        (shape_await(state) && is_hook_on(ev)) ==> (shape_onhook(r.0) && r.1@
            == Seq::<PhoneAction>::empty()),
        // so does waiting for the callee
        (shape_invite_sent(state) && is_hook_on(ev)) ==> shape_onhook(r.0),
        (shape_invite_auth_sent(state) && is_hook_on(ev)) ==> shape_onhook(r.0),
        (shape_dial_out(state) && is_hook_on(ev)) ==> (shape_onhook(r.0) && r.1@
            == Seq::<PhoneAction>::empty()),
        // a second lift while dialing out is impossible input: the error state
        (shape_dial_out(state) && is_hook_off(ev)) ==> shape_dial_error(r.0),
        // cradling during ring-back cancels the pending call
        (shape_dialing(state) && is_hook_on(ev) && dial_dialog(st_dial(state)).cseq
            < 0xFFFF_0000u32) ==> (shape_onhook(r.0) && r.1@.len() == 1 && is_send_req(r.1@[0])
            && act_msg(r.1@[0]).method == Method::Cancel && crate::sip::is_request_of(
            dial_dialog(st_dial(state)),
            Method::Cancel,
            Seq::empty(),
            act_msg(r.1@[0]),
        )),
        // busy and error states rest once the handset is cradled
        (shape_busy(state) && is_hook_on(ev)) ==> (shape_onhook(r.0) && r.1@
            == Seq::<PhoneAction>::empty()),
        (shape_dial_error(state) && is_hook_on(ev)) ==> (shape_onhook(r.0) && r.1@
            == Seq::<PhoneAction>::empty()),
        // a re-INVITE renegotiates the media address and is answered in place
        (shape_connected(state) && is_message_req(ev) && ev_msg(ev).method == Method::Invite
            && crate::sdp::parse_sdp_spec(ev_msg(ev).body) is Some && header_cseq_number(
            ev_msg(ev).headers,
        ) is Some && header_cseq_number(ev_msg(ev).headers).unwrap() < 0xFFFF_0000u32) ==> (
        shape_connected(r.0) && r.1@.len() == 2 && r.1@[0] == PhoneAction::ConnectRtp(
            crate::sdp::parse_sdp_spec(ev_msg(ev).body).unwrap().ip,
            crate::sdp::parse_sdp_spec(ev_msg(ev).body).unwrap().port,
        ) && is_send_resp(r.1@[1]) && act_msg(r.1@[1]).code == 200 && act_msg(r.1@[1]).body
            == crate::sdp::emit_sdp_spec(
            crate::sdp::SdpModel {
                sess_id: crate::sdp::parse_sdp_spec(ev_msg(ev).body).unwrap().sess_id,
                ip: dial_dialog(st_dial(state)).client_ip,
                port: dial_dialog(st_dial(state)).rtp_port,
            },
        )),
        // connectivity returning at rest re-registers
        (state == State::Disconnected(WiFi::OnHook) && (ev matches PhoneEvent::InternetUp(_)))
            ==> (shape_onhook(r.0) && r.1@ == seq![PhoneAction::DoRegister]),
        // applied credentials re-register and open the dial tone
        (state == State::Disconnected(WiFi::Await) && (ev
            matches PhoneEvent::WifiResult(Some(_)))) ==> (shape_await(r.0) && r.1@.len() == 2
            && r.1@[0] == PhoneAction::DoRegister && r.1@[1] == PhoneAction::StartTone(
            ToneKind::OffHook,
        )),
        // failed credentials wait for a hang-up
        (state == State::Disconnected(WiFi::Await) && ev == PhoneEvent::WifiResult(None)) ==> (
        r.0 == State::Disconnected(WiFi::Error) && r.1@ == Seq::<PhoneAction>::empty()),
        (state == State::Disconnected(WiFi::Await) && is_hook_on(ev)) ==> (r.0
            == State::Disconnected(WiFi::OnHook) && r.1@ == Seq::<PhoneAction>::empty()),
        (state == State::Disconnected(WiFi::Error) && is_hook_on(ev)) ==> (r.0
            == State::Disconnected(WiFi::OnHook) && r.1@ == Seq::<PhoneAction>::empty()),
{
    match state {
        State::Connected(conn, dial) => match dial {
            Dial::OnHook => match ev {
                PhoneEvent::Hook(SwitchHook::OFF) => {
                    let mut c = conn;
                    let user = copy_chars(&cfg.username);
                    let (d, _inbox) = c.dialog(user, cfg.rtp_port);
                    let mut acts: Vec<PhoneAction> = Vec::new();
                    acts.push(PhoneAction::StartTone(ToneKind::OffHook));
                    proof {
                        assert(acts@ =~= seq![PhoneAction::StartTone(ToneKind::OffHook)]);
                    }
                    (State::Connected(c, Dial::Await(d, Vec::new())), acts)
                },
                PhoneEvent::Message(SipMessage::Request(req)) => {
                    if matches!(req.method, Method::Invite) {
                        proof {
                            crate::sip::lemma_find_header_found(req@.headers, "From"@);
                            if find_header(req@.headers, "From"@) is Some {
                                let fh = find_header(req@.headers, "From"@).unwrap();
                                let j = choose|j: int|
                                    0 <= j < req@.headers.len() && req@.headers[j] == fh;
                                assert(name_ok(req@.headers[j].name));
                                assert(text_ok(fh.value));
                            }
                        }
                        let mut c = conn;
                        match c.dialog_from_req(&req, cfg.rtp_port) {
                            Err(_) => (State::Connected(c, Dial::Error), Vec::new()),
                            Ok((mut d, _inbox)) => {
                                match d.response_to(&req, 180, Vec::new()) {
                                    Err(_) => (State::Connected(c, Dial::Error), Vec::new()),
                                    Ok(resp) => {
                                        if d.cseq >= 0xFFFF_0000u32 {
                                            return (
                                                State::Connected(c, Dial::Error),
                                                Vec::new(),
                                            );
                                        }
                                        let mut acts: Vec<PhoneAction> = Vec::new();
                                        acts.push(
                                            PhoneAction::Send(SipMessage::Response(resp)),
                                        );
                                        acts.push(PhoneAction::StartRing);
                                        acts.push(PhoneAction::BindRtp);
                                        (State::Connected(c, Dial::Ringing(d, req)), acts)
                                    },
                                }
                            },
                        }
                    } else {
                        (State::Connected(conn, Dial::OnHook), Vec::new())
                    }
                },
                _ => (State::Connected(conn, Dial::OnHook), Vec::new()),
            },
            Dial::Ringing(d, inv) => match ev {
                PhoneEvent::Message(SipMessage::Request(req)) => {
                    if matches!(req.method, Method::Cancel) {
                        let mut d2 = d;
                        match d2.response_to(&req, 487, Vec::new()) {
                            Err(_) => (State::Connected(conn, Dial::Error), Vec::new()),
                            Ok(resp) => {
                                let mut acts: Vec<PhoneAction> = Vec::new();
                                acts.push(PhoneAction::Send(SipMessage::Response(resp)));
                                (State::Connected(conn, Dial::OnHook), acts)
                            },
                        }
                    } else {
                        (State::Connected(conn, Dial::Ringing(d, inv)), Vec::new())
                    }
                },
                PhoneEvent::Hook(SwitchHook::OFF) => {
                    let mut d2 = d;
                    match d2.sdp_from(&inv) {
                        Err(_) => (State::Connected(conn, Dial::Error), Vec::new()),
                        Ok(offer) => match d2.sdp_response_to(&inv, 200, &offer) {
                            Err(_) => (State::Connected(conn, Dial::Error), Vec::new()),
                            Ok(resp) => {
                                if d2.cseq >= 0xFFFF_0000u32 {
                                    return (State::Connected(conn, Dial::Error), Vec::new());
                                }
                                let mut acts: Vec<PhoneAction> = Vec::new();
                                acts.push(PhoneAction::Send(SipMessage::Response(resp)));
                                (State::Connected(conn, Dial::Answering(d2)), acts)
                            },
                        },
                    }
                },
                _ => (State::Connected(conn, Dial::Ringing(d, inv)), Vec::new()),
            },
            Dial::Answering(d) => match ev {
                PhoneEvent::Message(SipMessage::Request(req)) => {
                    if matches!(req.method, Method::Ack) {
                        (State::Connected(conn, Dial::Connected(d)), Vec::new())
                    } else {
                        (State::Connected(conn, Dial::Answering(d)), Vec::new())
                    }
                },
                _ => (State::Connected(conn, Dial::Answering(d)), Vec::new()),
            },
            Dial::Await(d, number) => match ev {
                PhoneEvent::Digit(g) => {
                    if g <= 9 {
                        let mut n2 = number;
                        n2.push(dec_digit_char_exec(g));
                        (State::Connected(conn, Dial::Await(d, n2)), Vec::new())
                    } else {
                        (State::Connected(conn, Dial::Await(d, number)), Vec::new())
                    }
                },
                PhoneEvent::Hook(SwitchHook::ON) => (
                    State::Connected(conn, Dial::OnHook),
                    Vec::new(),
                ),
                PhoneEvent::DialTimer => {
                    if chars_eq_vec(&number, &cfg.username) {
                        (State::Connected(conn, Dial::Await(d, number)), Vec::new())
                    } else {
                        match contact_to(&number) {
                            None => (State::Connected(conn, Dial::Await(d, number)), Vec::new()),
                            Some((tv, tu)) => {
                                if d.cseq >= 0xFFFF_0000u32 {
                                    return (State::Connected(conn, Dial::Error), Vec::new());
                                }
                                let mut d2 = d;
                                let req = d2.invite(&tv, &tu);
                                let body = copy_chars(&req.body);
                                let mut acts: Vec<PhoneAction> = Vec::new();
                                acts.push(PhoneAction::Send(SipMessage::Request(req)));
                                proof {
                                    assert(acts@[0] matches PhoneAction::Send(
                                        SipMessage::Request(_),
                                    ));
                                }
                                (
                                    State::Connected(conn, Dial::InviteSent(d2, tv, tu, body)),
                                    acts,
                                )
                            },
                        }
                    }
                },
                _ => (State::Connected(conn, Dial::Await(d, number)), Vec::new()),
            },
            Dial::InviteSent(d, tv, tu, body) => match ev {
                PhoneEvent::Message(SipMessage::Response(resp)) => {
                    if resp.code == 401 || resp.code == 407 {
                        if d.cseq >= 0xFFFF_0000u32 {
                            return (State::Connected(conn, Dial::Error), Vec::new());
                        }
                        let mut d2 = d;
                        match d2.invite_auth(&resp, &cfg.password, &tv, &tu, body) {
                            Err(_) => (State::Connected(conn, Dial::Error), Vec::new()),
                            Ok(req2) => {
                                let mut acts: Vec<PhoneAction> = Vec::new();
                                acts.push(PhoneAction::Send(SipMessage::Request(req2)));
                                (State::Connected(conn, Dial::InviteAuthSent(d2)), acts)
                            },
                        }
                    } else {
                        (State::Connected(conn, Dial::InviteSent(d, tv, tu, body)), Vec::new())
                    }
                },
                PhoneEvent::Hook(SwitchHook::ON) => (
                    State::Connected(conn, Dial::OnHook),
                    Vec::new(),
                ),
                _ => (State::Connected(conn, Dial::InviteSent(d, tv, tu, body)), Vec::new()),
            },
            Dial::InviteAuthSent(d) => match ev {
                PhoneEvent::Message(SipMessage::Response(resp)) => {
                    if 100 <= resp.code && resp.code < 300 {
                        let mut acts: Vec<PhoneAction> = Vec::new();
                        acts.push(PhoneAction::BindRtp);
                        proof {
                            assert(acts@ =~= seq![PhoneAction::BindRtp]);
                        }
                        (State::Connected(conn, Dial::DialOut(d)), acts)
                    } else {
                        (State::Connected(conn, Dial::Error), Vec::new())
                    }
                },
                PhoneEvent::Hook(SwitchHook::ON) => (
                    State::Connected(conn, Dial::OnHook),
                    Vec::new(),
                ),
                _ => (State::Connected(conn, Dial::InviteAuthSent(d)), Vec::new()),
            },
            Dial::DialOut(d) => match ev {
                PhoneEvent::Message(SipMessage::Response(resp)) => {
                    if resp.code == 486 || resp.code == 603 {
                        if d.cseq >= 0xFFFF_0000u32 {
                            return (State::Connected(conn, Dial::Error), Vec::new());
                        }
                        let mut d2 = d;
                        match d2.ack(&resp) {
                            Err(_) => (State::Connected(conn, Dial::Error), Vec::new()),
                            Ok(a) => {
                                let mut acts: Vec<PhoneAction> = Vec::new();
                                acts.push(PhoneAction::Send(SipMessage::Request(a)));
                                acts.push(PhoneAction::StartTone(ToneKind::Busy));
                                (State::Connected(conn, Dial::Busy), acts)
                            },
                        }
                    } else if resp.code == 180 {
                        let mut acts: Vec<PhoneAction> = Vec::new();
                        acts.push(PhoneAction::StartTone(ToneKind::Ring));
                        proof {
                            assert(acts@ =~= seq![PhoneAction::StartTone(ToneKind::Ring)]);
                        }
                        (State::Connected(conn, Dial::Dialing(d)), acts)
                    } else {
                        (State::Connected(conn, Dial::DialOut(d)), Vec::new())
                    }
                },
                PhoneEvent::Message(SipMessage::Request(_)) => (
                    State::Connected(conn, Dial::Error),
                    Vec::new(),
                ),
                PhoneEvent::DialOutTimer => {
                    if d.cseq >= 0xFFFF_0000u32 {
                        return (State::Connected(conn, Dial::Error), Vec::new());
                    }
                    let mut d2 = d;
                    let c = d2.cancel();
                    let mut acts: Vec<PhoneAction> = Vec::new();
                    acts.push(PhoneAction::Send(SipMessage::Request(c)));
                    acts.push(PhoneAction::StartTone(ToneKind::Busy));
                    (State::Connected(conn, Dial::Busy), acts)
                },
                PhoneEvent::Hook(SwitchHook::ON) => (
                    State::Connected(conn, Dial::OnHook),
                    Vec::new(),
                ),
                PhoneEvent::Hook(SwitchHook::OFF) => (
                    State::Connected(conn, Dial::Error),
                    Vec::new(),
                ),
                _ => (State::Connected(conn, Dial::DialOut(d)), Vec::new()),
            },
            Dial::Dialing(d) => match ev {
                PhoneEvent::Message(SipMessage::Response(resp)) => {
                    if resp.code == 200 {
                        if d.cseq >= 0xFFFF_0000u32 {
                            return (State::Connected(conn, Dial::Error), Vec::new());
                        }
                        let mut d2 = d;
                        match d2.ack(&resp) {
                            Err(_) => (State::Connected(conn, Dial::Error), Vec::new()),
                            Ok(a) => {
                                let mut acts: Vec<PhoneAction> = Vec::new();
                                acts.push(PhoneAction::Send(SipMessage::Request(a)));
                                (State::Connected(conn, Dial::Connected(d2)), acts)
                            },
                        }
                    } else {
                        (State::Connected(conn, Dial::Dialing(d)), Vec::new())
                    }
                },
                PhoneEvent::Message(SipMessage::Request(_)) => (
                    State::Connected(conn, Dial::Error),
                    Vec::new(),
                ),
                PhoneEvent::Hook(SwitchHook::ON) => {
                    if d.cseq >= 0xFFFF_0000u32 {
                        return (State::Connected(conn, Dial::Error), Vec::new());
                    }
                    let mut d2 = d;
                    let c = d2.cancel();
                    let mut acts: Vec<PhoneAction> = Vec::new();
                    acts.push(PhoneAction::Send(SipMessage::Request(c)));
                    (State::Connected(conn, Dial::OnHook), acts)
                },
                _ => (State::Connected(conn, Dial::Dialing(d)), Vec::new()),
            },
            Dial::Connected(d) => match ev {
                PhoneEvent::Message(SipMessage::Request(req)) => match req.method {
                    Method::Bye => {
                        let mut d2 = d;
                        match d2.response_to(&req, 200, Vec::new()) {
                            Err(_) => (State::Connected(conn, Dial::Error), Vec::new()),
                            Ok(resp) => {
                                let mut acts: Vec<PhoneAction> = Vec::new();
                                acts.push(PhoneAction::Send(SipMessage::Response(resp)));
                                (State::Connected(conn, Dial::OnHook), acts)
                            },
                        }
                    },
                    Method::Invite => {
                        let mut d2 = d;
                        match crate::sdp::parse_sdp(&req.body) {
                            None => (State::Connected(conn, Dial::Error), Vec::new()),
                            Some(remote) => {
                                let rip = remote.ip;
                                let rport = remote.port;
                                match d2.sdp_from(&req) {
                                    Err(_) => (State::Connected(conn, Dial::Error), Vec::new()),
                                    Ok(own) => match d2.sdp_response_to(&req, 200, &own) {
                                        Err(_) => (
                                            State::Connected(conn, Dial::Error),
                                            Vec::new(),
                                        ),
                                        Ok(resp) => {
                                            if d2.cseq >= 0xFFFF_0000u32 {
                                                return (
                                                    State::Connected(conn, Dial::Error),
                                                    Vec::new(),
                                                );
                                            }
                                            let mut acts: Vec<PhoneAction> = Vec::new();
                                            acts.push(PhoneAction::ConnectRtp(rip, rport));
                                            acts.push(
                                                PhoneAction::Send(SipMessage::Response(resp)),
                                            );
                                            (State::Connected(conn, Dial::Connected(d2)), acts)
                                        },
                                    },
                                }
                            },
                        }
                    },
                    Method::Ack => (State::Connected(conn, Dial::Connected(d)), Vec::new()),
                    _ => (State::Connected(conn, Dial::Error), Vec::new()),
                },
                PhoneEvent::Message(SipMessage::Response(_)) => (
                    State::Connected(conn, Dial::Error),
                    Vec::new(),
                ),
                PhoneEvent::Hook(SwitchHook::ON) => {
                    if d.cseq >= 0xFFFF_0000u32 {
                        return (State::Connected(conn, Dial::Error), Vec::new());
                    }
                    let mut d2 = d;
                    let b = d2.bye();
                    let mut acts: Vec<PhoneAction> = Vec::new();
                    acts.push(PhoneAction::Send(SipMessage::Request(b)));
                    (State::Connected(conn, Dial::HangingUp(d2)), acts)
                },
                _ => (State::Connected(conn, Dial::Connected(d)), Vec::new()),
            },
            Dial::HangingUp(d) => match ev {
                PhoneEvent::Message(SipMessage::Response(resp)) => {
                    if 100 <= resp.code && resp.code < 300 {
                        (State::Connected(conn, Dial::OnHook), Vec::new())
                    } else {
                        (State::Connected(conn, Dial::Error), Vec::new())
                    }
                },
                _ => (State::Connected(conn, Dial::HangingUp(d)), Vec::new()),
            },
            Dial::Busy => match ev {
                PhoneEvent::Hook(SwitchHook::ON) => (
                    State::Connected(conn, Dial::OnHook),
                    Vec::new(),
                ),
                _ => (State::Connected(conn, Dial::Busy), Vec::new()),
            },
            Dial::Error => match ev {
                PhoneEvent::Hook(SwitchHook::ON) => (
                    State::Connected(conn, Dial::OnHook),
                    Vec::new(),
                ),
                _ => (State::Connected(conn, Dial::Error), Vec::new()),
            },
        },
        State::Disconnected(w) => match w {
            WiFi::OnHook => match ev {
                PhoneEvent::Hook(SwitchHook::OFF) => {
                    let mut acts: Vec<PhoneAction> = Vec::new();
                    acts.push(PhoneAction::StartTone(ToneKind::NoWifi));
                    acts.push(PhoneAction::CaptureWifiCreds);
                    proof {
                        assert(acts@ =~= seq![
                            PhoneAction::StartTone(ToneKind::NoWifi),
                            PhoneAction::CaptureWifiCreds,
                        ]);
                    }
                    (State::Disconnected(WiFi::Await), acts)
                },
                PhoneEvent::InternetUp(ip) => {
                    let host = crate::contacts::server_name();
                    proof {
                        reveal_strlit("pbx.frandline.com");
                        assert(crate::sip::host_ok(host@));
                    }
                    let c = TlsSipConn::new(ip, host, crate::contacts::SERVER_PORT);
                    let mut acts: Vec<PhoneAction> = Vec::new();
                    acts.push(PhoneAction::DoRegister);
                    (State::Connected(c, Dial::OnHook), acts)
                },
                _ => (State::Disconnected(WiFi::OnHook), Vec::new()),
            },
            WiFi::Await => match ev {
                PhoneEvent::Hook(SwitchHook::ON) => (
                    State::Disconnected(WiFi::OnHook),
                    Vec::new(),
                ),
                PhoneEvent::WifiResult(Some(ip)) => {
                    let host = crate::contacts::server_name();
                    proof {
                        reveal_strlit("pbx.frandline.com");
                        assert(crate::sip::host_ok(host@));
                    }
                    let mut c = TlsSipConn::new(ip, host, crate::contacts::SERVER_PORT);
                    let user = copy_chars(&cfg.username);
                    let (d, _inbox) = c.dialog(user, cfg.rtp_port);
                    let mut acts: Vec<PhoneAction> = Vec::new();
                    acts.push(PhoneAction::DoRegister);
                    acts.push(PhoneAction::StartTone(ToneKind::OffHook));
                    (State::Connected(c, Dial::Await(d, Vec::new())), acts)
                },
                PhoneEvent::WifiResult(None) => (
                    State::Disconnected(WiFi::Error),
                    Vec::new(),
                ),
                _ => (State::Disconnected(WiFi::Await), Vec::new()),
            },
            WiFi::Error => match ev {
                PhoneEvent::Hook(SwitchHook::ON) => (
                    State::Disconnected(WiFi::OnHook),
                    Vec::new(),
                ),
                _ => (State::Disconnected(WiFi::Error), Vec::new()),
            },
        },
    }
}

/// Compare two character vectors.
fn chars_eq_vec(a: &Vec<char>, b: &Vec<char>) -> (r: bool)
    ensures
        r == (a@ == b@),
{
    if a.len() != b.len() {
        proof {
            assert(a@ != b@);
        }
        return false;
    }
    let mut i: usize = 0;
    while i < a.len()
        invariant
            a@.len() == b@.len(),
            i <= a.len(),
            forall|j: int| 0 <= j < i ==> a@[j] == b@[j],
        decreases a.len() - i,
    {
        if a[i] != b[i] {
            return false;
        }
        i = i + 1;
    }
    proof {
        assert(a@ =~= b@);
    }
    true
}


/// Collects the SSID and password the user types through T9: characters up
/// to the first NUL form the SSID, characters up to the second form the
/// password.
pub struct CredCapture {
    pub ssid: Vec<char>,
    pub pass: Vec<char>,
    pub in_pass: bool,
}

impl CredCapture {
    pub fn new() -> (c: CredCapture)
        ensures
            c.ssid@ == Seq::<char>::empty(),
            c.pass@ == Seq::<char>::empty(),
            !c.in_pass,
    {
        CredCapture { ssid: Vec::new(), pass: Vec::new(), in_pass: false }
    }

    /// Feed one decoded character; returns true when the second NUL ends
    /// the capture.
    pub fn push_char(&mut self, c: char) -> (done: bool)
        ensures
            c == '\0' && !old(self).in_pass ==> !done && *final(self) == (CredCapture {
                in_pass: true,
                ..*old(self)
            }),
            c == '\0' && old(self).in_pass ==> done && *final(self) == *old(self),
            c != '\0' && !old(self).in_pass ==> !done && final(self).ssid@ == old(
                self,
            ).ssid@.push(c) && final(self).pass == old(self).pass && final(self).in_pass == old(
                self,
            ).in_pass,
            c != '\0' && old(self).in_pass ==> !done && final(self).pass@ == old(
                self,
            ).pass@.push(c) && final(self).ssid == old(self).ssid && final(self).in_pass == old(
                self,
            ).in_pass,
    {
        if c == '\0' {
            if self.in_pass {
                true
            } else {
                self.in_pass = true;
                false
            }
        } else {
            if self.in_pass {
                self.pass.push(c);
            } else {
                self.ssid.push(c);
            }
            false
        }
    }
}

} // verus!
