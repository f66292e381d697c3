use goertzel::phone::{
    initial_state, step, Dial, PhoneAction, PhoneConfig, PhoneEvent, State, ToneKind, WiFi,
};
use goertzel::pulse::SwitchHook;
use goertzel::sdp::{emit_sdp, SdpOffer};
use goertzel::sipmsg::{Header, Method, Request, Response, SipMessage};
use goertzel::transport::TlsSipConn;

fn cv(s: &str) -> Vec<char> {
    s.chars().collect()
}

fn text(v: &Vec<char>) -> String {
    v.iter().collect()
}

fn config() -> PhoneConfig {
    PhoneConfig { username: cv("1103"), password: cv("hunter2"), rtp_port: 19512 }
}

fn conn() -> TlsSipConn {
    TlsSipConn::new((10, 100, 0, 7), cv("pbx.frandline.com"), 5061)
}

fn sent_request(a: &PhoneAction) -> &Request {
    match a {
        PhoneAction::Send(SipMessage::Request(r)) => r,
        _ => panic!("expected an outbound request"),
    }
}

fn sent_response(a: &PhoneAction) -> &Response {
    match a {
        PhoneAction::Send(SipMessage::Response(r)) => r,
        _ => panic!("expected an outbound response"),
    }
}

fn challenge_response(code: u16) -> Response {
    Response {
        code,
        reason: cv("Unauthorized"),
        headers: vec![Header {
            name: cv("WWW-Authenticate"),
            value: cv("Digest algorithm=MD5, realm=\"asterisk\", nonce=\"77aa\""),
        }],
        body: vec![],
    }
}

fn plain_response(code: u16, cseq: &str) -> Response {
    Response {
        code,
        reason: cv("x"),
        headers: vec![Header { name: cv("CSeq"), value: cv(cseq) }],
        body: vec![],
    }
}

fn inbound_invite() -> Request {
    let sdp = emit_sdp(&SdpOffer { sess_id: cv("777001"), ip: (10, 100, 0, 9), port: 40000 });
    Request {
        method: Method::Invite,
        uri: cv("sips:1103@pbx.frandline.com:5061"),
        headers: vec![
            Header { name: cv("CSeq"), value: cv("20 INVITE") },
            Header { name: cv("Call-ID"), value: cv("remote-call-1") },
            Header { name: cv("From"), value: cv("1100 <sips:1100@x>;tag=abc") },
            Header { name: cv("To"), value: cv("1103 <sips:1103@x>") },
            Header { name: cv("Via"), value: cv("SIP/2.0/TLS x:5061;branch=z9hG4bKq") },
        ],
        body: sdp,
    }
}

#[test]
fn initial_states_cover_the_grid() {
    assert!(matches!(
        initial_state(None, true, &config()),
        State::Disconnected(WiFi::OnHook)
    ));
    assert!(matches!(
        initial_state(None, false, &config()),
        State::Disconnected(WiFi::Await)
    ));
    assert!(matches!(
        initial_state(Some(conn()), true, &config()),
        State::Connected(_, Dial::OnHook)
    ));
    assert!(matches!(
        initial_state(Some(conn()), false, &config()),
        State::Connected(_, Dial::Await(_, _))
    ));
}

#[test]
fn lifting_the_handset_opens_dial_tone() {
    let s = State::Connected(conn(), Dial::OnHook);
    let (s2, acts) = step(s, PhoneEvent::Hook(SwitchHook::OFF), &config());
    assert!(matches!(s2, State::Connected(_, Dial::Await(_, _))));
    assert!(matches!(acts[..], [PhoneAction::StartTone(ToneKind::OffHook)]));
}

#[test]
fn dialing_a_contact_places_the_call() {
    // S5: the number 1102 is dialed, the dial timer fires, the INVITE goes
    // out; the challenge is answered; 100 Trying completes the dial-out.
    let mut c = conn();
    let (d, _inbox) = c.dialog(cv("1103"), 19512);
    let mut state = State::Connected(c, Dial::Await(d, Vec::new()));
    for g in [1u8, 1, 0, 2] {
        let (s2, acts) = step(state, PhoneEvent::Digit(g), &config());
        assert!(acts.is_empty());
        state = s2;
    }
    let (s2, acts) = step(state, PhoneEvent::DialTimer, &config());
    assert!(matches!(s2, State::Connected(_, Dial::InviteSent(_, _, _, _))));
    assert_eq!(acts.len(), 1);
    let invite = sent_request(&acts[0]);
    assert!(matches!(invite.method, Method::Invite));
    assert_eq!(text(&invite.uri), "sips:1102@pbx.frandline.com:5061");
    assert!(!invite.body.is_empty());

    let (s3, acts) = step(
        s2,
        PhoneEvent::Message(SipMessage::Response(challenge_response(401))),
        &config(),
    );
    assert!(matches!(s3, State::Connected(_, Dial::InviteAuthSent(_))));
    let authed = sent_request(&acts[0]);
    assert!(matches!(authed.method, Method::Invite));
    assert_eq!(text(&authed.headers[10].name), "Authorization");
    assert!(text(&authed.headers[10].value).starts_with("Digest username=\"1103\""));

    let (s4, acts) = step(
        s3,
        PhoneEvent::Message(SipMessage::Response(plain_response(100, "2 INVITE"))),
        &config(),
    );
    assert!(matches!(s4, State::Connected(_, Dial::DialOut(_))));
    assert!(matches!(acts[..], [PhoneAction::BindRtp]));
}

#[test]
fn unknown_numbers_keep_collecting() {
    let mut c = conn();
    let (d, _inbox) = c.dialog(cv("1103"), 19512);
    let state = State::Connected(c, Dial::Await(d, cv("42")));
    let (s2, acts) = step(state, PhoneEvent::DialTimer, &config());
    assert!(matches!(s2, State::Connected(_, Dial::Await(_, _))));
    assert!(acts.is_empty());
}

#[test]
fn outbound_ringing_and_answer() {
    let mut c = conn();
    let (d, _inbox) = c.dialog(cv("1103"), 19512);
    let state = State::Connected(c, Dial::DialOut(d));
    let (s2, acts) = step(
        state,
        PhoneEvent::Message(SipMessage::Response(plain_response(180, "2 INVITE"))),
        &config(),
    );
    assert!(matches!(s2, State::Connected(_, Dial::Dialing(_))));
    assert!(matches!(acts[..], [PhoneAction::StartTone(ToneKind::Ring)]));

    let (s3, acts) = step(
        s2,
        PhoneEvent::Message(SipMessage::Response(plain_response(200, "2 INVITE"))),
        &config(),
    );
    assert!(matches!(s3, State::Connected(_, Dial::Connected(_))));
    let ack = sent_request(&acts[0]);
    assert!(matches!(ack.method, Method::Ack));
    assert_eq!(text(&ack.headers[0].value), "2 ACK");
}

#[test]
fn busy_answer_plays_busy_tone() {
    let mut c = conn();
    let (d, _inbox) = c.dialog(cv("1103"), 19512);
    let state = State::Connected(c, Dial::DialOut(d));
    let (s2, acts) = step(
        state,
        PhoneEvent::Message(SipMessage::Response(plain_response(486, "2 INVITE"))),
        &config(),
    );
    assert!(matches!(s2, State::Connected(_, Dial::Busy)));
    assert!(matches!(sent_request(&acts[0]).method, Method::Ack));
    assert!(matches!(acts[1], PhoneAction::StartTone(ToneKind::Busy)));
}

#[test]
fn silent_dial_out_cancels() {
    let mut c = conn();
    let (d, _inbox) = c.dialog(cv("1103"), 19512);
    let state = State::Connected(c, Dial::DialOut(d));
    let (s2, acts) = step(state, PhoneEvent::DialOutTimer, &config());
    assert!(matches!(s2, State::Connected(_, Dial::Busy)));
    assert!(matches!(sent_request(&acts[0]).method, Method::Cancel));
}

#[test]
fn inbound_call_is_answered() {
    // S6: an INVITE rings the phone; lifting the handset answers with 200
    // and SDP; the ACK completes the call.
    let state = State::Connected(conn(), Dial::OnHook);
    let (s2, acts) = step(
        state,
        PhoneEvent::Message(SipMessage::Request(inbound_invite())),
        &config(),
    );
    assert!(matches!(s2, State::Connected(_, Dial::Ringing(_, _))));
    assert_eq!(sent_response(&acts[0]).code, 180);
    assert!(matches!(acts[1], PhoneAction::StartRing));
    assert!(matches!(acts[2], PhoneAction::BindRtp));

    let (s3, acts) = step(s2, PhoneEvent::Hook(SwitchHook::OFF), &config());
    assert!(matches!(s3, State::Connected(_, Dial::Answering(_))));
    let ok = sent_response(&acts[0]);
    assert_eq!(ok.code, 200);
    let body = text(&ok.body);
    assert!(body.contains("o=- 777001 777001 IN IP4 10.100.0.7"));
    assert!(body.contains("m=audio 19512 RTP/AVP 0"));

    let ack = Request {
        method: Method::Ack,
        uri: cv("sips:1103@pbx.frandline.com:5061"),
        headers: vec![Header { name: cv("CSeq"), value: cv("20 ACK") }],
        body: vec![],
    };
    let (s4, acts) = step(s3, PhoneEvent::Message(SipMessage::Request(ack)), &config());
    assert!(matches!(s4, State::Connected(_, Dial::Connected(_))));
    assert!(acts.is_empty());
}

#[test]
fn cancelled_ring_returns_to_rest() {
    let state = State::Connected(conn(), Dial::OnHook);
    let (s2, _) = step(
        state,
        PhoneEvent::Message(SipMessage::Request(inbound_invite())),
        &config(),
    );
    let cancel = Request {
        method: Method::Cancel,
        uri: cv("sips:1103@pbx.frandline.com:5061"),
        headers: vec![
            Header { name: cv("CSeq"), value: cv("20 CANCEL") },
            Header { name: cv("Call-ID"), value: cv("remote-call-1") },
        ],
        body: vec![],
    };
    let (s3, acts) = step(s2, PhoneEvent::Message(SipMessage::Request(cancel)), &config());
    assert!(matches!(s3, State::Connected(_, Dial::OnHook)));
    assert_eq!(sent_response(&acts[0]).code, 487);
}

#[test]
fn hanging_up_sends_bye_and_waits() {
    // S7: on-hook during a call sends BYE; its 200 puts the phone to rest.
    let mut c = conn();
    let (d, _inbox) = c.dialog(cv("1103"), 19512);
    let state = State::Connected(c, Dial::Connected(d));
    let (s2, acts) = step(state, PhoneEvent::Hook(SwitchHook::ON), &config());
    assert!(matches!(s2, State::Connected(_, Dial::HangingUp(_))));
    assert!(matches!(sent_request(&acts[0]).method, Method::Bye));

    let (s3, acts) = step(
        s2,
        PhoneEvent::Message(SipMessage::Response(plain_response(200, "1 BYE"))),
        &config(),
    );
    assert!(matches!(s3, State::Connected(_, Dial::OnHook)));
    assert!(acts.is_empty());
}

#[test]
fn remote_hangup_is_confirmed() {
    // the peer's BYE gets its 200 and the phone comes to rest
    let mut c = conn();
    let (d, _inbox) = c.dialog(cv("1103"), 19512);
    let state = State::Connected(c, Dial::Connected(d));
    let bye = Request {
        method: Method::Bye,
        uri: cv("sips:1103@x"),
        headers: vec![Header { name: cv("CSeq"), value: cv("21 BYE") }],
        body: vec![],
    };
    let (s2, acts) = step(state, PhoneEvent::Message(SipMessage::Request(bye)), &config());
    assert!(matches!(s2, State::Connected(_, Dial::OnHook)));
    assert_eq!(sent_response(&acts[0]).code, 200);
}

#[test]
fn cradling_during_ring_back_cancels() {
    let mut c = conn();
    let (mut d, _inbox) = c.dialog(cv("1103"), 19512);
    let _first = d.new_request(Method::Invite, Vec::new());
    let state = State::Connected(c, Dial::Dialing(d));
    let (s2, acts) = step(state, PhoneEvent::Hook(SwitchHook::ON), &config());
    assert!(matches!(s2, State::Connected(_, Dial::OnHook)));
    assert!(matches!(sent_request(&acts[0]).method, Method::Cancel));
    assert_eq!(text(&sent_request(&acts[0]).headers[0].value), "2 CANCEL");
}

#[test]
fn hook_on_rests_from_every_waiting_state() {
    let on = PhoneEvent::Hook(SwitchHook::ON);
    let mk = || {
        let mut c = conn();
        let (d, _inbox) = c.dialog(cv("1103"), 19512);
        (c, d)
    };
    let (c, d) = mk();
    let (s, a) = step(State::Connected(c, Dial::Await(d, cv("11"))), on, &config());
    assert!(matches!(s, State::Connected(_, Dial::OnHook)) && a.is_empty());
    let (c, d) = mk();
    let on = PhoneEvent::Hook(SwitchHook::ON);
    let (s, a) = step(State::Connected(c, Dial::DialOut(d)), on, &config());
    assert!(matches!(s, State::Connected(_, Dial::OnHook)) && a.is_empty());
    let (c, _d) = mk();
    let on = PhoneEvent::Hook(SwitchHook::ON);
    let (s, a) = step(State::Connected(c, Dial::Busy), on, &config());
    assert!(matches!(s, State::Connected(_, Dial::OnHook)) && a.is_empty());
    let (c, _d) = mk();
    let on = PhoneEvent::Hook(SwitchHook::ON);
    let (s, a) = step(State::Connected(c, Dial::Error), on, &config());
    assert!(matches!(s, State::Connected(_, Dial::OnHook)) && a.is_empty());
}

#[test]
fn reinvite_renegotiates_media() {
    let mut c = conn();
    let (d, _inbox) = c.dialog(cv("1103"), 19512);
    let state = State::Connected(c, Dial::Connected(d));
    let reinvite = inbound_invite();
    let (s2, acts) = step(state, PhoneEvent::Message(SipMessage::Request(reinvite)), &config());
    assert!(matches!(s2, State::Connected(_, Dial::Connected(_))));
    assert!(matches!(acts[0], PhoneAction::ConnectRtp((10, 100, 0, 9), 40000)));
    let answer = sent_response(&acts[1]);
    assert_eq!(answer.code, 200);
    assert!(text(&answer.body).contains("o=- 777001 777001 IN IP4 10.100.0.7"));
}

#[test]
fn wifi_capture_starts_without_connectivity() {
    let s = State::Disconnected(WiFi::OnHook);
    let (s2, acts) = step(s, PhoneEvent::Hook(SwitchHook::OFF), &config());
    assert!(matches!(s2, State::Disconnected(WiFi::Await)));
    assert!(matches!(
        acts[..],
        [PhoneAction::StartTone(ToneKind::NoWifi), PhoneAction::CaptureWifiCreds]
    ));
}

#[test]
fn wifi_success_registers_and_opens_dial_tone() {
    let s = State::Disconnected(WiFi::Await);
    let (s2, acts) = step(s, PhoneEvent::WifiResult(Some((10, 100, 0, 7))), &config());
    assert!(matches!(s2, State::Connected(_, Dial::Await(_, _))));
    assert!(matches!(acts[0], PhoneAction::DoRegister));
    let (s3, _) = step(
        State::Disconnected(WiFi::Await),
        PhoneEvent::WifiResult(None),
        &config(),
    );
    assert!(matches!(s3, State::Disconnected(WiFi::Error)));
}

#[test]
fn internet_up_reconnects() {
    let s = State::Disconnected(WiFi::OnHook);
    let (s2, acts) = step(s, PhoneEvent::InternetUp((10, 100, 0, 7)), &config());
    assert!(matches!(s2, State::Connected(_, Dial::OnHook)));
    assert!(matches!(acts[..], [PhoneAction::DoRegister]));
}
