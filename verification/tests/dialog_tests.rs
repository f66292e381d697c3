use goertzel::contacts::{contact_to, SERVER_PORT};
use goertzel::rtp::{is_in_net, parse_samples, OutboundAssembler};
use goertzel::sip::{assert_status, Dialog};
use goertzel::sipmsg::{Header, Method, Response, SipMessage, Request};
use goertzel::transport::{RouteDecision, TlsSipConn};

fn cv(s: &str) -> Vec<char> {
    s.chars().collect()
}

fn text(v: &Vec<char>) -> String {
    v.iter().collect()
}

fn fresh_dialog() -> Dialog {
    Dialog::new(cv("pbx.frandline.com"), SERVER_PORT, (10, 100, 0, 7), cv("aaaa-bbbb"), cv("1103"), 19512)
}

fn header_value<'a>(req_headers: &'a Vec<Header>, name: &str) -> Option<String> {
    for h in req_headers {
        if text(&h.name) == name {
            return Some(text(&h.value));
        }
    }
    None
}

#[test]
fn identifiers_have_promised_shape() {
    // the dialog's Call-ID is clock digits, a slash, then sixteen random
    // alphanumeric characters; the From tag is sixteen more
    let d = fresh_dialog();
    let call_id = text(&d.call_id);
    let (clock, salt) = call_id.split_once('/').expect("slash separator");
    assert!(!clock.is_empty() && clock.chars().all(|c| c.is_ascii_digit()));
    assert_eq!(salt.len(), 16);
    assert!(salt.chars().all(|c| c.is_ascii_alphanumeric()));
    assert_eq!(d.from_tag.len(), 16);
    assert!(d.from_tag.iter().all(|c| c.is_ascii_alphanumeric()));
    // two dialogs almost surely differ in their random salt
    let d2 = fresh_dialog();
    assert_ne!(text(&d.call_id), text(&d2.call_id));
    // a connection's instance id is a hyphenated UUID
    let conn = TlsSipConn::new((10, 100, 0, 7), cv("pbx.frandline.com"), 5061);
    assert_eq!(conn.sip_instance.len(), 36);
    assert!(conn
        .sip_instance
        .iter()
        .all(|c| c.is_ascii_alphanumeric() || *c == '-'));
}

#[test]
fn cseq_strictly_increases_across_requests() {
    let mut d = fresh_dialog();
    let r1 = d.new_request(Method::Register, Vec::new());
    let r2 = d.new_request(Method::Invite, Vec::new());
    assert_eq!(text(&r1.headers[0].value), "1 REGISTER");
    assert_eq!(text(&r2.headers[0].value), "2 INVITE");
    assert_eq!(d.cseq, 2);
}

#[test]
fn new_request_carries_dialog_identity() {
    let mut d = fresh_dialog();
    let call_id = text(&d.call_id);
    let r = d.new_request(Method::Options, Vec::new());
    assert_eq!(header_value(&r.headers, "Call-ID"), Some(call_id));
    assert_eq!(header_value(&r.headers, "User-Agent"), Some(String::from("Frandline/0.1.0")));
    assert_eq!(header_value(&r.headers, "Max-Forwards"), Some(String::from("70")));
    assert_eq!(header_value(&r.headers, "Content-Length"), Some(String::from("0")));
    let via = header_value(&r.headers, "Via").expect("via");
    let prefix = "SIP/2.0/TLS pbx.frandline.com:5061;branch=z9hG4bK";
    assert!(via.starts_with(prefix));
    assert!(via.ends_with(";rport"));
    let branch = &via[prefix.len()..via.len() - ";rport".len()];
    assert_eq!(branch.len(), 32);
    assert!(branch.chars().all(|c| c.is_ascii_alphanumeric()));
    let from = header_value(&r.headers, "From").expect("from");
    assert!(from.starts_with("1103 <sips:1103@pbx.frandline.com:5061>;tag="));
}

#[test]
fn register_flow_answers_challenge() {
    let mut d = fresh_dialog();
    let first = d.register();
    assert_eq!(text(&first.headers[0].value), "1 REGISTER");
    assert_eq!(
        header_value(&first.headers, "To"),
        Some(String::from("1103 <sips:1103@pbx.frandline.com:5061>"))
    );
    let challenge = Response {
        code: 401,
        reason: cv("Unauthorized"),
        headers: vec![Header {
            name: cv("WWW-Authenticate"),
            value: cv("Digest algorithm=MD5, realm=\"asterisk\", nonce=\"8e42ab0c\""),
        }],
        body: Vec::new(),
    };
    let second = d.register_auth(&challenge, &cv("hunter2")).expect("challenge answered");
    assert_eq!(text(&second.headers[0].value), "2 REGISTER");
    let auth = header_value(&second.headers, "Authorization").expect("authorization");
    assert!(auth.starts_with("Digest username=\"1103\", realm=\"asterisk\", nonce=\"8e42ab0c\""));
    assert!(auth.contains("uri=\"sips:pbx.frandline.com:5061\""));
    assert!(auth.contains("algorithm=MD5"));
    assert!(auth.contains("qop=auth"));
    assert!(auth.contains("nc=00000001"));
    assert_eq!(header_value(&second.headers, "Expires"), Some(String::from("3600")));
}

#[test]
fn register_auth_requires_challenge() {
    let mut d = fresh_dialog();
    let bare = Response { code: 401, reason: cv("Unauthorized"), headers: vec![], body: vec![] };
    assert!(d.register_auth(&bare, &cv("pw")).is_err());
}

#[test]
fn response_echoes_and_tags() {
    let mut d = fresh_dialog();
    let req = Request {
        method: Method::Invite,
        uri: cv("sips:1103@pbx.frandline.com:5061"),
        headers: vec![
            Header { name: cv("CSeq"), value: cv("20 INVITE") },
            Header { name: cv("Call-ID"), value: cv("remote-call-7") },
            Header { name: cv("From"), value: cv("1100 <sips:1100@x>;tag=abc") },
            Header { name: cv("To"), value: cv("1103 <sips:1103@x>") },
            Header { name: cv("Via"), value: cv("SIP/2.0/TLS x:5061;branch=z9hG4bKq") },
            Header { name: cv("Subject"), value: cv("dropped") },
        ],
        body: vec![],
    };
    let resp = d.response_to(&req, 180, Vec::new()).expect("cseq present");
    assert_eq!(resp.code, 180);
    assert_eq!(text(&resp.reason), "Ringing");
    assert_eq!(text(&resp.headers[0].value), "20 INVITE");
    assert_eq!(text(&resp.headers[1].value), "remote-call-7");
    assert_eq!(text(&resp.headers[2].value), "1100 <sips:1100@x>;tag=abc");
    let to = text(&resp.headers[3].value);
    assert!(to.starts_with("1103 <sips:1103@x>;tag="));
    assert_eq!(text(&resp.headers[4].value), "SIP/2.0/TLS x:5061;branch=z9hG4bKq");
    assert!(header_value(&resp.headers, "Subject").is_none());
    assert!(header_value(&resp.headers, "Contact").is_some());
    assert_eq!(header_value(&resp.headers, "Content-Length"), Some(String::from("0")));
    assert_eq!(d.cseq, 20);
    // the generated To tag is remembered for the rest of the dialog
    let resp2 = d.response_to(&req, 200, Vec::new()).expect("cseq present");
    assert_eq!(text(&resp2.headers[3].value), to);
}

#[test]
fn response_requires_cseq() {
    let mut d = fresh_dialog();
    let req = Request { method: Method::Bye, uri: cv("sips:x"), headers: vec![], body: vec![] };
    assert!(d.response_to(&req, 200, Vec::new()).is_err());
}

#[test]
fn ack_repeats_response_cseq() {
    let mut d = fresh_dialog();
    let resp = Response {
        code: 200,
        reason: cv("OK"),
        headers: vec![Header { name: cv("CSeq"), value: cv("41 INVITE") }],
        body: vec![],
    };
    let a = d.ack(&resp).expect("cseq present");
    assert!(matches!(a.method, Method::Ack));
    assert_eq!(text(&a.headers[0].value), "41 ACK");
}

#[test]
fn status_assertion_accepts_provisional_and_success() {
    let ok = Response { code: 180, reason: cv("Ringing"), headers: vec![], body: vec![] };
    let bad = Response { code: 486, reason: cv("Busy Here"), headers: vec![], body: vec![] };
    assert!(assert_status(&ok).is_ok());
    assert!(assert_status(&bad).is_err());
}

#[test]
fn contacts_know_the_extensions() {
    let (to, uri) = contact_to(&cv("1102")).expect("known");
    assert_eq!(text(&to), "1102 <sips:1102@pbx.frandline.com:5061>");
    assert_eq!(text(&uri), "sips:1102@pbx.frandline.com:5061");
    assert!(contact_to(&cv("9999")).is_none());
    assert!(contact_to(&cv("")).is_none());
}

#[test]
fn transport_routes_by_call_id() {
    let mut conn = TlsSipConn::new((10, 100, 0, 7), cv("pbx.frandline.com"), 5061);
    let (d, inbox) = conn.dialog(cv("1103"), 19512);
    let msg = SipMessage::Response(Response {
        code: 200,
        reason: cv("OK"),
        headers: vec![Header { name: cv("Call-ID"), value: d.call_id.clone() }],
        body: vec![],
    });
    assert_eq!(conn.route(&msg, true), RouteDecision::ToDialog(inbox));
}

#[test]
fn transport_handles_unsolicited_traffic() {
    let conn = TlsSipConn::new((10, 100, 0, 7), cv("pbx.frandline.com"), 5061);
    let req = |m: Method| {
        SipMessage::Request(Request {
            method: m,
            uri: cv("sips:x"),
            headers: vec![Header { name: cv("Call-ID"), value: cv("stranger") }],
            body: vec![],
        })
    };
    assert_eq!(conn.route(&req(Method::Invite), true), RouteDecision::NewInvite);
    assert_eq!(conn.route(&req(Method::Invite), false), RouteDecision::Busy);
    assert_eq!(conn.route(&req(Method::Options), true), RouteDecision::ReplyOk);
    assert_eq!(conn.route(&req(Method::Bye), true), RouteDecision::ReplyOk);
    assert_eq!(conn.route(&req(Method::Cancel), true), RouteDecision::ReplyOkAndTerminated);
    assert_eq!(conn.route(&req(Method::Ack), true), RouteDecision::Drop);
    let late = SipMessage::Response(Response {
        code: 200,
        reason: cv("OK"),
        headers: vec![
            Header { name: cv("Call-ID"), value: cv("expired") },
            Header { name: cv("CSeq"), value: cv("3 INVITE") },
        ],
        body: vec![],
    });
    assert_eq!(conn.route(&late, true), RouteDecision::AckLate);
}

#[test]
fn rtp_frames_are_exactly_1920_bytes() {
    let mut packer = OutboundAssembler::new();
    let mut frames = 0;
    for i in 0..1920i32 {
        if let Some(f) = packer.push_sample((i - 960) as i16) {
            frames += 1;
            assert_eq!(f.len(), 1920);
        }
    }
    assert_eq!(frames, 2);
}

#[test]
fn rtp_pack_unpack_round_trips() {
    let mut packer = OutboundAssembler::new();
    let mut frame = None;
    for i in 0..960i32 {
        let s = (i * 37 - 17000) as i16;
        if let Some(f) = packer.push_sample(s) {
            frame = Some(f);
        }
    }
    let frame = frame.expect("full frame");
    let samples = parse_samples(&frame);
    assert_eq!(samples.len(), 960);
    for (i, s) in samples.iter().enumerate() {
        assert_eq!(*s, (i as i32 * 37 - 17000) as i16);
    }
}

#[test]
fn media_policy_accepts_private_range() {
    assert!(is_in_net((10, 100, 5, 9)));
    assert!(!is_in_net((10, 101, 0, 1)));
    assert!(!is_in_net((192, 168, 0, 1)));
}

fn quoted_field(header: &str, key: &str) -> String {
    let start = header.find(key).expect("field present") + key.len();
    let rest = &header[start..];
    let end = rest.find('"').expect("closing quote");
    rest[..end].to_string()
}

#[test]
fn digest_response_matches_rfc_formula() {
    let mut d = fresh_dialog();
    let challenge = Response {
        code: 401,
        reason: cv("Unauthorized"),
        headers: vec![Header {
            name: cv("WWW-Authenticate"),
            value: cv("Digest realm=\"asterisk\", nonce=\"deadbeef01\""),
        }],
        body: Vec::new(),
    };
    let req = d.register_auth(&challenge, &cv("hunter2")).expect("challenge answered");
    let auth = header_value(&req.headers, "Authorization").expect("authorization");
    let cnonce = quoted_field(&auth, "cnonce=\"");
    let got = quoted_field(&auth, "response=\"");
    let h = |input: String| -> String {
        let mut m = <md5::Md5 as md5::Digest>::new();
        md5::Digest::update(&mut m, input.as_bytes());
        format!("{:x}", md5::Digest::finalize(m))
    };
    let ha1 = h(String::from("1103:asterisk:hunter2"));
    let ha2 = h(String::from("REGISTER:sips:pbx.frandline.com:5061"));
    let expected = h(format!("{}:deadbeef01:00000001:{}:auth:{}", ha1, cnonce, ha2));
    assert_eq!(got, expected);
}

#[test]
fn from_request_requires_identifying_headers() {
    let bare = Request { method: Method::Invite, uri: cv("sips:x"), headers: vec![], body: vec![] };
    assert!(Dialog::from_request(
        cv("pbx.frandline.com"),
        SERVER_PORT,
        (10, 100, 0, 7),
        cv("aaaa-bbbb"),
        19512,
        &bare,
    )
    .is_err());
    // a To header without a sips URI yields no callee either
    let no_user = Request {
        method: Method::Invite,
        uri: cv("sips:x"),
        headers: vec![
            Header { name: cv("CSeq"), value: cv("31 INVITE") },
            Header { name: cv("Call-ID"), value: cv("remote-8") },
            Header { name: cv("From"), value: cv("1100 <sips:1100@x>;tag=q") },
            Header { name: cv("To"), value: cv("somebody") },
        ],
        body: vec![],
    };
    assert!(Dialog::from_request(
        cv("pbx.frandline.com"),
        SERVER_PORT,
        (10, 100, 0, 7),
        cv("aaaa-bbbb"),
        19512,
        &no_user,
    )
    .is_err());
}

#[test]
fn from_request_adopts_remote_identity() {
    let req = Request {
        method: Method::Invite,
        uri: cv("sips:x"),
        headers: vec![
            Header { name: cv("CSeq"), value: cv("31 INVITE") },
            Header { name: cv("Call-ID"), value: cv("remote-9") },
            Header { name: cv("From"), value: cv("1100 <sips:1100@x>;tag=q") },
            Header { name: cv("To"), value: cv("1103 <sips:1103@pbx.frandline.com:5061>") },
        ],
        body: vec![],
    };
    let d = Dialog::from_request(
        cv("pbx.frandline.com"),
        SERVER_PORT,
        (10, 100, 0, 7),
        cv("aaaa-bbbb"),
        19512,
        &req,
    )
    .expect("well-formed request");
    assert_eq!(d.cseq, 31);
    assert_eq!(text(&d.call_id), "remote-9");
    assert_eq!(text(&d.username), "1103");
    assert_eq!(text(&d.to_value.expect("to adopted")), "1100 <sips:1100@x>;tag=q");
}

#[test]
fn registration_needs_a_final_two_hundred() {
    let trying = Response { code: 100, reason: cv("Trying"), headers: vec![], body: vec![] };
    let ok = Response { code: 200, reason: cv("OK"), headers: vec![], body: vec![] };
    assert!(goertzel::sip::register_check(&trying).is_err());
    assert!(goertzel::sip::register_check(&ok).is_ok());
}

#[test]
fn sdp_from_rejects_garbage_bodies() {
    let d = fresh_dialog();
    let req = Request {
        method: Method::Invite,
        uri: cv("sips:x"),
        headers: vec![],
        body: cv("not an offer"),
    };
    assert!(d.sdp_from(&req).is_err());
}

#[test]
fn late_two_hundred_gets_acked() {
    let conn = TlsSipConn::new((10, 100, 0, 7), cv("pbx.frandline.com"), 5061);
    let resp = Response {
        code: 200,
        reason: cv("OK"),
        headers: vec![
            Header { name: cv("Via"), value: cv("SIP/2.0/TLS x;branch=z9hG4bKw") },
            Header { name: cv("CSeq"), value: cv("7 INVITE") },
            Header { name: cv("Call-ID"), value: cv("expired-3") },
            Header { name: cv("Server"), value: cv("dropped") },
            Header { name: cv("From"), value: cv("a <sips:a@x>;tag=1") },
            Header { name: cv("To"), value: cv("b <sips:b@x>;tag=2") },
        ],
        body: vec![],
    };
    let ack = conn.late_ack(&resp).expect("cseq present");
    assert!(matches!(ack.method, Method::Ack));
    assert_eq!(ack.headers.len(), 5);
    assert_eq!(text(&ack.headers[1].value), "7 ACK");
    assert_eq!(text(&ack.headers[2].value), "expired-3");
    assert!(header_value(&ack.headers, "Server").is_none());
    let no_cseq = Response { code: 200, reason: cv("OK"), headers: vec![], body: vec![] };
    assert!(conn.late_ack(&no_cseq).is_none());
}
