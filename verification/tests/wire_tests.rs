use goertzel::sdp::{emit_sdp, parse_sdp, SdpOffer};
use goertzel::sipmsg::{emit, parse_message, Header, Method, Request, Response, SipMessage};
use goertzel::strutil::{parse_u64, u64_to_chars};

fn cv(s: &str) -> Vec<char> {
    s.chars().collect()
}

fn text(v: &Vec<char>) -> String {
    v.iter().collect()
}

#[test]
fn decimal_round_trip() {
    for n in [0u64, 7, 10, 5061, 19512, u64::MAX] {
        let chars = u64_to_chars(n);
        assert_eq!(parse_u64(&chars), Some(n));
    }
    assert_eq!(text(&u64_to_chars(5061)), "5061");
}

#[test]
fn decimal_rejects_junk() {
    assert_eq!(parse_u64(&cv("")), None);
    assert_eq!(parse_u64(&cv("12a")), None);
    assert_eq!(parse_u64(&cv("99999999999999999999999")), None);
}

#[test]
fn request_round_trips_through_wire_text() {
    let msg = SipMessage::Request(Request {
        method: Method::Register,
        uri: cv("sips:pbx.frandline.com:5061"),
        headers: vec![
            Header { name: cv("CSeq"), value: cv("1 REGISTER") },
            Header { name: cv("Call-ID"), value: cv("17345/abcDEF") },
            Header { name: cv("From"), value: cv("1103 <sips:1103@pbx.frandline.com:5061>;tag=x") },
            Header { name: cv("To"), value: cv("1103 <sips:1103@pbx.frandline.com:5061>") },
            Header { name: cv("Via"), value: cv("SIP/2.0/TLS pbx.frandline.com:5061;branch=z9hG4bKabc;rport") },
            Header { name: cv("Content-Length"), value: cv("0") },
        ],
        body: cv(""),
    });
    let wire = emit(&msg);
    let parsed = parse_message(&wire).expect("parses");
    match (msg, parsed) {
        (SipMessage::Request(a), SipMessage::Request(b)) => {
            assert!(matches!(b.method, Method::Register));
            assert_eq!(text(&a.uri), text(&b.uri));
            assert_eq!(a.headers.len(), b.headers.len());
            for (x, y) in a.headers.iter().zip(b.headers.iter()) {
                assert_eq!(text(&x.name), text(&y.name));
                assert_eq!(text(&x.value), text(&y.value));
            }
            assert_eq!(text(&a.body), text(&b.body));
        },
        _ => panic!("wrong shape"),
    }
}

#[test]
fn response_round_trips_through_wire_text() {
    let msg = SipMessage::Response(Response {
        code: 487,
        reason: cv("Request Terminated"),
        headers: vec![
            Header { name: cv("CSeq"), value: cv("9 CANCEL") },
            Header { name: cv("Call-ID"), value: cv("z1") },
        ],
        body: cv("hello\r\nbody"),
    });
    let wire = emit(&msg);
    assert!(text(&wire).starts_with("SIP/2.0 487 Request Terminated\r\n"));
    let parsed = parse_message(&wire).expect("parses");
    match parsed {
        SipMessage::Response(b) => {
            assert_eq!(b.code, 487);
            assert_eq!(text(&b.reason), "Request Terminated");
            assert_eq!(b.headers.len(), 2);
            assert_eq!(text(&b.headers[0].value), "9 CANCEL");
            assert_eq!(text(&b.body), "hello\r\nbody");
        },
        _ => panic!("wrong shape"),
    }
}

#[test]
fn parse_rejects_headless_text() {
    assert!(parse_message(&cv("no crlf here")).is_none());
    assert!(parse_message(&cv("\r\n")).is_none());
}

#[test]
fn header_value_may_contain_colons() {
    let msg = SipMessage::Request(Request {
        method: Method::Options,
        uri: cv("sips:host:1"),
        headers: vec![Header { name: cv("X-Odd"), value: cv("a:b:c") }],
        body: cv(""),
    });
    let wire = emit(&msg);
    match parse_message(&wire).expect("parses") {
        SipMessage::Request(b) => {
            assert_eq!(text(&b.headers[0].name), "X-Odd");
            assert_eq!(text(&b.headers[0].value), "a:b:c");
        },
        _ => panic!("wrong shape"),
    }
}

#[test]
fn sdp_encode_decode_encode_is_identity() {
    let offer = SdpOffer { sess_id: cv("172345999"), ip: (10, 100, 3, 4), port: 19512 };
    let t1 = emit_sdp(&offer);
    let decoded = parse_sdp(&t1).expect("decodes");
    assert_eq!(text(&decoded.sess_id), "172345999");
    assert_eq!(decoded.ip, (10, 100, 3, 4));
    assert_eq!(decoded.port, 19512);
    let t2 = emit_sdp(&decoded);
    assert_eq!(text(&t1), text(&t2));
}

#[test]
fn sdp_wire_text_shape() {
    let offer = SdpOffer { sess_id: cv("42"), ip: (192, 168, 0, 1), port: 4000 };
    let t = text(&emit_sdp(&offer));
    assert!(t.starts_with("v=0\r\no=- 42 42 IN IP4 192.168.0.1\r\ns=Frandline\r\n"));
    assert!(t.contains("c=IN IP4 192.168.0.1\r\n"));
    assert!(t.contains("m=audio 4000 RTP/AVP 0\r\n"));
    assert!(t.contains("a=rtpmap:0 PCMU/8000\r\n"));
    assert!(t.ends_with("a=sendrecv\r\n"));
}

#[test]
fn sdp_decodes_foreign_text() {
    let foreign = cv(
        "v=0\r\no=alice 2890844526 2890844527 IN IP4 10.100.0.9\r\ns=call\r\nc=IN IP4 10.100.0.9\r\nt=0 0\r\nm=audio 49170 RTP/AVP 0\r\n",
    );
    let d = parse_sdp(&foreign).expect("decodes");
    assert_eq!(text(&d.sess_id), "2890844526");
    assert_eq!(d.ip, (10, 100, 0, 9));
    assert_eq!(d.port, 49170);
}
