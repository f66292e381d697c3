//! SIP dialog state: message construction, sequence numbers, tags, and
//! digest authentication.
//!
//! A dialog owns no socket; it builds [`Request`]s and [`Response`]s for the
//! transport to carry, tracks its Call-ID, From-tag, To header and CSeq
//! counter, and computes RFC 2617 digest credentials (MD5, `qop=auth`)
//! through the digest wrapper.  The CSeq of each request a dialog builds is
//! strictly greater than the previous one — see
//! [`lemma_cseq_strictly_increases`].

use vstd::prelude::*;

use crate::outside::{
    all_alnum, is_alnum_char, md5_hex, md5_hex_chars, micros_since_epoch, ms_since_epoch,
    rand_alnum_chars,
};
use crate::sdp::{emit_sdp, emit_sdp_spec, parse_sdp, parse_sdp_spec, SdpOffer};
use crate::sipmsg::{
    method_token, name_ok, text_ok, token_ok, wf_msg, Header, HeaderModel, Method, MsgModel,
    Request, Response,
};
use crate::strutil::{
    all_dec_digits, chars_eq_str, contains_subseq, dec_digits, dec_value, find_char,
    find_char_from, find_str_sub, find_subseq, index_of_char, lemma_dec_digits_value, parse_u64,
    push_chars, push_str, str_chars, subvec, u64_to_chars,
};

verus! {

/// The authentication realm of the PBX.
pub open spec fn realm_chars() -> Seq<char> {
    "asterisk"@
}

/// A dialog-level failure: what the peer's message lacked.
#[derive(Clone, Copy, PartialEq, Eq, Structural, Debug)]
pub enum SipError {
    MissingHeader,
    BadCSeq,
    MissingWwwAuthenticate,
    MissingToUser,
    BadSdp,
    UnsuccessfulStatus,
}

/// Hostname characters: letters, digits, dots and hyphens.
pub open spec fn host_ok(s: Seq<char>) -> bool {
    s.len() > 0 && forall|j: int|
        0 <= j < s.len() ==> is_alnum_char(#[trigger] s[j]) || s[j] == '.' || s[j] == '-'
}

/// A username the headers and digest strings can carry: nonempty, free of
/// line breaks, and free of double quotes (it stands inside quoted digest
/// fields).
pub open spec fn user_ok(s: Seq<char>) -> bool {
    s.len() > 0 && text_ok(s) && forall|j: int| 0 <= j < s.len() ==> s[j] != '"'
}

/// Per-call state of one SIP dialog.
pub struct Dialog {
    pub server_host: Vec<char>,
    pub server_port: u16,
    pub client_ip: (u8, u8, u8, u8),
    /// The instance id carried in `+sip.instance` (a hyphenated UUID).
    pub sip_instance: Vec<char>,
    pub username: Vec<char>,
    /// Monotone counter: the CSeq of the last request this dialog built.
    pub cseq: u32,
    pub call_id: Vec<char>,
    pub from_tag: Vec<char>,
    /// The To header value, once the remote (or a generated tag) fixed it.
    pub to_value: Option<Vec<char>>,
    /// The local RTP port advertised in SDP offers.
    pub rtp_port: u16,
}

impl Dialog {
    pub open spec fn wf(self) -> bool {
        &&& host_ok(self.server_host@)
        &&& user_ok(self.username@)
        &&& token_ok(self.call_id@)
        &&& self.from_tag@.len() > 0 && all_alnum(self.from_tag@)
        &&& self.sip_instance@.len() > 0
        &&& forall|j: int|
            0 <= j < self.sip_instance@.len() ==> is_alnum_char(#[trigger] self.sip_instance@[j])
                || self.sip_instance@[j] == '-'
        &&& match self.to_value {
            Some(t) => t@.len() > 0 && text_ok(t@),
            None => true,
        }
    }

    /// Open a fresh dialog toward the server: a unique Call-ID (clock and
    /// random characters) and a fresh From-tag.
    pub fn new(
        server_host: Vec<char>,
        server_port: u16,
        client_ip: (u8, u8, u8, u8),
        sip_instance: Vec<char>,
        username: Vec<char>,
        rtp_port: u16,
    ) -> (d: Dialog)
        requires
            host_ok(server_host@),
            user_ok(username@),
            sip_instance@.len() > 0,
            forall|j: int|
                0 <= j < sip_instance@.len() ==> is_alnum_char(#[trigger] sip_instance@[j])
                    || sip_instance@[j] == '-',
        ensures
            d.wf(),
            d.cseq == 0,
            d.server_host == server_host,
            d.server_port == server_port,
            d.client_ip == client_ip,
            d.username == username,
            d.to_value is None,
            d.rtp_port == rtp_port,
            d.from_tag@.len() == 16,
            all_alnum(d.from_tag@),
            exists|n: nat, salt: Seq<char>|
                salt.len() == 16 && all_alnum(salt) && d.call_id@ == #[trigger] call_id_chars(
                    n,
                    salt,
                ),
    {
        let now = ms_since_epoch();
        let mut call_id = u64_to_chars(now);
        call_id.push('/');
        let salt = rand_alnum_chars(16);
        push_chars(&mut call_id, &salt);
        let from_tag = rand_alnum_chars(16);
        proof {
            lemma_dec_digits_value(now as nat);
            assert forall|j: int| 0 <= j < call_id@.len() implies call_id@[j] != ' '
                && call_id@[j] != '\r' && call_id@[j] != '\n' by {
                if j < dec_digits(now as nat).len() {
                    assert(crate::strutil::is_dec_digit(call_id@[j]));
                } else if j > dec_digits(now as nat).len() {
                    assert(is_alnum_char(call_id@[j]));
                }
            }
            assert(call_id@ =~= call_id_chars(now as nat, salt@));
        }
        Dialog {
            server_host,
            server_port,
            client_ip,
            sip_instance,
            username,
            cseq: 0,
            call_id,
            from_tag,
            to_value: None,
            rtp_port,
        }
    }

    /// Open a dialog for an incoming request: adopt its Call-ID and CSeq,
    /// keep its From as the remote To, and take the local user from the To
    /// header's URI, as the callee the request addresses.
    pub fn from_request(
        server_host: Vec<char>,
        server_port: u16,
        client_ip: (u8, u8, u8, u8),
        sip_instance: Vec<char>,
        rtp_port: u16,
        msg: &Request,
    ) -> (r: Result<Dialog, SipError>)
        requires
            host_ok(server_host@),
            sip_instance@.len() > 0,
            forall|j: int|
                0 <= j < sip_instance@.len() ==> is_alnum_char(#[trigger] sip_instance@[j])
                    || sip_instance@[j] == '-',
        ensures
            r is Ok <==> {
                &&& header_cseq_number(msg@.headers) is Some
                &&& find_header(msg@.headers, "Call-ID"@) is Some
                &&& token_ok(find_header(msg@.headers, "Call-ID"@).unwrap().value)
                &&& find_header(msg@.headers, "From"@) is Some
                &&& find_header(msg@.headers, "From"@).unwrap().value.len() > 0
                &&& text_ok(find_header(msg@.headers, "From"@).unwrap().value)
                &&& to_user_of(msg@.headers) is Some
                &&& user_ok(to_user_of(msg@.headers).unwrap())
            },
            r is Ok ==> {
                let d = r.unwrap();
                &&& d.wf()
                &&& d.cseq == header_cseq_number(msg@.headers).unwrap()
                &&& d.call_id@ == find_header(msg@.headers, "Call-ID"@).unwrap().value
                &&& d.username@ == to_user_of(msg@.headers).unwrap()
                &&& d.to_value is Some
                &&& d.to_value.unwrap()@ == find_header(msg@.headers, "From"@).unwrap().value
                &&& d.server_host == server_host
                &&& d.server_port == server_port
                &&& d.client_ip == client_ip
                &&& d.rtp_port == rtp_port
            },
    {
        let cseq = match headers_cseq(&msg.headers) {
            None => return Err(SipError::BadCSeq),
            Some(n) => n,
        };
        let call_id = match get_header(&msg.headers, "Call-ID") {
            None => return Err(SipError::MissingHeader),
            Some(i) => {
                let v = &msg.headers[i];
                if !value_is_token(&v.value) {
                    return Err(SipError::MissingHeader);
                }
                subvec(&v.value, 0, v.value.len())
            },
        };
        let username = match extract_to_user(&msg.headers) {
            None => return Err(SipError::MissingToUser),
            Some(u) => u,
        };
        if !value_is_user(&username) {
            return Err(SipError::MissingToUser);
        }
        let to_value = match get_header(&msg.headers, "From") {
            None => return Err(SipError::MissingHeader),
            Some(i) => {
                let v = &msg.headers[i];
                if v.value.len() == 0 {
                    return Err(SipError::MissingHeader);
                }
                proof {
                    assert(token_ok(find_header(msg@.headers, "Call-ID"@).unwrap().value)
                        ==> text_ok(find_header(msg@.headers, "Call-ID"@).unwrap().value));
                }
                if !value_is_text(&v.value) {
                    return Err(SipError::MissingHeader);
                }
                subvec(&v.value, 0, v.value.len())
            },
        };
        let from_tag = rand_alnum_chars(16);
        proof {
            assert(call_id@ =~= find_header(msg@.headers, "Call-ID"@).unwrap().value);
            assert(to_value@ =~= find_header(msg@.headers, "From"@).unwrap().value);
        }
        Ok(
            Dialog {
                server_host,
                server_port,
                client_ip,
                sip_instance,
                username,
                cseq,
                call_id,
                from_tag,
                to_value: Some(to_value),
                rtp_port,
            },
        )
    }

    /// Remember the remote To header (tag included) for later requests.
    pub fn set_to(&mut self, to: Vec<char>)
        requires
            to@.len() > 0,
            text_ok(to@),
        ensures
            *final(self) == (Dialog { to_value: Some(to), ..*old(self) }),
    {
        self.to_value = Some(to);
    }

    /// The local URI: `sips:user@host:port`.
    pub fn uri(&self) -> (r: Vec<char>)
        ensures
            r@ == sip_uri_chars(self.username@, self.server_host@, self.server_port),
    {
        let mut r = str_chars("sips:");
        push_chars(&mut r, &self.username);
        r.push('@');
        push_chars(&mut r, &self.server_host);
        r.push(':');
        let p = u64_to_chars(self.server_port as u64);
        push_chars(&mut r, &p);
        proof {
            assert(r@ =~= sip_uri_chars(self.username@, self.server_host@, self.server_port));
        }
        r
    }

    /// The Contact header value, `+sip.instance`, `reg-id` and all.
    pub fn contact(&self) -> (r: Vec<char>)
        ensures
            r@ == contact_value(
                self.username@,
                self.server_host@,
                self.server_port,
                self.sip_instance@,
            ),
    {
        let mut r: Vec<char> = Vec::new();
        push_chars(&mut r, &self.username);
        push_str(&mut r, " <sips:");
        push_chars(&mut r, &self.username);
        r.push('@');
        push_chars(&mut r, &self.server_host);
        r.push(':');
        let p = u64_to_chars(self.server_port as u64);
        push_chars(&mut r, &p);
        push_str(&mut r, ";transport=tls;ob>;q=1;+sip.instance=\"<urn:uuid:");
        push_chars(&mut r, &self.sip_instance);
        push_str(&mut r, ">\";reg-id=1");
        proof {
            assert(r@ =~= contact_value(
                self.username@,
                self.server_host@,
                self.server_port,
                self.sip_instance@,
            ));
        }
        r
    }

    /// The From header value: the local identity with its tag.
    pub fn from_value_chars(&self) -> (r: Vec<char>)
        ensures
            r@ == from_value(
                self.username@,
                self.server_host@,
                self.server_port,
                self.from_tag@,
            ),
    {
        let mut r: Vec<char> = Vec::new();
        push_chars(&mut r, &self.username);
        push_str(&mut r, " <");
        let u = self.uri();
        push_chars(&mut r, &u);
        push_str(&mut r, ">;tag=");
        push_chars(&mut r, &self.from_tag);
        proof {
            assert(r@ =~= from_value(
                self.username@,
                self.server_host@,
                self.server_port,
                self.from_tag@,
            ));
        }
        r
    }

    /// Build the next in-dialog request: a fresh CSeq (strictly above every
    /// earlier one), a fresh `z9hG4bK` branch, and the dialog's identity
    /// headers.
    #[verifier::rlimit(50)]
    pub fn new_request(&mut self, method: Method, body: Vec<char>) -> (r: Request)
        requires
            old(self).wf(),
            old(self).cseq < 0xFFFF_FFFFu32,
        ensures
            *final(self) == (Dialog { cseq: (old(self).cseq + 1) as u32, ..*old(self) }),
            final(self).wf(),
            is_request_of(*old(self), method, body@, r@),
            wf_msg(r@),
            r@.method == method,
            r@.body == body@,
            r@.headers.len() == (if old(self).to_value is Some { 9int } else { 8int }),
            r@.headers[0] == (HeaderModel {
                name: "CSeq"@,
                value: cseq_value(old(self).cseq + 1, method),
            }),
            r@.headers[3] == (HeaderModel { name: "Call-ID"@, value: old(self).call_id@ }),
    {
        proof {
            lemma_grammar_words();
        }
        let branch = rand_alnum_chars(32);
        self.cseq = self.cseq + 1;
        let mut headers: Vec<Header> = Vec::new();
        let mut cseq_v = u64_to_chars(self.cseq as u64);
        cseq_v.push(' ');
        push_method_token(&mut cseq_v, method);
        headers.push(Header { name: str_chars("CSeq"), value: cseq_v });
        let mut via_v = str_chars("SIP/2.0/TLS ");
        push_chars(&mut via_v, &self.server_host);
        via_v.push(':');
        let p = u64_to_chars(self.server_port as u64);
        push_chars(&mut via_v, &p);
        push_str(&mut via_v, ";branch=z9hG4bK");
        push_chars(&mut via_v, &branch);
        push_str(&mut via_v, ";rport");
        headers.push(Header { name: str_chars("Via"), value: via_v });
        headers.push(
            Header { name: str_chars("User-Agent"), value: str_chars("Frandline/0.1.0") },
        );
        headers.push(
            Header { name: str_chars("Call-ID"), value: subvec(&self.call_id, 0, self.call_id.len()) },
        );
        headers.push(Header { name: str_chars("Contact"), value: self.contact() });
        headers.push(Header { name: str_chars("From"), value: self.from_value_chars() });
        match &self.to_value {
            Some(t) => {
                headers.push(Header { name: str_chars("To"), value: subvec(t, 0, t.len()) });
            },
            None => {},
        }
        headers.push(Header { name: str_chars("Max-Forwards"), value: str_chars("70") });
        let cl = u64_to_chars(body.len() as u64);
        headers.push(Header { name: str_chars("Content-Length"), value: cl });
        let mut uri = str_chars("sips:");
        push_chars(&mut uri, &self.server_host);
        uri.push(':');
        let p2 = u64_to_chars(self.server_port as u64);
        push_chars(&mut uri, &p2);
        let ghost bodyv = body@;
        let req = Request { method, uri, headers, body };
        proof {
            let d = *old(self);
            assert(req@.uri =~= req_uri_chars(d.server_host@, d.server_port));
            assert(req@.headers =~~= request_headers(d, method, bodyv.len() as int, branch@));
            assert(req@ == request_model(d, method, bodyv, branch@));
            lemma_request_wf(d, method, bodyv, branch@);
        }
        req
    }

    /// The REGISTER request that opens registration: like any request, plus
    /// an untagged To naming the local identity.
    pub fn register(&mut self) -> (r: Request)
        requires
            old(self).wf(),
            old(self).cseq < 0xFFFF_FFFFu32,
            old(self).to_value is None,
        ensures
            *final(self) == (Dialog { cseq: (old(self).cseq + 1) as u32, ..*old(self) }),
            wf_msg(r@),
            r@.method == Method::Register,
            r@.headers.len() == 9,
            r@.headers[0] == (HeaderModel {
                name: "CSeq"@,
                value: cseq_value(old(self).cseq + 1, Method::Register),
            }),
            r@.headers[8] == (HeaderModel {
                name: "To"@,
                value: to_plain_value(
                    old(self).username@,
                    old(self).server_host@,
                    old(self).server_port,
                ),
            }),
    {
        proof {
            lemma_grammar_words();
        }
        let mut req = self.new_request(Method::Register, Vec::new());
        let mut to_v: Vec<char> = Vec::new();
        push_chars(&mut to_v, &self.username);
        push_str(&mut to_v, " <");
        let u = self.uri();
        push_chars(&mut to_v, &u);
        push_str(&mut to_v, ">");
        proof {
            assert(to_v@ =~= to_plain_value(
                self.username@,
                self.server_host@,
                self.server_port,
            ));
        }
        let ghost old_model = req@;
        req.headers.push(Header { name: str_chars("To"), value: to_v });
        proof {
            assert(req@.headers =~= old_model.headers.push(
                HeaderModel {
                    name: "To"@,
                    value: to_plain_value(
                        old(self).username@,
                        old(self).server_host@,
                        old(self).server_port,
                    ),
                },
            ));
            assert(text_ok(old(self).username@));
            lemma_dec_digits_value(old(self).server_port as nat);
            lemma_plain_text(dec_digits(old(self).server_port as nat));
            assert(text_ok(to_plain_value(
                old(self).username@,
                old(self).server_host@,
                old(self).server_port,
            )));
            assert forall|j: int| 0 <= j < req@.headers.len() implies name_ok(
                #[trigger] req@.headers[j].name,
            ) && text_ok(req@.headers[j].value) by {
                if j < req@.headers.len() - 1 {
                    assert(req@.headers[j] == old_model.headers[j]);
                    assert(wf_msg(old_model));
                }
            }
            assert(wf_msg(req@));
        }
        req
    }
}

/// The shape of a fresh Call-ID: clock digits, a slash, and the random
/// salt.
pub open spec fn call_id_chars(n: nat, salt: Seq<char>) -> Seq<char> {
    dec_digits(n) + seq!['/'] + salt
}

/// `sips:user@host:port`.
pub open spec fn sip_uri_chars(user: Seq<char>, host: Seq<char>, port: u16) -> Seq<char> {
    "sips:"@ + user + seq!['@'] + host + seq![':'] + dec_digits(port as nat)
}

/// The request URI: `sips:host:port`.
pub open spec fn req_uri_chars(host: Seq<char>, port: u16) -> Seq<char> {
    "sips:"@ + host + seq![':'] + dec_digits(port as nat)
}

pub open spec fn from_value(user: Seq<char>, host: Seq<char>, port: u16, tag: Seq<char>)
    -> Seq<char> {
    user + " <"@ + sip_uri_chars(user, host, port) + ">;tag="@ + tag
}

pub open spec fn to_plain_value(user: Seq<char>, host: Seq<char>, port: u16) -> Seq<char> {
    user + " <"@ + sip_uri_chars(user, host, port) + ">"@
}

pub open spec fn contact_value(
    user: Seq<char>,
    host: Seq<char>,
    port: u16,
    instance: Seq<char>,
) -> Seq<char> {
    user + " <sips:"@ + user + seq!['@'] + host + seq![':'] + dec_digits(port as nat)
        + ";transport=tls;ob>;q=1;+sip.instance=\"<urn:uuid:"@ + instance + ">\";reg-id=1"@
}

pub open spec fn via_value(host: Seq<char>, port: u16, branch: Seq<char>) -> Seq<char> {
    "SIP/2.0/TLS "@ + host + seq![':'] + dec_digits(port as nat) + ";branch=z9hG4bK"@ + branch
        + ";rport"@
}

/// `<number> <METHOD>`.
pub open spec fn cseq_value(n: int, method: Method) -> Seq<char> {
    dec_digits(n as nat) + seq![' '] + method_token(method)
}

/// The headers of a request built from dialog state `d` (whose counter then
/// stands at `d.cseq + 1`).
pub open spec fn request_headers(d: Dialog, method: Method, body_len: int, branch: Seq<char>)
    -> Seq<HeaderModel> {
    let base = seq![
        HeaderModel { name: "CSeq"@, value: cseq_value(d.cseq + 1, method) },
        HeaderModel { name: "Via"@, value: via_value(d.server_host@, d.server_port, branch) },
        HeaderModel { name: "User-Agent"@, value: "Frandline/0.1.0"@ },
        HeaderModel { name: "Call-ID"@, value: d.call_id@ },
        HeaderModel {
            name: "Contact"@,
            value: contact_value(d.username@, d.server_host@, d.server_port, d.sip_instance@),
        },
        HeaderModel {
            name: "From"@,
            value: from_value(d.username@, d.server_host@, d.server_port, d.from_tag@),
        },
    ];
    let tail = seq![
        HeaderModel { name: "Max-Forwards"@, value: "70"@ },
        HeaderModel { name: "Content-Length"@, value: dec_digits(body_len as nat) },
    ];
    match d.to_value {
        Some(t) => base + seq![HeaderModel { name: "To"@, value: t@ }] + tail,
        None => base + tail,
    }
}

/// The whole request built from dialog state `d`.
pub open spec fn request_model(d: Dialog, method: Method, body: Seq<char>, branch: Seq<char>)
    -> MsgModel {
    MsgModel {
        req: true,
        method,
        uri: req_uri_chars(d.server_host@, d.server_port),
        code: 0,
        reason: Seq::empty(),
        headers: request_headers(d, method, body.len() as int, branch),
        body,
    }
}

/// What `new_request` promises: the message is the dialog's request for
/// some fresh 32-character alphanumeric branch.
pub open spec fn is_request_of(d: Dialog, method: Method, body: Seq<char>, m: MsgModel) -> bool {
    exists|branch: Seq<char>|
        branch.len() == 32 && all_alnum(branch) && m == #[trigger] request_model(
            d,
            method,
            body,
            branch,
        )
}

/// An ACK built from dialog state `d`: the plain ACK request with its CSeq
/// number replaced by `n`.
pub open spec fn ack_model(d: Dialog, n: u32, branch: Seq<char>) -> MsgModel {
    let base = request_model(d, Method::Ack, Seq::empty(), branch);
    MsgModel {
        headers: base.headers.update(
            0,
            HeaderModel { name: "CSeq"@, value: cseq_value(n as int, Method::Ack) },
        ),
        ..base
    }
}

/// What `ack` promises: the dialog's identity headers under the ACK method,
/// with the acknowledged response's CSeq number.
pub open spec fn is_ack_of(d: Dialog, n: u32, m: MsgModel) -> bool {
    exists|branch: Seq<char>|
        branch.len() == 32 && all_alnum(branch) && m == #[trigger] ack_model(d, n, branch)
}

/// The fixed words of the dialog's header grammar, spelled out.
proof fn lemma_grammar_words()
    ensures
        "sips:"@ =~= seq!['s', 'i', 'p', 's', ':'],
        " <"@ =~= seq![' ', '<'],
        " <sips:"@ =~= seq![' ', '<', 's', 'i', 'p', 's', ':'],
        ">"@ =~= seq!['>'],
        ">;tag="@ =~= seq!['>', ';', 't', 'a', 'g', '='],
        "70"@ =~= seq!['7', '0'],
        "CSeq"@ =~= seq!['C', 'S', 'e', 'q'],
        "Via"@ =~= seq!['V', 'i', 'a'],
        "User-Agent"@ =~= seq!['U', 's', 'e', 'r', '-', 'A', 'g', 'e', 'n', 't'],
        "Call-ID"@ =~= seq!['C', 'a', 'l', 'l', '-', 'I', 'D'],
        "Contact"@ =~= seq!['C', 'o', 'n', 't', 'a', 'c', 't'],
        "From"@ =~= seq!['F', 'r', 'o', 'm'],
        "To"@ =~= seq!['T', 'o'],
        "Max-Forwards"@ =~= seq!['M', 'a', 'x', '-', 'F', 'o', 'r', 'w', 'a', 'r', 'd', 's'],
        "Content-Length"@ =~= seq![
            'C', 'o', 'n', 't', 'e', 'n', 't', '-', 'L', 'e', 'n', 'g', 't', 'h',
        ],
        "Frandline/0.1.0"@ =~= seq![
            'F', 'r', 'a', 'n', 'd', 'l', 'i', 'n', 'e', '/', '0', '.', '1', '.', '0',
        ],
        "SIP/2.0/TLS "@ =~= seq!['S', 'I', 'P', '/', '2', '.', '0', '/', 'T', 'L', 'S', ' '],
        ";branch=z9hG4bK"@ =~= seq![
            ';', 'b', 'r', 'a', 'n', 'c', 'h', '=', 'z', '9', 'h', 'G', '4', 'b', 'K',
        ],
        ";rport"@ =~= seq![';', 'r', 'p', 'o', 'r', 't'],
        ";tag="@ =~= seq![';', 't', 'a', 'g', '='],
        ";transport=tls;ob>;q=1;+sip.instance=\"<urn:uuid:"@ =~= seq![
            ';', 't', 'r', 'a', 'n', 's', 'p', 'o', 'r', 't', '=', 't', 'l', 's', ';', 'o', 'b',
            '>', ';', 'q', '=', '1', ';', '+', 's', 'i', 'p', '.', 'i', 'n', 's', 't', 'a', 'n',
            'c', 'e', '=', '"', '<', 'u', 'r', 'n', ':', 'u', 'u', 'i', 'd', ':',
        ],
        ">\";reg-id=1"@ =~= seq!['>', '"', ';', 'r', 'e', 'g', '-', 'i', 'd', '=', '1'],
{
    reveal_strlit("sips:");
    reveal_strlit(" <");
    reveal_strlit(" <sips:");
    reveal_strlit(">");
    reveal_strlit(">;tag=");
    reveal_strlit("70");
    reveal_strlit("CSeq");
    reveal_strlit("Via");
    reveal_strlit("User-Agent");
    reveal_strlit("Call-ID");
    reveal_strlit("Contact");
    reveal_strlit("From");
    reveal_strlit("To");
    reveal_strlit("Max-Forwards");
    reveal_strlit("Content-Length");
    reveal_strlit("Frandline/0.1.0");
    reveal_strlit("SIP/2.0/TLS ");
    reveal_strlit(";branch=z9hG4bK");
    reveal_strlit(";rport");
    reveal_strlit(";tag=");
    reveal_strlit(";transport=tls;ob>;q=1;+sip.instance=\"<urn:uuid:");
    reveal_strlit(">\";reg-id=1");
}

/// Digit strings and alphanumeric strings hold no separators or line breaks.
proof fn lemma_plain_text(s: Seq<char>)
    requires
        all_dec_digits(s) || all_alnum(s),
    ensures
        text_ok(s),
        forall|j: int| 0 <= j < s.len() ==> s[j] != ':',
        forall|j: int| 0 <= j < s.len() ==> s[j] != ' ',
{
    assert forall|j: int|
        0 <= j < s.len() implies s[j] != '\r' && s[j] != '\n' && s[j] != ':' && s[j] != ' ' by {
        if all_dec_digits(s) {
            assert(crate::strutil::is_dec_digit(s[j]));
        } else {
            assert(is_alnum_char(s[j]));
        }
    }
}

/// A dialog's request is a well-formed message.
proof fn lemma_request_wf(d: Dialog, method: Method, body: Seq<char>, branch: Seq<char>)
    requires
        d.wf(),
        branch.len() == 32,
        all_alnum(branch),
        0 <= d.cseq + 1 <= 0xFFFF_FFFFu32,
    ensures
        wf_msg(request_model(d, method, body, branch)),
    decreases 1int,
{
    lemma_grammar_words();
    crate::sipmsg::lemma_tokens();
    let m = request_model(d, method, body, branch);
    lemma_dec_digits_value((d.cseq + 1) as nat);
    lemma_dec_digits_value(d.server_port as nat);
    lemma_dec_digits_value(body.len() as nat);
    lemma_plain_text(dec_digits((d.cseq + 1) as nat));
    lemma_plain_text(dec_digits(d.server_port as nat));
    lemma_plain_text(dec_digits(body.len() as nat));
    lemma_plain_text(branch);
    assert(text_ok(d.username@));
    lemma_plain_text(d.from_tag@);
    assert(token_ok(m.uri));
    let hs = m.headers;
    assert forall|j: int| 0 <= j < hs.len() implies name_ok(#[trigger] hs[j].name) && text_ok(
        hs[j].value,
    ) by {
        assert(host_ok(d.server_host@));
        assert(forall|q: int|
            0 <= q < d.server_host@.len() ==> #[trigger] d.server_host@[q] != '\r'
                && d.server_host@[q] != '\n');
        assert(forall|q: int|
            0 <= q < d.sip_instance@.len() ==> #[trigger] d.sip_instance@[q] != '\r'
                && d.sip_instance@[q] != '\n');
        assert(text_ok(cseq_value(d.cseq + 1, method)));
        assert(text_ok(via_value(d.server_host@, d.server_port, branch)));
        assert(text_ok(contact_value(d.username@, d.server_host@, d.server_port, d.sip_instance@)));
        assert(text_ok(from_value(d.username@, d.server_host@, d.server_port, d.from_tag@)));
        assert(text_ok(d.call_id@));
    }
}

fn push_method_token(out: &mut Vec<char>, m: Method)
    ensures
        final(out)@ == old(out)@ + method_token(m),
{
    match m {
        Method::Register => push_str(out, "REGISTER"),
        Method::Invite => push_str(out, "INVITE"),
        Method::Ack => push_str(out, "ACK"),
        Method::Cancel => push_str(out, "CANCEL"),
        Method::Bye => push_str(out, "BYE"),
        Method::Options => push_str(out, "OPTIONS"),
    }
}


/// A found header is one of the list's elements.
pub proof fn lemma_find_header_found(hs: Seq<HeaderModel>, name: Seq<char>)
    ensures
        find_header(hs, name) is Some ==> exists|j: int|
            0 <= j < hs.len() && hs[j] == #[trigger] find_header(hs, name).unwrap(),
    decreases hs.len(),
{
    if hs.len() > 0 && hs[0].name != name {
        lemma_find_header_found(hs.skip(1), name);
        if find_header(hs.skip(1), name) is Some {
            let j = choose|j: int|
                0 <= j < hs.skip(1).len() && hs.skip(1)[j] == find_header(
                    hs.skip(1),
                    name,
                ).unwrap();
            assert(hs[j + 1] == hs.skip(1)[j]);
        }
    }
}

/// The first header with this name, if any.
pub open spec fn find_header(hs: Seq<HeaderModel>, name: Seq<char>) -> Option<HeaderModel>
    decreases hs.len(),
{
    if hs.len() == 0 {
        None
    } else if hs[0].name == name {
        Some(hs[0])
    } else {
        find_header(hs.skip(1), name)
    }
}

/// Find the first header with the given name; returns its index.
pub fn get_header(hs: &Vec<Header>, name: &str) -> (r: Option<usize>)
    ensures
        match r {
            Some(i) => i < hs.len() && find_header(hs@.map_values(|h: Header| h@), name@)
                == Some(hs@[i as int]@),
            None => find_header(hs@.map_values(|h: Header| h@), name@) is None,
        },
{
    let ghost hsv = hs@.map_values(|h: Header| h@);
    let mut i: usize = 0;
    proof {
        assert(hsv.skip(0) =~= hsv);
    }
    while i < hs.len()
        invariant
            i <= hs.len(),
            hsv == hs@.map_values(|h: Header| h@),
            find_header(hsv, name@) == find_header(hsv.skip(i as int), name@),
        decreases hs.len() - i,
    {
        proof {
            assert(hsv.skip(i as int)[0] == hsv[i as int]);
            assert(hsv[i as int] == hs@[i as int]@);
            assert(hsv.skip(i as int).skip(1) =~= hsv.skip(i as int + 1));
        }
        if chars_eq_str(&hs[i].name, name) {
            return Some(i);
        }
        i = i + 1;
    }
    proof {
        assert(hsv.skip(hs@.len() as int) =~= Seq::<HeaderModel>::empty());
    }
    None
}

/// The number in a request's CSeq header, when present and in range.
pub open spec fn header_cseq_number(hs: Seq<HeaderModel>) -> Option<u32> {
    match find_header(hs, "CSeq"@) {
        None => None,
        Some(h) => {
            let i = index_of_char(h.value, ' ');
            let tok = if i < 0 {
                h.value
            } else {
                h.value.take(i)
            };
            if tok.len() > 0 && all_dec_digits(tok) && 0 <= dec_value(tok) <= 0xFFFF_FFFFu32 {
                Some(dec_value(tok) as u32)
            } else {
                None
            }
        },
    }
}


/// The user part of the To header's URI: the characters between `sips:`
/// and the following `@`.
pub open spec fn to_user_of(hs: Seq<HeaderModel>) -> Option<Seq<char>> {
    match find_header(hs, "To"@) {
        None => None,
        Some(h) => {
            let p = find_subseq(h.value, "sips:"@);
            if p < 0 {
                None
            } else {
                let rest = h.value.skip(p + 5);
                let q = index_of_char(rest, '@');
                if q < 0 {
                    None
                } else {
                    Some(rest.take(q))
                }
            }
        },
    }
}

/// Extract the addressed user from the To header.
fn extract_to_user(hs: &Vec<Header>) -> (r: Option<Vec<char>>)
    ensures
        match to_user_of(hs@.map_values(|h: Header| h@)) {
            Some(u) => r is Some && r.unwrap()@ == u,
            None => r is None,
        },
{
    proof {
        lemma_grammar_words();
        reveal_strlit("sips:");
    }
    let i = match get_header(hs, "To") {
        None => return None,
        Some(i) => i,
    };
    let h = &hs[i];
    let p = match find_str_sub(&h.value, "sips:") {
        None => return None,
        Some(p) => p,
    };
    let m = 5usize;
    let vl = h.value.len();
    proof {
        assert("sips:"@.len() == 5);
        assert(p + 5 <= vl);
    }
    let start = p + m;
    let ghost rest = h@.value.skip(start as int);
    let q = match find_char_from(&h.value, start, '@') {
        None => return None,
        Some(q) => q,
    };
    let user = subvec(&h.value, start, q);
    proof {
        assert(user@ =~= rest.take(q - start));
    }
    Some(user)
}

/// Whether a value can serve as a username (see [`user_ok`]).
fn value_is_user(v: &Vec<char>) -> (r: bool)
    ensures
        r == user_ok(v@),
{
    if v.len() == 0 {
        return false;
    }
    let mut i: usize = 0;
    while i < v.len()
        invariant
            v@.len() > 0,
            i <= v.len(),
            forall|j: int| 0 <= j < i ==> v@[j] != '\r' && v@[j] != '\n' && v@[j] != '"',
        decreases v.len() - i,
    {
        if v[i] == '\r' || v[i] == '\n' || v[i] == '"' {
            return false;
        }
        i = i + 1;
    }
    true
}

/// Whether every character is printable header text.
fn value_is_text(v: &Vec<char>) -> (r: bool)
    ensures
        r == text_ok(v@),
{
    let mut i: usize = 0;
    while i < v.len()
        invariant
            i <= v.len(),
            forall|j: int| 0 <= j < i ==> v@[j] != '\r' && v@[j] != '\n',
        decreases v.len() - i,
    {
        if v[i] == '\r' || v[i] == '\n' {
            return false;
        }
        i = i + 1;
    }
    true
}

/// Whether the value is a token (nonempty, no spaces or line breaks).
fn value_is_token(v: &Vec<char>) -> (r: bool)
    ensures
        r == token_ok(v@),
{
    if v.len() == 0 {
        return false;
    }
    let mut i: usize = 0;
    while i < v.len()
        invariant
            i <= v.len(),
            v@.len() > 0,
            forall|j: int| 0 <= j < i ==> v@[j] != ' ' && v@[j] != '\r' && v@[j] != '\n',
        decreases v.len() - i,
    {
        if v[i] == ' ' || v[i] == '\r' || v[i] == '\n' {
            return false;
        }
        i = i + 1;
    }
    true
}

/// Two requests built one after the other carry strictly increasing CSeq
/// numbers: the dialog's counter stamps `n+1` then `n+2`.
pub proof fn lemma_cseq_strictly_increases(
    d0: Dialog,
    d1: Dialog,
    meth1: Method,
    meth2: Method,
    b1: Seq<char>,
    b2: Seq<char>,
    m1: MsgModel,
    m2: MsgModel,
)
    requires
        d0.cseq + 2 <= 0xFFFF_FFFFu32,
        is_request_of(d0, meth1, b1, m1),
        d1 == (Dialog { cseq: (d0.cseq + 1) as u32, ..d0 }),
        is_request_of(d1, meth2, b2, m2),
    ensures
        m1.headers[0].value == cseq_value(d0.cseq + 1, meth1),
        m2.headers[0].value == cseq_value(d0.cseq + 2, meth2),
        dec_value(m1.headers[0].value.take(index_of_char(m1.headers[0].value, ' ')))
            < dec_value(m2.headers[0].value.take(index_of_char(m2.headers[0].value, ' '))),
{
    lemma_grammar_words();
    crate::sipmsg::lemma_tokens();
    let n1 = (d0.cseq + 1) as nat;
    let n2 = (d0.cseq + 2) as nat;
    lemma_dec_digits_value(n1);
    lemma_dec_digits_value(n2);
    lemma_plain_text(dec_digits(n1));
    lemma_plain_text(dec_digits(n2));
    lemma_cseq_token(n1, meth1);
    lemma_cseq_token(n2, meth2);
}

/// RFC 2617 `HA1`: the digest of `user:realm:password`.
pub open spec fn ha1_of(user: Seq<char>, password: Seq<char>) -> Seq<char> {
    md5_hex(user + seq![':'] + realm_chars() + seq![':'] + password)
}

/// RFC 2617 `HA2` as this endpoint computes it: `METHOD:sips:host:port`.
pub open spec fn ha2_of(method: Method, host: Seq<char>, port: u16) -> Seq<char> {
    md5_hex(method_token(method) + ":sips:"@ + host + seq![':'] + dec_digits(port as nat))
}

/// The digest response for `qop=auth` with `nc=00000001`.
pub open spec fn digest_response(
    user: Seq<char>,
    password: Seq<char>,
    method: Method,
    host: Seq<char>,
    port: u16,
    nonce: Seq<char>,
    cnonce: Seq<char>,
) -> Seq<char> {
    md5_hex(
        ha1_of(user, password) + seq![':'] + nonce + ":00000001:"@ + cnonce + ":auth:"@ + ha2_of(
            method,
            host,
            port,
        ),
    )
}

/// The Authorization header value.
pub open spec fn auth_value(
    user: Seq<char>,
    host: Seq<char>,
    port: u16,
    nonce: Seq<char>,
    opaque: Option<Seq<char>>,
    cnonce: Seq<char>,
    response: Seq<char>,
) -> Seq<char> {
    "Digest username=\""@ + user + "\", realm=\"asterisk\", nonce=\""@ + nonce + "\", uri=\"sips:"@
        + host + seq![':'] + dec_digits(port as nat) + "\", response=\""@ + response
        + "\", algorithm=MD5"@ + (match opaque {
        Some(o) => ", opaque=\""@ + o + seq!['"'],
        None => Seq::empty(),
    }) + ", qop=auth, cnonce=\""@ + cnonce + "\", nc=00000001"@
}

/// What `add_auth_to_request` appends: an Authorization header whose
/// response field is the RFC 2617 digest for this dialog, this nonce and
/// some fresh cnonce, followed by `Expires: 3600`.
pub open spec fn is_authed_extension(
    d: Dialog,
    password: Seq<char>,
    method: Method,
    nonce: Seq<char>,
    opaque: Option<Seq<char>>,
    old_hs: Seq<HeaderModel>,
    new_hs: Seq<HeaderModel>,
) -> bool {
    exists|cnonce: Seq<char>|
        cnonce.len() > 0 && text_ok(cnonce) && new_hs == old_hs + seq![
            HeaderModel {
                name: "Authorization"@,
                value: #[trigger] auth_value(
                    d.username@,
                    d.server_host@,
                    d.server_port,
                    nonce,
                    opaque,
                    cnonce,
                    digest_response(
                        d.username@,
                        password,
                        method,
                        d.server_host@,
                        d.server_port,
                        nonce,
                        cnonce,
                    ),
                ),
            },
            HeaderModel { name: "Expires"@, value: "3600"@ },
        ]
}

impl Dialog {
    /// Attach digest credentials for the server's challenge to a request:
    /// `Authorization` computed per RFC 2617 (`qop=auth`, MD5, `nc=1`, a
    /// fresh cnonce of clock and random characters) and `Expires: 3600`.
    #[verifier::rlimit(100)]
    #[verifier::spinoff_prover]
    pub fn add_auth_to_request(
        &self,
        req: &mut Request,
        password: &Vec<char>,
        opaque: Option<Vec<char>>,
        nonce: &Vec<char>,
    )
        requires
            self.wf(),
            text_ok(nonce@),
            forall|j: int| 0 <= j < nonce@.len() ==> nonce@[j] != '"',
            match opaque {
                Some(o) => text_ok(o@) && (forall|j: int| 0 <= j < o@.len() ==> o@[j] != '"'),
                None => true,
            },
        ensures
            final(req).method == old(req).method,
            final(req).uri == old(req).uri,
            final(req).body == old(req).body,
            is_authed_extension(
                *self,
                password@,
                old(req).method,
                nonce@,
                match opaque {
                    Some(o) => Some(o@),
                    None => None,
                },
                old(req)@.headers,
                final(req)@.headers,
            ),
            wf_msg(old(req)@) ==> wf_msg(final(req)@),
    {
        proof {
            lemma_grammar_words();
            lemma_auth_words();
        }
        let now = ms_since_epoch();
        let mut cnonce = u64_to_chars(now);
        cnonce.push('/');
        let salt = rand_alnum_chars(16);
        push_chars(&mut cnonce, &salt);
        proof {
            lemma_dec_digits_value(now as nat);
            lemma_plain_text(dec_digits(now as nat));
            lemma_plain_text(salt@);
            assert(text_ok(cnonce@));
        }

        let mut ha1_in: Vec<char> = Vec::new();
        push_chars(&mut ha1_in, &self.username);
        ha1_in.push(':');
        push_str(&mut ha1_in, "asterisk");
        ha1_in.push(':');
        push_chars(&mut ha1_in, password);
        proof {
            reveal_strlit("asterisk");
            assert(ha1_in@ =~= self.username@ + seq![':'] + realm_chars() + seq![':']
                + password@);
        }
        let ha1 = md5_hex_chars(&ha1_in);

        let mut ha2_in: Vec<char> = Vec::new();
        push_method_token(&mut ha2_in, req.method);
        push_str(&mut ha2_in, ":sips:");
        push_chars(&mut ha2_in, &self.server_host);
        ha2_in.push(':');
        let p = u64_to_chars(self.server_port as u64);
        push_chars(&mut ha2_in, &p);
        proof {
            assert(ha2_in@ =~= method_token(req.method) + ":sips:"@ + self.server_host@
                + seq![':'] + dec_digits(self.server_port as nat));
        }
        let ha2 = md5_hex_chars(&ha2_in);

        let mut resp_in: Vec<char> = Vec::new();
        push_chars(&mut resp_in, &ha1);
        resp_in.push(':');
        push_chars(&mut resp_in, nonce);
        push_str(&mut resp_in, ":00000001:");
        push_chars(&mut resp_in, &cnonce);
        push_str(&mut resp_in, ":auth:");
        push_chars(&mut resp_in, &ha2);
        proof {
            assert(resp_in@ =~= ha1_of(self.username@, password@) + seq![':'] + nonce@
                + ":00000001:"@ + cnonce@ + ":auth:"@ + ha2_of(
                req.method,
                self.server_host@,
                self.server_port,
            ));
        }
        let response = md5_hex_chars(&resp_in);

        let mut v = str_chars("Digest username=\"");
        push_chars(&mut v, &self.username);
        push_str(&mut v, "\", realm=\"asterisk\", nonce=\"");
        push_chars(&mut v, nonce);
        push_str(&mut v, "\", uri=\"sips:");
        push_chars(&mut v, &self.server_host);
        v.push(':');
        let p2 = u64_to_chars(self.server_port as u64);
        push_chars(&mut v, &p2);
        push_str(&mut v, "\", response=\"");
        push_chars(&mut v, &response);
        push_str(&mut v, "\", algorithm=MD5");
        match &opaque {
            Some(o) => {
                push_str(&mut v, ", opaque=\"");
                push_chars(&mut v, o);
                v.push('"');
            },
            None => {},
        }
        push_str(&mut v, ", qop=auth, cnonce=\"");
        push_chars(&mut v, &cnonce);
        push_str(&mut v, "\", nc=00000001");
        let ghost opq: Option<Seq<char>> = match opaque {
            Some(o) => Some(o@),
            None => None,
        };
        proof {
            assert(v@ =~= auth_value(
                self.username@,
                self.server_host@,
                self.server_port,
                nonce@,
                opq,
                cnonce@,
                digest_response(
                    self.username@,
                    password@,
                    req.method,
                    self.server_host@,
                    self.server_port,
                    nonce@,
                    cnonce@,
                ),
            ));
        }
        let ghost old_hs = req@.headers;
        req.headers.push(Header { name: str_chars("Authorization"), value: v });
        req.headers.push(Header { name: str_chars("Expires"), value: str_chars("3600") });
        proof {
            lemma_dec_digits_value(self.server_port as nat);
            lemma_plain_text(dec_digits(self.server_port as nat));
            assert(text_ok(self.username@));
            assert(req@.headers =~~= old_hs + seq![
                HeaderModel {
                    name: "Authorization"@,
                    value: auth_value(
                        self.username@,
                        self.server_host@,
                        self.server_port,
                        nonce@,
                        opq,
                        cnonce@,
                        digest_response(
                            self.username@,
                            password@,
                            req.method,
                            self.server_host@,
                            self.server_port,
                            nonce@,
                            cnonce@,
                        ),
                    ),
                },
                HeaderModel { name: "Expires"@, value: "3600"@ },
            ]);
            assert(text_ok(auth_value(
                self.username@,
                self.server_host@,
                self.server_port,
                nonce@,
                opq,
                cnonce@,
                digest_response(
                    self.username@,
                    password@,
                    req.method,
                    self.server_host@,
                    self.server_port,
                    nonce@,
                    cnonce@,
                ),
            ))) by {
                assert(forall|j: int|
                    0 <= j < md5_hex(resp_in@).len() ==> is_alnum_char(
                        #[trigger] md5_hex(resp_in@)[j],
                    ));
                assert(forall|q: int|
                    0 <= q < self.server_host@.len() ==> #[trigger] self.server_host@[q] != '\r'
                        && self.server_host@[q] != '\n');
            }
            if wf_msg(old(req)@) {
                assert(old(req)@.headers == old_hs);
                assert forall|j: int| 0 <= j < req@.headers.len() implies name_ok(
                    #[trigger] req@.headers[j].name,
                ) && text_ok(req@.headers[j].value) by {
                    if j < old_hs.len() {
                        assert(req@.headers[j] == old_hs[j]);
                        assert(name_ok(old(req)@.headers[j].name));
                    }
                }
                assert(req@.uri == old(req)@.uri);
                assert(req@.method == old(req)@.method);
                assert(wf_msg(req@));
            }
        }
    }
}

/// The fixed words of the Authorization grammar.
proof fn lemma_auth_words()
    ensures
        "Digest username=\""@ =~= seq![
            'D', 'i', 'g', 'e', 's', 't', ' ', 'u', 's', 'e', 'r', 'n', 'a', 'm', 'e', '=', '"',
        ],
        "\", realm=\"asterisk\", nonce=\""@ =~= seq![
            '"', ',', ' ', 'r', 'e', 'a', 'l', 'm', '=', '"', 'a', 's', 't', 'e', 'r', 'i', 's',
            'k', '"', ',', ' ', 'n', 'o', 'n', 'c', 'e', '=', '"',
        ],
        "\", uri=\"sips:"@ =~= seq![
            '"', ',', ' ', 'u', 'r', 'i', '=', '"', 's', 'i', 'p', 's', ':',
        ],
        "\", response=\""@ =~= seq![
            '"', ',', ' ', 'r', 'e', 's', 'p', 'o', 'n', 's', 'e', '=', '"',
        ],
        "\", algorithm=MD5"@ =~= seq![
            '"', ',', ' ', 'a', 'l', 'g', 'o', 'r', 'i', 't', 'h', 'm', '=', 'M', 'D', '5',
        ],
        ", opaque=\""@ =~= seq![',', ' ', 'o', 'p', 'a', 'q', 'u', 'e', '=', '"'],
        ", qop=auth, cnonce=\""@ =~= seq![
            ',', ' ', 'q', 'o', 'p', '=', 'a', 'u', 't', 'h', ',', ' ', 'c', 'n', 'o', 'n', 'c',
            'e', '=', '"',
        ],
        "\", nc=00000001"@ =~= seq![
            '"', ',', ' ', 'n', 'c', '=', '0', '0', '0', '0', '0', '0', '0', '1',
        ],
        ":00000001:"@ =~= seq![':', '0', '0', '0', '0', '0', '0', '0', '1', ':'],
        ":auth:"@ =~= seq![':', 'a', 'u', 't', 'h', ':'],
        ":sips:"@ =~= seq![':', 's', 'i', 'p', 's', ':'],
        "3600"@ =~= seq!['3', '6', '0', '0'],
        "Authorization"@ =~= seq![
            'A', 'u', 't', 'h', 'o', 'r', 'i', 'z', 'a', 't', 'i', 'o', 'n',
        ],
        "Expires"@ =~= seq!['E', 'x', 'p', 'i', 'r', 'e', 's'],
{
    reveal_strlit("Digest username=\"");
    reveal_strlit("\", realm=\"asterisk\", nonce=\"");
    reveal_strlit("\", uri=\"sips:");
    reveal_strlit("\", response=\"");
    reveal_strlit("\", algorithm=MD5");
    reveal_strlit(", opaque=\"");
    reveal_strlit(", qop=auth, cnonce=\"");
    reveal_strlit("\", nc=00000001");
    reveal_strlit(":00000001:");
    reveal_strlit(":auth:");
    reveal_strlit(":sips:");
    reveal_strlit("3600");
    reveal_strlit("Authorization");
    reveal_strlit("Expires");
}

/// A response's status is acceptable when provisional or successful.
pub fn assert_status(resp: &Response) -> (r: Result<(), SipError>)
    ensures
        r is Ok <==> 100 <= resp.code < 300,
{
    if 100 <= resp.code && resp.code < 300 {
        Ok(())
    } else {
        Err(SipError::UnsuccessfulStatus)
    }
}

/// Registration demands a final `2xx`; a provisional answer does not
/// complete it.
pub fn register_check(resp: &Response) -> (r: Result<(), SipError>)
    ensures
        r is Ok <==> 200 <= resp.code < 300,
{
    if 200 <= resp.code && resp.code < 300 {
        Ok(())
    } else {
        Err(SipError::UnsuccessfulStatus)
    }
}

/// The digits before the space of a CSeq value are exactly the number.
proof fn lemma_cseq_token(n: nat, method: Method)
    ensures
        index_of_char(cseq_value(n as int, method), ' ') == dec_digits(n).len(),
        cseq_value(n as int, method).take(dec_digits(n).len() as int) == dec_digits(n),
        dec_value(cseq_value(n as int, method).take(
            index_of_char(cseq_value(n as int, method), ' '),
        )) == n,
{
    lemma_dec_digits_value(n);
    lemma_plain_text(dec_digits(n));
    let v = cseq_value(n as int, method);
    assert(v =~= dec_digits(n) + seq![' '] + method_token(method));
    crate::strutil::lemma_index_of_char_concat(dec_digits(n), ' ', method_token(method));
    assert(v.take(dec_digits(n).len() as int) =~= dec_digits(n));
}


/// The nonce (and optional opaque) of a `WWW-Authenticate` challenge.
pub open spec fn extract_quoted_spec(s: Seq<char>, key: Seq<char>) -> Option<Seq<char>> {
    let p = find_subseq(s, key);
    if p < 0 {
        None
    } else {
        let rest = s.skip(p + key.len());
        let q = index_of_char(rest, '"');
        if q < 0 {
            None
        } else {
            Some(rest.take(q))
        }
    }
}

/// Extract the value between `key` and the next double quote.
fn extract_quoted(v: &Vec<char>, key: &str) -> (r: Option<Vec<char>>)
    requires
        key@.len() >= 1,
    ensures
        match extract_quoted_spec(v@, key@) {
            Some(x) => r is Some && r.unwrap()@ == x && (forall|j: int|
                0 <= j < x.len() ==> x[j] != '"'),
            None => r is None,
        },
{
    let p = match find_str_sub(v, key) {
        None => return None,
        Some(p) => p,
    };
    let m = key.unicode_len();
    let vl = v.len();
    proof {
        assert(m as nat == key@.len());
        assert(p + key@.len() <= v@.len());
        assert(p as int + m as int <= vl as int);
    }
    let start = p + m;
    let ghost rest = v@.skip(start as int);
    let q = match find_char_from(v, start, '"') {
        None => return None,
        Some(q) => q,
    };
    let out = subvec(v, start, q);
    proof {
        assert(out@ =~= rest.take(q - start));
        assert forall|j: int| 0 <= j < out@.len() implies out@[j] != '"' by {
            assert(out@[j] == v@[start + j]);
        }
    }
    Some(out)
}

/// The nonce and opaque fields of the first `WWW-Authenticate` header.
pub open spec fn challenge_of(hs: Seq<HeaderModel>) -> Option<(Seq<char>, Option<Seq<char>>)> {
    match find_header(hs, "WWW-Authenticate"@) {
        None => None,
        Some(h) => match extract_quoted_spec(h.value, "nonce=\""@) {
            None => None,
            Some(n) => Some((n, extract_quoted_spec(h.value, "opaque=\""@))),
        },
    }
}

/// Whether a response carries a challenge this endpoint can answer.
pub open spec fn good_challenge(hs: Seq<HeaderModel>) -> bool {
    match challenge_of(hs) {
        None => false,
        Some((n, o)) => text_ok(n) && match o {
            Some(ov) => text_ok(ov),
            None => true,
        },
    }
}

impl Dialog {
    /// Read the challenge out of a response, when it is usable.
    fn read_challenge(resp: &Response) -> (r: Option<(Vec<char>, Option<Vec<char>>)>)
        ensures
            r is Some <==> good_challenge(resp@.headers),
            r is Some ==> {
                let (n, o) = challenge_of(resp@.headers).unwrap();
                &&& r.unwrap().0@ == n
                &&& text_ok(n)
                &&& (forall|j: int| 0 <= j < n.len() ==> n[j] != '"')
                &&& match (r.unwrap().1, o) {
                    (Some(ov), Some(os)) => ov@ == os && text_ok(os) && (forall|j: int|
                        0 <= j < os.len() ==> os[j] != '"'),
                    (None, None) => true,
                    _ => false,
                }
            },
    {
        proof {
            reveal_strlit("nonce=\"");
            reveal_strlit("opaque=\"");
        }
        let i = match get_header(&resp.headers, "WWW-Authenticate") {
            None => return None,
            Some(i) => i,
        };
        let h = &resp.headers[i];
        let nonce = match extract_quoted(&h.value, "nonce=\"") {
            None => return None,
            Some(n) => n,
        };
        if !value_is_text(&nonce) {
            return None;
        }
        match extract_quoted(&h.value, "opaque=\"") {
            None => Some((nonce, None)),
            Some(o) => {
                if !value_is_text(&o) {
                    return None;
                }
                Some((nonce, Some(o)))
            },
        }
    }

    /// Answer a REGISTER challenge: the second attempt, with Authorization.
    pub fn register_auth(&mut self, resp: &Response, password: &Vec<char>) -> (r: Result<
        Request,
        SipError,
    >)
        requires
            old(self).wf(),
            old(self).cseq < 0xFFFF_FFFFu32,
            old(self).to_value is None,
        ensures
            r is Ok <==> good_challenge(resp@.headers),
            r is Err ==> *final(self) == *old(self),
            r is Ok ==> {
                let req = r.unwrap();
                let (nonce, opaque) = challenge_of(resp@.headers).unwrap();
                &&& *final(self) == (Dialog { cseq: (old(self).cseq + 1) as u32, ..*old(self) })
                &&& wf_msg(req@)
                &&& req@.method == Method::Register
                &&& req@.headers.len() == 11
                &&& req@.headers[0] == (HeaderModel {
                    name: "CSeq"@,
                    value: cseq_value(old(self).cseq + 1, Method::Register),
                })
                &&& req@.headers[8] == (HeaderModel {
                    name: "To"@,
                    value: to_plain_value(
                        old(self).username@,
                        old(self).server_host@,
                        old(self).server_port,
                    ),
                })
                &&& req@.headers[9].name == "Authorization"@
                &&& exists|cnonce: Seq<char>|
                    cnonce.len() > 0 && text_ok(cnonce) && req@.headers[9].value
                        == #[trigger] auth_value(
                        old(self).username@,
                        old(self).server_host@,
                        old(self).server_port,
                        nonce,
                        opaque,
                        cnonce,
                        digest_response(
                            old(self).username@,
                            password@,
                            Method::Register,
                            old(self).server_host@,
                            old(self).server_port,
                            nonce,
                            cnonce,
                        ),
                    )
            },
    {
        let (nonce, opaque) = match Dialog::read_challenge(resp) {
            None => return Err(SipError::MissingWwwAuthenticate),
            Some(c) => c,
        };
        let mut req = self.register();
        let ghost mid = req@;
        self.add_auth_to_request(&mut req, password, opaque, &nonce);
        proof {
            let ext = choose|cnonce: Seq<char>|
                cnonce.len() > 0 && text_ok(cnonce) && req@.headers == mid.headers + seq![
                    HeaderModel {
                        name: "Authorization"@,
                        value: #[trigger] auth_value(
                            old(self).username@,
                            old(self).server_host@,
                            old(self).server_port,
                            challenge_of(resp@.headers).unwrap().0,
                            challenge_of(resp@.headers).unwrap().1,
                            cnonce,
                            digest_response(
                                old(self).username@,
                                password@,
                                Method::Register,
                                old(self).server_host@,
                                old(self).server_port,
                                challenge_of(resp@.headers).unwrap().0,
                                cnonce,
                            ),
                        ),
                    },
                    HeaderModel { name: "Expires"@, value: "3600"@ },
                ];
            assert(req@.headers[9] == req@.headers[mid.headers.len() as int]);
            assert(req@.headers[0] == mid.headers[0]);
            assert(req@.headers[8] == mid.headers[8]);
        }
        Ok(req)
    }
}


/// What echoing does with one header of the request: Call-ID, CSeq, From
/// and Via are kept, To is replaced by the resolved To value, everything
/// else is dropped.
pub open spec fn echo_step(h: HeaderModel, to_val: Seq<char>) -> Seq<HeaderModel> {
    if h.name == "Call-ID"@ || h.name == "CSeq"@ || h.name == "From"@ || h.name == "Via"@ {
        seq![h]
    } else if h.name == "To"@ {
        seq![HeaderModel { name: "To"@, value: to_val }]
    } else {
        Seq::empty()
    }
}

/// The echoed headers of a response, in request order.
pub open spec fn echo_headers(hs: Seq<HeaderModel>, to_val: Seq<char>) -> Seq<HeaderModel>
    decreases hs.len(),
{
    if hs.len() == 0 {
        Seq::empty()
    } else {
        echo_step(hs[0], to_val) + echo_headers(hs.skip(1), to_val)
    }
}

proof fn lemma_echo_snoc(hs: Seq<HeaderModel>, h: HeaderModel, to_val: Seq<char>)
    ensures
        echo_headers(hs.push(h), to_val) == echo_headers(hs, to_val) + echo_step(h, to_val),
    decreases hs.len(),
{
    if hs.len() == 0 {
        assert(hs.push(h)[0] == h);
        assert(hs.push(h).skip(1) =~= Seq::<HeaderModel>::empty());
        assert(echo_headers(hs.push(h), to_val) == echo_step(h, to_val) + echo_headers(
            hs.push(h).skip(1),
            to_val,
        ));
        assert(echo_headers(hs.push(h).skip(1), to_val) == echo_headers(
            Seq::<HeaderModel>::empty(),
            to_val,
        ));
        assert(echo_step(h, to_val) + Seq::<HeaderModel>::empty() =~= Seq::<
            HeaderModel,
        >::empty() + echo_step(h, to_val));
    } else {
        assert(hs.push(h).skip(1) =~= hs.skip(1).push(h));
        lemma_echo_snoc(hs.skip(1), h, to_val);
        assert(hs.push(h)[0] == hs[0]);
        assert(echo_step(hs[0], to_val) + (echo_headers(hs.skip(1), to_val) + echo_step(
            h,
            to_val,
        )) =~= (echo_step(hs[0], to_val) + echo_headers(hs.skip(1), to_val)) + echo_step(
            h,
            to_val,
        ));
    }
}

/// The To value a response carries: the request's To if already tagged,
/// else the dialog's remembered To, else the request's To with a fresh tag.
pub open spec fn resolved_to(
    hs: Seq<HeaderModel>,
    prior: Option<Seq<char>>,
    newtag: Seq<char>,
) -> Seq<char> {
    match find_header(hs, "To"@) {
        None => Seq::empty(),
        Some(h) => {
            if contains_subseq(h.value, ";tag="@) {
                h.value
            } else {
                match prior {
                    Some(t) => t,
                    None => h.value + ";tag="@ + newtag,
                }
            }
        },
    }
}

/// A To value extended with a freshly generated tag.
pub open spec fn tagged_to_value(v: Seq<char>, tag: Seq<char>) -> Seq<char> {
    v + ";tag="@ + tag
}

pub open spec fn prior_to_seq(o: Option<Vec<char>>) -> Option<Seq<char>> {
    match o {
        Some(t) => Some(t@),
        None => None,
    }
}

/// The standard reason phrase of a status code.
pub open spec fn reason_of(code: int) -> Seq<char> {
    if code == 100 {
        "Trying"@
    } else if code == 180 {
        "Ringing"@
    } else if code == 200 {
        "OK"@
    } else if code == 401 {
        "Unauthorized"@
    } else if code == 406 {
        "Not Acceptable Here"@
    } else if code == 407 {
        "Proxy Authentication Required"@
    } else if code == 486 {
        "Busy Here"@
    } else if code == 487 {
        "Request Terminated"@
    } else if code == 603 {
        "Decline"@
    } else {
        "Unknown"@
    }
}

proof fn lemma_reason_words()
    ensures
        "Trying"@ =~= seq!['T', 'r', 'y', 'i', 'n', 'g'],
        "Ringing"@ =~= seq!['R', 'i', 'n', 'g', 'i', 'n', 'g'],
        "OK"@ =~= seq!['O', 'K'],
        "Unauthorized"@ =~= seq!['U', 'n', 'a', 'u', 't', 'h', 'o', 'r', 'i', 'z', 'e', 'd'],
        "Not Acceptable Here"@ =~= seq![
            'N', 'o', 't', ' ', 'A', 'c', 'c', 'e', 'p', 't', 'a', 'b', 'l', 'e', ' ', 'H', 'e',
            'r', 'e',
        ],
        "Proxy Authentication Required"@ =~= seq![
            'P', 'r', 'o', 'x', 'y', ' ', 'A', 'u', 't', 'h', 'e', 'n', 't', 'i', 'c', 'a', 't',
            'i', 'o', 'n', ' ', 'R', 'e', 'q', 'u', 'i', 'r', 'e', 'd',
        ],
        "Busy Here"@ =~= seq!['B', 'u', 's', 'y', ' ', 'H', 'e', 'r', 'e'],
        "Request Terminated"@ =~= seq![
            'R', 'e', 'q', 'u', 'e', 's', 't', ' ', 'T', 'e', 'r', 'm', 'i', 'n', 'a', 't', 'e',
            'd',
        ],
        "Decline"@ =~= seq!['D', 'e', 'c', 'l', 'i', 'n', 'e'],
        "Unknown"@ =~= seq!['U', 'n', 'k', 'n', 'o', 'w', 'n'],
        forall|c: int| text_ok(#[trigger] reason_of(c)),
{
    reveal_strlit("Trying");
    reveal_strlit("Ringing");
    reveal_strlit("OK");
    reveal_strlit("Unauthorized");
    reveal_strlit("Not Acceptable Here");
    reveal_strlit("Proxy Authentication Required");
    reveal_strlit("Busy Here");
    reveal_strlit("Request Terminated");
    reveal_strlit("Decline");
    reveal_strlit("Unknown");
}

fn reason_chars(code: u16) -> (r: Vec<char>)
    ensures
        r@ == reason_of(code as int),
{
    if code == 100 {
        str_chars("Trying")
    } else if code == 180 {
        str_chars("Ringing")
    } else if code == 200 {
        str_chars("OK")
    } else if code == 401 {
        str_chars("Unauthorized")
    } else if code == 406 {
        str_chars("Not Acceptable Here")
    } else if code == 407 {
        str_chars("Proxy Authentication Required")
    } else if code == 486 {
        str_chars("Busy Here")
    } else if code == 487 {
        str_chars("Request Terminated")
    } else if code == 603 {
        str_chars("Decline")
    } else {
        str_chars("Unknown")
    }
}

/// What `response_to` promises: the response echoes the request's Call-ID,
/// CSeq, From, Via and (resolved) To in order, then adds the dialog's
/// Contact and the Content-Length, with the standard reason phrase.
pub open spec fn is_response_of(
    d: Dialog,
    req_hs: Seq<HeaderModel>,
    code: u16,
    body: Seq<char>,
    m: MsgModel,
) -> bool {
    exists|newtag: Seq<char>|
        newtag.len() == 16 && all_alnum(newtag) && m == (MsgModel {
            req: false,
            method: Method::Invite,
            uri: Seq::empty(),
            code: code as int,
            reason: reason_of(code as int),
            headers: echo_headers(
                req_hs,
                #[trigger] resolved_to(req_hs, prior_to_seq(d.to_value), newtag),
            ) + seq![
                HeaderModel {
                    name: "Contact"@,
                    value: contact_value(
                        d.username@,
                        d.server_host@,
                        d.server_port,
                        d.sip_instance@,
                    ),
                },
                HeaderModel { name: "Content-Length"@, value: dec_digits(body.len()) },
            ],
            body,
        })
}

impl Dialog {
    /// Respond to a request: adopt its CSeq, echo its identifying headers,
    /// resolve the To tag (generating one the first time), and attach this
    /// endpoint's Contact and the body's Content-Length.
    #[verifier::rlimit(100)]
    pub fn response_to(&mut self, req: &Request, code: u16, body: Vec<char>) -> (r: Result<
        Response,
        SipError,
    >)
        requires
            old(self).wf(),
            100 <= code <= 699,
            forall|j: int|
                0 <= j < req@.headers.len() ==> name_ok(#[trigger] req@.headers[j].name)
                    && text_ok(req@.headers[j].value),
        ensures
            r is Ok <==> header_cseq_number(req@.headers) is Some,
            r is Err ==> *final(self) == *old(self),
            r is Ok ==> {
                let resp = r.unwrap();
                &&& is_response_of(*old(self), req@.headers, code, body@, resp@)
                &&& wf_msg(resp@)
                &&& final(self).cseq == header_cseq_number(req@.headers).unwrap()
                &&& final(self).wf()
                &&& final(self).server_host == old(self).server_host
                &&& final(self).username == old(self).username
                &&& final(self).call_id == old(self).call_id
                &&& old(self).to_value is Some ==> final(self).to_value == old(self).to_value
                &&& find_header(req@.headers, "To"@) is None ==> final(self).to_value == old(
                    self,
                ).to_value
                &&& (find_header(req@.headers, "To"@) is Some && contains_subseq(
                    find_header(req@.headers, "To"@).unwrap().value,
                    ";tag="@,
                )) ==> final(self).to_value == old(self).to_value
                &&& (old(self).to_value is None && find_header(req@.headers, "To"@) is Some
                    && !contains_subseq(
                    find_header(req@.headers, "To"@).unwrap().value,
                    ";tag="@,
                )) ==> (final(self).to_value is Some && exists|t: Seq<char>|
                    t.len() == 16 && all_alnum(t) && final(self).to_value.unwrap()@
                        == #[trigger] tagged_to_value(
                        find_header(req@.headers, "To"@).unwrap().value,
                        t,
                    ))
            },
    {
        proof {
            lemma_grammar_words();
            lemma_reason_words();
            reveal_strlit(";tag=");
        }
        let n = match headers_cseq(&req.headers) {
            None => return Err(SipError::BadCSeq),
            Some(n) => n,
        };
        self.cseq = n;
        let newtag = rand_alnum_chars(16);
        let ghost tagg = newtag@;
        let to_val: Vec<char> = match get_header(&req.headers, "To") {
            None => Vec::new(),
            Some(i) => {
                let h = &req.headers[i];
                proof {
                    assert(name_ok(req@.headers[i as int].name));
                    assert(text_ok(req@.headers[i as int].value));
                }
                match find_str_sub(&h.value, ";tag=") {
                    Some(_) => {
                        let c = subvec(&h.value, 0, h.value.len());
                        proof {
                            assert(c@ =~= h@.value);
                        }
                        c
                    },
                    None => match &self.to_value {
                        Some(t) => {
                            let c = subvec(t, 0, t.len());
                            proof {
                                assert(c@ =~= t@);
                            }
                            c
                        },
                        None => {
                            let mut t = subvec(&h.value, 0, h.value.len());
                            push_str(&mut t, ";tag=");
                            push_chars(&mut t, &newtag);
                            let keep = subvec(&t, 0, t.len());
                            proof {
                                lemma_plain_text(tagg);
                                assert(t@ =~= h@.value + ";tag="@ + tagg);
                                assert(name_ok(req@.headers[i as int].name));
                                assert(text_ok(req@.headers[i as int].value));
                                assert forall|q: int| 0 <= q < t@.len() implies t@[q] != '\r'
                                    && t@[q] != '\n' by {
                                    if q < h@.value.len() {
                                        assert(t@[q] == h@.value[q]);
                                    } else if q < h@.value.len() + 5 {
                                        assert(t@[q] == ";tag="@[q - h@.value.len()]);
                                    } else {
                                        assert(t@[q] == tagg[q - h@.value.len() - 5]);
                                    }
                                }
                                assert(text_ok(t@));
                                assert(t@.len() > 0);
                                assert(keep@ =~= t@);
                            }
                            self.to_value = Some(keep);
                            t
                        },
                    },
                }
            },
        };
        let ghost tv = to_val@;
        proof {
            assert(tv =~= resolved_to(req@.headers, prior_to_seq(old(self).to_value), tagg));
            lemma_plain_text(tagg);
            assert(text_ok(tv)) by {
                if find_header(req@.headers, "To"@) is Some {
                    let h0 = find_header(req@.headers, "To"@).unwrap();
                    if !contains_subseq(h0.value, ";tag="@) {
                        match old(self).to_value {
                            Some(t2) => {
                                assert(old(self).wf());
                                assert(text_ok(t2@));
                            },
                            None => {},
                        }
                    }
                }
            }
        }
        let mut headers: Vec<Header> = Vec::new();
        let mut k: usize = 0;
        let ghost req_hs = req@.headers;
        proof {
            assert(req_hs.take(0) =~= Seq::<HeaderModel>::empty());
        }
        while k < req.headers.len()
            invariant
                k <= req.headers.len(),
                req_hs == req@.headers,
                tv == to_val@,
                text_ok(tv),
                tagg.len() == 16,
                all_alnum(tagg),
                tv == resolved_to(req_hs, prior_to_seq(old(self).to_value), tagg),
                header_cseq_number(req_hs) == Some(n),
                self.cseq == n,
                self.server_host == old(self).server_host,
                self.server_port == old(self).server_port,
                self.client_ip == old(self).client_ip,
                self.sip_instance == old(self).sip_instance,
                self.username == old(self).username,
                self.call_id == old(self).call_id,
                self.from_tag == old(self).from_tag,
                self.rtp_port == old(self).rtp_port,
                self.wf(),
                old(self).to_value is Some ==> self.to_value == old(self).to_value,
                find_header(req_hs, "To"@) is None ==> self.to_value == old(self).to_value,
                (find_header(req_hs, "To"@) is Some && contains_subseq(
                    find_header(req_hs, "To"@).unwrap().value,
                    ";tag="@,
                )) ==> self.to_value == old(self).to_value,
                (old(self).to_value is None && find_header(req_hs, "To"@) is Some
                    && !contains_subseq(
                    find_header(req_hs, "To"@).unwrap().value,
                    ";tag="@,
                )) ==> (self.to_value is Some && self.to_value.unwrap()@ == tagged_to_value(
                    find_header(req_hs, "To"@).unwrap().value,
                    tagg,
                )),
                headers@.map_values(|h: Header| h@) == echo_headers(req_hs.take(k as int), tv),
            decreases req.headers.len() - k,
        {
            let h = &req.headers[k];
            proof {
                assert(req_hs.take(k as int + 1) =~= req_hs.take(k as int).push(
                    req_hs[k as int],
                ));
                lemma_echo_snoc(req_hs.take(k as int), req_hs[k as int], tv);
                assert(req_hs[k as int] == req.headers@[k as int]@);
            }
            let ghost before = headers@.map_values(|h2: Header| h2@);
            if chars_eq_str(&h.name, "Call-ID") || chars_eq_str(&h.name, "CSeq") || chars_eq_str(
                &h.name,
                "From",
            ) || chars_eq_str(&h.name, "Via") {
                let nm = subvec(&h.name, 0, h.name.len());
                let vl = subvec(&h.value, 0, h.value.len());
                proof {
                    assert(nm@ =~= h@.name);
                    assert(vl@ =~= h@.value);
                }
                headers.push(Header { name: nm, value: vl });
                proof {
                    assert(headers@.map_values(|h2: Header| h2@) =~~= before + echo_step(
                        req_hs[k as int],
                        tv,
                    ));
                }
            } else if chars_eq_str(&h.name, "To") {
                let vl = subvec(&to_val, 0, to_val.len());
                proof {
                    assert(vl@ =~= tv);
                }
                headers.push(Header { name: str_chars("To"), value: vl });
                proof {
                    assert(headers@.map_values(|h2: Header| h2@) =~~= before + echo_step(
                        req_hs[k as int],
                        tv,
                    ));
                }
            } else {
                proof {
                    assert(headers@.map_values(|h2: Header| h2@) =~~= before + echo_step(
                        req_hs[k as int],
                        tv,
                    ));
                }
            }
            k = k + 1;
        }
        proof {
            assert(req_hs.take(req_hs.len() as int) =~= req_hs);
            assert(forall|j: int|
                0 <= j < req_hs.len() ==> name_ok(#[trigger] req_hs[j].name) && text_ok(
                    req_hs[j].value,
                ));
            lemma_echo_wf(req_hs, tv);
        }
        headers.push(Header { name: str_chars("Contact"), value: self.contact() });
        let cl = u64_to_chars(body.len() as u64);
        headers.push(Header { name: str_chars("Content-Length"), value: cl });
        let reason = reason_chars(code);
        let ghost bodyv = body@;
        let resp = Response { code, reason, headers, body };
        proof {
            assert(resp@.headers =~~= echo_headers(req_hs, tv) + seq![
                HeaderModel {
                    name: "Contact"@,
                    value: contact_value(
                        old(self).username@,
                        old(self).server_host@,
                        old(self).server_port,
                        old(self).sip_instance@,
                    ),
                },
                HeaderModel { name: "Content-Length"@, value: dec_digits(bodyv.len()) },
            ]);
            lemma_dec_digits_value(bodyv.len());
            lemma_plain_text(dec_digits(bodyv.len()));
            assert(text_ok(old(self).username@));
            assert(text_ok(contact_value(
                old(self).username@,
                old(self).server_host@,
                old(self).server_port,
                old(self).sip_instance@,
            ))) by {
                lemma_dec_digits_value(old(self).server_port as nat);
                lemma_plain_text(dec_digits(old(self).server_port as nat));
                assert(forall|q: int|
                    0 <= q < old(self).server_host@.len() ==> #[trigger] old(
                        self,
                    ).server_host@[q] != '\r' && old(self).server_host@[q] != '\n');
                assert(forall|q: int|
                    0 <= q < old(self).sip_instance@.len() ==> #[trigger] old(
                        self,
                    ).sip_instance@[q] != '\r' && old(self).sip_instance@[q] != '\n');
            }
            assert(name_ok("Contact"@));
            assert(name_ok("Content-Length"@));
            assert forall|j: int| 0 <= j < resp@.headers.len() implies name_ok(
                #[trigger] resp@.headers[j].name,
            ) && text_ok(resp@.headers[j].value) by {
                let e = echo_headers(req_hs, tv);
                if j < e.len() {
                    assert(resp@.headers[j] == e[j]);
                } else if j == e.len() {
                    assert(resp@.headers[j].name == "Contact"@);
                } else {
                    assert(resp@.headers[j].name == "Content-Length"@);
                }
            }
            assert(wf_msg(resp@));
        }
        Ok(resp)
    }

    /// The dialog's SDP offer with the given session id.
    pub fn sdp(&self, sess_id: Vec<char>) -> (o: SdpOffer)
        ensures
            o.sess_id == sess_id,
            o.ip == self.client_ip,
            o.port == self.rtp_port,
    {
        SdpOffer { sess_id, ip: self.client_ip, port: self.rtp_port }
    }

    /// Answer a remote offer: reuse its session id with this endpoint's
    /// address and port.
    pub fn sdp_from(&self, req: &Request) -> (r: Result<SdpOffer, SipError>)
        ensures
            r is Ok <==> parse_sdp_spec(req@.body) is Some,
            r is Ok ==> r.unwrap()@ == (crate::sdp::SdpModel {
                sess_id: parse_sdp_spec(req@.body).unwrap().sess_id,
                ip: self.client_ip,
                port: self.rtp_port,
            }),
    {
        match parse_sdp(&req.body) {
            None => Err(SipError::BadSdp),
            Some(o) => Ok(SdpOffer { sess_id: o.sess_id, ip: self.client_ip, port: self.rtp_port }),
        }
    }

    /// Respond with an SDP body: `response_to` plus the body and its
    /// `Content-Type: application/sdp`.
    pub fn sdp_response_to(&mut self, req: &Request, code: u16, sdp: &SdpOffer) -> (r: Result<
        Response,
        SipError,
    >)
        requires
            old(self).wf(),
            100 <= code <= 699,
            forall|j: int|
                0 <= j < req@.headers.len() ==> name_ok(#[trigger] req@.headers[j].name)
                    && text_ok(req@.headers[j].value),
        ensures
            r is Ok <==> header_cseq_number(req@.headers) is Some,
            r is Ok ==> {
                let resp = r.unwrap();
                &&& resp@.body == emit_sdp_spec(sdp@)
                &&& resp@.headers.len() >= 1
                &&& resp@.headers.last() == (HeaderModel {
                    name: "Content-Type"@,
                    value: "application/sdp"@,
                })
                &&& is_response_of(
                    *old(self),
                    req@.headers,
                    code,
                    emit_sdp_spec(sdp@),
                    MsgModel { headers: resp@.headers.drop_last(), ..resp@ },
                )
                &&& final(self).cseq == header_cseq_number(req@.headers).unwrap()
                &&& final(self).wf()
            },
    {
        let body = emit_sdp(sdp);
        let mut resp = match self.response_to(req, code, body) {
            Err(e) => return Err(e),
            Ok(resp) => resp,
        };
        let ghost mid = resp@;
        resp.headers.push(
            Header { name: str_chars("Content-Type"), value: str_chars("application/sdp") },
        );
        proof {
            assert(resp@.headers =~= mid.headers.push(
                HeaderModel { name: "Content-Type"@, value: "application/sdp"@ },
            ));
            assert(resp@.headers.drop_last() =~= mid.headers);
            assert(MsgModel { headers: resp@.headers.drop_last(), ..resp@ } == mid);
        }
        Ok(resp)
    }

    /// ACK a response: a new request whose CSeq number repeats the
    /// response's (the method stays ACK).
    #[verifier::rlimit(100)]
    pub fn ack(&mut self, resp: &Response) -> (r: Result<Request, SipError>)
        requires
            old(self).wf(),
            old(self).cseq < 0xFFFF_FFFFu32,
        ensures
            r is Ok <==> header_cseq_number(resp@.headers) is Some,
            r is Err ==> *final(self) == *old(self),
            r is Ok ==> {
                let req = r.unwrap();
                &&& *final(self) == (Dialog { cseq: (old(self).cseq + 1) as u32, ..*old(self) })
                &&& req@.method == Method::Ack
                &&& wf_msg(req@)
                &&& is_ack_of(*old(self), header_cseq_number(resp@.headers).unwrap(), req@)
                &&& req@.headers[0] == (HeaderModel {
                    name: "CSeq"@,
                    value: cseq_value(
                        header_cseq_number(resp@.headers).unwrap() as int,
                        Method::Ack,
                    ),
                })
            },
    {
        proof {
            lemma_grammar_words();
            crate::sipmsg::lemma_tokens();
        }
        let n = match headers_cseq(&resp.headers) {
            None => return Err(SipError::BadCSeq),
            Some(n) => n,
        };
        let mut req = self.new_request(Method::Ack, Vec::new());
        let ghost mid = req@;
        let mut v = u64_to_chars(n as u64);
        v.push(' ');
        push_str(&mut v, "ACK");
        proof {
            assert(v@ =~= cseq_value(n as int, Method::Ack));
            lemma_dec_digits_value(n as nat);
            lemma_plain_text(dec_digits(n as nat));
            assert(text_ok(cseq_value(n as int, Method::Ack)));
        }
        let newh = Header { name: str_chars("CSeq"), value: v };
        proof {
            assert(req@.headers.len() >= 8);
        }
        req.headers[0] = newh;
        proof {
            assert(req@.headers =~= mid.headers.update(
                0,
                HeaderModel { name: "CSeq"@, value: cseq_value(n as int, Method::Ack) },
            ));
            lemma_wf_after_cseq_update(mid, cseq_value(n as int, Method::Ack), req@);
            let b = choose|b: Seq<char>|
                b.len() == 32 && all_alnum(b) && mid == #[trigger] request_model(
                    *old(self),
                    Method::Ack,
                    Seq::empty(),
                    b,
                );
            assert(req@ == ack_model(*old(self), n, b));
        }
        Ok(req)
    }

    /// A CANCEL for the pending request.
    pub fn cancel(&mut self) -> (r: Request)
        requires
            old(self).wf(),
            old(self).cseq < 0xFFFF_FFFFu32,
        ensures
            *final(self) == (Dialog { cseq: (old(self).cseq + 1) as u32, ..*old(self) }),
            is_request_of(*old(self), Method::Cancel, Seq::empty(), r@),
            wf_msg(r@),
    {
        self.new_request(Method::Cancel, Vec::new())
    }

    /// A BYE ending the call.
    pub fn bye(&mut self) -> (r: Request)
        requires
            old(self).wf(),
            old(self).cseq < 0xFFFF_FFFFu32,
        ensures
            *final(self) == (Dialog { cseq: (old(self).cseq + 1) as u32, ..*old(self) }),
            is_request_of(*old(self), Method::Bye, Seq::empty(), r@),
            wf_msg(r@),
    {
        self.new_request(Method::Bye, Vec::new())
    }
}

/// Every echoed header of a well-formed request is well formed, provided
/// the To replacement is printable text.
proof fn lemma_echo_wf(hs: Seq<HeaderModel>, tv: Seq<char>)
    requires
        forall|j: int|
            0 <= j < hs.len() ==> name_ok(#[trigger] hs[j].name) && text_ok(hs[j].value),
        text_ok(tv),
    ensures
        forall|j: int|
            0 <= j < echo_headers(hs, tv).len() ==> name_ok(
                #[trigger] echo_headers(hs, tv)[j].name,
            ) && text_ok(echo_headers(hs, tv)[j].value),
    decreases hs.len(),
{
    lemma_grammar_words();
    if hs.len() > 0 {
        assert(forall|j: int|
            0 <= j < hs.skip(1).len() ==> #[trigger] hs.skip(1)[j] == hs[j + 1]);
        lemma_echo_wf(hs.skip(1), tv);
        let e = echo_headers(hs, tv);
        let head = echo_step(hs[0], tv);
        assert forall|j: int| 0 <= j < e.len() implies name_ok(#[trigger] e[j].name) && text_ok(
            e[j].value,
        ) by {
            if j < head.len() {
                assert(e[j] == head[j]);
                assert(name_ok(hs[0].name) && text_ok(hs[0].value));
            } else {
                assert(e[j] == echo_headers(hs.skip(1), tv)[j - head.len()]);
            }
        }
    }
}

/// Read the CSeq number out of a header list.
pub fn headers_cseq(hs: &Vec<Header>) -> (r: Option<u32>)
    ensures
        r == header_cseq_number(hs@.map_values(|h: Header| h@)),
{
    proof {
        lemma_grammar_words();
    }
    let i = match get_header(hs, "CSeq") {
        None => return None,
        Some(i) => i,
    };
    let h = &hs[i];
    let tok = match find_char(&h.value, ' ') {
        None => {
            let t = subvec(&h.value, 0, h.value.len());
            proof {
                assert(t@ =~= h@.value);
            }
            t
        },
        Some(j) => {
            let t = subvec(&h.value, 0, j);
            proof {
                assert(t@ =~= h@.value.take(j as int));
            }
            t
        },
    };
    match parse_u64(&tok) {
        None => None,
        Some(n) => {
            if n <= 0xFFFF_FFFFu64 {
                Some(n as u32)
            } else {
                None
            }
        },
    }
}


proof fn lemma_ct_words()
    ensures
        "Content-Type"@ =~= seq!['C', 'o', 'n', 't', 'e', 'n', 't', '-', 'T', 'y', 'p', 'e'],
        "application/sdp"@ =~= seq![
            'a', 'p', 'p', 'l', 'i', 'c', 'a', 't', 'i', 'o', 'n', '/', 's', 'd', 'p',
        ],
{
    reveal_strlit("Content-Type");
    reveal_strlit("application/sdp");
}

impl Dialog {
    /// The opening INVITE: a fresh SDP offer (session id from the clock),
    /// the callee's To header and URI, and `Content-Type: application/sdp`.
    pub fn invite(&mut self, to_value: &Vec<char>, to_uri: &Vec<char>) -> (r: Request)
        requires
            old(self).wf(),
            old(self).cseq < 0xFFFF_FFFFu32,
            old(self).to_value is None,
            token_ok(to_uri@),
            to_value@.len() > 0,
            text_ok(to_value@),
        ensures
            *final(self) == (Dialog { cseq: (old(self).cseq + 1) as u32, ..*old(self) }),
            wf_msg(r@),
            r@.method == Method::Invite,
            r@.uri == to_uri@,
            r@.headers.len() == 10,
            r@.headers[0] == (HeaderModel {
                name: "CSeq"@,
                value: cseq_value(old(self).cseq + 1, Method::Invite),
            }),
            r@.headers[8] == (HeaderModel { name: "To"@, value: to_value@ }),
            r@.headers[9] == (HeaderModel {
                name: "Content-Type"@,
                value: "application/sdp"@,
            }),
            exists|sid: Seq<char>|
                all_dec_digits(sid) && sid.len() > 0 && r@.body == emit_sdp_spec(
                    #[trigger] sdp_model_of(sid, old(self).client_ip, old(self).rtp_port),
                ),
    {
        proof {
            lemma_grammar_words();
            lemma_ct_words();
        }
        let now = micros_since_epoch();
        let sess = u64_to_chars(now);
        proof {
            lemma_dec_digits_value(now as nat);
        }
        let ghost sid = sess@;
        let offer = self.sdp(sess);
        let body = emit_sdp(&offer);
        let mut req = self.new_request(Method::Invite, body);
        let ghost mid = req@;
        let new_uri = subvec(to_uri, 0, to_uri.len());
        proof {
            assert(new_uri@ =~= to_uri@);
        }
        req.uri = new_uri;
        let to_copy = subvec(to_value, 0, to_value.len());
        proof {
            assert(to_copy@ =~= to_value@);
        }
        req.headers.push(Header { name: str_chars("To"), value: to_copy });
        req.headers.push(
            Header { name: str_chars("Content-Type"), value: str_chars("application/sdp") },
        );
        proof {
            assert(req@.headers =~= mid.headers.push(
                HeaderModel { name: "To"@, value: to_value@ },
            ).push(HeaderModel { name: "Content-Type"@, value: "application/sdp"@ }));
            assert forall|j: int| 0 <= j < req@.headers.len() implies name_ok(
                #[trigger] req@.headers[j].name,
            ) && text_ok(req@.headers[j].value) by {
                if j < mid.headers.len() {
                    assert(req@.headers[j] == mid.headers[j]);
                    assert(wf_msg(mid));
                }
            }
            assert(wf_msg(req@));
            assert(req@.body == emit_sdp_spec(sdp_model_of(
                sid,
                old(self).client_ip,
                old(self).rtp_port,
            )));
        }
        req
    }

    /// Answer an INVITE challenge: the second attempt, same offer, with
    /// Authorization.
    pub fn invite_auth(
        &mut self,
        resp: &Response,
        password: &Vec<char>,
        to_value: &Vec<char>,
        to_uri: &Vec<char>,
        body: Vec<char>,
    ) -> (r: Result<Request, SipError>)
        requires
            old(self).wf(),
            old(self).cseq < 0xFFFF_FFFFu32,
            old(self).to_value is None,
            token_ok(to_uri@),
            to_value@.len() > 0,
            text_ok(to_value@),
        ensures
            r is Ok <==> good_challenge(resp@.headers),
            r is Ok ==> {
                let req = r.unwrap();
                let (nonce, opaque) = challenge_of(resp@.headers).unwrap();
                &&& *final(self) == (Dialog { cseq: (old(self).cseq + 1) as u32, ..*old(self) })
                &&& wf_msg(req@)
                &&& req@.method == Method::Invite
                &&& req@.uri == to_uri@
                &&& req@.body == body@
                &&& req@.headers.len() == 12
                &&& req@.headers[8] == (HeaderModel { name: "To"@, value: to_value@ })
                &&& req@.headers[9] == (HeaderModel {
                    name: "Content-Type"@,
                    value: "application/sdp"@,
                })
                &&& req@.headers[10].name == "Authorization"@
                &&& exists|cnonce: Seq<char>|
                    cnonce.len() > 0 && text_ok(cnonce) && req@.headers[10].value
                        == #[trigger] auth_value(
                        old(self).username@,
                        old(self).server_host@,
                        old(self).server_port,
                        nonce,
                        opaque,
                        cnonce,
                        digest_response(
                            old(self).username@,
                            password@,
                            Method::Invite,
                            old(self).server_host@,
                            old(self).server_port,
                            nonce,
                            cnonce,
                        ),
                    )
            },
    {
        proof {
            lemma_grammar_words();
            lemma_ct_words();
        }
        let (nonce, opaque) = match Dialog::read_challenge(resp) {
            None => return Err(SipError::MissingWwwAuthenticate),
            Some(c) => c,
        };
        let mut req = self.new_request(Method::Invite, body);
        let ghost mid0 = req@;
        let new_uri = subvec(to_uri, 0, to_uri.len());
        proof {
            assert(new_uri@ =~= to_uri@);
        }
        req.uri = new_uri;
        let to_copy = subvec(to_value, 0, to_value.len());
        proof {
            assert(to_copy@ =~= to_value@);
        }
        req.headers.push(Header { name: str_chars("To"), value: to_copy });
        req.headers.push(
            Header { name: str_chars("Content-Type"), value: str_chars("application/sdp") },
        );
        proof {
            assert(req@.headers =~= mid0.headers.push(
                HeaderModel { name: "To"@, value: to_value@ },
            ).push(HeaderModel { name: "Content-Type"@, value: "application/sdp"@ }));
            assert forall|j: int| 0 <= j < req@.headers.len() implies name_ok(
                #[trigger] req@.headers[j].name,
            ) && text_ok(req@.headers[j].value) by {
                if j < mid0.headers.len() {
                    assert(req@.headers[j] == mid0.headers[j]);
                    assert(wf_msg(mid0));
                }
            }
            assert(wf_msg(req@));
        }
        let ghost mid = req@;
        self.add_auth_to_request(&mut req, password, opaque, &nonce);
        proof {
            assert(req@.headers[10] == req@.headers[mid.headers.len() as int]);
            assert(req@.headers[8] == mid.headers[8]);
            assert(req@.headers[9] == mid.headers[9]);
        }
        Ok(req)
    }
}

/// An SDP model from plain parts (helper for contracts).
pub open spec fn sdp_model_of(sid: Seq<char>, ip: (u8, u8, u8, u8), port: u16)
    -> crate::sdp::SdpModel {
    crate::sdp::SdpModel { sess_id: sid, ip, port }
}


/// The grammar words other modules' proofs need: `sips:` and the CSeq name.
pub proof fn lemma_sip_words_public()
    ensures
        "sips:"@ =~= seq!['s', 'i', 'p', 's', ':'],
        "CSeq"@ =~= seq!['C', 'S', 'e', 'q'],
{
    lemma_grammar_words();
}


/// A request stays well formed when its CSeq header's value is replaced by
/// printable text.
proof fn lemma_wf_after_cseq_update(mid: MsgModel, v: Seq<char>, m2: MsgModel)
    requires
        wf_msg(mid),
        mid.req,
        mid.headers.len() >= 1,
        text_ok(v),
        name_ok("CSeq"@),
        m2 == (MsgModel {
            headers: mid.headers.update(0, HeaderModel { name: "CSeq"@, value: v }),
            ..mid
        }),
    ensures
        wf_msg(m2),
{
    assert forall|j: int| 0 <= j < m2.headers.len() implies name_ok(
        #[trigger] m2.headers[j].name,
    ) && text_ok(m2.headers[j].value) by {
        if j != 0 {
            assert(m2.headers[j] == mid.headers[j]);
        }
    }
}

} // verus!
