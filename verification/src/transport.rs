//! The persistent SIP connection's demultiplexer.
//!
//! One TLS stream carries every dialog; inbound messages are routed to the
//! dialog owning their Call-ID.  An unrecognized INVITE opens a new dialog
//! (when a ringing slot is free — otherwise `486 Busy Here`); other
//! unsolicited traffic is answered in place: `OPTIONS` and out-of-dialog
//! `BYE` get `200 OK`, an out-of-dialog `CANCEL` gets `200 OK` plus
//! `487 Request Terminated`, and a late `2xx` to an INVITE is ACKed.
//!
//! The socket itself (TCP, TLS, line reading) lives outside the library;
//! this module owns the decisions.

use vstd::prelude::*;

use crate::outside::{all_alnum, is_alnum_char, new_uuid_chars};
use crate::sip::{cseq_value, find_header, headers_cseq, host_ok, Dialog, SipError};
use crate::sipmsg::{
    method_of_token, name_ok, text_ok, wf_msg, Header, HeaderModel, Method, MsgModel, Request,
    Response, SipMessage,
};
use crate::strutil::{
    chars_eq_str, dec_digits, index_of_char, lemma_dec_digits_value, push_chars, push_str,
    str_chars, subvec, u64_to_chars,
};

verus! {

/// What to do with one inbound message.
#[derive(Clone, Copy, PartialEq, Eq, Structural, Debug)]
pub enum RouteDecision {
    /// Deliver to the dialog registered under this inbox number.
    ToDialog(usize),
    /// A fresh INVITE: open a dialog and ring.
    NewInvite,
    /// A fresh INVITE with no ringing slot free: reply `486 Busy Here`.
    Busy,
    /// `OPTIONS`, or `BYE` outside any dialog: reply `200 OK`.
    ReplyOk,
    /// `CANCEL` outside any dialog: reply `200 OK` then `487`.
    ReplyOkAndTerminated,
    /// A `2xx` to an INVITE after its dialog expired: synthesize an ACK.
    AckLate,
    /// Nothing to do.
    Drop,
}

/// The method named in a CSeq header value (after the sequence number).
pub open spec fn cseq_method(hs: Seq<HeaderModel>) -> Option<Method> {
    match find_header(hs, "CSeq"@) {
        None => None,
        Some(h) => {
            let i = index_of_char(h.value, ' ');
            if i < 0 {
                None
            } else {
                method_of_token(h.value.skip(i + 1))
            }
        },
    }
}

/// The registered inbox for a Call-ID, if any (first match).
pub open spec fn table_lookup(t: Seq<(Seq<char>, usize)>, call_id: Seq<char>) -> Option<usize>
    decreases t.len(),
{
    if t.len() == 0 {
        None
    } else if t[0].0 == call_id {
        Some(t[0].1)
    } else {
        table_lookup(t.skip(1), call_id)
    }
}

/// Where an inbound message goes, per the demultiplexing rules above.
pub open spec fn route_spec(t: Seq<(Seq<char>, usize)>, m: MsgModel, slot_free: bool)
    -> RouteDecision {
    match find_header(m.headers, "Call-ID"@) {
        None => RouteDecision::Drop,
        Some(h) => match table_lookup(t, h.value) {
            Some(inbox) => RouteDecision::ToDialog(inbox),
            None => {
                if m.req {
                    match m.method {
                        Method::Invite => if slot_free {
                            RouteDecision::NewInvite
                        } else {
                            RouteDecision::Busy
                        },
                        Method::Bye => RouteDecision::ReplyOk,
                        Method::Options => RouteDecision::ReplyOk,
                        Method::Cancel => RouteDecision::ReplyOkAndTerminated,
                        _ => RouteDecision::Drop,
                    }
                } else {
                    if cseq_method(m.headers) == Some(Method::Invite) && m.code >= 200 {
                        RouteDecision::AckLate
                    } else {
                        RouteDecision::Drop
                    }
                }
            },
        },
    }
}

/// The demultiplexing state of the persistent connection: the endpoint's
/// identity and the Call-ID table.
pub struct TlsSipConn {
    pub client_ip: (u8, u8, u8, u8),
    pub host: Vec<char>,
    pub port: u16,
    /// The instance id shared by every dialog of this connection.
    pub sip_instance: Vec<char>,
    /// Registered dialogs: Call-ID and inbox number, in registration order.
    pub dialogs: Vec<(Vec<char>, usize)>,
    /// The next inbox number to hand out.
    pub next_inbox: usize,
}

impl TlsSipConn {
    pub open spec fn wf(self) -> bool {
        &&& host_ok(self.host@)
        &&& self.sip_instance@.len() > 0
        &&& forall|j: int|
            0 <= j < self.sip_instance@.len() ==> is_alnum_char(#[trigger] self.sip_instance@[j])
                || self.sip_instance@[j] == '-'
    }

    pub open spec fn table(self) -> Seq<(Seq<char>, usize)> {
        self.dialogs@.map_values(|p: (Vec<char>, usize)| (p.0@, p.1))
    }

    /// A fresh connection state with a fresh instance id.
    pub fn new(client_ip: (u8, u8, u8, u8), host: Vec<char>, port: u16) -> (c: TlsSipConn)
        requires
            host_ok(host@),
        ensures
            c.wf(),
            c.client_ip == client_ip,
            c.host == host,
            c.port == port,
            c.table() =~= Seq::<(Seq<char>, usize)>::empty(),
            c.next_inbox == 0,
    {
        let sip_instance = new_uuid_chars();
        TlsSipConn { client_ip, host, port, sip_instance, dialogs: Vec::new(), next_inbox: 0 }
    }

    /// Open an outbound dialog for `username` and register its inbox.
    pub fn dialog(&mut self, username: Vec<char>, rtp_port: u16) -> (r: (Dialog, usize))
        requires
            old(self).wf(),
            crate::sip::user_ok(username@),
        ensures
            final(self).wf(),
            r.0.wf(),
            r.0.cseq == 0,
            r.0.username == username,
            r.0.to_value is None,
            r.0.client_ip == old(self).client_ip,
            r.0.rtp_port == rtp_port,
            r.1 == old(self).next_inbox,
            final(self).table() == old(self).table().push((r.0.call_id@, r.1)),
            final(self).host == old(self).host,
            final(self).port == old(self).port,
            final(self).client_ip == old(self).client_ip,
    {
        let host_copy = subvec_host(&self.host);
        let inst_copy = subvec_host(&self.sip_instance);
        let d = Dialog::new(
            host_copy,
            self.port,
            self.client_ip,
            inst_copy,
            username,
            rtp_port,
        );
        let inbox = self.next_inbox;
        if self.next_inbox < usize::MAX {
            self.next_inbox = self.next_inbox + 1;
        }
        let cid = subvec_host(&d.call_id);
        let ghost before = self.table();
        self.dialogs.push((cid, inbox));
        proof {
            assert(self.table() =~= before.push((d.call_id@, inbox)));
        }
        (d, inbox)
    }

    /// Open a dialog for an unrecognized inbound INVITE and register it;
    /// the dialog's user comes from the INVITE's To header.
    pub fn dialog_from_req(&mut self, req: &Request, rtp_port: u16) -> (r: Result<
        (Dialog, usize),
        SipError,
    >)
        requires
            old(self).wf(),
        ensures
            final(self).wf(),
            r is Err ==> *final(self) == *old(self),
            r is Ok <==> {
                &&& crate::sip::header_cseq_number(req@.headers) is Some
                &&& find_header(req@.headers, "Call-ID"@) is Some
                &&& crate::sipmsg::token_ok(find_header(req@.headers, "Call-ID"@).unwrap().value)
                &&& find_header(req@.headers, "From"@) is Some
                &&& find_header(req@.headers, "From"@).unwrap().value.len() > 0
                &&& crate::sipmsg::text_ok(find_header(req@.headers, "From"@).unwrap().value)
                &&& crate::sip::to_user_of(req@.headers) is Some
                &&& crate::sip::user_ok(crate::sip::to_user_of(req@.headers).unwrap())
            },
            r is Ok ==> {
                let (d, inbox) = r.unwrap();
                &&& d.wf()
                &&& d.cseq == crate::sip::header_cseq_number(req@.headers).unwrap()
                &&& find_header(req@.headers, "Call-ID"@) is Some
                &&& d.call_id@ == find_header(req@.headers, "Call-ID"@).unwrap().value
                &&& crate::sip::to_user_of(req@.headers) is Some
                &&& d.username@ == crate::sip::to_user_of(req@.headers).unwrap()
                &&& inbox == old(self).next_inbox
                &&& final(self).table() == old(self).table().push((d.call_id@, inbox))
            },
    {
        let host_copy = subvec_host(&self.host);
        let inst_copy = subvec_host(&self.sip_instance);
        let d = match Dialog::from_request(
            host_copy,
            self.port,
            self.client_ip,
            inst_copy,
            rtp_port,
            req,
        ) {
            Err(e) => return Err(e),
            Ok(d) => d,
        };
        let inbox = self.next_inbox;
        if self.next_inbox < usize::MAX {
            self.next_inbox = self.next_inbox + 1;
        }
        let cid = subvec_host(&d.call_id);
        let ghost before = self.table();
        self.dialogs.push((cid, inbox));
        proof {
            assert(self.table() =~= before.push((d.call_id@, inbox)));
        }
        Ok((d, inbox))
    }

    /// Forget a dialog when its conversation ends.
    pub fn remove_dialog(&mut self, inbox: usize)
        requires
            old(self).wf(),
        ensures
            final(self).wf(),
            final(self).table() == old(self).table().filter(
                |p: (Seq<char>, usize)| p.1 != inbox,
            ),
            final(self).host == old(self).host,
            final(self).next_inbox == old(self).next_inbox,
    {
        let mut kept: Vec<(Vec<char>, usize)> = Vec::new();
        let mut i: usize = 0;
        proof {
            assert(self.table().take(0) =~= Seq::<(Seq<char>, usize)>::empty());
            assert(self.table().take(0).filter(|p: (Seq<char>, usize)| p.1 != inbox)
                =~= Seq::<(Seq<char>, usize)>::empty());
            assert(kept@.map_values(|p: (Vec<char>, usize)| (p.0@, p.1)) =~= Seq::<
                (Seq<char>, usize),
            >::empty());
        }
        while i < self.dialogs.len()
            invariant
                i <= self.dialogs.len(),
                self.dialogs == old(self).dialogs,
                self.host == old(self).host,
                self.port == old(self).port,
                self.client_ip == old(self).client_ip,
                self.sip_instance == old(self).sip_instance,
                self.next_inbox == old(self).next_inbox,
                old(self).wf(),
                kept@.map_values(|p: (Vec<char>, usize)| (p.0@, p.1)) == old(self).table().take(
                    i as int,
                ).filter(|p: (Seq<char>, usize)| p.1 != inbox),
            decreases self.dialogs.len() - i,
        {
            let ghost before = kept@.map_values(|p: (Vec<char>, usize)| (p.0@, p.1));
            proof {
                assert(old(self).table().take(i as int + 1) =~= old(self).table().take(
                    i as int,
                ).push(old(self).table()[i as int]));
                crate::transport::lemma_filter_push(
                    old(self).table().take(i as int),
                    old(self).table()[i as int],
                    inbox,
                );
                assert(old(self).table()[i as int] == (self.dialogs@[i as int].0@, self.dialogs@[
                    i as int
                ].1));
            }
            let p = &self.dialogs[i];
            if p.1 != inbox {
                let copy = subvec_host(&p.0);
                let num = p.1;
                kept.push((copy, num));
                proof {
                    assert(kept@.map_values(|q: (Vec<char>, usize)| (q.0@, q.1)) =~= before.push(
                        (self.dialogs@[i as int].0@, self.dialogs@[i as int].1),
                    ));
                }
            }
            i = i + 1;
        }
        proof {
            assert(old(self).table().take(old(self).table().len() as int) =~= old(self).table());
        }
        self.dialogs = kept;
    }

    /// Find the registered inbox for a Call-ID.
    pub fn find_dialog(&self, call_id: &Vec<char>) -> (r: Option<usize>)
        ensures
            r == table_lookup(self.table(), call_id@),
    {
        let ghost t = self.table();
        let mut i: usize = 0;
        proof {
            assert(t.skip(0) =~= t);
        }
        while i < self.dialogs.len()
            invariant
                i <= self.dialogs.len(),
                t == self.table(),
                table_lookup(t, call_id@) == table_lookup(t.skip(i as int), call_id@),
            decreases self.dialogs.len() - i,
        {
            proof {
                assert(t.skip(i as int)[0] == t[i as int]);
                assert(t[i as int] == (self.dialogs@[i as int].0@, self.dialogs@[i as int].1));
                assert(t.skip(i as int).skip(1) =~= t.skip(i as int + 1));
            }
            let p = &self.dialogs[i];
            if chars_eq(&p.0, call_id) {
                return Some(p.1);
            }
            i = i + 1;
        }
        proof {
            assert(t.skip(self.dialogs@.len() as int) =~= Seq::<(Seq<char>, usize)>::empty());
        }
        None
    }

    /// Decide what to do with one inbound message.
    pub fn route(&self, msg: &SipMessage, slot_free: bool) -> (r: RouteDecision)
        ensures
            r == route_spec(self.table(), msg@, slot_free),
    {
        let (headers, is_req, method, code): (&Vec<Header>, bool, Method, u16) = match msg {
            SipMessage::Request(rq) => (&rq.headers, true, rq.method, 0),
            SipMessage::Response(rp) => (&rp.headers, false, Method::Invite, rp.code),
        };
        let i = match crate::sip::get_header(headers, "Call-ID") {
            None => return RouteDecision::Drop,
            Some(i) => i,
        };
        match self.find_dialog(&headers[i].value) {
            Some(inbox) => RouteDecision::ToDialog(inbox),
            None => {
                if is_req {
                    match method {
                        Method::Invite => if slot_free {
                            RouteDecision::NewInvite
                        } else {
                            RouteDecision::Busy
                        },
                        Method::Bye => RouteDecision::ReplyOk,
                        Method::Options => RouteDecision::ReplyOk,
                        Method::Cancel => RouteDecision::ReplyOkAndTerminated,
                        _ => RouteDecision::Drop,
                    }
                } else {
                    if cseq_method_exec(headers) == Some(Method::Invite) && code >= 200 {
                        RouteDecision::AckLate
                    } else {
                        RouteDecision::Drop
                    }
                }
            },
        }
    }
}

/// Filtering distributes over push.
pub proof fn lemma_filter_push(t: Seq<(Seq<char>, usize)>, p: (Seq<char>, usize), inbox: usize)
    ensures
        t.push(p).filter(|q: (Seq<char>, usize)| q.1 != inbox) == if p.1 != inbox {
            t.filter(|q: (Seq<char>, usize)| q.1 != inbox).push(p)
        } else {
            t.filter(|q: (Seq<char>, usize)| q.1 != inbox)
        },
{
    reveal(Seq::filter);
    assert(t.push(p).drop_last() =~= t);
    assert(t.push(p).last() == p);
}

/// The method a CSeq header names.
pub fn cseq_method_exec(hs: &Vec<Header>) -> (r: Option<Method>)
    ensures
        r == cseq_method(hs@.map_values(|h: Header| h@)),
{
    let i = match crate::sip::get_header(hs, "CSeq") {
        None => return None,
        Some(i) => i,
    };
    let h = &hs[i];
    let j = match crate::strutil::find_char(&h.value, ' ') {
        None => return None,
        Some(j) => j,
    };
    let tok = subvec(&h.value, j + 1, h.value.len());
    proof {
        assert(tok@ =~= h@.value.skip(j as int + 1));
    }
    if chars_eq_str(&tok, "REGISTER") {
        Some(Method::Register)
    } else if chars_eq_str(&tok, "INVITE") {
        Some(Method::Invite)
    } else if chars_eq_str(&tok, "ACK") {
        Some(Method::Ack)
    } else if chars_eq_str(&tok, "CANCEL") {
        Some(Method::Cancel)
    } else if chars_eq_str(&tok, "BYE") {
        Some(Method::Bye)
    } else if chars_eq_str(&tok, "OPTIONS") {
        Some(Method::Options)
    } else {
        None
    }
}

/// Copy a character vector.
fn subvec_host(v: &Vec<char>) -> (r: Vec<char>)
    ensures
        r@ == v@,
{
    let c = subvec(v, 0, v.len());
    proof {
        assert(c@ =~= v@);
    }
    c
}

/// Compare two character vectors.
fn chars_eq(a: &Vec<char>, b: &Vec<char>) -> (r: bool)
    ensures
        r == (a@ == b@),
{
    if a.len() != b.len() {
        proof {
            assert(a@ != b@);
        }
        return false;
    }
    let mut i: usize = 0;
    while i < a.len()
        invariant
            a@.len() == b@.len(),
            i <= a.len(),
            forall|j: int| 0 <= j < i ==> a@[j] == b@[j],
        decreases a.len() - i,
    {
        if a[i] != b[i] {
            return false;
        }
        i = i + 1;
    }
    proof {
        assert(a@ =~= b@);
    }
    true
}


/// What the late ACK keeps of one response header: the dialog identifiers
/// as they stand, the CSeq with its number under the ACK method.
pub open spec fn ack_echo_step(h: HeaderModel, n: u32) -> Seq<HeaderModel> {
    if h.name == "Call-ID"@ || h.name == "From"@ || h.name == "To"@ || h.name == "Via"@ {
        seq![h]
    } else if h.name == "CSeq"@ {
        seq![HeaderModel { name: "CSeq"@, value: cseq_value(n as int, Method::Ack) }]
    } else {
        Seq::empty()
    }
}

pub open spec fn ack_echo(hs: Seq<HeaderModel>, n: u32) -> Seq<HeaderModel>
    decreases hs.len(),
{
    if hs.len() == 0 {
        Seq::empty()
    } else {
        ack_echo_step(hs[0], n) + ack_echo(hs.skip(1), n)
    }
}

proof fn lemma_ack_echo_snoc(hs: Seq<HeaderModel>, h: HeaderModel, n: u32)
    ensures
        ack_echo(hs.push(h), n) == ack_echo(hs, n) + ack_echo_step(h, n),
    decreases hs.len(),
{
    if hs.len() == 0 {
        assert(hs.push(h)[0] == h);
        assert(hs.push(h).skip(1) =~= Seq::<HeaderModel>::empty());
        assert(ack_echo(hs.push(h), n) == ack_echo_step(h, n) + ack_echo(
            hs.push(h).skip(1),
            n,
        ));
        assert(ack_echo(hs.push(h).skip(1), n) == ack_echo(Seq::<HeaderModel>::empty(), n));
        assert(ack_echo_step(h, n) + Seq::<HeaderModel>::empty() =~= Seq::<
            HeaderModel,
        >::empty() + ack_echo_step(h, n));
    } else {
        assert(hs.push(h).skip(1) =~= hs.skip(1).push(h));
        lemma_ack_echo_snoc(hs.skip(1), h, n);
        assert(hs.push(h)[0] == hs[0]);
        assert(ack_echo_step(hs[0], n) + (ack_echo(hs.skip(1), n) + ack_echo_step(h, n))
            =~= (ack_echo_step(hs[0], n) + ack_echo(hs.skip(1), n)) + ack_echo_step(h, n));
    }
}

impl TlsSipConn {
    /// Synthesize the ACK for a `2xx` that outlived its INVITE's dialog:
    /// echo the response's identifiers with its CSeq number under ACK.
    pub fn late_ack(&self, resp: &Response) -> (r: Option<Request>)
        requires
            self.wf(),
            forall|j: int|
                0 <= j < resp@.headers.len() ==> name_ok(#[trigger] resp@.headers[j].name)
                    && text_ok(resp@.headers[j].value),
        ensures
            r is Some <==> crate::sip::header_cseq_number(resp@.headers) is Some,
            r is Some ==> {
                let req = r.unwrap();
                &&& req@.method == Method::Ack
                &&& req@.headers == ack_echo(
                    resp@.headers,
                    crate::sip::header_cseq_number(resp@.headers).unwrap(),
                )
                &&& req@.body == Seq::<char>::empty()
                &&& wf_msg(req@)
            },
    {
        proof {
            crate::sipmsg::lemma_tokens();
        }
        let n = match headers_cseq(&resp.headers) {
            None => return None,
            Some(n) => n,
        };
        let ghost resp_hs = resp@.headers;
        let mut headers: Vec<Header> = Vec::new();
        let mut k: usize = 0;
        proof {
            assert(resp_hs.take(0) =~= Seq::<HeaderModel>::empty());
        }
        while k < resp.headers.len()
            invariant
                k <= resp.headers.len(),
                resp_hs == resp@.headers,
                headers@.map_values(|h: Header| h@) == ack_echo(resp_hs.take(k as int), n),
            decreases resp.headers.len() - k,
        {
            let h = &resp.headers[k];
            proof {
                assert(resp_hs.take(k as int + 1) =~= resp_hs.take(k as int).push(
                    resp_hs[k as int],
                ));
                lemma_ack_echo_snoc(resp_hs.take(k as int), resp_hs[k as int], n);
                assert(resp_hs[k as int] == resp.headers@[k as int]@);
            }
            let ghost before = headers@.map_values(|h2: Header| h2@);
            if chars_eq_str(&h.name, "Call-ID") || chars_eq_str(&h.name, "From") || chars_eq_str(
                &h.name,
                "To",
            ) || chars_eq_str(&h.name, "Via") {
                let nm = subvec(&h.name, 0, h.name.len());
                let vl = subvec(&h.value, 0, h.value.len());
                proof {
                    assert(nm@ =~= h@.name);
                    assert(vl@ =~= h@.value);
                }
                headers.push(Header { name: nm, value: vl });
                proof {
                    assert(headers@.map_values(|h2: Header| h2@) =~~= before + ack_echo_step(
                        resp_hs[k as int],
                        n,
                    ));
                }
            } else if chars_eq_str(&h.name, "CSeq") {
                let mut v = u64_to_chars(n as u64);
                v.push(' ');
                push_str(&mut v, "ACK");
                proof {
                    assert(v@ =~= cseq_value(n as int, Method::Ack));
                }
                headers.push(Header { name: str_chars("CSeq"), value: v });
                proof {
                    assert(headers@.map_values(|h2: Header| h2@) =~~= before + ack_echo_step(
                        resp_hs[k as int],
                        n,
                    ));
                }
            } else {
                proof {
                    assert(headers@.map_values(|h2: Header| h2@) =~~= before + ack_echo_step(
                        resp_hs[k as int],
                        n,
                    ));
                }
            }
            k = k + 1;
        }
        proof {
            assert(resp_hs.take(resp_hs.len() as int) =~= resp_hs);
            lemma_ack_echo_wf(resp_hs, n);
        }
        let mut uri = str_chars("sips:");
        push_chars(&mut uri, &self.host);
        uri.push(':');
        let p = u64_to_chars(self.port as u64);
        push_chars(&mut uri, &p);
        let req = Request { method: Method::Ack, uri, headers, body: Vec::new() };
        proof {
            assert(req@.uri =~= crate::sip::req_uri_chars(self.host@, self.port));
            assert(req@.body =~= Seq::<char>::empty());
            lemma_dec_digits_value(self.port as nat);
            assert(crate::sipmsg::token_ok(req@.uri)) by {
                crate::sip::lemma_sip_words_public();
                assert(forall|j: int|
                    0 <= j < dec_digits(self.port as nat).len() ==> crate::strutil::is_dec_digit(
                        #[trigger] dec_digits(self.port as nat)[j],
                    ));
            }
            assert(wf_msg(req@));
        }
        Some(req)
    }
}

/// Every echoed header of a well-formed response is well formed.
proof fn lemma_ack_echo_wf(hs: Seq<HeaderModel>, n: u32)
    requires
        forall|j: int|
            0 <= j < hs.len() ==> name_ok(#[trigger] hs[j].name) && text_ok(hs[j].value),
    ensures
        forall|j: int|
            0 <= j < ack_echo(hs, n).len() ==> name_ok(#[trigger] ack_echo(hs, n)[j].name)
                && text_ok(ack_echo(hs, n)[j].value),
    decreases hs.len(),
{
    crate::sipmsg::lemma_tokens();
    crate::sip::lemma_sip_words_public();
    lemma_dec_digits_value(n as nat);
    if hs.len() > 0 {
        assert(forall|j: int|
            0 <= j < hs.skip(1).len() ==> #[trigger] hs.skip(1)[j] == hs[j + 1]);
        lemma_ack_echo_wf(hs.skip(1), n);
        let e = ack_echo(hs, n);
        let head = ack_echo_step(hs[0], n);
        assert(text_ok(cseq_value(n as int, Method::Ack))) by {
            assert(forall|q: int|
                0 <= q < dec_digits(n as nat).len() ==> crate::strutil::is_dec_digit(
                    #[trigger] dec_digits(n as nat)[q],
                ));
        }
        assert forall|j: int| 0 <= j < e.len() implies name_ok(#[trigger] e[j].name) && text_ok(
            e[j].value,
        ) by {
            if j < head.len() {
                assert(e[j] == head[j]);
                assert(name_ok(hs[0].name) && text_ok(hs[0].value));
            } else {
                assert(e[j] == ack_echo(hs.skip(1), n)[j - head.len()]);
            }
        }
    }
}

} // verus!
