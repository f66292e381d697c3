//! The SIP/2.0 message grammar: requests and responses as the library models
//! them, their wire text, and the parser that inverts it.
//!
//! A message head is CRLF-terminated lines — a start line, then one
//! `Name: value` line per header — closed by an empty line; the body (whose
//! length the Content-Length header announces) follows as-is.  Emission and
//! parsing are both defined against spec-level functions over `Seq<char>`,
//! and [`lemma_parse_emit`] proves that parsing an emitted message returns
//! it exactly.

use vstd::prelude::*;

use crate::strutil::{
    chars_eq_str, crlf_at, dec_char_val, dec_digit_char, dec_digit_char_exec, dec_val_exec,
    find_char, find_char_from, find_crlf, find_crlf_from, index_of_char, is_dec_digit,
    lemma_find_crlf_concat, lemma_find_crlf_found, lemma_index_of_char_concat, push_chars,
    push_str, seg_eq, subvec,
};

verus! {

/// The SIP methods this endpoint speaks.
#[derive(Clone, Copy, PartialEq, Eq, Structural, Debug)]
pub enum Method {
    Register,
    Invite,
    Ack,
    Cancel,
    Bye,
    Options,
}

/// One header: `name` and `value` of a `Name: value` line.
pub struct Header {
    pub name: Vec<char>,
    pub value: Vec<char>,
}

#[verifier::ext_equal]
pub ghost struct HeaderModel {
    pub name: Seq<char>,
    pub value: Seq<char>,
}

impl View for Header {
    type V = HeaderModel;

    open spec fn view(&self) -> HeaderModel {
        HeaderModel { name: self.name@, value: self.value@ }
    }
}

pub struct Request {
    pub method: Method,
    pub uri: Vec<char>,
    pub headers: Vec<Header>,
    pub body: Vec<char>,
}

pub struct Response {
    pub code: u16,
    pub reason: Vec<char>,
    pub headers: Vec<Header>,
    pub body: Vec<char>,
}

pub enum SipMessage {
    Request(Request),
    Response(Response),
}

/// One mathematical shape for both kinds of message.  A request carries
/// `code == 0` and an empty reason; a response carries the fixed dummy
/// method [`Method::Invite`] and an empty URI.
#[verifier::ext_equal]
pub ghost struct MsgModel {
    pub req: bool,
    pub method: Method,
    pub uri: Seq<char>,
    pub code: int,
    pub reason: Seq<char>,
    pub headers: Seq<HeaderModel>,
    pub body: Seq<char>,
}

impl View for Request {
    type V = MsgModel;

    open spec fn view(&self) -> MsgModel {
        MsgModel {
            req: true,
            method: self.method,
            uri: self.uri@,
            code: 0,
            reason: Seq::empty(),
            headers: self.headers@.map_values(|h: Header| h@),
            body: self.body@,
        }
    }
}

impl View for Response {
    type V = MsgModel;

    open spec fn view(&self) -> MsgModel {
        MsgModel {
            req: false,
            method: Method::Invite,
            uri: Seq::empty(),
            code: self.code as int,
            reason: self.reason@,
            headers: self.headers@.map_values(|h: Header| h@),
            body: self.body@,
        }
    }
}

impl View for SipMessage {
    type V = MsgModel;

    open spec fn view(&self) -> MsgModel {
        match self {
            SipMessage::Request(r) => r@,
            SipMessage::Response(r) => r@,
        }
    }
}

pub open spec fn crlf_seq() -> Seq<char> {
    seq!['\r', '\n']
}

pub open spec fn method_token(m: Method) -> Seq<char> {
    match m {
        Method::Register => "REGISTER"@,
        Method::Invite => "INVITE"@,
        Method::Ack => "ACK"@,
        Method::Cancel => "CANCEL"@,
        Method::Bye => "BYE"@,
        Method::Options => "OPTIONS"@,
    }
}

/// A token: nonempty, and free of spaces and line breaks.
pub open spec fn token_ok(s: Seq<char>) -> bool {
    s.len() > 0 && forall|j: int|
        0 <= j < s.len() ==> s[j] != ' ' && s[j] != '\r' && s[j] != '\n'
}

/// Free of line breaks.
pub open spec fn text_ok(s: Seq<char>) -> bool {
    forall|j: int| 0 <= j < s.len() ==> s[j] != '\r' && s[j] != '\n'
}

/// A header name: nonempty, no colon, no line breaks.
pub open spec fn name_ok(s: Seq<char>) -> bool {
    s.len() > 0 && forall|j: int|
        0 <= j < s.len() ==> s[j] != ':' && s[j] != '\r' && s[j] != '\n'
}

/// Well-formed message: fields that the wire grammar can carry and recover.
pub open spec fn wf_msg(m: MsgModel) -> bool {
    &&& forall|j: int|
        0 <= j < m.headers.len() ==> name_ok(#[trigger] m.headers[j].name) && text_ok(
            m.headers[j].value,
        )
    &&& if m.req {
        token_ok(m.uri) && m.code == 0 && m.reason == Seq::<char>::empty()
    } else {
        100 <= m.code <= 999 && text_ok(m.reason) && m.method == Method::Invite && m.uri
            == Seq::<char>::empty()
    }
}

/// The three-digit numeral of a status code.
pub open spec fn code_chars(c: int) -> Seq<char> {
    seq![
        dec_digit_char(((c / 100) % 10) as nat),
        dec_digit_char(((c / 10) % 10) as nat),
        dec_digit_char((c % 10) as nat),
    ]
}

/// The start line, without its CRLF.
pub open spec fn start_content(m: MsgModel) -> Seq<char> {
    if m.req {
        method_token(m.method) + seq![' '] + m.uri + seq![' '] + "SIP/2.0"@
    } else {
        "SIP/2.0"@ + seq![' '] + code_chars(m.code) + seq![' '] + m.reason
    }
}

/// A header line, without its CRLF.
pub open spec fn header_content(h: HeaderModel) -> Seq<char> {
    h.name + seq![':', ' '] + h.value
}

/// CRLF-terminated lines, in order.
pub open spec fn lines_text(ls: Seq<Seq<char>>) -> Seq<char>
    decreases ls.len(),
{
    if ls.len() == 0 {
        Seq::empty()
    } else {
        ls[0] + crlf_seq() + lines_text(ls.skip(1))
    }
}

/// The head lines of a message: start line then header lines.
pub open spec fn msg_lines(m: MsgModel) -> Seq<Seq<char>> {
    seq![start_content(m)] + m.headers.map_values(|h: HeaderModel| header_content(h))
}

/// The wire text of a message.
pub open spec fn emit_spec(m: MsgModel) -> Seq<char> {
    lines_text(msg_lines(m)) + crlf_seq() + m.body
}

// ------------------------------------------------------------------
// Spec-level parser
// ------------------------------------------------------------------

/// Split off CRLF-terminated lines until the empty line; the rest is the
/// body.  `None` when no empty line terminates the head.
pub open spec fn parse_head_lines_spec(s: Seq<char>) -> Option<(Seq<Seq<char>>, Seq<char>)>
    decreases s.len(),
{
    let i = find_crlf(s);
    if i < 0 || i + 2 > s.len() {
        None
    } else if i == 0 {
        Some((Seq::empty(), s.skip(2)))
    } else {
        match parse_head_lines_spec(s.skip(i + 2)) {
            None => None,
            Some((ls, b)) => Some((seq![s.take(i)] + ls, b)),
        }
    }
}

/// Parse one `Name: value` line.
pub open spec fn parse_header_line_spec(line: Seq<char>) -> Option<HeaderModel> {
    let i = index_of_char(line, ':');
    if i <= 0 {
        None
    } else {
        let name = line.take(i);
        let after = line.skip(i + 1);
        let value = if after.len() > 0 && after[0] == ' ' {
            after.skip(1)
        } else {
            after
        };
        Some(HeaderModel { name, value })
    }
}

pub open spec fn parse_headers_spec(ls: Seq<Seq<char>>) -> Option<Seq<HeaderModel>>
    decreases ls.len(),
{
    if ls.len() == 0 {
        Some(Seq::empty())
    } else {
        match parse_header_line_spec(ls[0]) {
            None => None,
            Some(h) => match parse_headers_spec(ls.skip(1)) {
                None => None,
                Some(hs) => Some(seq![h] + hs),
            },
        }
    }
}

pub open spec fn method_of_token(t: Seq<char>) -> Option<Method> {
    if t == "REGISTER"@ {
        Some(Method::Register)
    } else if t == "INVITE"@ {
        Some(Method::Invite)
    } else if t == "ACK"@ {
        Some(Method::Ack)
    } else if t == "CANCEL"@ {
        Some(Method::Cancel)
    } else if t == "BYE"@ {
        Some(Method::Bye)
    } else if t == "OPTIONS"@ {
        Some(Method::Options)
    } else {
        None
    }
}

/// An empty model to fill in: used as the base of the parsed start line.
pub open spec fn blank_model() -> MsgModel {
    MsgModel {
        req: true,
        method: Method::Invite,
        uri: Seq::empty(),
        code: 0,
        reason: Seq::empty(),
        headers: Seq::empty(),
        body: Seq::empty(),
    }
}

/// Parse a start line into a model with empty headers and body.
pub open spec fn parse_start_spec(line: Seq<char>) -> Option<MsgModel> {
    if line.len() >= 8 && line.take(8) == "SIP/2.0 "@ {
        let rest = line.skip(8);
        if rest.len() >= 4 && is_dec_digit(rest[0]) && is_dec_digit(rest[1]) && is_dec_digit(
            rest[2],
        ) && rest[3] == ' ' {
            Some(
                MsgModel {
                    req: false,
                    code: 100 * dec_char_val(rest[0]) + 10 * dec_char_val(rest[1]) + dec_char_val(
                        rest[2],
                    ),
                    reason: rest.skip(4),
                    ..blank_model()
                },
            )
        } else {
            None
        }
    } else {
        let i = index_of_char(line, ' ');
        if i <= 0 {
            None
        } else {
            let rest = line.skip(i + 1);
            let j = index_of_char(rest, ' ');
            if j <= 0 {
                None
            } else if rest.skip(j + 1) == "SIP/2.0"@ {
                match method_of_token(line.take(i)) {
                    None => None,
                    Some(meth) => Some(
                        MsgModel { req: true, method: meth, uri: rest.take(j), ..blank_model() },
                    ),
                }
            } else {
                None
            }
        }
    }
}

/// Parse a whole message: head lines, start line, headers, body.
pub open spec fn parse_msg_spec(s: Seq<char>) -> Option<MsgModel> {
    match parse_head_lines_spec(s) {
        None => None,
        Some((ls, body)) => {
            if ls.len() == 0 {
                None
            } else {
                match parse_start_spec(ls[0]) {
                    None => None,
                    Some(m0) => match parse_headers_spec(ls.skip(1)) {
                        None => None,
                        Some(hs) => Some(MsgModel { headers: hs, body, ..m0 }),
                    },
                }
            }
        },
    }
}

// ------------------------------------------------------------------
// The round trip: parsing an emitted message returns it
// ------------------------------------------------------------------

/// A head line as emitted: nonempty and free of carriage returns.
pub open spec fn line_ok(l: Seq<char>) -> bool {
    l.len() > 0 && forall|j: int| 0 <= j < l.len() ==> l[j] != '\r'
}

/// The characters of the grammar's fixed words.
pub proof fn lemma_tokens()
    ensures
        "REGISTER"@ =~= seq!['R', 'E', 'G', 'I', 'S', 'T', 'E', 'R'],
        "INVITE"@ =~= seq!['I', 'N', 'V', 'I', 'T', 'E'],
        "ACK"@ =~= seq!['A', 'C', 'K'],
        "CANCEL"@ =~= seq!['C', 'A', 'N', 'C', 'E', 'L'],
        "BYE"@ =~= seq!['B', 'Y', 'E'],
        "OPTIONS"@ =~= seq!['O', 'P', 'T', 'I', 'O', 'N', 'S'],
        "SIP/2.0"@ =~= seq!['S', 'I', 'P', '/', '2', '.', '0'],
        "SIP/2.0 "@ =~= seq!['S', 'I', 'P', '/', '2', '.', '0', ' '],
{
    reveal_strlit("REGISTER");
    reveal_strlit("INVITE");
    reveal_strlit("ACK");
    reveal_strlit("CANCEL");
    reveal_strlit("BYE");
    reveal_strlit("OPTIONS");
    reveal_strlit("SIP/2.0");
    reveal_strlit("SIP/2.0 ");
}

/// Method tokens are tokens, and looking a token back up returns its method.
proof fn lemma_method_token_ok(m: Method)
    ensures
        token_ok(method_token(m)),
        method_of_token(method_token(m)) == Some(m),
        method_token(m)[0] != 'S',
{
    lemma_tokens();
}

/// Splitting CRLF-terminated lines off `lines_text(ls) + CRLF + body`
/// recovers exactly `ls` and `body`.
proof fn lemma_parse_lines_of_text(ls: Seq<Seq<char>>, body: Seq<char>)
    requires
        forall|k: int| 0 <= k < ls.len() ==> line_ok(#[trigger] ls[k]),
    ensures
        parse_head_lines_spec(lines_text(ls) + crlf_seq() + body) == Some((ls, body)),
    decreases ls.len(),
{
    let s = lines_text(ls) + crlf_seq() + body;
    if ls.len() == 0 {
        assert(s =~= Seq::empty() + seq!['\r', '\n'] + body);
        lemma_find_crlf_concat(Seq::empty(), body);
        assert(find_crlf(s) == 0);
        assert(s.skip(2) =~= body);
    } else {
        let line = ls[0];
        let rest_text = lines_text(ls.skip(1)) + crlf_seq() + body;
        assert(s =~= line + seq!['\r', '\n'] + rest_text);
        lemma_find_crlf_concat(line, rest_text);
        assert(find_crlf(s) == line.len());
        assert(line.len() + 2 <= s.len());
        assert(s.take(line.len() as int) =~= line);
        assert(s.skip(line.len() as int + 2) =~= rest_text);
        assert(forall|k: int|
            0 <= k < ls.skip(1).len() ==> #[trigger] ls.skip(1)[k] == ls[k + 1]);
        lemma_parse_lines_of_text(ls.skip(1), body);
        assert(seq![line] + ls.skip(1) =~= ls);
    }
}

/// A `Name: value` line parses back to its header.
proof fn lemma_parse_header_content(h: HeaderModel)
    requires
        name_ok(h.name),
        text_ok(h.value),
    ensures
        parse_header_line_spec(header_content(h)) == Some(h),
{
    let line = header_content(h);
    assert(line =~= h.name + seq![':'] + (seq![' '] + h.value));
    lemma_index_of_char_concat(h.name, ':', seq![' '] + h.value);
    assert(index_of_char(line, ':') == h.name.len());
    assert(line.take(h.name.len() as int) =~= h.name);
    let after = line.skip(h.name.len() as int + 1);
    assert(after =~= seq![' '] + h.value);
    assert(after[0] == ' ');
    assert(after.skip(1) =~= h.value);
}

/// Header lines parse back to their headers, in order.
proof fn lemma_parse_headers_map(hs: Seq<HeaderModel>)
    requires
        forall|j: int|
            0 <= j < hs.len() ==> name_ok(#[trigger] hs[j].name) && text_ok(hs[j].value),
    ensures
        parse_headers_spec(hs.map_values(|h: HeaderModel| header_content(h))) == Some(hs),
    decreases hs.len(),
{
    let ls = hs.map_values(|h: HeaderModel| header_content(h));
    if hs.len() == 0 {
        assert(ls.len() == 0);
    } else {
        assert(ls[0] == header_content(hs[0]));
        lemma_parse_header_content(hs[0]);
        assert(forall|j: int|
            0 <= j < hs.skip(1).len() ==> #[trigger] hs.skip(1)[j] == hs[j + 1]);
        lemma_parse_headers_map(hs.skip(1));
        assert(ls.skip(1) =~= hs.skip(1).map_values(|h: HeaderModel| header_content(h)));
        assert(seq![hs[0]] + hs.skip(1) =~= hs);
    }
}

/// A request start line parses back to its fields.
proof fn lemma_parse_start_request(m: MsgModel)
    requires
        wf_msg(m),
        m.req,
    ensures
        parse_start_spec(start_content(m)) == Some(
            MsgModel { req: true, method: m.method, uri: m.uri, ..blank_model() },
        ),
{
    let tok = method_token(m.method);
    let line = start_content(m);
    lemma_method_token_ok(m.method);
    lemma_tokens();
    assert(line[0] == tok[0]);
    if line.len() >= 8 && line.take(8) == "SIP/2.0 "@ {
        assert(line.take(8)[0] == 'S');
        assert(false);
    }
    let b = m.uri + seq![' '] + "SIP/2.0"@;
    assert(line =~= tok + seq![' '] + b);
    lemma_index_of_char_concat(tok, ' ', b);
    assert(index_of_char(line, ' ') == tok.len());
    assert(line.take(tok.len() as int) =~= tok);
    let rest = line.skip(tok.len() as int + 1);
    assert(rest =~= b);
    assert(b =~= m.uri + seq![' '] + "SIP/2.0"@);
    lemma_index_of_char_concat(m.uri, ' ', "SIP/2.0"@);
    assert(index_of_char(rest, ' ') == m.uri.len());
    assert(rest.skip(m.uri.len() as int + 1) =~= "SIP/2.0"@);
    assert(rest.take(m.uri.len() as int) =~= m.uri);
}

/// A status line parses back to its code and reason.
proof fn lemma_parse_start_response(m: MsgModel)
    requires
        wf_msg(m),
        !m.req,
    ensures
        parse_start_spec(start_content(m)) == Some(
            MsgModel { req: false, code: m.code, reason: m.reason, ..blank_model() },
        ),
{
    let c = m.code;
    let line = start_content(m);
    lemma_tokens();
    assert(line =~= "SIP/2.0 "@ + code_chars(c) + seq![' '] + m.reason);
    assert(line.len() >= 8);
    assert(line.take(8) =~= "SIP/2.0 "@);
    let rest = line.skip(8);
    assert(rest =~= code_chars(c) + seq![' '] + m.reason);
    vstd::arithmetic::div_mod::lemma_fundamental_div_mod(c, 100);
    vstd::arithmetic::div_mod::lemma_fundamental_div_mod(c, 10);
    vstd::arithmetic::div_mod::lemma_fundamental_div_mod(c / 10, 10);
    vstd::arithmetic::div_mod::lemma_div_denominator(c, 10, 10);
    assert(0 <= c / 100 <= 9);
    assert((c / 100) % 10 == c / 100) by {
        vstd::arithmetic::div_mod::lemma_small_mod((c / 100) as nat, 10);
    }
    let d1 = (c / 100) % 10;
    let d2 = (c / 10) % 10;
    let d3 = c % 10;
    assert(rest[0] == dec_digit_char(d1 as nat));
    assert(rest[1] == dec_digit_char(d2 as nat));
    assert(rest[2] == dec_digit_char(d3 as nat));
    assert(dec_char_val(dec_digit_char(d1 as nat)) == d1);
    assert(dec_char_val(dec_digit_char(d2 as nat)) == d2);
    assert(dec_char_val(dec_digit_char(d3 as nat)) == d3);
    assert(100 * d1 + 10 * d2 + d3 == c);
    assert(rest[3] == ' ');
    assert(rest.skip(4) =~= m.reason);
}

/// Every head line of a well-formed message is nonempty and free of
/// carriage returns.
proof fn lemma_msg_lines_ok(m: MsgModel)
    requires
        wf_msg(m),
    ensures
        forall|k: int| 0 <= k < msg_lines(m).len() ==> line_ok(#[trigger] msg_lines(m)[k]),
{
    let ls = msg_lines(m);
    lemma_tokens();
    if m.req {
        lemma_method_token_ok(m.method);
    }
    assert(line_ok(start_content(m)));
    assert forall|k: int| 1 <= k < ls.len() implies line_ok(ls[k]) by {
        let h = m.headers[k - 1];
        assert(ls[k] == header_content(h));
        assert(header_content(h).len() > 0);
        assert(forall|j: int| 0 <= j < header_content(h).len() ==> header_content(h)[j] != '\r');
    }
}

/// The round trip: parsing the wire text of any well-formed message yields
/// exactly that message — Call-ID, CSeq, To, From, Via and every other
/// header included.
pub proof fn lemma_parse_emit(m: MsgModel)
    requires
        wf_msg(m),
    ensures
        parse_msg_spec(emit_spec(m)) == Some(m),
{
    let ls = msg_lines(m);
    lemma_msg_lines_ok(m);
    lemma_parse_lines_of_text(ls, m.body);
    assert(emit_spec(m) == lines_text(ls) + crlf_seq() + m.body);
    assert(parse_head_lines_spec(emit_spec(m)) == Some((ls, m.body)));
    assert(ls[0] == start_content(m));
    if m.req {
        lemma_parse_start_request(m);
    } else {
        lemma_parse_start_response(m);
    }
    assert(ls.skip(1) =~= m.headers.map_values(|h: HeaderModel| header_content(h)));
    lemma_parse_headers_map(m.headers);
    let m0 = parse_start_spec(ls[0]).unwrap();
    let r = MsgModel { headers: m.headers, body: m.body, ..m0 };
    assert(r.reason =~= m.reason);
    assert(r.uri =~= m.uri);
    assert(r == m);
}

// ------------------------------------------------------------------
// Executable emission
// ------------------------------------------------------------------

pub proof fn lemma_lines_text_push(ls: Seq<Seq<char>>, l: Seq<char>)
    ensures
        lines_text(ls.push(l)) == lines_text(ls) + l + crlf_seq(),
    decreases ls.len(),
{
    if ls.len() == 0 {
        assert(ls.push(l)[0] == l);
        assert(ls.push(l).skip(1) =~= Seq::<Seq<char>>::empty());
        assert(lines_text(ls.push(l)) == l + crlf_seq() + lines_text(
            Seq::<Seq<char>>::empty(),
        ));
        assert(l + crlf_seq() + Seq::<char>::empty() =~= Seq::<char>::empty() + l + crlf_seq());
    } else {
        assert(ls.push(l).skip(1) =~= ls.skip(1).push(l));
        lemma_lines_text_push(ls.skip(1), l);
        assert(ls.push(l)[0] == ls[0]);
        assert(lines_text(ls.push(l)) == ls[0] + crlf_seq() + lines_text(ls.skip(1).push(l)));
        assert(ls[0] + crlf_seq() + (lines_text(ls.skip(1)) + l + crlf_seq()) =~= (ls[0]
            + crlf_seq() + lines_text(ls.skip(1))) + l + crlf_seq());
    }
}

fn push_method(out: &mut Vec<char>, m: Method)
    ensures
        final(out)@ == old(out)@ + method_token(m),
{
    match m {
        Method::Register => push_str(out, "REGISTER"),
        Method::Invite => push_str(out, "INVITE"),
        Method::Ack => push_str(out, "ACK"),
        Method::Cancel => push_str(out, "CANCEL"),
        Method::Bye => push_str(out, "BYE"),
        Method::Options => push_str(out, "OPTIONS"),
    }
}

/// Render a message to its wire text.
pub fn emit(msg: &SipMessage) -> (r: Vec<char>)
    ensures
        r@ == emit_spec(msg@),
{
    let mut out: Vec<char> = Vec::new();
    let (headers, body) = match msg {
        SipMessage::Request(rq) => {
            push_method(&mut out, rq.method);
            out.push(' ');
            push_chars(&mut out, &rq.uri);
            out.push(' ');
            push_str(&mut out, "SIP/2.0");
            (&rq.headers, &rq.body)
        },
        SipMessage::Response(rp) => {
            push_str(&mut out, "SIP/2.0");
            out.push(' ');
            out.push(dec_digit_char_exec(((rp.code / 100) % 10) as u8));
            out.push(dec_digit_char_exec(((rp.code / 10) % 10) as u8));
            out.push(dec_digit_char_exec((rp.code % 10) as u8));
            out.push(' ');
            push_chars(&mut out, &rp.reason);
            (&rp.headers, &rp.body)
        },
    };
    proof {
        assert(out@ =~= start_content(msg@));
    }
    out.push('\r');
    out.push('\n');
    let ghost m = msg@;
    proof {
        assert(msg_lines(m).take(1) =~= seq![start_content(m)]);
        assert(seq![start_content(m)].skip(1) =~= Seq::<Seq<char>>::empty());
        assert(lines_text(seq![start_content(m)]) == start_content(m) + crlf_seq() + lines_text(
            Seq::<Seq<char>>::empty(),
        ));
        assert(out@ =~= lines_text(msg_lines(m).take(1)));
    }
    let mut i: usize = 0;
    while i < headers.len()
        invariant
            m == msg@,
            headers@ == match msg {
                SipMessage::Request(rq) => rq.headers@,
                SipMessage::Response(rp) => rp.headers@,
            },
            i <= headers.len(),
            msg_lines(m).len() == 1 + headers.len(),
            out@ == lines_text(msg_lines(m).take(1 + i as int)),
        decreases headers.len() - i,
    {
        let h = &headers[i];
        proof {
            assert(msg_lines(m)[1 + i as int] == header_content(headers@[i as int]@));
            assert(msg_lines(m).take(1 + i as int + 1) =~= msg_lines(m).take(1 + i as int).push(
                header_content(headers@[i as int]@),
            ));
            lemma_lines_text_push(
                msg_lines(m).take(1 + i as int),
                header_content(headers@[i as int]@),
            );
        }
        push_chars(&mut out, &h.name);
        out.push(':');
        out.push(' ');
        push_chars(&mut out, &h.value);
        out.push('\r');
        out.push('\n');
        proof {
            assert(out@ =~= lines_text(msg_lines(m).take(1 + i as int + 1)));
        }
        i = i + 1;
    }
    proof {
        assert(msg_lines(m).take(1 + headers@.len() as int) =~= msg_lines(m));
    }
    out.push('\r');
    out.push('\n');
    push_chars(&mut out, body);
    proof {
        assert(out@ =~= emit_spec(m));
    }
    out
}

// ------------------------------------------------------------------
// Executable parsing
// ------------------------------------------------------------------

/// Parse one `Name: value` head line.
pub fn parse_header_line(line: &Vec<char>) -> (r: Option<Header>)
    ensures
        match parse_header_line_spec(line@) {
            Some(h) => r is Some && r.unwrap()@ == h,
            None => r is None,
        },
{
    match find_char(line, ':') {
        None => None,
        Some(i) => {
            if i == 0 {
                None
            } else {
                let name = subvec(line, 0, i);
                proof {
                    assert(name@ =~= line@.take(i as int));
                }
                let ghost after = line@.skip(i as int + 1);
                let value = if i + 1 < line.len() && line[i + 1] == ' ' {
                    let v = subvec(line, i + 2, line.len());
                    proof {
                        assert(after[0] == line@[i as int + 1]);
                        assert(v@ =~= after.skip(1));
                    }
                    v
                } else {
                    let v = subvec(line, i + 1, line.len());
                    proof {
                        assert(v@ =~= after);
                        if after.len() > 0 {
                            assert(after[0] == line@[i as int + 1]);
                        }
                    }
                    v
                };
                Some(Header { name, value })
            }
        },
    }
}

/// Parse a start line into a message with empty headers and body.
pub fn parse_start(line: &Vec<char>) -> (r: Option<SipMessage>)
    ensures
        match parse_start_spec(line@) {
            Some(m0) => r is Some && r.unwrap()@ == m0,
            None => r is None,
        },
{
    proof {
        lemma_tokens();
    }
    if seg_eq(line, 0, "SIP/2.0 ") {
        proof {
            assert(line@.take(8) =~= line@.subrange(0, 8));
        }
        let ghost rest = line@.skip(8);
        if line.len() < 12 {
            proof {
                assert(rest.len() < 4);
            }
            return None;
        }
        proof {
            assert(rest[0] == line@[8]);
            assert(rest[1] == line@[9]);
            assert(rest[2] == line@[10]);
            assert(rest[3] == line@[11]);
        }
        let d0 = dec_val_exec(line[8]);
        let d1 = dec_val_exec(line[9]);
        let d2 = dec_val_exec(line[10]);
        if d0.is_none() || d1.is_none() || d2.is_none() || line[11] != ' ' {
            return None;
        }
        let code: u16 = 100 * (d0.unwrap() as u16) + 10 * (d1.unwrap() as u16) + (d2.unwrap()
            as u16);
        let reason = subvec(line, 12, line.len());
        proof {
            assert(reason@ =~= rest.skip(4));
        }
        let out = SipMessage::Response(
            Response { code, reason, headers: Vec::new(), body: Vec::new() },
        );
        proof {
            assert(out@.headers =~= Seq::<HeaderModel>::empty());
        }
        Some(out)
    } else {
        proof {
            if line@.len() >= 8 {
                assert(line@.take(8) =~= line@.subrange(0, 8));
            }
        }
        let i = match find_char(line, ' ') {
            None => return None,
            Some(i) => i,
        };
        if i == 0 {
            return None;
        }
        let ghost rest = line@.skip(i as int + 1);
        let j = match find_char_from(line, i + 1, ' ') {
            None => return None,
            Some(j) => j,
        };
        let ghost jrel = j - i - 1;
        if j == i + 1 {
            return None;
        }
        if !(line.len() - j == 8 && seg_eq(line, j + 1, "SIP/2.0")) {
            proof {
                assert(rest.skip(jrel + 1) =~= line@.subrange(j as int + 1, line@.len() as int));
                if line@.len() == j + 8 {
                    assert(line@.subrange(j as int + 1, j as int + 8) =~= line@.subrange(
                        j as int + 1,
                        line@.len() as int,
                    ));
                }
                assert(rest.skip(jrel + 1) == "SIP/2.0"@ ==> line@.len() == j + 8);
            }
            return None;
        }
        proof {
            assert(rest.skip(jrel + 1) =~= line@.subrange(j as int + 1, j as int + 8));
        }
        let tok = subvec(line, 0, i);
        proof {
            assert(tok@ =~= line@.take(i as int));
        }
        let method = if chars_eq_str(&tok, "REGISTER") {
            Method::Register
        } else if chars_eq_str(&tok, "INVITE") {
            Method::Invite
        } else if chars_eq_str(&tok, "ACK") {
            Method::Ack
        } else if chars_eq_str(&tok, "CANCEL") {
            Method::Cancel
        } else if chars_eq_str(&tok, "BYE") {
            Method::Bye
        } else if chars_eq_str(&tok, "OPTIONS") {
            Method::Options
        } else {
            return None;
        };
        let uri = subvec(line, i + 1, j);
        proof {
            assert(uri@ =~= rest.take(jrel));
        }
        let out = SipMessage::Request(
            Request { method, uri, headers: Vec::new(), body: Vec::new() },
        );
        proof {
            assert(out@.headers =~= Seq::<HeaderModel>::empty());
        }
        Some(out)
    }
}

/// Prefix already-split lines onto the rest of a head split.
pub open spec fn cons_lines(
    pre: Seq<Seq<char>>,
    r: Option<(Seq<Seq<char>>, Seq<char>)>,
) -> Option<(Seq<Seq<char>>, Seq<char>)> {
    match r {
        None => None,
        Some((ls, b)) => Some((pre + ls, b)),
    }
}

/// Characterize header-list parsing pointwise.
proof fn lemma_parse_headers_pointwise(ls: Seq<Seq<char>>)
    ensures
        (parse_headers_spec(ls) is Some <==> (forall|k: int|
            0 <= k < ls.len() ==> parse_header_line_spec(#[trigger] ls[k]) is Some)),
        parse_headers_spec(ls) is Some ==> parse_headers_spec(ls).unwrap().len() == ls.len(),
        parse_headers_spec(ls) is Some ==> forall|k: int|
            0 <= k < ls.len() ==> parse_headers_spec(ls).unwrap()[k] == parse_header_line_spec(
                #[trigger] ls[k],
            ).unwrap(),
    decreases ls.len(),
{
    if ls.len() > 0 {
        lemma_parse_headers_pointwise(ls.skip(1));
        assert(forall|k: int|
            0 <= k < ls.skip(1).len() ==> #[trigger] ls.skip(1)[k] == ls[k + 1]);
        if parse_headers_spec(ls) is Some {
            assert(parse_header_line_spec(ls[0]) is Some);
            assert(parse_headers_spec(ls.skip(1)) is Some);
        }
        if parse_header_line_spec(ls[0]) is Some && parse_headers_spec(ls.skip(1)) is Some {
            let hs = parse_headers_spec(ls).unwrap();
            let tl = parse_headers_spec(ls.skip(1)).unwrap();
            assert(hs == seq![parse_header_line_spec(ls[0]).unwrap()] + tl);
            assert forall|k: int|
                0 <= k < ls.len() implies parse_header_line_spec(#[trigger] ls[k]) is Some by {
                if k > 0 {
                    assert(ls.skip(1)[k - 1] == ls[k]);
                }
            }
            assert forall|k: int|
                0 <= k < ls.len() implies hs[k] == parse_header_line_spec(
                #[trigger] ls[k],
            ).unwrap() by {
                if k == 0 {
                    assert(hs[0] == parse_header_line_spec(ls[0]).unwrap());
                } else {
                    assert(hs[k] == tl[k - 1]);
                    assert(ls.skip(1)[k - 1] == ls[k]);
                }
            }
        }
    }
}

/// Parse a whole message.
pub fn parse_message(text: &Vec<char>) -> (r: Option<SipMessage>)
    ensures
        match parse_msg_spec(text@) {
            Some(mm) => r is Some && r.unwrap()@ == mm,
            None => r is None,
        },
{
    let mut lines: Vec<Vec<char>> = Vec::new();
    let mut pos: usize = 0;
    let mut body: Vec<char> = Vec::new();
    proof {
        assert(text@.skip(0) =~= text@);
        assert(lines@.map_values(|l: Vec<char>| l@) =~= Seq::<Seq<char>>::empty());
        if parse_head_lines_spec(text@) is Some {
            let (ls0, b0) = parse_head_lines_spec(text@).unwrap();
            assert(Seq::<Seq<char>>::empty() + ls0 =~= ls0);
        }
    }
    loop
        invariant_except_break
            pos <= text.len(),
            parse_head_lines_spec(text@) == cons_lines(
                lines@.map_values(|l: Vec<char>| l@),
                parse_head_lines_spec(text@.skip(pos as int)),
            ),
        ensures
            parse_head_lines_spec(text@) == Some(
                (lines@.map_values(|l: Vec<char>| l@), body@),
            ),
        decreases text.len() - pos,
    {
        let ghost suffix = text@.skip(pos as int);
        let i = match find_crlf_from(text, pos) {
            None => {
                proof {
                    assert(parse_head_lines_spec(suffix) is None);
                }
                return None;
            },
            Some(i) => i,
        };
        proof {
            lemma_find_crlf_found(suffix);
            assert(crlf_at(suffix, i - pos));
        }
        if i == pos {
            proof {
                assert(parse_head_lines_spec(suffix) == Some(
                    (Seq::<Seq<char>>::empty(), suffix.skip(2)),
                ));
            }
            body = subvec(text, pos + 2, text.len());
            proof {
                assert(body@ =~= suffix.skip(2));
                assert(lines@.map_values(|l: Vec<char>| l@) + Seq::<Seq<char>>::empty()
                    =~= lines@.map_values(|l: Vec<char>| l@));
            }
            break;
        }
        let line = subvec(text, pos, i);
        proof {
            assert(line@ =~= suffix.take(i - pos));
            assert(text@.skip(i as int + 2) =~= suffix.skip(i - pos + 2));
            assert(parse_head_lines_spec(suffix) == match parse_head_lines_spec(
                suffix.skip(i - pos + 2),
            ) {
                None => None::<(Seq<Seq<char>>, Seq<char>)>,
                Some((ls, b)) => Some((seq![suffix.take(i - pos)] + ls, b)),
            });
        }
        let ghost old_lines = lines@.map_values(|l: Vec<char>| l@);
        lines.push(line);
        proof {
            assert(lines@.map_values(|l: Vec<char>| l@) =~= old_lines.push(line@));
            if parse_head_lines_spec(text@.skip(i as int + 2)) is Some {
                let (ls2, b2) = parse_head_lines_spec(text@.skip(i as int + 2)).unwrap();
                assert(old_lines + (seq![line@] + ls2) =~= old_lines.push(line@) + ls2);
            }
        }
        pos = i + 2;
    }
    let ghost lsv = lines@.map_values(|l: Vec<char>| l@);
    proof {
        assert(parse_head_lines_spec(text@) == Some((lsv, body@)));
    }
    if lines.len() == 0 {
        return None;
    }
    let start = match parse_start(&lines[0]) {
        None => {
            proof {
                assert(lsv[0] == lines@[0]@);
            }
            return None;
        },
        Some(s) => s,
    };
    proof {
        assert(lsv[0] == lines@[0]@);
    }
    let mut headers: Vec<Header> = Vec::new();
    let mut k: usize = 1;
    proof {
        lemma_parse_headers_pointwise(lsv.skip(1));
        assert(forall|j: int| 0 <= j < lsv.skip(1).len() ==> #[trigger] lsv.skip(1)[j] == lsv[
            j + 1
        ]);
    }
    while k < lines.len()
        invariant
            1 <= k <= lines.len(),
            lsv == lines@.map_values(|l: Vec<char>| l@),
            lsv.len() == lines@.len(),
            parse_head_lines_spec(text@) == Some((lsv, body@)),
            parse_start_spec(lsv[0]) is Some,
            start@ == parse_start_spec(lsv[0]).unwrap(),
            headers.len() == k - 1,
            forall|j: int|
                1 <= j < k ==> parse_header_line_spec(#[trigger] lsv[j]) is Some,
            forall|j: int|
                1 <= j < k ==> #[trigger] headers@[j - 1]@ == parse_header_line_spec(
                    lsv[j],
                ).unwrap(),
        decreases lines.len() - k,
    {
        proof {
            assert(lsv[k as int] == lines@[k as int]@);
        }
        match parse_header_line(&lines[k]) {
            None => {
                proof {
                    lemma_parse_headers_pointwise(lsv.skip(1));
                    assert(lsv.skip(1)[k - 1] == lsv[k as int]);
                    assert(parse_headers_spec(lsv.skip(1)) is None);
                }
                return None;
            },
            Some(h) => {
                headers.push(h);
            },
        }
        k = k + 1;
    }
    proof {
        lemma_parse_headers_pointwise(lsv.skip(1));
        assert(forall|j: int| 0 <= j < lsv.skip(1).len() ==> #[trigger] lsv.skip(1)[j] == lsv[
            j + 1
        ]);
        assert(parse_headers_spec(lsv.skip(1)) is Some);
        let spec_hs = parse_headers_spec(lsv.skip(1)).unwrap();
        assert forall|q: int|
            0 <= q < headers@.len() implies headers@.map_values(|h: Header| h@)[q] == spec_hs[
            q
        ] by {
            assert(headers@[q]@ == parse_header_line_spec(lsv[q + 1]).unwrap());
            assert(lsv.skip(1)[q] == lsv[q + 1]);
        }
        assert(headers@.map_values(|h: Header| h@) =~= spec_hs);
    }
    match start {
        SipMessage::Request(r0) => Some(
            SipMessage::Request(Request { headers, body, method: r0.method, uri: r0.uri }),
        ),
        SipMessage::Response(p0) => Some(
            SipMessage::Response(Response { headers, body, code: p0.code, reason: p0.reason }),
        ),
    }
}

} // verus!
