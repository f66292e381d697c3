//! The SDP offer/answer grammar.
//!
//! An offer announces one PCMU/8000 audio stream: `v=0`, an origin line
//! carrying the session id twice, the session name, the connection address,
//! `t=0 0`, the `m=audio` line with the RTP port, and the fixed attribute
//! lines (`rtpmap`, `ptime:20`, `maxptime:140`, `sendrecv`).  Emission and
//! parsing are defined over `Seq<char>`, and [`lemma_sdp_round_trip`] proves
//! that decoding an emitted offer recovers its fields — so re-encoding it
//! reproduces the text byte for byte.

use vstd::prelude::*;

use crate::sipmsg::{line_ok, lines_text};
use crate::strutil::{
    all_dec_digits, dec_digits, dec_value, find_char, find_char_from, find_crlf, find_crlf_from,
    index_of_char, is_dec_digit, lemma_dec_digits_value, lemma_find_crlf_concat,
    lemma_index_of_char_concat, parse_u64, push_chars, push_str, seg_eq, subvec, u64_to_chars,
};

verus! {

/// An SDP audio offer: everything that varies between two offers of this
/// endpoint.
pub struct SdpOffer {
    /// The session id (a digit string; a microsecond timestamp on fresh
    /// offers, the remote's on re-INVITE answers).
    pub sess_id: Vec<char>,
    /// The advertised IPv4 address, as four octets.
    pub ip: (u8, u8, u8, u8),
    /// The RTP port.
    pub port: u16,
}

#[verifier::ext_equal]
pub ghost struct SdpModel {
    pub sess_id: Seq<char>,
    pub ip: (u8, u8, u8, u8),
    pub port: u16,
}

impl View for SdpOffer {
    type V = SdpModel;

    open spec fn view(&self) -> SdpModel {
        SdpModel { sess_id: self.sess_id@, ip: self.ip, port: self.port }
    }
}

pub open spec fn wf_sdp(m: SdpModel) -> bool {
    m.sess_id.len() > 0 && all_dec_digits(m.sess_id)
}

/// Dotted-quad text of an address.
pub open spec fn ip_chars(ip: (u8, u8, u8, u8)) -> Seq<char> {
    dec_digits(ip.0 as nat) + seq!['.'] + dec_digits(ip.1 as nat) + seq!['.'] + dec_digits(
        ip.2 as nat,
    ) + seq!['.'] + dec_digits(ip.3 as nat)
}

/// The ten lines of an offer, in order.
pub open spec fn sdp_lines(m: SdpModel) -> Seq<Seq<char>> {
    seq![
        "v=0"@,
        "o=- "@ + m.sess_id + seq![' '] + m.sess_id + " IN IP4 "@ + ip_chars(m.ip),
        "s=Frandline"@,
        "c=IN IP4 "@ + ip_chars(m.ip),
        "t=0 0"@,
        "m=audio "@ + dec_digits(m.port as nat) + " RTP/AVP 0"@,
        "a=rtpmap:0 PCMU/8000"@,
        "a=ptime:20"@,
        "a=maxptime:140"@,
        "a=sendrecv"@,
    ]
}

/// The wire text of an offer.
pub open spec fn emit_sdp_spec(m: SdpModel) -> Seq<char> {
    lines_text(sdp_lines(m))
}

// ------------------------------------------------------------------
// Spec-level decoding
// ------------------------------------------------------------------

/// Split text into CRLF-separated lines; an unterminated tail counts as a
/// line of its own.
pub open spec fn split_lines(s: Seq<char>) -> Seq<Seq<char>>
    decreases s.len(),
{
    if s.len() == 0 {
        Seq::empty()
    } else {
        let i = find_crlf(s);
        if i < 0 || i + 2 > s.len() {
            seq![s]
        } else {
            seq![s.take(i)] + split_lines(s.skip(i + 2))
        }
    }
}

/// The session id of an `o=` line: its second space-separated token.
pub open spec fn parse_origin_spec(line: Seq<char>) -> Option<Seq<char>> {
    if line.len() >= 2 && line.take(2) == "o="@ {
        let rest = line.skip(2);
        let i = index_of_char(rest, ' ');
        if i < 0 {
            None
        } else {
            let rest2 = rest.skip(i + 1);
            let j = index_of_char(rest2, ' ');
            if j < 0 {
                Some(rest2)
            } else {
                Some(rest2.take(j))
            }
        }
    } else {
        None
    }
}

/// The four octets of a dotted-quad address.
pub open spec fn parse_ipv4_spec(s: Seq<char>) -> Option<(u8, u8, u8, u8)> {
    let i = index_of_char(s, '.');
    if i < 0 {
        None
    } else {
        let r1 = s.skip(i + 1);
        let j = index_of_char(r1, '.');
        if j < 0 {
            None
        } else {
            let r2 = r1.skip(j + 1);
            let k = index_of_char(r2, '.');
            if k < 0 {
                None
            } else {
                let a = s.take(i);
                let b = r1.take(j);
                let c = r2.take(k);
                let d = r2.skip(k + 1);
                if a.len() > 0 && all_dec_digits(a) && 0 <= dec_value(a) <= 255 && b.len() > 0
                    && all_dec_digits(b) && 0 <= dec_value(b) <= 255 && c.len() > 0
                    && all_dec_digits(c) && 0 <= dec_value(c) <= 255 && d.len() > 0
                    && all_dec_digits(d) && 0 <= dec_value(d) <= 255 {
                    Some(
                        (
                            dec_value(a) as u8,
                            dec_value(b) as u8,
                            dec_value(c) as u8,
                            dec_value(d) as u8,
                        ),
                    )
                } else {
                    None
                }
            }
        }
    }
}

/// The address of a `c=IN IP4` line.
pub open spec fn parse_connection_spec(line: Seq<char>) -> Option<(u8, u8, u8, u8)> {
    if line.len() >= 9 && line.take(9) == "c=IN IP4 "@ {
        parse_ipv4_spec(line.skip(9))
    } else {
        None
    }
}

/// The port of an `m=audio` line.
pub open spec fn parse_media_spec(line: Seq<char>) -> Option<u16> {
    if line.len() >= 8 && line.take(8) == "m=audio "@ {
        let rest = line.skip(8);
        let i = index_of_char(rest, ' ');
        let tok = if i < 0 {
            rest
        } else {
            rest.take(i)
        };
        if tok.len() > 0 && all_dec_digits(tok) && 0 <= dec_value(tok) <= 65535 {
            Some(dec_value(tok) as u16)
        } else {
            None
        }
    } else {
        None
    }
}

pub open spec fn scan_origin(ls: Seq<Seq<char>>) -> Option<Seq<char>>
    decreases ls.len(),
{
    if ls.len() == 0 {
        None
    } else {
        match parse_origin_spec(ls[0]) {
            Some(x) => Some(x),
            None => scan_origin(ls.skip(1)),
        }
    }
}

pub open spec fn scan_connection(ls: Seq<Seq<char>>) -> Option<(u8, u8, u8, u8)>
    decreases ls.len(),
{
    if ls.len() == 0 {
        None
    } else {
        match parse_connection_spec(ls[0]) {
            Some(x) => Some(x),
            None => scan_connection(ls.skip(1)),
        }
    }
}

pub open spec fn scan_media(ls: Seq<Seq<char>>) -> Option<u16>
    decreases ls.len(),
{
    if ls.len() == 0 {
        None
    } else {
        match parse_media_spec(ls[0]) {
            Some(x) => Some(x),
            None => scan_media(ls.skip(1)),
        }
    }
}

/// Decode an offer or answer: the first origin, connection and audio-media
/// lines of the text.
pub open spec fn parse_sdp_spec(s: Seq<char>) -> Option<SdpModel> {
    let ls = split_lines(s);
    match scan_origin(ls) {
        None => None,
        Some(sid) => match scan_connection(ls) {
            None => None,
            Some(ip) => match scan_media(ls) {
                None => None,
                Some(port) => Some(SdpModel { sess_id: sid, ip, port }),
            },
        },
    }
}

// ------------------------------------------------------------------
// The round trip
// ------------------------------------------------------------------

proof fn lemma_sdp_words()
    ensures
        "v=0"@ =~= seq!['v', '=', '0'],
        "o=- "@ =~= seq!['o', '=', '-', ' '],
        "o="@ =~= seq!['o', '='],
        "s=Frandline"@ =~= seq!['s', '=', 'F', 'r', 'a', 'n', 'd', 'l', 'i', 'n', 'e'],
        "c=IN IP4 "@ =~= seq!['c', '=', 'I', 'N', ' ', 'I', 'P', '4', ' '],
        "t=0 0"@ =~= seq!['t', '=', '0', ' ', '0'],
        "m=audio "@ =~= seq!['m', '=', 'a', 'u', 'd', 'i', 'o', ' '],
        " RTP/AVP 0"@ =~= seq![' ', 'R', 'T', 'P', '/', 'A', 'V', 'P', ' ', '0'],
        " IN IP4 "@ =~= seq![' ', 'I', 'N', ' ', 'I', 'P', '4', ' '],
        "a=rtpmap:0 PCMU/8000"@ =~= seq![
            'a', '=', 'r', 't', 'p', 'm', 'a', 'p', ':', '0', ' ', 'P', 'C', 'M', 'U', '/', '8',
            '0', '0', '0',
        ],
        "a=ptime:20"@ =~= seq!['a', '=', 'p', 't', 'i', 'm', 'e', ':', '2', '0'],
        "a=maxptime:140"@ =~= seq![
            'a', '=', 'm', 'a', 'x', 'p', 't', 'i', 'm', 'e', ':', '1', '4', '0',
        ],
        "a=sendrecv"@ =~= seq!['a', '=', 's', 'e', 'n', 'd', 'r', 'e', 'c', 'v'],
{
    reveal_strlit("v=0");
    reveal_strlit("o=- ");
    reveal_strlit("o=");
    reveal_strlit("s=Frandline");
    reveal_strlit("c=IN IP4 ");
    reveal_strlit("t=0 0");
    reveal_strlit("m=audio ");
    reveal_strlit(" RTP/AVP 0");
    reveal_strlit(" IN IP4 ");
    reveal_strlit("a=rtpmap:0 PCMU/8000");
    reveal_strlit("a=ptime:20");
    reveal_strlit("a=maxptime:140");
    reveal_strlit("a=sendrecv");
}

/// Digit strings hold digits only: no separator characters.
proof fn lemma_digits_no(s: Seq<char>)
    requires
        all_dec_digits(s),
    ensures
        forall|j: int| 0 <= j < s.len() ==> s[j] != ' ',
        forall|j: int| 0 <= j < s.len() ==> s[j] != '.',
        forall|j: int| 0 <= j < s.len() ==> s[j] != '\r',
{
    assert forall|j: int| 0 <= j < s.len() implies s[j] != ' ' && s[j] != '.' && s[j] != '\r' by {
        assert(is_dec_digit(s[j]));
    }
}

/// Splitting the text of CRLF-terminated lines recovers the lines.
proof fn lemma_split_lines_of_text(ls: Seq<Seq<char>>)
    requires
        forall|k: int| 0 <= k < ls.len() ==> line_ok(#[trigger] ls[k]),
    ensures
        split_lines(lines_text(ls)) == ls,
    decreases ls.len(),
{
    if ls.len() == 0 {
        assert(split_lines(lines_text(ls)) =~= Seq::<Seq<char>>::empty());
    } else {
        let s = lines_text(ls);
        let rest = lines_text(ls.skip(1));
        assert(s =~= ls[0] + seq!['\r', '\n'] + rest);
        lemma_find_crlf_concat(ls[0], rest);
        assert(find_crlf(s) == ls[0].len());
        assert(s.len() >= ls[0].len() + 2);
        assert(s.take(ls[0].len() as int) =~= ls[0]);
        assert(s.skip(ls[0].len() as int + 2) =~= rest);
        assert(forall|k: int|
            0 <= k < ls.skip(1).len() ==> #[trigger] ls.skip(1)[k] == ls[k + 1]);
        lemma_split_lines_of_text(ls.skip(1));
        assert(seq![ls[0]] + ls.skip(1) =~= ls);
    }
}

/// Dotted-quad text decodes to its octets.
#[verifier::rlimit(100)]
#[verifier::spinoff_prover]
proof fn lemma_parse_ipv4_chars(ip: (u8, u8, u8, u8))
    ensures
        parse_ipv4_spec(ip_chars(ip)) == Some(ip),
{
    let a = dec_digits(ip.0 as nat);
    let b = dec_digits(ip.1 as nat);
    let c = dec_digits(ip.2 as nat);
    let d = dec_digits(ip.3 as nat);
    lemma_dec_digits_value(ip.0 as nat);
    lemma_dec_digits_value(ip.1 as nat);
    lemma_dec_digits_value(ip.2 as nat);
    lemma_dec_digits_value(ip.3 as nat);
    lemma_digits_no(a);
    lemma_digits_no(b);
    lemma_digits_no(c);
    lemma_digits_no(d);
    let s = ip_chars(ip);
    let r1 = b + seq!['.'] + c + seq!['.'] + d;
    let r2 = c + seq!['.'] + d;
    assert(s =~= a + seq!['.'] + r1);
    lemma_index_of_char_concat(a, '.', r1);
    assert(index_of_char(s, '.') == a.len());
    assert(s.take(a.len() as int) =~= a);
    assert(s.skip(a.len() as int + 1) =~= r1);
    assert(r1 =~= b + seq!['.'] + r2);
    lemma_index_of_char_concat(b, '.', r2);
    assert(r1.take(b.len() as int) =~= b);
    assert(r1.skip(b.len() as int + 1) =~= r2);
    assert(r2 =~= c + seq!['.'] + d);
    lemma_index_of_char_concat(c, '.', d);
    assert(r2.take(c.len() as int) =~= c);
    assert(r2.skip(c.len() as int + 1) =~= d);
}

/// The emitted origin line decodes to the session id.
proof fn lemma_parse_origin_line(m: SdpModel)
    requires
        wf_sdp(m),
    ensures
        parse_origin_spec(sdp_lines(m)[1]) == Some(m.sess_id),
{
    lemma_sdp_words();
    lemma_digits_no(m.sess_id);
    let sid = m.sess_id;
    let line = sdp_lines(m)[1];
    assert(line.take(2) =~= "o="@);
    let tail = sid + seq![' '] + sid + " IN IP4 "@ + ip_chars(m.ip);
    let rest = line.skip(2);
    assert(rest =~= seq!['-'] + seq![' '] + tail);
    lemma_index_of_char_concat(seq!['-'], ' ', tail);
    assert(index_of_char(rest, ' ') == 1);
    let rest2 = rest.skip(2);
    assert(rest2 =~= tail);
    let after = sid + " IN IP4 "@ + ip_chars(m.ip);
    assert(tail =~= sid + seq![' '] + after);
    lemma_index_of_char_concat(sid, ' ', after);
    assert(index_of_char(rest2, ' ') == sid.len());
    assert(rest2.take(sid.len() as int) =~= sid);
}

/// The emitted connection line decodes to the address.
proof fn lemma_parse_connection_line(m: SdpModel)
    ensures
        parse_connection_spec(sdp_lines(m)[3]) == Some(m.ip),
{
    lemma_sdp_words();
    let line = sdp_lines(m)[3];
    assert(line.take(9) =~= "c=IN IP4 "@);
    assert(line.skip(9) =~= ip_chars(m.ip));
    lemma_parse_ipv4_chars(m.ip);
}

/// The emitted media line decodes to the port.
proof fn lemma_parse_media_line(m: SdpModel)
    ensures
        parse_media_spec(sdp_lines(m)[5]) == Some(m.port),
{
    lemma_sdp_words();
    let p = dec_digits(m.port as nat);
    lemma_dec_digits_value(m.port as nat);
    lemma_digits_no(p);
    let line = sdp_lines(m)[5];
    assert(line.take(8) =~= "m=audio "@);
    let rest = line.skip(8);
    let b = seq!['R', 'T', 'P', '/', 'A', 'V', 'P', ' ', '0'];
    assert(rest =~= p + seq![' '] + b);
    lemma_index_of_char_concat(p, ' ', b);
    assert(index_of_char(rest, ' ') == p.len());
    assert(rest.take(p.len() as int) =~= p);
}

/// Decoding an emitted offer recovers its fields exactly; re-encoding the
/// decoded offer therefore reproduces the text byte for byte.
pub proof fn lemma_sdp_round_trip(m: SdpModel)
    requires
        wf_sdp(m),
    ensures
        parse_sdp_spec(emit_sdp_spec(m)) == Some(m),
        emit_sdp_spec(parse_sdp_spec(emit_sdp_spec(m)).unwrap()) == emit_sdp_spec(m),
{
    lemma_sdp_words();
    lemma_digits_no(m.sess_id);
    let p = dec_digits(m.port as nat);
    lemma_dec_digits_value(m.port as nat);
    lemma_digits_no(p);
    lemma_dec_digits_value(m.ip.0 as nat);
    lemma_dec_digits_value(m.ip.1 as nat);
    lemma_dec_digits_value(m.ip.2 as nat);
    lemma_dec_digits_value(m.ip.3 as nat);
    lemma_digits_no(dec_digits(m.ip.0 as nat));
    lemma_digits_no(dec_digits(m.ip.1 as nat));
    lemma_digits_no(dec_digits(m.ip.2 as nat));
    lemma_digits_no(dec_digits(m.ip.3 as nat));
    let ls = sdp_lines(m);
    assert forall|k: int| 0 <= k < ls.len() implies line_ok(#[trigger] ls[k]) by {
        assert(ls[1].len() > 0);
        assert(forall|j: int| 0 <= j < ls[1].len() ==> ls[1][j] != '\r');
        assert(forall|j: int| 0 <= j < ls[3].len() ==> ls[3][j] != '\r');
        assert(forall|j: int| 0 <= j < ls[5].len() ==> ls[5][j] != '\r');
    }
    lemma_split_lines_of_text(ls);
    lemma_parse_origin_line(m);
    lemma_parse_connection_line(m);
    lemma_parse_media_line(m);
    let l1 = ls.skip(1);
    let l2 = ls.skip(2);
    let l3 = ls.skip(3);
    let l4 = ls.skip(4);
    let l5 = ls.skip(5);
    assert(l1[0] == ls[1] && l2[0] == ls[2] && l3[0] == ls[3] && l4[0] == ls[4] && l5[0] == ls[
        5
    ]);
    assert(l1.skip(1) =~= l2 && l2.skip(1) =~= l3 && l3.skip(1) =~= l4 && l4.skip(1) =~= l5);
    assert(parse_origin_spec(ls[0]) is None);
    assert(scan_origin(l1) == Some(m.sess_id));
    assert(scan_origin(ls) == Some(m.sess_id));
    assert(parse_connection_spec(ls[0]) is None);
    assert(parse_connection_spec(ls[1]) is None) by {
        if ls[1].len() >= 9 && ls[1].take(9) == "c=IN IP4 "@ {
            assert(ls[1].take(9)[0] == ls[1][0]);
            assert(false);
        }
    }
    assert(parse_connection_spec(ls[2]) is None) by {
        if ls[2].len() >= 9 && ls[2].take(9) == "c=IN IP4 "@ {
            assert(ls[2].take(9)[0] == ls[2][0]);
            assert(false);
        }
    }
    assert(scan_connection(l3) == Some(m.ip));
    assert(scan_connection(l2) == Some(m.ip));
    assert(scan_connection(l1) == Some(m.ip));
    assert(scan_connection(ls) == Some(m.ip));
    assert(parse_media_spec(ls[0]) is None);
    assert(parse_media_spec(ls[1]) is None) by {
        if ls[1].len() >= 8 && ls[1].take(8) == "m=audio "@ {
            assert(ls[1].take(8)[0] == ls[1][0]);
            assert(false);
        }
    }
    assert(parse_media_spec(ls[2]) is None) by {
        if ls[2].len() >= 8 && ls[2].take(8) == "m=audio "@ {
            assert(ls[2].take(8)[0] == ls[2][0]);
            assert(false);
        }
    }
    assert(parse_media_spec(ls[3]) is None) by {
        if ls[3].len() >= 8 && ls[3].take(8) == "m=audio "@ {
            assert(ls[3].take(8)[0] == ls[3][0]);
            assert(false);
        }
    }
    assert(parse_media_spec(ls[4]) is None);
    assert(scan_media(l5) == Some(m.port));
    assert(scan_media(l4) == Some(m.port));
    assert(scan_media(l3) == Some(m.port));
    assert(scan_media(l2) == Some(m.port));
    assert(scan_media(l1) == Some(m.port));
    assert(scan_media(ls) == Some(m.port));
    let got = parse_sdp_spec(emit_sdp_spec(m)).unwrap();
    assert(got.sess_id =~= m.sess_id);
    assert(got == m);
}

// ------------------------------------------------------------------
// Executable encoding
// ------------------------------------------------------------------

fn push_ip(dst: &mut Vec<char>, ip: (u8, u8, u8, u8))
    ensures
        final(dst)@ == old(dst)@ + ip_chars(ip),
{
    let a = u64_to_chars(ip.0 as u64);
    let b = u64_to_chars(ip.1 as u64);
    let c = u64_to_chars(ip.2 as u64);
    let d = u64_to_chars(ip.3 as u64);
    push_chars(dst, &a);
    dst.push('.');
    push_chars(dst, &b);
    dst.push('.');
    push_chars(dst, &c);
    dst.push('.');
    push_chars(dst, &d);
    proof {
        assert(dst@ =~= old(dst)@ + ip_chars(ip));
    }
}

/// Render an offer to its wire text.
pub fn emit_sdp(o: &SdpOffer) -> (r: Vec<char>)
    ensures
        r@ == emit_sdp_spec(o@),
{
    let ghost m = o@;
    let mut ls: Vec<Vec<char>> = Vec::new();
    ls.push(crate::strutil::str_chars("v=0"));
    let mut l1 = crate::strutil::str_chars("o=- ");
    push_chars(&mut l1, &o.sess_id);
    l1.push(' ');
    push_chars(&mut l1, &o.sess_id);
    push_str(&mut l1, " IN IP4 ");
    push_ip(&mut l1, o.ip);
    ls.push(l1);
    ls.push(crate::strutil::str_chars("s=Frandline"));
    let mut l3 = crate::strutil::str_chars("c=IN IP4 ");
    push_ip(&mut l3, o.ip);
    ls.push(l3);
    ls.push(crate::strutil::str_chars("t=0 0"));
    let mut l5 = crate::strutil::str_chars("m=audio ");
    let pdigits = u64_to_chars(o.port as u64);
    push_chars(&mut l5, &pdigits);
    push_str(&mut l5, " RTP/AVP 0");
    ls.push(l5);
    ls.push(crate::strutil::str_chars("a=rtpmap:0 PCMU/8000"));
    ls.push(crate::strutil::str_chars("a=ptime:20"));
    ls.push(crate::strutil::str_chars("a=maxptime:140"));
    ls.push(crate::strutil::str_chars("a=sendrecv"));
    proof {
        assert(ls@.map_values(|l: Vec<char>| l@) =~~= sdp_lines(m));
    }
    let mut out: Vec<char> = Vec::new();
    let ghost lsv = ls@.map_values(|l: Vec<char>| l@);
    let mut i: usize = 0;
    proof {
        assert(lsv.take(0) =~= Seq::<Seq<char>>::empty());
    }
    while i < ls.len()
        invariant
            i <= ls.len(),
            lsv == ls@.map_values(|l: Vec<char>| l@),
            lsv == sdp_lines(m),
            out@ == lines_text(lsv.take(i as int)),
        decreases ls.len() - i,
    {
        proof {
            assert(lsv.take(i as int + 1) =~= lsv.take(i as int).push(lsv[i as int]));
            crate::sipmsg::lemma_lines_text_push(lsv.take(i as int), lsv[i as int]);
            assert(lsv[i as int] == ls@[i as int]@);
        }
        push_chars(&mut out, &ls[i]);
        out.push('\r');
        out.push('\n');
        proof {
            assert(out@ =~= lines_text(lsv.take(i as int + 1)));
        }
        i = i + 1;
    }
    proof {
        assert(lsv.take(ls@.len() as int) =~= lsv);
    }
    out
}

// ------------------------------------------------------------------
// Executable decoding
// ------------------------------------------------------------------

fn parse_origin(line: &Vec<char>) -> (r: Option<Vec<char>>)
    ensures
        match parse_origin_spec(line@) {
            Some(sid) => r is Some && r.unwrap()@ == sid,
            None => r is None,
        },
{
    proof {
        lemma_sdp_words();
    }
    if !seg_eq(line, 0, "o=") {
        proof {
            if line@.len() >= 2 {
                assert(line@.take(2) =~= line@.subrange(0, 2));
            }
        }
        return None;
    }
    proof {
        assert(line@.take(2) =~= line@.subrange(0, 2));
    }
    let ghost rest = line@.skip(2);
    let i = match find_char_from(line, 2, ' ') {
        None => return None,
        Some(i) => i,
    };
    let ghost rest2 = line@.skip(i as int + 1);
    proof {
        assert(rest2 =~= rest.skip((i - 2) + 1));
    }
    match find_char_from(line, i + 1, ' ') {
        None => {
            let sid = subvec(line, i + 1, line.len());
            proof {
                assert(sid@ =~= rest2);
            }
            Some(sid)
        },
        Some(j) => {
            let sid = subvec(line, i + 1, j);
            proof {
                assert(sid@ =~= rest2.take(j - i - 1));
            }
            Some(sid)
        },
    }
}

fn parse_ipv4(s: &Vec<char>) -> (r: Option<(u8, u8, u8, u8)>)
    ensures
        match parse_ipv4_spec(s@) {
            Some(ip) => r == Some(ip),
            None => r is None,
        },
{
    let i = match find_char(s, '.') {
        None => return None,
        Some(i) => i,
    };
    let ghost r1 = s@.skip(i as int + 1);
    let j = match find_char_from(s, i + 1, '.') {
        None => return None,
        Some(j) => j,
    };
    let ghost r2 = s@.skip(j as int + 1);
    proof {
        assert(r2 =~= r1.skip((j - i - 1) + 1));
    }
    let k = match find_char_from(s, j + 1, '.') {
        None => return None,
        Some(k) => k,
    };
    let av = subvec(s, 0, i);
    let bv = subvec(s, i + 1, j);
    let cv = subvec(s, j + 1, k);
    let dv = subvec(s, k + 1, s.len());
    proof {
        assert(av@ =~= s@.take(i as int));
        assert(bv@ =~= r1.take(j - i - 1));
        assert(cv@ =~= r2.take(k - j - 1));
        assert(dv@ =~= r2.skip((k - j - 1) + 1));
    }
    let an = parse_u64(&av);
    let bn = parse_u64(&bv);
    let cn = parse_u64(&cv);
    let dn = parse_u64(&dv);
    if an.is_none() || bn.is_none() || cn.is_none() || dn.is_none() {
        return None;
    }
    let a = an.unwrap();
    let b = bn.unwrap();
    let c = cn.unwrap();
    let d = dn.unwrap();
    if a > 255 || b > 255 || c > 255 || d > 255 {
        return None;
    }
    Some((a as u8, b as u8, c as u8, d as u8))
}

fn parse_connection(line: &Vec<char>) -> (r: Option<(u8, u8, u8, u8)>)
    ensures
        match parse_connection_spec(line@) {
            Some(ip) => r == Some(ip),
            None => r is None,
        },
{
    proof {
        lemma_sdp_words();
    }
    if !seg_eq(line, 0, "c=IN IP4 ") {
        proof {
            if line@.len() >= 9 {
                assert(line@.take(9) =~= line@.subrange(0, 9));
            }
        }
        return None;
    }
    proof {
        assert(line@.take(9) =~= line@.subrange(0, 9));
    }
    let tail = subvec(line, 9, line.len());
    proof {
        assert(tail@ =~= line@.skip(9));
    }
    parse_ipv4(&tail)
}

fn parse_media(line: &Vec<char>) -> (r: Option<u16>)
    ensures
        match parse_media_spec(line@) {
            Some(p) => r == Some(p),
            None => r is None,
        },
{
    proof {
        lemma_sdp_words();
    }
    if !seg_eq(line, 0, "m=audio ") {
        proof {
            if line@.len() >= 8 {
                assert(line@.take(8) =~= line@.subrange(0, 8));
            }
        }
        return None;
    }
    proof {
        assert(line@.take(8) =~= line@.subrange(0, 8));
    }
    let ghost rest = line@.skip(8);
    let tok = match find_char_from(line, 8, ' ') {
        None => {
            let t = subvec(line, 8, line.len());
            proof {
                assert(t@ =~= rest);
            }
            t
        },
        Some(i) => {
            let t = subvec(line, 8, i);
            proof {
                assert(t@ =~= rest.take(i - 8));
            }
            t
        },
    };
    match parse_u64(&tok) {
        None => None,
        Some(n) => {
            if n <= 65535 {
                Some(n as u16)
            } else {
                None
            }
        },
    }
}

/// Decode an offer or answer: session id, address, audio port.
pub fn parse_sdp(text: &Vec<char>) -> (r: Option<SdpOffer>)
    ensures
        match parse_sdp_spec(text@) {
            Some(m) => r is Some && r.unwrap()@ == m,
            None => r is None,
        },
{
    let mut lines: Vec<Vec<char>> = Vec::new();
    let mut pos: usize = 0;
    proof {
        assert(text@.skip(0) =~= text@);
        assert(lines@.map_values(|l: Vec<char>| l@) =~= Seq::<Seq<char>>::empty());
        assert(Seq::<Seq<char>>::empty() + split_lines(text@) =~= split_lines(text@));
    }
    loop
        invariant_except_break
            pos <= text.len(),
            split_lines(text@) == lines@.map_values(|l: Vec<char>| l@) + split_lines(
                text@.skip(pos as int),
            ),
        ensures
            split_lines(text@) == lines@.map_values(|l: Vec<char>| l@),
        decreases text.len() - pos,
    {
        let ghost suffix = text@.skip(pos as int);
        let ghost old_lines = lines@.map_values(|l: Vec<char>| l@);
        if pos == text.len() {
            proof {
                assert(suffix.len() == 0);
                assert(split_lines(suffix) =~= Seq::<Seq<char>>::empty());
                assert(old_lines + Seq::<Seq<char>>::empty() =~= old_lines);
            }
            break;
        }
        match find_crlf_from(text, pos) {
            None => {
                let tail = subvec(text, pos, text.len());
                proof {
                    assert(tail@ =~= suffix);
                    assert(split_lines(suffix) =~= seq![suffix]);
                }
                lines.push(tail);
                proof {
                    assert(lines@.map_values(|l: Vec<char>| l@) =~= old_lines.push(suffix));
                    assert(old_lines + seq![suffix] =~= old_lines.push(suffix));
                }
                break;
            },
            Some(i) => {
                let line = subvec(text, pos, i);
                proof {
                    assert(line@ =~= suffix.take(i - pos));
                    assert(text@.skip(i as int + 2) =~= suffix.skip(i - pos + 2));
                    assert(split_lines(suffix) == seq![suffix.take(i - pos)] + split_lines(
                        suffix.skip(i - pos + 2),
                    ));
                }
                lines.push(line);
                proof {
                    assert(lines@.map_values(|l: Vec<char>| l@) =~= old_lines.push(line@));
                    assert(old_lines + (seq![line@] + split_lines(text@.skip(i as int + 2)))
                        =~= old_lines.push(line@) + split_lines(text@.skip(i as int + 2)));
                }
                pos = i + 2;
            },
        }
    }
    let ghost lsv = lines@.map_values(|l: Vec<char>| l@);
    let mut sid: Option<Vec<char>> = None;
    let mut ip: Option<(u8, u8, u8, u8)> = None;
    let mut port: Option<u16> = None;
    let mut k: usize = 0;
    proof {
        assert(lsv.skip(0) =~= lsv);
    }
    while k < lines.len()
        invariant
            k <= lines.len(),
            lsv == lines@.map_values(|l: Vec<char>| l@),
            lsv == split_lines(text@),
            match sid {
                None => scan_origin(lsv) == scan_origin(lsv.skip(k as int)),
                Some(v) => scan_origin(lsv) == Some(v@),
            },
            match ip {
                None => scan_connection(lsv) == scan_connection(lsv.skip(k as int)),
                Some(v) => scan_connection(lsv) == Some(v),
            },
            match port {
                None => scan_media(lsv) == scan_media(lsv.skip(k as int)),
                Some(v) => scan_media(lsv) == Some(v),
            },
        decreases lines.len() - k,
    {
        proof {
            assert(lsv.skip(k as int)[0] == lsv[k as int]);
            assert(lsv[k as int] == lines@[k as int]@);
            assert(lsv.skip(k as int).skip(1) =~= lsv.skip(k as int + 1));
        }
        if sid.is_none() {
            sid = parse_origin(&lines[k]);
        }
        if ip.is_none() {
            ip = parse_connection(&lines[k]);
        }
        if port.is_none() {
            port = parse_media(&lines[k]);
        }
        k = k + 1;
    }
    proof {
        assert(lsv.skip(lines@.len() as int) =~= Seq::<Seq<char>>::empty());
    }
    match (sid, ip, port) {
        (Some(s), Some(i), Some(p)) => Some(SdpOffer { sess_id: s, ip: i, port: p }),
        _ => None,
    }
}

} // verus!
