//! The dialing directory: the extensions this phone can call, with the To
//! header value and request URI for each.

use vstd::prelude::*;

use crate::sip::{sip_uri_chars, to_plain_value};
use crate::sipmsg::{text_ok, token_ok};
use crate::strutil::{
    chars_eq_str, dec_digits, lemma_dec_digits_value, push_chars, push_str, str_chars,
    u64_to_chars,
};

verus! {

/// The PBX this phone registers against.
pub const SERVER_PORT: u16 = 5061;

/// The PBX hostname.
pub fn server_name() -> (r: Vec<char>)
    ensures
        r@ == "pbx.frandline.com"@,
{
    str_chars("pbx.frandline.com")
}

/// Whether `number` is a known extension.
pub open spec fn is_contact(number: Seq<char>) -> bool {
    number == "1100"@ || number == "1101"@ || number == "1102"@ || number == "1103"@
}

/// Look a dialed number up: its To header value and request URI, or `None`
/// for a number not in the directory.
pub fn contact_to(number: &Vec<char>) -> (r: Option<(Vec<char>, Vec<char>)>)
    ensures
        r is Some <==> is_contact(number@),
        r is Some ==> r.unwrap().0@ == to_plain_value(number@, "pbx.frandline.com"@, SERVER_PORT),
        r is Some ==> r.unwrap().1@ == sip_uri_chars(number@, "pbx.frandline.com"@, SERVER_PORT),
        r is Some ==> r.unwrap().0@.len() > 0 && text_ok(r.unwrap().0@) && token_ok(
            r.unwrap().1@,
        ),
{
    if chars_eq_str(number, "1100") || chars_eq_str(number, "1101") || chars_eq_str(
        number,
        "1102",
    ) || chars_eq_str(number, "1103") {
        let mut to_v: Vec<char> = Vec::new();
        push_chars(&mut to_v, number);
        push_str(&mut to_v, " <sips:");
        push_chars(&mut to_v, number);
        push_str(&mut to_v, "@pbx.frandline.com:");
        let p = u64_to_chars(SERVER_PORT as u64);
        push_chars(&mut to_v, &p);
        push_str(&mut to_v, ">");
        let mut uri: Vec<char> = Vec::new();
        push_str(&mut uri, "sips:");
        push_chars(&mut uri, number);
        push_str(&mut uri, "@pbx.frandline.com:");
        let p2 = u64_to_chars(SERVER_PORT as u64);
        push_chars(&mut uri, &p2);
        proof {
            reveal_strlit("pbx.frandline.com");
            reveal_strlit("@pbx.frandline.com:");
            reveal_strlit("sips:");
            reveal_strlit(" <sips:");
            reveal_strlit(">");
            assert("@pbx.frandline.com:"@ =~= seq!['@'] + "pbx.frandline.com"@ + seq![':']);
            assert(" <sips:"@ =~= " <"@ + "sips:"@) by {
                reveal_strlit(" <");
            }
            assert(to_v@ =~= to_plain_value(number@, "pbx.frandline.com"@, SERVER_PORT));
            assert(uri@ =~= sip_uri_chars(number@, "pbx.frandline.com"@, SERVER_PORT));
            reveal_strlit("1100");
            reveal_strlit("1101");
            reveal_strlit("1102");
            reveal_strlit("1103");
            lemma_dec_digits_value(SERVER_PORT as nat);
            assert forall|j: int| 0 <= j < number@.len() implies number@[j] != ' '
                && number@[j] != '\r' && number@[j] != '\n' by {
                if number@ == "1100"@ {
                    assert("1100"@ =~= seq!['1', '1', '0', '0']);
                } else if number@ == "1101"@ {
                    assert("1101"@ =~= seq!['1', '1', '0', '1']);
                } else if number@ == "1102"@ {
                    assert("1102"@ =~= seq!['1', '1', '0', '2']);
                } else {
                    assert("1103"@ =~= seq!['1', '1', '0', '3']);
                }
            }
            assert("pbx.frandline.com"@ =~= seq![
                'p', 'b', 'x', '.', 'f', 'r', 'a', 'n', 'd', 'l', 'i', 'n', 'e', '.', 'c', 'o',
                'm',
            ]);
            assert("sips:"@ =~= seq!['s', 'i', 'p', 's', ':']);
            assert(" <"@ =~= seq![' ', '<']) by {
                reveal_strlit(" <");
            }
            assert(">"@ =~= seq!['>']);
            assert forall|j: int|
                0 <= j < dec_digits(SERVER_PORT as nat).len() implies #[trigger] dec_digits(
                SERVER_PORT as nat,
            )[j] != ' ' && dec_digits(SERVER_PORT as nat)[j] != '\r' && dec_digits(
                SERVER_PORT as nat,
            )[j] != '\n' by {
                assert(crate::strutil::is_dec_digit(dec_digits(SERVER_PORT as nat)[j]));
            }
            assert(token_ok(uri@));
            assert(text_ok(to_v@));
        }
        Some((to_v, uri))
    } else {
        None
    }
}

} // verus!
