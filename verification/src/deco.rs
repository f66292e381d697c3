//! T9-style multi-tap text decoding of the debounced digit stream.
//!
//! The decoder is in one of four modes — lower case, upper case, symbols, or
//! numbers — and tracks the key currently being tapped together with its tap
//! count.  Key `1` shifts mode, `*` cancels the letter in flight, `#` commits
//! it, `0` (outside the symbol and number modes) commits and emits the `\0`
//! end-of-field sentinel.

use vstd::prelude::*;

use crate::dtmf::{NULL, OCTOTHORPE, SEXTILE};

verus! {

/// Digit that shifts to the next input mode.
pub const MODE: u8 = 1;

/// T9 decoder state: the current mode, and for the letter modes the key in
/// flight with its tap count (`(NULL, 0)` when no letter is in flight).
#[derive(Clone, Copy, PartialEq, Eq, Structural, Debug)]
pub enum T9State {
    Lower(u8, u8),
    Upper(u8, u8),
    Symbol(u8, u8),
    Number,
}

/// The numeral character for a digit 0–9.
pub open spec fn digit_char(d: u8) -> char {
    if d == 0 {
        '0'
    } else if d == 1 {
        '1'
    } else if d == 2 {
        '2'
    } else if d == 3 {
        '3'
    } else if d == 4 {
        '4'
    } else if d == 5 {
        '5'
    } else if d == 6 {
        '6'
    } else if d == 7 {
        '7'
    } else if d == 8 {
        '8'
    } else {
        '9'
    }
}

/// The character a state's letter-in-flight stands for, if any: the
/// multi-tap tables of the keypad.
pub open spec fn t9_emit(s: T9State) -> Option<char> {
    match s {
        T9State::Lower(2, 1) => Some('a'),
        T9State::Lower(2, 2) => Some('b'),
        T9State::Lower(2, 3) => Some('c'),
        T9State::Lower(3, 1) => Some('d'),
        T9State::Lower(3, 2) => Some('e'),
        T9State::Lower(3, 3) => Some('f'),
        T9State::Lower(4, 1) => Some('g'),
        T9State::Lower(4, 2) => Some('h'),
        T9State::Lower(4, 3) => Some('i'),
        T9State::Lower(5, 1) => Some('j'),
        T9State::Lower(5, 2) => Some('k'),
        T9State::Lower(5, 3) => Some('l'),
        T9State::Lower(6, 1) => Some('m'),
        T9State::Lower(6, 2) => Some('n'),
        T9State::Lower(6, 3) => Some('o'),
        T9State::Lower(7, 1) => Some('p'),
        T9State::Lower(7, 2) => Some('q'),
        T9State::Lower(7, 3) => Some('r'),
        T9State::Lower(7, 4) => Some('s'),
        T9State::Lower(8, 1) => Some('t'),
        T9State::Lower(8, 2) => Some('u'),
        T9State::Lower(8, 3) => Some('v'),
        T9State::Lower(9, 1) => Some('w'),
        T9State::Lower(9, 2) => Some('x'),
        T9State::Lower(9, 3) => Some('y'),
        T9State::Lower(9, 4) => Some('z'),
        T9State::Upper(2, 1) => Some('A'),
        T9State::Upper(2, 2) => Some('B'),
        T9State::Upper(2, 3) => Some('C'),
        T9State::Upper(3, 1) => Some('D'),
        T9State::Upper(3, 2) => Some('E'),
        T9State::Upper(3, 3) => Some('F'),
        T9State::Upper(4, 1) => Some('G'),
        T9State::Upper(4, 2) => Some('H'),
        T9State::Upper(4, 3) => Some('I'),
        T9State::Upper(5, 1) => Some('J'),
        T9State::Upper(5, 2) => Some('K'),
        T9State::Upper(5, 3) => Some('L'),
        T9State::Upper(6, 1) => Some('M'),
        T9State::Upper(6, 2) => Some('N'),
        T9State::Upper(6, 3) => Some('O'),
        T9State::Upper(7, 1) => Some('P'),
        T9State::Upper(7, 2) => Some('Q'),
        T9State::Upper(7, 3) => Some('R'),
        T9State::Upper(7, 4) => Some('S'),
        T9State::Upper(8, 1) => Some('T'),
        T9State::Upper(8, 2) => Some('U'),
        T9State::Upper(8, 3) => Some('V'),
        T9State::Upper(9, 1) => Some('W'),
        T9State::Upper(9, 2) => Some('X'),
        T9State::Upper(9, 3) => Some('Y'),
        T9State::Upper(9, 4) => Some('Z'),
        T9State::Symbol(0, 1) => Some(' '),
        T9State::Symbol(2, 1) => Some('!'),
        T9State::Symbol(2, 2) => Some('@'),
        T9State::Symbol(2, 3) => Some('#'),
        T9State::Symbol(2, 4) => Some('$'),
        T9State::Symbol(3, 1) => Some('%'),
        T9State::Symbol(3, 2) => Some('^'),
        T9State::Symbol(3, 3) => Some('&'),
        T9State::Symbol(3, 4) => Some('*'),
        T9State::Symbol(4, 1) => Some('('),
        T9State::Symbol(4, 2) => Some(')'),
        T9State::Symbol(4, 3) => Some('`'),
        T9State::Symbol(4, 4) => Some('~'),
        T9State::Symbol(5, 1) => Some('['),
        T9State::Symbol(5, 2) => Some(']'),
        T9State::Symbol(5, 3) => Some('{'),
        T9State::Symbol(5, 4) => Some('}'),
        T9State::Symbol(6, 1) => Some('/'),
        T9State::Symbol(6, 2) => Some('\\'),
        T9State::Symbol(6, 3) => Some('?'),
        T9State::Symbol(6, 4) => Some('|'),
        T9State::Symbol(7, 1) => Some('\''),
        T9State::Symbol(7, 2) => Some('"'),
        T9State::Symbol(7, 3) => Some(';'),
        T9State::Symbol(7, 4) => Some(':'),
        T9State::Symbol(8, 1) => Some(','),
        T9State::Symbol(8, 2) => Some('.'),
        T9State::Symbol(8, 3) => Some('<'),
        T9State::Symbol(8, 4) => Some('>'),
        T9State::Symbol(9, 1) => Some('-'),
        T9State::Symbol(9, 2) => Some('_'),
        T9State::Symbol(9, 3) => Some('='),
        T9State::Symbol(9, 4) => Some('+'),
        _ => None,
    }
}

/// A step taken from the fresh (lower-case, nothing in flight) state.
pub open spec fn t9_fresh_step(d: u8) -> Option<(T9State, Seq<char>)> {
    if d == SEXTILE || d == OCTOTHORPE {
        Some((T9State::Lower(NULL, 0), Seq::empty()))
    } else if d == MODE {
        Some((T9State::Upper(NULL, 0), Seq::empty()))
    } else if 2 <= d <= 9 {
        Some((T9State::Lower(d, 1), Seq::empty()))
    } else if d == 0 {
        Some((T9State::Lower(NULL, 0), seq!['\0']))
    } else {
        None
    }
}

pub open spec fn opt_char_seq(c: Option<char>) -> Seq<char> {
    match c {
        Some(ch) => seq![ch],
        None => Seq::empty(),
    }
}

/// Whether a tap count may still grow on this key: four taps on keys 7 and 9
/// (and any symbol key), three on the others.
pub open spec fn can_tap_letter(n: u8, m: u8) -> bool {
    if n == 7 || n == 9 {
        1 <= m <= 3
    } else {
        2 <= n <= 9 && n != 7 && n != 9 && 1 <= m <= 2
    }
}

/// One T9 transition: the next state and the characters committed by this
/// input, or `None` when the input is impossible (a digit code that no key
/// produces, or one tap too many on a key).
pub open spec fn t9_step(s: T9State, d: u8) -> Option<(T9State, Seq<char>)> {
    if d == SEXTILE {
        Some((T9State::Lower(NULL, 0), Seq::empty()))
    } else if d == OCTOTHORPE {
        Some((T9State::Lower(NULL, 0), opt_char_seq(t9_emit(s))))
    } else {
        match s {
            T9State::Lower(n, m) => {
                if 2 <= n <= 9 && d != n {
                    match t9_fresh_step(d) {
                        Some(sc) => Some((sc.0, opt_char_seq(t9_emit(s)) + sc.1)),
                        None => None,
                    }
                } else if n == NULL && m == 0 {
                    if 2 <= d <= 9 {
                        Some((T9State::Lower(d, 1), Seq::empty()))
                    } else if d == MODE {
                        Some((T9State::Upper(NULL, 0), Seq::empty()))
                    } else if d == 0 {
                        Some((T9State::Lower(NULL, 0), seq!['\0']))
                    } else {
                        None
                    }
                } else if 2 <= n <= 9 && d == n && can_tap_letter(n, m) {
                    Some((T9State::Lower(n, (m + 1) as u8), Seq::empty()))
                } else {
                    None
                }
            },
            T9State::Upper(n, m) => {
                if 2 <= n <= 9 && d != n {
                    match t9_fresh_step(d) {
                        Some(sc) => Some((sc.0, opt_char_seq(t9_emit(s)) + sc.1)),
                        None => None,
                    }
                } else if n == NULL && m == 0 {
                    if 2 <= d <= 9 {
                        Some((T9State::Upper(d, 1), Seq::empty()))
                    } else if d == MODE {
                        Some((T9State::Symbol(NULL, 0), Seq::empty()))
                    } else if d == 0 {
                        Some((T9State::Lower(NULL, 0), seq!['\0']))
                    } else {
                        None
                    }
                } else if 2 <= n <= 9 && d == n && can_tap_letter(n, m) {
                    Some((T9State::Upper(n, (m + 1) as u8), Seq::empty()))
                } else {
                    None
                }
            },
            T9State::Symbol(n, m) => {
                if 2 <= n <= 9 && d != n {
                    match t9_fresh_step(d) {
                        Some(sc) => Some((sc.0, opt_char_seq(t9_emit(s)) + sc.1)),
                        None => None,
                    }
                } else if n == NULL && m == 0 {
                    if 2 <= d <= 9 {
                        Some((T9State::Symbol(d, 1), Seq::empty()))
                    } else if d == 0 {
                        Some((T9State::Lower(NULL, 0), seq![' ']))
                    } else if d == MODE {
                        Some((T9State::Number, Seq::empty()))
                    } else {
                        None
                    }
                } else if 2 <= n <= 9 && d == n && 1 <= m <= 3 {
                    Some((T9State::Symbol(n, (m + 1) as u8), Seq::empty()))
                } else {
                    None
                }
            },
            T9State::Number => {
                if d <= 9 {
                    Some((T9State::Lower(NULL, 0), seq![digit_char(d)]))
                } else {
                    None
                }
            },
        }
    }
}

impl T9State {
    /// The fresh decoder state: lower case, nothing in flight.
    pub fn new() -> (s: T9State)
        ensures
            s == T9State::Lower(NULL, 0),
    {
        T9State::Lower(NULL, 0)
    }

    /// Whether the decoder is in the fresh state (so a commit timeout has
    /// nothing to do).
    pub fn is_fresh(&self) -> (r: bool)
        ensures
            r == (*self == T9State::Lower(NULL, 0)),
    {
        match self {
            T9State::Lower(n, m) => *n == NULL && *m == 0,
            _ => false,
        }
    }

    /// The character of the letter currently in flight, if any.
    pub fn emit(&self) -> (c: Option<char>)
        ensures
            c == t9_emit(*self),
    {
        match *self {
            T9State::Lower(2, 1) => Some('a'),
            T9State::Lower(2, 2) => Some('b'),
            T9State::Lower(2, 3) => Some('c'),
            T9State::Lower(3, 1) => Some('d'),
            T9State::Lower(3, 2) => Some('e'),
            T9State::Lower(3, 3) => Some('f'),
            T9State::Lower(4, 1) => Some('g'),
            T9State::Lower(4, 2) => Some('h'),
            T9State::Lower(4, 3) => Some('i'),
            T9State::Lower(5, 1) => Some('j'),
            T9State::Lower(5, 2) => Some('k'),
            T9State::Lower(5, 3) => Some('l'),
            T9State::Lower(6, 1) => Some('m'),
            T9State::Lower(6, 2) => Some('n'),
            T9State::Lower(6, 3) => Some('o'),
            T9State::Lower(7, 1) => Some('p'),
            T9State::Lower(7, 2) => Some('q'),
            T9State::Lower(7, 3) => Some('r'),
            T9State::Lower(7, 4) => Some('s'),
            T9State::Lower(8, 1) => Some('t'),
            T9State::Lower(8, 2) => Some('u'),
            T9State::Lower(8, 3) => Some('v'),
            T9State::Lower(9, 1) => Some('w'),
            T9State::Lower(9, 2) => Some('x'),
            T9State::Lower(9, 3) => Some('y'),
            T9State::Lower(9, 4) => Some('z'),
            T9State::Upper(2, 1) => Some('A'),
            T9State::Upper(2, 2) => Some('B'),
            T9State::Upper(2, 3) => Some('C'),
            T9State::Upper(3, 1) => Some('D'),
            T9State::Upper(3, 2) => Some('E'),
            T9State::Upper(3, 3) => Some('F'),
            T9State::Upper(4, 1) => Some('G'),
            T9State::Upper(4, 2) => Some('H'),
            T9State::Upper(4, 3) => Some('I'),
            T9State::Upper(5, 1) => Some('J'),
            T9State::Upper(5, 2) => Some('K'),
            T9State::Upper(5, 3) => Some('L'),
            T9State::Upper(6, 1) => Some('M'),
            T9State::Upper(6, 2) => Some('N'),
            T9State::Upper(6, 3) => Some('O'),
            T9State::Upper(7, 1) => Some('P'),
            T9State::Upper(7, 2) => Some('Q'),
            T9State::Upper(7, 3) => Some('R'),
            T9State::Upper(7, 4) => Some('S'),
            T9State::Upper(8, 1) => Some('T'),
            T9State::Upper(8, 2) => Some('U'),
            T9State::Upper(8, 3) => Some('V'),
            T9State::Upper(9, 1) => Some('W'),
            T9State::Upper(9, 2) => Some('X'),
            T9State::Upper(9, 3) => Some('Y'),
            T9State::Upper(9, 4) => Some('Z'),
            T9State::Symbol(0, 1) => Some(' '),
            T9State::Symbol(2, 1) => Some('!'),
            T9State::Symbol(2, 2) => Some('@'),
            T9State::Symbol(2, 3) => Some('#'),
            T9State::Symbol(2, 4) => Some('$'),
            T9State::Symbol(3, 1) => Some('%'),
            T9State::Symbol(3, 2) => Some('^'),
            T9State::Symbol(3, 3) => Some('&'),
            T9State::Symbol(3, 4) => Some('*'),
            T9State::Symbol(4, 1) => Some('('),
            T9State::Symbol(4, 2) => Some(')'),
            T9State::Symbol(4, 3) => Some('`'),
            T9State::Symbol(4, 4) => Some('~'),
            T9State::Symbol(5, 1) => Some('['),
            T9State::Symbol(5, 2) => Some(']'),
            T9State::Symbol(5, 3) => Some('{'),
            T9State::Symbol(5, 4) => Some('}'),
            T9State::Symbol(6, 1) => Some('/'),
            T9State::Symbol(6, 2) => Some('\\'),
            T9State::Symbol(6, 3) => Some('?'),
            T9State::Symbol(6, 4) => Some('|'),
            T9State::Symbol(7, 1) => Some('\''),
            T9State::Symbol(7, 2) => Some('"'),
            T9State::Symbol(7, 3) => Some(';'),
            T9State::Symbol(7, 4) => Some(':'),
            T9State::Symbol(8, 1) => Some(','),
            T9State::Symbol(8, 2) => Some('.'),
            T9State::Symbol(8, 3) => Some('<'),
            T9State::Symbol(8, 4) => Some('>'),
            T9State::Symbol(9, 1) => Some('-'),
            T9State::Symbol(9, 2) => Some('_'),
            T9State::Symbol(9, 3) => Some('='),
            T9State::Symbol(9, 4) => Some('+'),
            _ => None,
        }
    }

    /// Feed one debounced digit; returns the next state and the characters
    /// this input committed, or `None` for an input no keypad produces (or
    /// one tap too many on the key in flight).
    pub fn poosh(self, dig: u8) -> (r: Option<(T9State, Vec<char>)>)
        ensures
            r is Some <==> t9_step(self, dig) is Some,
            r is Some ==> r.unwrap().0 == t9_step(self, dig).unwrap().0,
            r is Some ==> r.unwrap().1@ == t9_step(self, dig).unwrap().1,
    {
        if dig == SEXTILE {
            Some((T9State::new(), Vec::new()))
        } else if dig == OCTOTHORPE {
            let mut cs: Vec<char> = Vec::new();
            if let Some(ch) = self.emit() {
                cs.push(ch);
            }
            proof {
                assert(cs@ =~= opt_char_seq(t9_emit(self)));
            }
            Some((T9State::new(), cs))
        } else {
            match self {
                T9State::Lower(n, m) | T9State::Upper(n, m) | T9State::Symbol(n, m) => {
                    if 2 <= n && n <= 9 && dig != n {
                        let mut cs: Vec<char> = Vec::new();
                        if let Some(ch) = self.emit() {
                            cs.push(ch);
                        }
                        match T9State::new().poosh_same_or_fresh(dig) {
                            Some((s2, mut cs2)) => {
                                proof {
                                    assert(t9_step(T9State::Lower(NULL, 0), dig)
                                        == t9_fresh_step(dig));
                                }
                                cs.append(&mut cs2);
                                proof {
                                    assert(cs@ =~= opt_char_seq(t9_emit(self))
                                        + t9_fresh_step(dig).unwrap().1);
                                }
                                Some((s2, cs))
                            },
                            None => None,
                        }
                    } else {
                        self.poosh_same_or_fresh(dig)
                    }
                },
                T9State::Number => {
                    if dig <= 9 {
                        let mut cs: Vec<char> = Vec::new();
                        cs.push(digit_char_exec(dig));
                        Some((T9State::new(), cs))
                    } else {
                        None
                    }
                },
            }
        }
    }

    /// The arms of the transition where no letter is committed: starting a
    /// letter from the fresh sub-state, shifting mode, or tapping the key in
    /// flight once more.
    fn poosh_same_or_fresh(self, dig: u8) -> (r: Option<(T9State, Vec<char>)>)
        requires
            dig != SEXTILE,
            dig != OCTOTHORPE,
            match self {
                T9State::Lower(n, m) => !(2 <= n <= 9 && dig != n),
                T9State::Upper(n, m) => !(2 <= n <= 9 && dig != n),
                T9State::Symbol(n, m) => !(2 <= n <= 9 && dig != n),
                T9State::Number => false,
            },
        ensures
            r is Some <==> t9_step(self, dig) is Some,
            r is Some ==> r.unwrap().0 == t9_step(self, dig).unwrap().0,
            r is Some ==> r.unwrap().1@ == t9_step(self, dig).unwrap().1,
    {
        match self {
            T9State::Lower(n, m) => {
                if n == NULL && m == 0 {
                    if 2 <= dig && dig <= 9 {
                        Some((T9State::Lower(dig, 1), Vec::new()))
                    } else if dig == MODE {
                        Some((T9State::Upper(NULL, 0), Vec::new()))
                    } else if dig == 0 {
                        let mut cs: Vec<char> = Vec::new();
                        cs.push('\0');
                        Some((T9State::new(), cs))
                    } else {
                        None
                    }
                } else if 2 <= n && n <= 9 && dig == n && can_tap_letter_exec(n, m) {
                    Some((T9State::Lower(n, m + 1), Vec::new()))
                } else {
                    None
                }
            },
            T9State::Upper(n, m) => {
                if n == NULL && m == 0 {
                    if 2 <= dig && dig <= 9 {
                        Some((T9State::Upper(dig, 1), Vec::new()))
                    } else if dig == MODE {
                        Some((T9State::Symbol(NULL, 0), Vec::new()))
                    } else if dig == 0 {
                        let mut cs: Vec<char> = Vec::new();
                        cs.push('\0');
                        Some((T9State::new(), cs))
                    } else {
                        None
                    }
                } else if 2 <= n && n <= 9 && dig == n && can_tap_letter_exec(n, m) {
                    Some((T9State::Upper(n, m + 1), Vec::new()))
                } else {
                    None
                }
            },
            T9State::Symbol(n, m) => {
                if n == NULL && m == 0 {
                    if 2 <= dig && dig <= 9 {
                        Some((T9State::Symbol(dig, 1), Vec::new()))
                    } else if dig == 0 {
                        let mut cs: Vec<char> = Vec::new();
                        cs.push(' ');
                        Some((T9State::new(), cs))
                    } else if dig == MODE {
                        Some((T9State::Number, Vec::new()))
                    } else {
                        None
                    }
                } else if 2 <= n && n <= 9 && dig == n && 1 <= m && m <= 3 {
                    Some((T9State::Symbol(n, m + 1), Vec::new()))
                } else {
                    None
                }
            },
            T9State::Number => {
                proof {
                    assert(false);
                }
                None
            },
        }
    }
}

fn digit_char_exec(d: u8) -> (c: char)
    requires
        d <= 9,
    ensures
        c == digit_char(d),
{
    if d == 0 {
        '0'
    } else if d == 1 {
        '1'
    } else if d == 2 {
        '2'
    } else if d == 3 {
        '3'
    } else if d == 4 {
        '4'
    } else if d == 5 {
        '5'
    } else if d == 6 {
        '6'
    } else if d == 7 {
        '7'
    } else if d == 8 {
        '8'
    } else {
        '9'
    }
}

fn can_tap_letter_exec(n: u8, m: u8) -> (r: bool)
    ensures
        r == can_tap_letter(n, m),
{
    if n == 7 || n == 9 {
        1 <= m && m <= 3
    } else {
        2 <= n && n <= 9 && n != 7 && n != 9 && 1 <= m && m <= 2
    }
}

/// In the number mode a character is emitted only for a digit input, and it
/// is exactly that digit's numeral: the mode never guesses a character from
/// an empty accumulation.
pub proof fn lemma_number_mode_emission(d: u8)
    ensures
        d <= 9 ==> t9_step(T9State::Number, d) == Some(
            (T9State::Lower(NULL, 0), seq![digit_char(d)]),
        ),
        d == SEXTILE ==> t9_step(T9State::Number, d) == Some(
            (T9State::Lower(NULL, 0), Seq::<char>::empty()),
        ),
        d == OCTOTHORPE ==> t9_step(T9State::Number, d) == Some(
            (T9State::Lower(NULL, 0), Seq::<char>::empty()),
        ),
        10 <= d && d != SEXTILE && d != OCTOTHORPE ==> t9_step(T9State::Number, d) is None,
{
    assert(opt_char_seq(t9_emit(T9State::Number)) =~= Seq::<char>::empty());
}

} // verus!
