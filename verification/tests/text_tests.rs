use goertzel::deco::T9State;
use goertzel::phone::CredCapture;
use goertzel::pulse::{PulseEvent, PulseOut, PulseState, SwitchHook};
use goertzel::tone::TwoToneGen;

fn feed(mut s: T9State, digs: &[u8]) -> (T9State, Vec<char>) {
    let mut out = Vec::new();
    for d in digs {
        let (next, mut cs) = s.poosh(*d).expect("valid digit");
        out.append(&mut cs);
        s = next;
    }
    (s, out)
}

#[test]
fn t9_multi_tap_letters() {
    // Three taps of 4 pick the key's third letter; the 3s start a new one,
    // committed by the timeout.
    let (s, mut out) = feed(T9State::new(), &[4, 4, 4, 3, 3, 3]);
    if let Some(c) = s.emit() {
        out.push(c);
    }
    assert_eq!(out, vec!['i', 'f']);
}

#[test]
fn t9_mode_shift_upper() {
    let (s, mut out) = feed(T9State::new(), &[1, 2]);
    if let Some(c) = s.emit() {
        out.push(c);
    }
    assert_eq!(out, vec!['A']);
}

#[test]
fn t9_number_mode_is_immediate() {
    // Three shifts reach number mode; a digit is its own character.
    let (_, out) = feed(T9State::new(), &[1, 1, 1, 7]);
    assert_eq!(out, vec!['7']);
}

#[test]
fn t9_zero_emits_field_sentinel() {
    let (_, out) = feed(T9State::new(), &[4, 4, 0]);
    assert_eq!(out, vec!['h', '\0']);
}

#[test]
fn t9_cancel_drops_letter() {
    let (s, mut out) = feed(T9State::new(), &[4, 4, 10, 3]);
    if let Some(c) = s.emit() {
        out.push(c);
    }
    assert_eq!(out, vec!['d']);
}

#[test]
fn t9_rejects_impossible_digit() {
    assert!(T9State::new().poosh(11).is_none());
}

#[test]
fn pulse_train_of_three() {
    // OFF-hook rotary dialing: the line opens and closes once per pulse.
    let mut s = PulseState::new();
    assert_eq!(s.step(PulseEvent::Edge(SwitchHook::ON)), None);
    for _ in 0..2 {
        assert_eq!(s.step(PulseEvent::Edge(SwitchHook::OFF)), None);
        assert_eq!(s.step(PulseEvent::Edge(SwitchHook::ON)), None);
    }
    assert_eq!(s.step(PulseEvent::Edge(SwitchHook::OFF)), None);
    assert_eq!(s.step(PulseEvent::Timeout), Some(PulseOut::Digit(3)));
}

#[test]
fn pulse_hangup_detected() {
    let mut s = PulseState::new();
    assert_eq!(s.step(PulseEvent::Edge(SwitchHook::ON)), None);
    assert_eq!(
        s.step(PulseEvent::Timeout),
        Some(PulseOut::Hook(SwitchHook::ON))
    );
}

#[test]
fn pulse_off_edge_passes_through() {
    let mut s = PulseState::new();
    assert_eq!(
        s.step(PulseEvent::Edge(SwitchHook::OFF)),
        Some(PulseOut::Hook(SwitchHook::OFF))
    );
}

#[test]
fn tone_cadence_gates_waveform() {
    // 1 ms on / 1 ms off at 48 kHz: 48 samples of waveform, then 48 of rest.
    let table = vec![7i16; 48];
    let mut t = TwoToneGen::new(48000, table).beep(1, 1);
    for _ in 0..48 {
        assert_eq!(t.next_sample(), 7);
    }
    for _ in 0..48 {
        assert_eq!(t.next_sample(), 0);
    }
    assert_eq!(t.next_sample(), 7);
}

#[test]
fn tone_continuous_loops_table() {
    let table = vec![1i16, 2, 3];
    let mut t = TwoToneGen::new(48000, table);
    let got: Vec<i16> = (0..7).map(|_| t.next_sample()).collect();
    assert_eq!(got, vec![1, 2, 3, 1, 2, 3, 1]);
}

#[test]
fn cred_capture_splits_on_nul() {
    let mut c = CredCapture::new();
    for ch in "attic".chars() {
        assert!(!c.push_char(ch));
    }
    assert!(!c.push_char('\0'));
    for ch in "hunter2".chars() {
        assert!(!c.push_char(ch));
    }
    assert!(c.push_char('\0'));
    let ssid: String = c.ssid.iter().collect();
    let pass: String = c.pass.iter().collect();
    assert_eq!(ssid, "attic");
    assert_eq!(pass, "hunter2");
}
