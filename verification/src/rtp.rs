//! RTP frame assembly: 20 ms of 48 kHz audio — 960 samples — packed as
//! 1920 big-endian bytes per outbound packet, and the inverse for inbound
//! payloads.  Every outbound frame is exactly [`FRAME_BYTES`] bytes long.

use vstd::prelude::*;

verus! {

/// Samples per outbound frame (20 ms at 48 kHz).
pub const SAMPLES_PER_FRAME: usize = 960;
/// Bytes per outbound frame.
pub const FRAME_BYTES: usize = 1920;

/// The two big-endian bytes of a sample.
pub open spec fn be_bytes(s: i16) -> Seq<u8> {
    seq![((s as u16) / 256) as u8, ((s as u16) % 256) as u8]
}

/// The sample two big-endian bytes spell.
pub open spec fn sample_of(hi: u8, lo: u8) -> i16 {
    ((hi as u16) * 256 + (lo as u16)) as i16
}

/// Big-endian packing round-trips.
pub proof fn lemma_be_bytes_round_trip(s: i16)
    ensures
        sample_of(be_bytes(s)[0], be_bytes(s)[1]) == s,
{
    let u = s as u16;
    vstd::arithmetic::div_mod::lemma_fundamental_div_mod(u as int, 256);
    assert(u / 256 < 256);
    assert((u / 256) as u8 as u16 == u / 256);
    assert((u % 256) as u8 as u16 == u % 256);
    assert(((u / 256) * 256 + u % 256) == u);
    assert(s as u16 as i16 == s) by (bit_vector);
}

/// Collects outbound samples; emits a frame each time 960 have arrived.
pub struct OutboundAssembler {
    pub buf: Vec<u8>,
}

impl OutboundAssembler {
    pub open spec fn wf(self) -> bool {
        self.buf.len() < FRAME_BYTES && self.buf.len() % 2 == 0
    }

    pub fn new() -> (a: OutboundAssembler)
        ensures
            a.wf(),
            a.buf@ == Seq::<u8>::empty(),
    {
        OutboundAssembler { buf: Vec::new() }
    }

    /// Append one sample; when this completes a 1920-byte frame, hand it
    /// out and start the next frame empty.  Every frame returned is exactly
    /// [`FRAME_BYTES`] bytes of big-endian samples.
    pub fn push_sample(&mut self, s: i16) -> (frame: Option<Vec<u8>>)
        requires
            old(self).wf(),
        ensures
            final(self).wf(),
            ({
                let grown = old(self).buf@ + be_bytes(s);
                match frame {
                    Some(f) => f@ == grown && f@.len() == FRAME_BYTES && final(self).buf@
                        == Seq::<u8>::empty(),
                    None => final(self).buf@ == grown && grown.len() < FRAME_BYTES,
                }
            }),
    {
        let hi: u8 = ((s as u16) / 256) as u8;
        let lo: u8 = ((s as u16) % 256) as u8;
        proof {
            assert((s as u16) / 256 < 256);
            assert(hi == be_bytes(s)[0]);
            assert(lo == be_bytes(s)[1]);
        }
        self.buf.push(hi);
        self.buf.push(lo);
        proof {
            assert(self.buf@ =~= old(self).buf@ + be_bytes(s));
        }
        if self.buf.len() == FRAME_BYTES {
            let mut out: Vec<u8> = Vec::new();
            core::mem::swap(&mut out, &mut self.buf);
            Some(out)
        } else {
            None
        }
    }
}

/// Decode an inbound payload: one sample per big-endian byte pair; a
/// trailing odd byte is ignored.
pub fn parse_samples(payload: &Vec<u8>) -> (r: Vec<i16>)
    ensures
        r@.len() == payload@.len() / 2,
        forall|k: int|
            0 <= k < r@.len() ==> r@[k] == sample_of(payload@[2 * k], payload@[2 * k + 1]),
{
    let mut r: Vec<i16> = Vec::new();
    let n = payload.len();
    let n2 = n / 2;
    proof {
        vstd::arithmetic::div_mod::lemma_fundamental_div_mod(n as int, 2);
    }
    let mut k: usize = 0;
    while k < n2
        invariant
            n == payload@.len(),
            n2 == payload@.len() / 2,
            2 * n2 <= n,
            k <= n2,
            r@.len() == k,
            forall|q: int|
                0 <= q < r@.len() ==> r@[q] == sample_of(payload@[2 * q], payload@[2 * q + 1]),
        decreases n2 - k,
    {
        proof {
            assert(2 * k + 1 < n);
        }
        let i2: usize = 2 * k;
        let hi = payload[i2];
        let lo = payload[i2 + 1];
        r.push(((hi as u16) * 256 + (lo as u16)) as i16);
        k = k + 1;
    }
    r
}

/// Whether a remote media address lies inside the private 10.100.0.0/16
/// range this endpoint accepts.
pub fn is_in_net(ip: (u8, u8, u8, u8)) -> (r: bool)
    ensures
        r == (ip.0 == 10 && ip.1 == 100),
{
    ip.0 == 10 && ip.1 == 100
}

} // verus!
