//! The pkt-line wire codec.
//!
//! A pkt-line is a frame whose first four bytes are the total frame length
//! (header included) written as four hexadecimal ASCII digits, followed by the
//! payload. The literal `"0000"` is the reserved FLUSH sentinel and carries no
//! payload. A nonzero declared length below 4 is a protocol violation.

use vstd::arithmetic::div_mod::{lemma_breakdown, lemma_small_mod};
use vstd::prelude::*;

use crate::ProtocolError;

verus! {

/// Largest value the four hex header digits can express.
pub const MAX_PKT_LEN: usize = 65535;

/// Is `b` the ASCII code of a hexadecimal digit?
pub open spec fn is_hex_digit(b: u8) -> bool {
    (48 <= b && b <= 57) || (97 <= b && b <= 102) || (65 <= b && b <= 70)
}

/// Numeric value of the hex digit with ASCII code `b`.
pub open spec fn hex_val(b: u8) -> nat {
    if 48 <= b && b <= 57 {
        (b - 48) as nat
    } else if 97 <= b && b <= 102 {
        (b - 87) as nat
    } else {
        (b - 55) as nat
    }
}

/// ASCII code (lower case) of the hex digit with value `n`, for `n < 16`.
pub open spec fn hex_digit(n: nat) -> u8 {
    if n < 10 {
        (48 + n) as u8
    } else {
        (87 + n) as u8
    }
}

/// The first four bytes of `s` are hex digits.
pub open spec fn header_ok(s: Seq<u8>) -> bool {
    is_hex_digit(s[0]) && is_hex_digit(s[1]) && is_hex_digit(s[2]) && is_hex_digit(s[3])
}

/// Value of the four-hex-digit header at the front of `s`.
pub open spec fn header_val(s: Seq<u8>) -> nat {
    hex_val(s[0]) * 4096 + hex_val(s[1]) * 256 + hex_val(s[2]) * 16 + hex_val(s[3])
}

/// The four lower-case hex digits of `n`, most significant first.
pub open spec fn spec_hex4(n: nat) -> Seq<u8> {
    seq![
        hex_digit(n / 4096 % 16),
        hex_digit(n / 256 % 16),
        hex_digit(n / 16 % 16),
        hex_digit(n % 16),
    ]
}

/// The pkt-line frame that carries `p`: header digits of `len(p) + 4`, then `p`.
pub open spec fn spec_encode(p: Seq<u8>) -> Seq<u8> {
    spec_hex4((p.len() + 4) as nat) + p
}

/// The FLUSH sentinel: the four ASCII bytes `"0000"`.
pub open spec fn spec_flush() -> Seq<u8> {
    seq![48u8, 48u8, 48u8, 48u8]
}

/// What decoding the front of a buffer yields.
pub enum SpecPkt {
    /// Fewer bytes are buffered than the next frame needs; nothing is consumed.
    Incomplete,
    /// A FLUSH sentinel; four bytes are consumed.
    Flush,
    /// A payload-carrying frame; `consumed` bytes (header included) are consumed.
    Line { payload: Seq<u8>, consumed: nat },
    /// The four header bytes are not hexadecimal ASCII.
    BadHex,
    /// The header declares a nonzero length smaller than the header itself.
    TooSmall,
}

/// Decoding the front of `b`, exactly as `decode_one` performs it.
pub open spec fn spec_decode(b: Seq<u8>) -> SpecPkt {
    if b.len() < 4 {
        SpecPkt::Incomplete
    } else if !header_ok(b) {
        SpecPkt::BadHex
    } else {
        let n = header_val(b);
        if n == 0 {
            SpecPkt::Flush
        } else if n < 4 {
            SpecPkt::TooSmall
        } else if b.len() < n {
            SpecPkt::Incomplete
        } else {
            SpecPkt::Line { payload: b.subrange(4, n as int), consumed: n }
        }
    }
}

/// Outcome of `decode_one` on the current buffer.
pub enum Pkt {
    Incomplete,
    Flush,
    Line { payload: Vec<u8>, consumed: usize },
}

/// `r` is exactly what the decoding outcome `d` prescribes.
pub open spec fn pkt_matches(r: Result<Pkt, ProtocolError>, d: SpecPkt) -> bool {
    match d {
        SpecPkt::Incomplete => r matches Ok(Pkt::Incomplete),
        SpecPkt::Flush => r matches Ok(Pkt::Flush),
        SpecPkt::Line { payload, consumed } => r matches Ok(Pkt::Line { payload: p, consumed: c })
            && p@ == payload && c as nat == consumed,
        SpecPkt::BadHex => r matches Err(e) && e == ProtocolError::BadLengthHex,
        SpecPkt::TooSmall => r matches Err(e) && e == ProtocolError::LengthTooSmall,
    }
}

/// Value of one hex digit, or `None` where `b` is no hex digit.
fn hex_digit_val(b: u8) -> (r: Option<u8>)
    ensures
        r is Some <==> is_hex_digit(b),
        r matches Some(v) ==> v as nat == hex_val(b) && v < 16,
{
    if 48 <= b && b <= 57 {
        Some(b - 48)
    } else if 97 <= b && b <= 102 {
        Some(b - 87)
    } else if 65 <= b && b <= 70 {
        Some(b - 55)
    } else {
        None
    }
}

/// The four lower-case hex digits of `n`.
pub fn hex4(n: usize) -> (r: Vec<u8>)
    requires
        n <= MAX_PKT_LEN,
    ensures
        r@ == spec_hex4(n as nat),
{
    let mut r: Vec<u8> = Vec::new();
    r.push(hex_digit_byte((n / 4096 % 16) as u8));
    r.push(hex_digit_byte((n / 256 % 16) as u8));
    r.push(hex_digit_byte((n / 16 % 16) as u8));
    r.push(hex_digit_byte((n % 16) as u8));
    proof {
        assert(r@ =~= spec_hex4(n as nat));
    }
    r
}

/// ASCII code of the hex digit with value `d`.
fn hex_digit_byte(d: u8) -> (r: u8)
    requires
        d < 16,
    ensures
        r == hex_digit(d as nat),
{
    if d < 10 {
        48 + d
    } else {
        87 + d
    }
}

/// Encode `payload` as one pkt-line frame.
pub fn encode(payload: &Vec<u8>) -> (r: Vec<u8>)
    requires
        payload@.len() + 4 <= MAX_PKT_LEN,
    ensures
        r@ == spec_encode(payload@),
{
    let mut r = hex4(payload.len() + 4);
    r.extend_from_slice(payload.as_slice());
    proof {
        assert(r@ =~= spec_encode(payload@));
    }
    r
}

/// Encode the FLUSH sentinel.
pub fn encode_flush() -> (r: Vec<u8>)
    ensures
        r@ == spec_flush(),
{
    let mut r: Vec<u8> = Vec::new();
    r.push(48);
    r.push(48);
    r.push(48);
    r.push(48);
    proof {
        assert(r@ =~= spec_flush());
    }
    r
}

/// Decode the first pkt-line of `buf`, consuming nothing on `Incomplete`.
pub fn decode_one(buf: &Vec<u8>) -> (r: Result<Pkt, ProtocolError>)
    ensures
        pkt_matches(r, spec_decode(buf@)),
{
    if buf.len() < 4 {
        return Ok(Pkt::Incomplete);
    }
    let d0 = hex_digit_val(buf[0]);
    let d1 = hex_digit_val(buf[1]);
    let d2 = hex_digit_val(buf[2]);
    let d3 = hex_digit_val(buf[3]);
    let (v0, v1, v2, v3) = match (d0, d1, d2, d3) {
        (Some(v0), Some(v1), Some(v2), Some(v3)) => (v0, v1, v2, v3),
        _ => {
            return Err(ProtocolError::BadLengthHex);
        },
    };
    let n: usize = (v0 as usize) * 4096 + (v1 as usize) * 256 + (v2 as usize) * 16 + (v3 as usize);
    assert(n as nat == header_val(buf@));
    if n == 0 {
        return Ok(Pkt::Flush);
    }
    if n < 4 {
        return Err(ProtocolError::LengthTooSmall);
    }
    if buf.len() < n {
        return Ok(Pkt::Incomplete);
    }
    let mut payload: Vec<u8> = Vec::new();
    let mut i: usize = 4;
    while i < n
        invariant
            4 <= i <= n,
            n <= buf@.len(),
            payload@ == buf@.subrange(4, i as int),
        decreases n - i,
    {
        payload.push(buf[i]);
        proof {
            assert(buf@.subrange(4, i + 1) =~= buf@.subrange(4, i as int).push(buf@[i as int]));
        }
        i = i + 1;
    }
    Ok(Pkt::Line { payload, consumed: n })
}

/// A fresh buffer holding `v` with its first `k` bytes dropped.
pub fn tail_from(v: &Vec<u8>, k: usize) -> (r: Vec<u8>)
    requires
        k <= v@.len(),
    ensures
        r@ == v@.skip(k as int),
{
    let mut r: Vec<u8> = Vec::new();
    let mut i: usize = k;
    while i < v.len()
        invariant
            k <= i <= v@.len(),
            r@ == v@.subrange(k as int, i as int),
        decreases v@.len() - i,
    {
        r.push(v[i]);
        proof {
            assert(v@.subrange(k as int, i + 1) =~= v@.subrange(k as int, i as int).push(
                v@[i as int],
            ));
        }
        i = i + 1;
    }
    proof {
        assert(v@.subrange(k as int, v@.len() as int) =~= v@.skip(k as int));
    }
    r
}

/// The four digits written for `n` read back as `n`, and read as digits at all.
pub proof fn lemma_hex4_val(n: nat)
    requires
        n <= MAX_PKT_LEN,
    ensures
        spec_hex4(n).len() == 4,
        header_ok(spec_hex4(n)),
        header_val(spec_hex4(n)) == n,
{
    let d0 = n / 4096 % 16;
    let d1 = n / 256 % 16;
    let d2 = n / 16 % 16;
    let d3 = n % 16;
    lemma_breakdown(n as int, 4096, 16);
    lemma_breakdown(n as int, 256, 16);
    lemma_breakdown(n as int, 16, 16);
    lemma_small_mod(n, 65536);
    assert(n == d0 * 4096 + d1 * 256 + d2 * 16 + d3);
    assert(hex_val(hex_digit(d0)) == d0);
    assert(hex_val(hex_digit(d1)) == d1);
    assert(hex_val(hex_digit(d2)) == d2);
    assert(hex_val(hex_digit(d3)) == d3);
}

/// Pkt-line round trip: the frame written for a payload decodes back to that
/// payload, consuming the whole frame.
pub proof fn lemma_encode_decode(p: Seq<u8>)
    requires
        p.len() + 4 <= MAX_PKT_LEN,
    ensures
        spec_encode(p).len() == p.len() + 4,
        spec_decode(spec_encode(p)) == (SpecPkt::Line { payload: p, consumed: (p.len() + 4) as nat }),
{
    let n = (p.len() + 4) as nat;
    let e = spec_encode(p);
    lemma_hex4_val(n);
    assert(e[0] == spec_hex4(n)[0]);
    assert(e[1] == spec_hex4(n)[1]);
    assert(e[2] == spec_hex4(n)[2]);
    assert(e[3] == spec_hex4(n)[3]);
    assert(header_val(e) == n);
    assert(e.subrange(4, n as int) =~= p);
}

/// The FLUSH sentinel decodes as FLUSH, and as nothing else.
pub proof fn lemma_flush_decode()
    ensures
        spec_flush().len() == 4,
        spec_decode(spec_flush()) == SpecPkt::Flush,
{
    assert(header_val(spec_flush()) == 0);
}

/// Partial delivery: any strict prefix of an encoded frame decodes as
/// `Incomplete`, so a frame split at any byte boundary is decoded once the
/// remainder arrives, exactly as if it had arrived whole.
pub proof fn lemma_prefix_incomplete(p: Seq<u8>, i: int)
    requires
        p.len() + 4 <= MAX_PKT_LEN,
        0 <= i < spec_encode(p).len(),
    ensures
        spec_decode(spec_encode(p).take(i)) == SpecPkt::Incomplete,
{
    let e = spec_encode(p);
    let n = (p.len() + 4) as nat;
    lemma_hex4_val(n);
    if i >= 4 {
        let t = e.take(i);
        assert(t[0] == e[0] && t[1] == e[1] && t[2] == e[2] && t[3] == e[3]);
        assert(header_ok(t));
        assert(header_val(t) == n);
        assert(t.len() < n);
    }
}

} // verus!
