//! The WOLF channel: one endpoint of an in-process bidirectional message
//! channel, every message led by a four-byte sentinel.
//!
//! The raw channel is the outside crate `bichannel`; what is verified here is
//! the sentinel framing around it. What a `recv` yields depends on the peer
//! alone, so nothing is stated of it; the stripping of a received message is
//! its own function with an exact contract.

use vstd::prelude::*;

use crate::pktline::tail_from;

verus! {

/// The bytes of the `"WOLF"` sentinel.
pub open spec fn wolf_tag() -> Seq<u8> {
    seq![87u8, 79, 76, 70]
}

/// `bichannel::Channel`, the outside two-way channel the library talks over.
#[verifier::external_type_specification]
#[verifier::external_body]
#[verifier::reject_recursive_types(S)]
#[verifier::reject_recursive_types(R)]
pub struct ExChannel<S, R>(bichannel::Channel<S, R>);

/// Relies on `bichannel::Channel::send`: `Ok` only means the counterpart had
/// not hung up when the message was queued, so nothing is stated beyond the
/// returned flag.
#[verifier::external_body]
fn chan_send(ch: &bichannel::Channel<Vec<u8>, Vec<u8>>, data: Vec<u8>) -> (ok: bool) {
    ch.send(data).is_ok()
}

/// Relies on `bichannel::Channel::recv`: blocks for the counterpart's next
/// message, `None` once the counterpart has hung up. Which bytes arrive
/// depends on the peer alone, so nothing is stated of them.
#[verifier::external_body]
fn chan_recv(ch: &bichannel::Channel<Vec<u8>, Vec<u8>>) -> (r: Option<Vec<u8>>) {
    match ch.recv() {
        Ok(v) => Some(v),
        Err(_) => None,
    }
}

/// A channel failure; fatal for the session that sees it.
#[derive(Clone, Copy, Debug, PartialEq, Eq, Structural)]
pub enum ChannelError {
    /// The counterpart hung up.
    Disconnected,
    /// A message arrived without room for the four sentinel bytes.
    ShortFrame,
}

/// One wire message for `data`: the sentinel, then the bytes.
pub open spec fn spec_wolf_frame(data: Seq<u8>) -> Seq<u8> {
    wolf_tag() + data
}

/// Frame one message for the wire.
pub fn frame_message(data: &Vec<u8>) -> (r: Vec<u8>)
    ensures
        r@ == spec_wolf_frame(data@),
{
    let mut r: Vec<u8> = Vec::new();
    r.push(87);
    r.push(79);
    r.push(76);
    r.push(70);
    r.extend_from_slice(data.as_slice());
    proof {
        assert(r@ =~= spec_wolf_frame(data@));
    }
    r
}

/// Strip the four sentinel bytes of one wire message.
pub fn strip_frame(msg: &Vec<u8>) -> (r: Result<Vec<u8>, ChannelError>)
    ensures
        msg@.len() >= 4 ==> (r matches Ok(v) && v@ == msg@.skip(4)),
        msg@.len() < 4 ==> (r matches Err(e) && e == ChannelError::ShortFrame),
{
    if msg.len() < 4 {
        Err(ChannelError::ShortFrame)
    } else {
        Ok(tail_from(msg, 4))
    }
}

/// Framing then stripping hands the message back unchanged.
pub proof fn lemma_wolf_roundtrip(data: Seq<u8>)
    ensures
        spec_wolf_frame(data).len() == data.len() + 4,
        spec_wolf_frame(data).skip(4) == data,
{
    assert(spec_wolf_frame(data).skip(4) =~= data);
}

/// One endpoint of the channel, behind the sentinel framing.
pub struct WolfChannel {
    pub channel: bichannel::Channel<Vec<u8>, Vec<u8>>,
}

impl WolfChannel {
    /// Send one message, the sentinel prepended. `Ok` promises no more than
    /// the underlying channel does: the counterpart had not hung up.
    pub fn send(&self, data: Vec<u8>) -> (r: Result<(), ChannelError>)
        ensures
            r matches Err(e) ==> e == ChannelError::Disconnected,
    {
        let framed = frame_message(&data);
        if chan_send(&self.channel, framed) {
            Ok(())
        } else {
            Err(ChannelError::Disconnected)
        }
    }

    /// Receive one message and strip its sentinel. What arrives is the
    /// peer's to choose: any returned bytes are some message's tail, and a
    /// message too short for the sentinel is refused rather than read past.
    pub fn recv(&self) -> (r: Result<Vec<u8>, ChannelError>) {
        match chan_recv(&self.channel) {
            None => Err(ChannelError::Disconnected),
            Some(m) => strip_frame(&m),
        }
    }
}

} // verus!
