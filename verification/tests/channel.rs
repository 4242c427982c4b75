use wolfpack::channel::{frame_message, strip_frame, ChannelError, WolfChannel};

#[test]
fn framing_prepends_the_sentinel() {
    let framed = frame_message(&b"payload".to_vec());
    assert_eq!(framed, b"WOLFpayload".to_vec());
    assert_eq!(frame_message(&Vec::new()), b"WOLF".to_vec());
}

#[test]
fn stripping_undoes_framing() {
    let msg = b"0009done\n".to_vec();
    let back = strip_frame(&frame_message(&msg)).expect("framed messages strip");
    assert_eq!(back, msg);
}

#[test]
fn short_frames_are_refused() {
    assert_eq!(strip_frame(&b"WOL".to_vec()), Err(ChannelError::ShortFrame));
    assert_eq!(strip_frame(&Vec::new()), Err(ChannelError::ShortFrame));
    assert_eq!(strip_frame(&b"WOLF".to_vec()), Ok(Vec::new()));
}

#[test]
fn messages_cross_the_channel_framed() {
    let (left, right) = bichannel::channel::<Vec<u8>, Vec<u8>>();
    let left = WolfChannel { channel: left };
    let right = WolfChannel { channel: right };

    left.send(b"ping".to_vec()).expect("counterpart is alive");
    assert_eq!(right.recv(), Ok(b"ping".to_vec()));

    right.send(b"pong".to_vec()).expect("counterpart is alive");
    assert_eq!(left.recv(), Ok(b"pong".to_vec()));
}

#[test]
fn the_sentinel_itself_is_what_crosses_the_wire() {
    let (left, right) = bichannel::channel::<Vec<u8>, Vec<u8>>();
    let left = WolfChannel { channel: left };

    left.send(b"abc".to_vec()).expect("counterpart is alive");
    // read the raw message under the framing
    let raw = right.recv().expect("a message was sent");
    assert_eq!(raw, b"WOLFabc".to_vec());
}

#[test]
fn a_hung_up_counterpart_is_reported() {
    let (left, right) = bichannel::channel::<Vec<u8>, Vec<u8>>();
    let left = WolfChannel { channel: left };
    drop(right);
    assert_eq!(left.send(b"x".to_vec()), Err(ChannelError::Disconnected));
    assert_eq!(left.recv(), Err(ChannelError::Disconnected));
}
