use wolfpack::pktline::{decode_one, encode, encode_flush, Pkt};
use wolfpack::server::{Output, RefEntry, RepoModel, Server};
use wolfpack::ProtocolError;

const OID_A: &[u8] = b"aaaaaaaaaaaaaaaaaaaaaaaaaaaaaaaaaaaaaaaa";
const OID_B: &[u8] = b"bbbbbbbbbbbbbbbbbbbbbbbbbbbbbbbbbbbbbbbb";
const OID_C: &[u8] = b"cccccccccccccccccccccccccccccccccccccccc";
const OID_X: &[u8] = b"1234567890123456789012345678901234567890";

fn repo_abc() -> RepoModel {
    RepoModel {
        head: OID_C.to_vec(),
        refs: vec![RefEntry { name: b"refs/heads/main".to_vec(), oid: OID_C.to_vec() }],
        commits: vec![OID_A.to_vec(), OID_B.to_vec(), OID_C.to_vec()],
    }
}

fn cmd_pkt(word: &[u8], oid: &[u8]) -> Vec<u8> {
    let mut p = word.to_vec();
    p.push(b' ');
    p.extend_from_slice(oid);
    encode(&p)
}

fn request_pkt(extra: &[u8]) -> Vec<u8> {
    let mut p = b"git-upload-pack /zds\x00host=localhost\x00".to_vec();
    p.extend_from_slice(extra);
    encode(&p)
}

fn sends(outs: &[Output]) -> Vec<Vec<u8>> {
    outs.iter()
        .filter_map(|o| match o {
            Output::Send(b) => Some(b.clone()),
            Output::BuildPack(_) => None,
        })
        .collect()
}

fn count_pkt_lines(mut buf: Vec<u8>) -> usize {
    let mut n = 0;
    while !buf.is_empty() {
        match decode_one(&buf).expect("well-formed advertisement") {
            Pkt::Line { consumed, .. } => {
                n += 1;
                buf.drain(..consumed);
            }
            Pkt::Flush => {
                n += 1;
                buf.drain(..4);
            }
            Pkt::Incomplete => panic!("truncated advertisement"),
        }
    }
    n
}

#[test]
fn advertisement_lists_head_then_each_ref() {
    let mut server = Server::new(repo_abc());
    let (outs, err) = server.recv(request_pkt(b""));
    assert!(err.is_none());
    let msgs = sends(&outs);
    assert_eq!(msgs.len(), 2);
    // one capability line and one line per listed ref
    assert_eq!(count_pkt_lines(msgs[0].clone()), 2);
    let mut expected = b"0074".to_vec();
    expected.extend_from_slice(OID_C);
    expected.extend_from_slice(
        b" HEAD\x00side-band side-band-64k shallow no-progress include-tag multi_ack\n",
    );
    let mut ref_line = b"003d".to_vec();
    ref_line.extend_from_slice(OID_C);
    ref_line.extend_from_slice(b" refs/heads/main\n");
    expected.extend_from_slice(&ref_line);
    assert_eq!(msgs[0], expected);
    // the advertisement closes with a FLUSH of its own
    assert_eq!(msgs[1], b"0000".to_vec());
}

#[test]
fn advertisement_with_tag_has_three_lines() {
    let mut repo = repo_abc();
    repo.refs.push(RefEntry { name: b"refs/tags/v1".to_vec(), oid: OID_A.to_vec() });
    let mut server = Server::new(repo);
    let (outs, err) = server.recv(request_pkt(b""));
    assert!(err.is_none());
    let msgs = sends(&outs);
    assert_eq!(count_pkt_lines(msgs[0].clone()), 3);
}

#[test]
fn negotiation_with_known_have_acks_it() {
    let mut server = Server::new(repo_abc());
    let (_, err) = server.recv(request_pkt(b""));
    assert!(err.is_none());
    let (outs, err) = server.recv(cmd_pkt(b"want", OID_C));
    assert!(err.is_none());
    assert!(outs.is_empty());
    let (outs, err) = server.recv(cmd_pkt(b"have", OID_B));
    assert!(err.is_none());
    assert!(outs.is_empty());
    let (outs, err) = server.recv(b"0009done\n".to_vec());
    assert!(err.is_none());
    assert_eq!(outs.len(), 2);
    let mut ack = b"0031ACK ".to_vec();
    ack.extend_from_slice(OID_B);
    ack.push(b'\n');
    assert!(matches!(&outs[0], Output::Send(b) if *b == ack));
    assert!(matches!(&outs[1], Output::BuildPack(w) if *w == OID_C.to_vec()));
    assert!(server.is_finished());
}

#[test]
fn negotiation_without_common_ancestor_naks() {
    let mut server = Server::new(repo_abc());
    let mut session = Vec::new();
    session.extend_from_slice(&cmd_pkt(b"want", OID_C));
    session.extend_from_slice(&cmd_pkt(b"have", OID_X));
    session.extend_from_slice(b"0009done\n");
    let (outs, err) = server.recv(session);
    assert!(err.is_none());
    assert_eq!(outs.len(), 2);
    assert!(matches!(&outs[0], Output::Send(b) if *b == b"0008NAK\n".to_vec()));
    assert!(matches!(&outs[1], Output::BuildPack(w) if *w == OID_C.to_vec()));
    assert!(server.is_finished());
}

#[test]
fn flush_after_haves_sends_ack_continue_then_nak() {
    let mut server = Server::new(repo_abc());
    let (_, _) = server.recv(cmd_pkt(b"want", OID_C));
    let (_, _) = server.recv(cmd_pkt(b"have", OID_B));
    let (outs, err) = server.recv(encode_flush());
    assert!(err.is_none());
    let msgs = sends(&outs);
    assert_eq!(msgs.len(), 2);
    let mut ack = b"003aACK ".to_vec();
    ack.extend_from_slice(OID_B);
    ack.extend_from_slice(b" continue\n");
    assert_eq!(msgs[0], ack);
    assert_eq!(msgs[1], b"0008NAK\n".to_vec());
    assert!(!server.is_finished());
}

#[test]
fn flush_before_any_want_ends_the_session() {
    let mut server = Server::new(repo_abc());
    let (outs, err) = server.recv(encode_flush());
    assert!(err.is_none());
    assert!(outs.is_empty());
    assert!(server.is_finished());
}

#[test]
fn flush_after_want_alone_is_quiet() {
    let mut server = Server::new(repo_abc());
    let (_, _) = server.recv(cmd_pkt(b"want", OID_C));
    let (outs, err) = server.recv(encode_flush());
    assert!(err.is_none());
    assert!(outs.is_empty());
    assert!(!server.is_finished());
}

#[test]
fn the_last_want_wins() {
    let mut server = Server::new(repo_abc());
    let (_, _) = server.recv(cmd_pkt(b"want", OID_B));
    let (_, _) = server.recv(cmd_pkt(b"want", OID_C));
    assert_eq!(server.wanted, OID_C.to_vec());
}

#[test]
fn first_matching_have_stays_common() {
    let mut server = Server::new(repo_abc());
    let (_, _) = server.recv(cmd_pkt(b"want", OID_C));
    let (_, _) = server.recv(cmd_pkt(b"have", OID_X));
    assert!(server.common.is_empty());
    let (_, _) = server.recv(cmd_pkt(b"have", OID_B));
    assert_eq!(server.common, OID_B.to_vec());
    let (_, _) = server.recv(cmd_pkt(b"have", OID_A));
    assert_eq!(server.common, OID_B.to_vec());
    assert_eq!(server.have.len(), 3);
}

#[test]
fn partial_delivery_matches_whole_delivery() {
    let pkt = cmd_pkt(b"want", OID_C);
    for i in 0..pkt.len() {
        let mut server = Server::new(repo_abc());
        let (outs, err) = server.recv(pkt[..i].to_vec());
        assert!(err.is_none());
        assert!(outs.is_empty());
        assert!(server.wanted.is_empty());
        let (outs, err) = server.recv(pkt[i..].to_vec());
        assert!(err.is_none());
        assert!(outs.is_empty());
        assert_eq!(server.wanted, OID_C.to_vec(), "split at {}", i);
    }
}

#[test]
fn second_request_line_is_refused() {
    let mut server = Server::new(repo_abc());
    let (_, err) = server.recv(request_pkt(b""));
    assert!(err.is_none());
    let (outs, err) = server.recv(request_pkt(b""));
    assert_eq!(err, Some(ProtocolError::UnexpectedRequest));
    assert!(outs.is_empty());
}

#[test]
fn version_one_is_accepted() {
    let mut server = Server::new(repo_abc());
    let (outs, err) = server.recv(request_pkt(b"\x00version=1\x00"));
    assert!(err.is_none());
    assert_eq!(sends(&outs).len(), 2);
}

#[test]
fn other_versions_are_refused() {
    let mut server = Server::new(repo_abc());
    let (outs, err) = server.recv(request_pkt(b"\x00version=2\x00"));
    assert_eq!(err, Some(ProtocolError::UnsupportedVersion));
    assert!(outs.is_empty());
}

#[test]
fn truncated_want_is_refused() {
    let mut server = Server::new(repo_abc());
    let (_, err) = server.recv(encode(&b"want abc\n".to_vec()));
    assert_eq!(err, Some(ProtocolError::TruncatedCommand));
}

#[test]
fn done_before_want_is_refused() {
    let mut server = Server::new(repo_abc());
    let (outs, err) = server.recv(b"0009done\n".to_vec());
    assert_eq!(err, Some(ProtocolError::MissingWant));
    assert!(outs.is_empty());
}

#[test]
fn bad_pkt_header_is_fatal() {
    let mut server = Server::new(repo_abc());
    let (_, err) = server.recv(b"zzzzNAK\n".to_vec());
    assert_eq!(err, Some(ProtocolError::BadLengthHex));
}

#[test]
fn unknown_lines_are_ignored() {
    let mut server = Server::new(repo_abc());
    let (outs, err) = server.recv(encode(&b"shallow deepen\n".to_vec()));
    assert!(err.is_none());
    assert!(outs.is_empty());
    assert!(!server.is_finished());
}

#[test]
fn a_second_done_is_ignored() {
    let mut server = Server::new(repo_abc());
    let (_, _) = server.recv(cmd_pkt(b"want", OID_C));
    let (outs, err) = server.recv(b"0009done\n".to_vec());
    assert!(err.is_none());
    assert_eq!(outs.len(), 2);
    let (outs, err) = server.recv(b"0009done\n".to_vec());
    assert!(err.is_none());
    assert!(outs.is_empty());
}

#[test]
fn flush_probe_with_no_common_ancestor_yet() {
    // haves were announced but none is held by the repository: the probe
    // still answers, with the common id still empty
    let mut server = Server::new(repo_abc());
    let (_, _) = server.recv(cmd_pkt(b"want", OID_C));
    let (_, _) = server.recv(cmd_pkt(b"have", OID_X));
    let (outs, err) = server.recv(encode_flush());
    assert!(err.is_none());
    let msgs = sends(&outs);
    assert_eq!(msgs[0], b"0012ACK  continue\n".to_vec());
    assert_eq!(msgs[1], b"0008NAK\n".to_vec());
}

#[test]
fn a_message_may_carry_several_pkt_lines() {
    let mut server = Server::new(repo_abc());
    let mut burst = request_pkt(b"");
    burst.extend_from_slice(&cmd_pkt(b"want", OID_C));
    burst.extend_from_slice(&encode_flush());
    let (outs, err) = server.recv(burst);
    assert!(err.is_none());
    // advertisement and its FLUSH; the want and the client's flush are quiet
    assert_eq!(sends(&outs).len(), 2);
    assert_eq!(server.wanted, OID_C.to_vec());
}
