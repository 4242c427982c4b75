use wolfpack::transport::{find_last_slash, take_prefix, url_ok, Action, TransportSession};

#[test]
fn the_first_call_frames_the_service_request() {
    let mut session = TransportSession::new(Action::UploadPackLs, b"wolf://localhost/zds".to_vec());
    let req = session.pending_request().expect("first call owes the request");
    assert_eq!(req, b"0028git-upload-pack /zds\x00host=localhost\x00".to_vec());
}

#[test]
fn only_one_request_leaves_a_session() {
    let mut session = TransportSession::new(Action::UploadPack, b"wolf://localhost/zds".to_vec());
    assert!(session.pending_request().is_some());
    for _ in 0..10 {
        assert!(session.pending_request().is_none());
    }
}

#[test]
fn list_and_plain_actions_share_the_command_word() {
    let url = b"wolf://h/r".to_vec();
    let mut ls = TransportSession::new(Action::UploadPackLs, url.clone());
    let mut plain = TransportSession::new(Action::UploadPack, url.clone());
    assert_eq!(ls.pending_request(), plain.pending_request());
}

#[test]
fn receive_actions_use_the_receive_command() {
    let mut session = TransportSession::new(Action::ReceivePackLs, b"wolf://h/repo".to_vec());
    let req = session.pending_request().expect("first call owes the request");
    assert_eq!(req, b"0022git-receive-pack /repo\x00host=h\x00".to_vec());
}

#[test]
fn the_url_splits_at_its_final_slash() {
    let mut session =
        TransportSession::new(Action::UploadPack, b"wolf://example/dir/repo".to_vec());
    let req = session.pending_request().expect("first call owes the request");
    assert_eq!(req, b"002bgit-upload-pack /repo\x00host=example/dir\x00".to_vec());
}

#[test]
fn find_last_slash_scans_from_the_end() {
    assert_eq!(find_last_slash(&b"wolf://h/r".to_vec()), Some(8));
    assert_eq!(find_last_slash(&b"a/b/c".to_vec()), Some(3));
    assert_eq!(find_last_slash(&b"no-slash".to_vec()), None);
    assert_eq!(find_last_slash(&Vec::new()), None);
}

#[test]
fn urls_without_a_path_slash_are_refused() {
    assert!(url_ok(&b"wolf://h/r".to_vec(), Action::UploadPack));
    assert!(!url_ok(&b"wolf://hr".to_vec(), Action::UploadPack));
    // the last slash must stand past the scheme
    assert!(!url_ok(&b"wolf://".to_vec(), Action::UploadPack));
    assert!(!url_ok(&b"bad/x".to_vec(), Action::UploadPack));
}

#[test]
fn reads_are_message_granular_and_truncate() {
    let msg = b"hello world".to_vec();
    assert_eq!(take_prefix(&msg, 64), b"hello world".to_vec());
    assert_eq!(take_prefix(&msg, 5), b"hello".to_vec());
    assert_eq!(take_prefix(&msg, 0), Vec::<u8>::new());
    assert_eq!(take_prefix(&Vec::new(), 16), Vec::<u8>::new());
}
