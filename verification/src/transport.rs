//! The client-side transport session.
//!
//! A pluggable smart transport adapts "read N bytes" / "write bytes" calls
//! into discrete channel messages. One [`TransportSession`] serves one git
//! operation; before its first read or write touches the channel it owes the
//! server a single framed service request, `<cmd> <repo>\0host=<host>\0` as a
//! pkt-line, parsed out of a `wolf://host/repo` url at its final slash.

use vstd::prelude::*;

use crate::bytes::copy_range;
use crate::pktline::{encode, spec_encode};
use crate::server::{upload_cmd_vec, upload_pack_cmd};

verus! {

/// One git operation the transport can carry.
#[derive(Clone, Copy, Debug, PartialEq, Eq, Structural)]
pub enum Action {
    UploadPackLs,
    UploadPack,
    ReceivePackLs,
    ReceivePack,
}

/// The bytes of `"git-receive-pack"`.
pub open spec fn receive_pack_cmd() -> Seq<u8> {
    seq![103u8, 105, 116, 45, 114, 101, 99, 101, 105, 118, 101, 45, 112, 97, 99, 107]
}

/// The command word the request leads with: the list and non-list variants of
/// one service share it.
pub open spec fn cmd_of(a: Action) -> Seq<u8> {
    match a {
        Action::UploadPackLs => upload_pack_cmd(),
        Action::UploadPack => upload_pack_cmd(),
        Action::ReceivePackLs => receive_pack_cmd(),
        Action::ReceivePack => receive_pack_cmd(),
    }
}

/// The bytes of `"host="`.
pub open spec fn host_tag() -> Seq<u8> {
    seq![104u8, 111, 115, 116, 61]
}

/// Position of the last `'/'` in `url`, or -1 where none stands.
pub open spec fn last_slash(url: Seq<u8>) -> int
    decreases url.len(),
{
    if url.len() == 0 {
        -1
    } else if url[url.len() - 1] == 47 {
        url.len() - 1
    } else {
        last_slash(url.take(url.len() - 1))
    }
}

/// A url this adapter can split: its final slash stands past the seven bytes
/// of `wolf://`, and it is short enough for the pkt-line length arithmetic.
pub open spec fn url_wf(url: Seq<u8>, a: Action) -> bool {
    &&& last_slash(url) >= 7
    &&& url.len() + cmd_of(a).len() + 5 <= 65535
}

/// The service request: command, space, repository path, NUL, `host=`, host,
/// NUL, pkt-line framed. Host and path split the url at its final slash.
pub open spec fn spec_request(a: Action, url: Seq<u8>) -> Seq<u8>
    recommends
        url_wf(url, a),
{
    let sep = last_slash(url);
    let host = url.subrange(7, sep);
    let repo = url.subrange(sep, url.len() as int);
    spec_encode(cmd_of(a) + seq![32u8] + repo + seq![0u8] + host_tag() + host + seq![0u8])
}

/// One transport session: one git operation over one url.
pub struct TransportSession {
    pub action: Action,
    pub url: Vec<u8>,
    /// Whether the one service request has left already.
    pub sent_request: bool,
}

/// Mathematical image of a [`TransportSession`].
#[verifier::ext_equal]
pub ghost struct SessionSpec {
    pub action: Action,
    pub url: Seq<u8>,
    pub sent_request: bool,
}

impl View for TransportSession {
    type V = SessionSpec;

    open spec fn view(&self) -> SessionSpec {
        SessionSpec { action: self.action, url: self.url@, sent_request: self.sent_request }
    }
}

/// What one read or write call does before touching the channel: the first
/// call of a session emits the service request, every later one nothing.
pub open spec fn spec_prepare(s: SessionSpec) -> (SessionSpec, Option<Seq<u8>>) {
    if s.sent_request {
        (s, None)
    } else {
        (SessionSpec { sent_request: true, ..s }, Some(spec_request(s.action, s.url)))
    }
}

/// How many service requests `n` successive calls emit.
pub open spec fn requests_in_calls(s: SessionSpec, n: nat) -> nat
    decreases n,
{
    if n == 0 {
        0
    } else {
        let (s2, r) = spec_prepare(s);
        (if r is Some {
            1nat
        } else {
            0nat
        }) + requests_in_calls(s2, (n - 1) as nat)
    }
}

/// A session whose request has left emits none, however many calls follow.
pub proof fn lemma_no_request_after(s: SessionSpec, n: nat)
    requires
        s.sent_request,
    ensures
        requests_in_calls(s, n) == 0,
    decreases n,
{
    if n > 0 {
        lemma_no_request_after(s, (n - 1) as nat);
    }
}

/// However many read and write calls a fresh session serves, exactly one
/// service request leaves it.
pub proof fn lemma_one_request(s: SessionSpec, n: nat)
    requires
        !s.sent_request,
        n >= 1,
    ensures
        requests_in_calls(s, n) == 1,
{
    let (s2, r) = spec_prepare(s);
    lemma_no_request_after(s2, (n - 1) as nat);
}

/// The bytes of `"git-receive-pack"`.
fn receive_cmd_vec() -> (v: Vec<u8>)
    ensures
        v@ == receive_pack_cmd(),
{
    let mut v: Vec<u8> = Vec::new();
    v.push(103);
    v.push(105);
    v.push(116);
    v.push(45);
    v.push(114);
    v.push(101);
    v.push(99);
    v.push(101);
    v.push(105);
    v.push(118);
    v.push(101);
    v.push(45);
    v.push(112);
    v.push(97);
    v.push(99);
    v.push(107);
    proof {
        assert(v@ =~= receive_pack_cmd());
    }
    v
}

/// The command word for this action.
fn cmd_vec(a: Action) -> (v: Vec<u8>)
    ensures
        v@ == cmd_of(a),
{
    match a {
        Action::UploadPackLs => upload_cmd_vec(),
        Action::UploadPack => upload_cmd_vec(),
        Action::ReceivePackLs => receive_cmd_vec(),
        Action::ReceivePack => receive_cmd_vec(),
    }
}

/// Index of the last `'/'` in `url`, or `None` where none stands.
pub fn find_last_slash(url: &Vec<u8>) -> (r: Option<usize>)
    ensures
        match r {
            Some(i) => i == last_slash(url@) && i < url@.len(),
            None => last_slash(url@) == -1,
        },
{
    let mut i: usize = url.len();
    proof {
        assert(url@.take(i as int) =~= url@);
    }
    while i > 0
        invariant
            0 <= i <= url@.len(),
            last_slash(url@) == last_slash(url@.take(i as int)),
        decreases i,
    {
        i = i - 1;
        if url[i] == 47 {
            proof {
                assert(url@.take(i + 1)[i as int] == url@[i as int]);
            }
            return Some(i);
        }
        proof {
            assert(url@.take(i + 1)[i as int] == url@[i as int]);
            assert(url@.take(i + 1).take(i as int) =~= url@.take(i as int));
        }
    }
    None
}

/// Does the adapter know how to split this url for this action?
pub fn url_ok(url: &Vec<u8>, action: Action) -> (r: bool)
    ensures
        r == url_wf(url@, action),
{
    let cmd_len: usize = match action {
        Action::UploadPackLs => 15,
        Action::UploadPack => 15,
        Action::ReceivePackLs => 16,
        Action::ReceivePack => 16,
    };
    if url.len() > 65535 - 5 - cmd_len {
        return false;
    }
    match find_last_slash(url) {
        Some(i) => i >= 7,
        None => false,
    }
}

impl TransportSession {
    /// A fresh session; its service request has not left yet.
    pub fn new(action: Action, url: Vec<u8>) -> (s: Self)
        ensures
            s@.action == action,
            s@.url == url@,
            !s@.sent_request,
    {
        TransportSession { action, url, sent_request: false }
    }

    /// The message owed to the channel before this read or write: the service
    /// request on the session's first call, nothing afterwards.
    pub fn pending_request(&mut self) -> (r: Option<Vec<u8>>)
        requires
            url_wf(old(self)@.url, old(self)@.action),
        ensures
            ({
                let (s2, msg) = spec_prepare(old(self)@);
                &&& final(self)@ == s2
                &&& match r {
                    Some(v) => msg matches Some(m) && v@ == m,
                    None => msg is None,
                }
            }),
    {
        if self.sent_request {
            return None;
        }
        self.sent_request = true;
        let sep = match find_last_slash(&self.url) {
            Some(i) => i,
            None => {
                proof {
                    assert(false);
                }
                0
            },
        };
        let host = copy_range(&self.url, 7, sep);
        let repo = copy_range(&self.url, sep, self.url.len());
        let mut payload = cmd_vec(self.action);
        payload.push(32);
        let mut repo = repo;
        payload.append(&mut repo);
        payload.push(0);
        payload.push(104);
        payload.push(111);
        payload.push(115);
        payload.push(116);
        payload.push(61);
        let mut host = host;
        payload.append(&mut host);
        payload.push(0);
        proof {
            let u = old(self)@.url;
            let sep_s = last_slash(u);
            assert(payload@ =~= cmd_of(old(self)@.action) + seq![32u8] + u.subrange(
                sep_s,
                u.len() as int,
            ) + seq![0u8] + host_tag() + u.subrange(7, sep_s) + seq![0u8]);
        }
        Some(encode(&payload))
    }
}

/// What a read call hands its caller out of one channel message: the
/// message's bytes up to the caller's capacity; bytes past it are lost.
pub fn take_prefix(msg: &Vec<u8>, cap: usize) -> (r: Vec<u8>)
    ensures
        r@ == msg@.take(
            if cap <= msg@.len() {
                cap as int
            } else {
                msg@.len() as int
            },
        ),
{
    let n = if cap <= msg.len() {
        cap
    } else {
        msg.len()
    };
    let r = copy_range(msg, 0, n);
    proof {
        assert(msg@.subrange(0, n as int) =~= msg@.take(n as int));
    }
    r
}

} // verus!
