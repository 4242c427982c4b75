//! The pack-protocol negotiation state machine.
//!
//! One `Server` serves one session over one repository. It consumes raw bytes
//! from the channel, reassembles pkt-lines across message boundaries, and
//! answers with reference advertisement, ACK/NAK acknowledgements and finally
//! a request to build and stream a pack.
//!
//! The repository itself is an outside collaborator. The server works on a
//! [`RepoModel`]: a plain-value snapshot of what the protocol reads from it —
//! the object id `HEAD` resolves to, the advertised references, and the set of
//! commit ids the repository holds.

use vstd::prelude::*;

use crate::bytes::{bytes_eq, copy_bytes, copy_range, has_prefix, matches_at, starts_with};
use crate::pktline::{
    decode_one, encode, spec_decode, spec_encode, spec_flush, tail_from, Pkt, SpecPkt,
};
use crate::ProtocolError;

verus! {

// ---------------------------------------------------------------------------
// Wire literals
// ---------------------------------------------------------------------------

/// The bytes of `"git-upload-pack"`.
pub open spec fn upload_pack_cmd() -> Seq<u8> {
    seq![103u8, 105, 116, 45, 117, 112, 108, 111, 97, 100, 45, 112, 97, 99, 107]
}

/// The bytes of `"want"`.
pub open spec fn want_cmd() -> Seq<u8> {
    seq![119u8, 97, 110, 116]
}

/// The bytes of `"have"`.
pub open spec fn have_cmd() -> Seq<u8> {
    seq![104u8, 97, 118, 101]
}

/// The bytes of `"done\n"`: the payload of the literal `"0009done\n"` pkt-line.
pub open spec fn done_line() -> Seq<u8> {
    seq![100u8, 111, 110, 101, 10]
}

/// The bytes of `"version="`.
pub open spec fn version_tag() -> Seq<u8> {
    seq![118u8, 101, 114, 115, 105, 111, 110, 61]
}

/// The bytes of `" HEAD\0side-band side-band-64k shallow no-progress include-tag multi_ack"`:
/// what the capability line carries after the head object id.
pub open spec fn cap_suffix() -> Seq<u8> {
    seq![32u8, 72, 69, 65, 68, 0]  // " HEAD\0"
    + seq![115u8, 105, 100, 101, 45, 98, 97, 110, 100, 32]  // "side-band "
    + seq![115u8, 105, 100, 101, 45, 98, 97, 110, 100, 45, 54, 52, 107, 32]  // "side-band-64k "
    + seq![115u8, 104, 97, 108, 108, 111, 119, 32]  // "shallow "
    + seq![110u8, 111, 45, 112, 114, 111, 103, 114, 101, 115, 115, 32]  // "no-progress "
    + seq![105u8, 110, 99, 108, 117, 100, 101, 45, 116, 97, 103, 32]  // "include-tag "
    + seq![109u8, 117, 108, 116, 105, 95, 97, 99, 107]  // "multi_ack"
}

/// The bytes of `"NAK\n"`.
pub open spec fn nak_payload() -> Seq<u8> {
    seq![78u8, 65, 75, 10]
}

/// The bytes of `"ACK "`.
pub open spec fn ack_prefix() -> Seq<u8> {
    seq![65u8, 67, 75, 32]
}

/// The bytes of `" continue\n"`.
pub open spec fn continue_suffix() -> Seq<u8> {
    seq![32u8, 99, 111, 110, 116, 105, 110, 117, 101, 10]
}

// ---------------------------------------------------------------------------
// Acknowledgement frames
// ---------------------------------------------------------------------------

/// The NAK pkt-line, the exact wire bytes `"0008NAK\n"`.
pub open spec fn nak_pkt() -> Seq<u8> {
    spec_encode(nak_payload())
}

/// The first acknowledgement: `"ACK <common>\n"`, pkt-line framed.
pub open spec fn ack_first_pkt(common: Seq<u8>) -> Seq<u8> {
    spec_encode(ack_prefix() + common + seq![10u8])
}

/// The probing acknowledgement: `"ACK <common> continue\n"`, pkt-line framed.
pub open spec fn ack_continue_pkt(common: Seq<u8>) -> Seq<u8> {
    spec_encode(ack_prefix() + common + continue_suffix())
}

// ---------------------------------------------------------------------------
// Repository snapshot
// ---------------------------------------------------------------------------

/// One advertised reference: its full name and the object id it points at.
pub struct RefEntry {
    pub name: Vec<u8>,
    pub oid: Vec<u8>,
}

/// Mathematical image of a [`RefEntry`].
#[verifier::ext_equal]
pub ghost struct RefSpec {
    pub name: Seq<u8>,
    pub oid: Seq<u8>,
}

impl View for RefEntry {
    type V = RefSpec;

    open spec fn view(&self) -> RefSpec {
        RefSpec { name: self.name@, oid: self.oid@ }
    }
}

/// Plain-value snapshot of the one repository the server serves: the object id
/// `HEAD` resolves to, the references to advertise, and the ids of the commits
/// the repository holds (what a lookup by id would find).
pub struct RepoModel {
    pub head: Vec<u8>,
    pub refs: Vec<RefEntry>,
    pub commits: Vec<Vec<u8>>,
}

/// Mathematical image of a [`RepoModel`].
#[verifier::ext_equal]
pub ghost struct RepoSpec {
    pub head: Seq<u8>,
    pub refs: Seq<RefSpec>,
    pub commits: Seq<Seq<u8>>,
}

impl View for RepoModel {
    type V = RepoSpec;

    open spec fn view(&self) -> RepoSpec {
        RepoSpec {
            head: self.head@,
            refs: self.refs@.map(|i: int, r: RefEntry| r@),
            commits: self.commits@.map(|i: int, c: Vec<u8>| c@),
        }
    }
}

/// Well-formed snapshot: object ids are 40 hex characters long and reference
/// names leave room for the pkt-line length arithmetic.
pub open spec fn repo_wf(r: RepoSpec) -> bool {
    &&& r.head.len() == 40
    &&& forall|i: int|
        0 <= i < r.refs.len() ==> (#[trigger] r.refs[i]).oid.len() == 40 && r.refs[i].name.len()
            <= 65489
}

// ---------------------------------------------------------------------------
// Server state and outputs
// ---------------------------------------------------------------------------

/// Where the session stands.
#[derive(Clone, Copy, Debug, PartialEq, Eq, Structural)]
pub enum SessionState {
    /// No request line has arrived yet.
    AwaitingRequest,
    /// The client is naming wants and haves.
    Negotiating,
    /// Negotiation is finished: the one pack answer has been issued, or the
    /// client left. The run loop stops here.
    Done,
}

/// What the server asks its caller to do, in order.
pub enum Output {
    /// Send these bytes as one channel message.
    Send(Vec<u8>),
    /// Build the pack for this wanted commit id and stream it. The caller
    /// walks the commit graph, keeps the ids `select_commits` picks, and sends
    /// the side-band frames followed by one FLUSH pkt-line.
    BuildPack(Vec<u8>),
}

/// Mathematical image of an [`Output`].
pub ghost enum SpecOut {
    Send(Seq<u8>),
    BuildPack(Seq<u8>),
}

impl View for Output {
    type V = SpecOut;

    open spec fn view(&self) -> SpecOut {
        match self {
            Output::Send(b) => SpecOut::Send(b@),
            Output::BuildPack(b) => SpecOut::BuildPack(b@),
        }
    }
}

/// The images of a sequence of outputs.
pub open spec fn outs_view(v: Seq<Output>) -> Seq<SpecOut> {
    v.map(|i: int, o: Output| o@)
}

/// One pack-protocol session over one repository snapshot.
pub struct Server {
    pub repo: RepoModel,
    pub state: SessionState,
    /// The commit the client asked for; empty until a want line arrives, then
    /// the id of the last want line (single-want policy).
    pub wanted: Vec<u8>,
    /// First have the repository also holds; set once, never overwritten.
    pub common: Vec<u8>,
    /// Every have the client announced, in arrival order.
    pub have: Vec<Vec<u8>>,
    /// Raw bytes received but not yet consumed as complete pkt-lines.
    pub buf: Vec<u8>,
}

/// Mathematical image of a [`Server`].
#[verifier::ext_equal]
pub ghost struct ServerSpec {
    pub repo: RepoSpec,
    pub state: SessionState,
    pub wanted: Seq<u8>,
    pub common: Seq<u8>,
    pub have: Seq<Seq<u8>>,
    pub buf: Seq<u8>,
}

impl View for Server {
    type V = ServerSpec;

    open spec fn view(&self) -> ServerSpec {
        ServerSpec {
            repo: self.repo@,
            state: self.state,
            wanted: self.wanted@,
            common: self.common@,
            have: self.have@.map(|i: int, h: Vec<u8>| h@),
            buf: self.buf@,
        }
    }
}

/// Well-formed session: the snapshot is well formed and the retained object
/// ids are empty or exactly 40 bytes, as the acknowledgement length
/// arithmetic expects.
pub open spec fn server_wf(s: ServerSpec) -> bool {
    &&& repo_wf(s.repo)
    &&& s.wanted.len() == 0 || s.wanted.len() == 40
    &&& s.common.len() == 0 || s.common.len() == 40
}

/// `s` with another inbound buffer.
pub open spec fn with_buf(s: ServerSpec, b: Seq<u8>) -> ServerSpec {
    ServerSpec { buf: b, ..s }
}

// ---------------------------------------------------------------------------
// Line classification
// ---------------------------------------------------------------------------

/// The payload opens a session: it leads with `"git-upload-pack"`.
pub open spec fn is_upload_pack(p: Seq<u8>) -> bool {
    starts_with(p, upload_pack_cmd())
}

/// The payload is a want line: it leads with `"want"`.
pub open spec fn is_want(p: Seq<u8>) -> bool {
    starts_with(p, want_cmd())
}

/// The payload is a have line: it leads with `"have"`.
pub open spec fn is_have(p: Seq<u8>) -> bool {
    starts_with(p, have_cmd())
}

/// The payload ends negotiation: it is exactly `"done\n"`.
pub open spec fn is_done(p: Seq<u8>) -> bool {
    p == done_line()
}

/// The object id of a want or have line: the 40 bytes after the command word
/// and one separator, 9 characters into the frame counted with its header.
pub open spec fn line_oid(p: Seq<u8>) -> Seq<u8> {
    p.subrange(5, 45)
}

/// Position of the first `"version="` at or past `i`, or -1.
pub open spec fn find_version(p: Seq<u8>, i: int) -> int
    recommends
        0 <= i,
    decreases p.len() - i when 0 <= i <= p.len()
{
    if i + 8 > p.len() {
        -1
    } else if p.subrange(i, i + 8) == version_tag() {
        i
    } else {
        find_version(p, i + 1)
    }
}

/// The request names no protocol version other than 1: either no `"version="`
/// parameter occurs, or the value after the first one is exactly `"1"`,
/// closed by a NUL or by the end of the payload.
pub open spec fn version_ok(p: Seq<u8>) -> bool {
    let j = find_version(p, 0);
    ||| j < 0
    ||| (j + 8 < p.len() && p[j + 8] == 49 && (j + 9 == p.len() || p[j + 9] == 0))
}

// ---------------------------------------------------------------------------
// Reference advertisement
// ---------------------------------------------------------------------------

/// The capability line: head id, `" HEAD\0"`, the capability list and a
/// newline, pkt-line framed.
pub open spec fn cap_line(head: Seq<u8>) -> Seq<u8> {
    spec_encode(head + cap_suffix() + seq![10u8])
}

/// One advertised reference line: `"<oid> <name>\n"`, pkt-line framed.
pub open spec fn ref_line(r: RefSpec) -> Seq<u8> {
    spec_encode(r.oid + seq![32u8] + r.name + seq![10u8])
}

/// The advertised reference lines, in order.
pub open spec fn ref_lines(refs: Seq<RefSpec>) -> Seq<u8>
    decreases refs.len(),
{
    if refs.len() == 0 {
        Seq::empty()
    } else {
        ref_line(refs[0]) + ref_lines(refs.skip(1))
    }
}

/// The whole advertisement message: capability line, then one line per
/// reference. (The closing FLUSH travels as a message of its own.)
pub open spec fn advertisement(r: RepoSpec) -> Seq<u8> {
    cap_line(r.head) + ref_lines(r.refs)
}

// ---------------------------------------------------------------------------
// The state machine, one pkt-line at a time
// ---------------------------------------------------------------------------

/// Result of feeding the server: the state after, what it asks the caller to
/// do, and the protocol failure that ended the session early, if one did.
#[verifier::ext_equal]
pub ghost struct StepOut {
    pub s: ServerSpec,
    pub outs: Seq<SpecOut>,
    pub err: Option<ProtocolError>,
}

/// An unchanged state with a fatal error and nothing to send.
pub open spec fn step_err(s: ServerSpec, e: ProtocolError) -> StepOut {
    StepOut { s, outs: Seq::empty(), err: Some(e) }
}

/// A state with nothing to send and no error.
pub open spec fn step_quiet(s: ServerSpec) -> StepOut {
    StepOut { s, outs: Seq::empty(), err: None }
}

/// Negotiation has begun: an awaiting session moves on, any other stays.
pub open spec fn negotiating(st: SessionState) -> SessionState {
    if st == SessionState::AwaitingRequest {
        SessionState::Negotiating
    } else {
        st
    }
}

/// What one payload-carrying pkt-line does to the session, in the priority
/// order of the leading token.
///
/// - `git-upload-pack`: only valid while awaiting the request, and only for
///   protocol version 1; advertises the references and a FLUSH.
/// - `want`: retains the object id 9 characters in; the last want wins.
/// - `have`: retains the id in arrival order; the first one the repository
///   holds becomes the common ancestor, never overwritten.
/// - `done`: a NAK when no common ancestor was found, else the first ACK,
///   then the pack; one negotiation attempt per session, so a second done is
///   ignored. A done before any want is a fatal protocol error.
/// - anything else is ignored.
#[verifier::opaque]
pub open spec fn step_line(s: ServerSpec, p: Seq<u8>) -> StepOut {
    if is_upload_pack(p) {
        if s.state != SessionState::AwaitingRequest {
            step_err(s, ProtocolError::UnexpectedRequest)
        } else if !version_ok(p) {
            step_err(s, ProtocolError::UnsupportedVersion)
        } else {
            StepOut {
                s: ServerSpec { state: SessionState::Negotiating, ..s },
                outs: seq![
                    SpecOut::Send(advertisement(s.repo)),
                    SpecOut::Send(spec_flush()),
                ],
                err: None,
            }
        }
    } else if is_want(p) {
        if p.len() < 45 {
            step_err(s, ProtocolError::TruncatedCommand)
        } else {
            step_quiet(
                ServerSpec { state: negotiating(s.state), wanted: line_oid(p), ..s },
            )
        }
    } else if is_have(p) {
        if p.len() < 45 {
            step_err(s, ProtocolError::TruncatedCommand)
        } else {
            let oid = line_oid(p);
            let common = if s.common.len() == 0 && s.repo.commits.contains(oid) {
                oid
            } else {
                s.common
            };
            step_quiet(
                ServerSpec {
                    state: negotiating(s.state),
                    common,
                    have: s.have.push(oid),
                    ..s
                },
            )
        }
    } else if is_done(p) {
        if s.state == SessionState::Done {
            step_quiet(s)
        } else if s.wanted.len() == 0 {
            step_err(s, ProtocolError::MissingWant)
        } else {
            let ack = if s.common.len() == 0 {
                nak_pkt()
            } else {
                ack_first_pkt(s.common)
            };
            StepOut {
                s: ServerSpec { state: SessionState::Done, ..s },
                outs: seq![SpecOut::Send(ack), SpecOut::BuildPack(s.wanted)],
                err: None,
            }
        }
    } else {
        step_quiet(s)
    }
}

/// What a FLUSH pkt does to the session.
///
/// With haves announced it is the legacy probe: answer an ACK-continue for
/// the common ancestor (possibly still empty) followed by a NAK, and keep
/// negotiating. With no have and no want ever received it is the graceful end
/// of a discovery-only session. Otherwise nothing happens.
#[verifier::opaque]
pub open spec fn step_flush(s: ServerSpec) -> StepOut {
    if s.have.len() > 0 {
        StepOut {
            s,
            outs: seq![
                SpecOut::Send(ack_continue_pkt(s.common)),
                SpecOut::Send(nak_pkt()),
            ],
            err: None,
        }
    } else if s.wanted.len() == 0 {
        step_quiet(ServerSpec { state: SessionState::Done, ..s })
    } else {
        step_quiet(s)
    }
}

/// Feeding the server until its buffer holds no further complete pkt-line:
/// decode the line at the front, consume it, step, and go on. A malformed
/// header stops the session with the buffer left as it stands; a failing step
/// stops it with the offending line consumed. Outputs gather in order.
#[verifier::opaque]
pub open spec fn drain(s: ServerSpec) -> StepOut
    decreases s.buf.len(),
{
    match spec_decode(s.buf) {
        SpecPkt::Incomplete => step_quiet(s),
        SpecPkt::BadHex => step_err(s, ProtocolError::BadLengthHex),
        SpecPkt::TooSmall => step_err(s, ProtocolError::LengthTooSmall),
        SpecPkt::Flush => {
            let r1 = step_flush(with_buf(s, s.buf.skip(4)));
            if r1.err is Some {
                r1
            } else {
                let rest = drain(with_buf(r1.s, s.buf.skip(4)));
                StepOut { s: rest.s, outs: r1.outs + rest.outs, err: rest.err }
            }
        },
        SpecPkt::Line { payload, consumed } => {
            let r1 = step_line(with_buf(s, s.buf.skip(consumed as int)), payload);
            if r1.err is Some {
                r1
            } else {
                let rest = drain(with_buf(r1.s, s.buf.skip(consumed as int)));
                StepOut { s: rest.s, outs: r1.outs + rest.outs, err: rest.err }
            }
        },
    }
}

/// A buffer with no complete line at its front drains to nothing.
proof fn lemma_drain_incomplete(s: ServerSpec)
    requires
        spec_decode(s.buf) is Incomplete,
    ensures
        drain(s) == step_quiet(s),
{
    reveal_with_fuel(crate::server::drain, 1);
}

/// A malformed header stops the drain at once, buffer untouched.
proof fn lemma_drain_bad(s: ServerSpec)
    ensures
        spec_decode(s.buf) is BadHex ==> drain(s) == step_err(s, ProtocolError::BadLengthHex),
        spec_decode(s.buf) is TooSmall ==> drain(s) == step_err(s, ProtocolError::LengthTooSmall),
{
    reveal_with_fuel(crate::server::drain, 1);
}

/// A complete pkt-line at the front: the drain consumes it, steps, and either
/// stops on the step's error or gathers its outputs before the rest.
proof fn lemma_drain_step(s: ServerSpec, r1: StepOut)
    requires
        ({
            ||| (spec_decode(s.buf) is Flush && r1 == step_flush(with_buf(s, s.buf.skip(4)))
                && r1.s.buf == s.buf.skip(4))
            ||| (spec_decode(s.buf) matches SpecPkt::Line { payload, consumed } && r1 == step_line(
                with_buf(s, s.buf.skip(consumed as int)),
                payload,
            ) && r1.s.buf == s.buf.skip(consumed as int))
        }),
    ensures
        r1.err is Some ==> drain(s) == r1,
        r1.err is None ==> drain(s) == (StepOut {
            s: drain(r1.s).s,
            outs: r1.outs + drain(r1.s).outs,
            err: drain(r1.s).err,
        }),
{
    reveal_with_fuel(crate::server::drain, 1);
    if spec_decode(s.buf) is Flush {
        assert(with_buf(r1.s, s.buf.skip(4)) =~= r1.s);
    } else {
        let consumed = spec_decode(s.buf)->Line_consumed;
        assert(with_buf(r1.s, s.buf.skip(consumed as int)) =~= r1.s);
    }
}

// ---------------------------------------------------------------------------
// Byte helpers
// ---------------------------------------------------------------------------

/// Does the snapshot hold a commit with this id?
pub fn commits_contain(repo: &RepoModel, oid: &Vec<u8>) -> (r: bool)
    ensures
        r == repo@.commits.contains(oid@),
{
    let mut i: usize = 0;
    while i < repo.commits.len()
        invariant
            0 <= i <= repo.commits@.len(),
            forall|k: int| 0 <= k < i ==> repo@.commits[k] != oid@,
        decreases repo.commits@.len() - i,
    {
        if bytes_eq(&repo.commits[i], oid) {
            proof {
                assert(repo@.commits[i as int] == oid@);
            }
            return true;
        }
        i = i + 1;
    }
    false
}

// ---------------------------------------------------------------------------
// Wire literal builders
// ---------------------------------------------------------------------------

/// The bytes of `"git-upload-pack"`.
pub(crate) fn upload_cmd_vec() -> (v: Vec<u8>)
    ensures
        v@ == upload_pack_cmd(),
{
    let mut v: Vec<u8> = Vec::new();
    v.push(103);
    v.push(105);
    v.push(116);
    v.push(45);
    v.push(117);
    v.push(112);
    v.push(108);
    v.push(111);
    v.push(97);
    v.push(100);
    v.push(45);
    v.push(112);
    v.push(97);
    v.push(99);
    v.push(107);
    proof {
        assert(v@ =~= upload_pack_cmd());
    }
    v
}

/// The bytes of `"want"`.
fn want_vec() -> (v: Vec<u8>)
    ensures
        v@ == want_cmd(),
{
    let mut v: Vec<u8> = Vec::new();
    v.push(119);
    v.push(97);
    v.push(110);
    v.push(116);
    proof {
        assert(v@ =~= want_cmd());
    }
    v
}

/// The bytes of `"have"`.
fn have_vec() -> (v: Vec<u8>)
    ensures
        v@ == have_cmd(),
{
    let mut v: Vec<u8> = Vec::new();
    v.push(104);
    v.push(97);
    v.push(118);
    v.push(101);
    proof {
        assert(v@ =~= have_cmd());
    }
    v
}

/// The bytes of `"done\n"`.
fn done_vec() -> (v: Vec<u8>)
    ensures
        v@ == done_line(),
{
    let mut v: Vec<u8> = Vec::new();
    v.push(100);
    v.push(111);
    v.push(110);
    v.push(101);
    v.push(10);
    proof {
        assert(v@ =~= done_line());
    }
    v
}

/// The bytes of `"version="`.
fn version_tag_vec() -> (v: Vec<u8>)
    ensures
        v@ == version_tag(),
{
    let mut v: Vec<u8> = Vec::new();
    v.push(118);
    v.push(101);
    v.push(114);
    v.push(115);
    v.push(105);
    v.push(111);
    v.push(110);
    v.push(61);
    proof {
        assert(v@ =~= version_tag());
    }
    v
}

/// The capability-line bytes after the head id, segment by segment.
fn cap_suffix_vec() -> (v: Vec<u8>)
    ensures
        v@ == cap_suffix(),
{
    let mut v: Vec<u8> = Vec::new();
    v.push(32);
    v.push(72);
    v.push(69);
    v.push(65);
    v.push(68);
    v.push(0);
    proof {
        assert(v@ =~= seq![32u8, 72, 69, 65, 68, 0]);
    }
    let mut s1 = side_band_word(false);
    v.append(&mut s1);
    let mut s2 = side_band_word(true);
    v.append(&mut s2);
    let mut s3: Vec<u8> = Vec::new();
    s3.push(115);
    s3.push(104);
    s3.push(97);
    s3.push(108);
    s3.push(108);
    s3.push(111);
    s3.push(119);
    s3.push(32);
    proof {
        assert(s3@ =~= seq![115u8, 104, 97, 108, 108, 111, 119, 32]);
    }
    v.append(&mut s3);
    let mut s4: Vec<u8> = Vec::new();
    s4.push(110);
    s4.push(111);
    s4.push(45);
    s4.push(112);
    s4.push(114);
    s4.push(111);
    s4.push(103);
    s4.push(114);
    s4.push(101);
    s4.push(115);
    s4.push(115);
    s4.push(32);
    proof {
        assert(s4@ =~= seq![110u8, 111, 45, 112, 114, 111, 103, 114, 101, 115, 115, 32]);
    }
    v.append(&mut s4);
    let mut s5: Vec<u8> = Vec::new();
    s5.push(105);
    s5.push(110);
    s5.push(99);
    s5.push(108);
    s5.push(117);
    s5.push(100);
    s5.push(101);
    s5.push(45);
    s5.push(116);
    s5.push(97);
    s5.push(103);
    s5.push(32);
    proof {
        assert(s5@ =~= seq![105u8, 110, 99, 108, 117, 100, 101, 45, 116, 97, 103, 32]);
    }
    v.append(&mut s5);
    let mut s6: Vec<u8> = Vec::new();
    s6.push(109);
    s6.push(117);
    s6.push(108);
    s6.push(116);
    s6.push(105);
    s6.push(95);
    s6.push(97);
    s6.push(99);
    s6.push(107);
    proof {
        assert(s6@ =~= seq![109u8, 117, 108, 116, 105, 95, 97, 99, 107]);
    }
    v.append(&mut s6);
    v
}

/// The bytes of `"side-band "`, or of `"side-band-64k "`.
fn side_band_word(wide: bool) -> (v: Vec<u8>)
    ensures
        !wide ==> v@ == seq![115u8, 105, 100, 101, 45, 98, 97, 110, 100, 32],
        wide ==> v@ == seq![115u8, 105, 100, 101, 45, 98, 97, 110, 100, 45, 54, 52, 107, 32],
{
    let mut v: Vec<u8> = Vec::new();
    v.push(115);
    v.push(105);
    v.push(100);
    v.push(101);
    v.push(45);
    v.push(98);
    v.push(97);
    v.push(110);
    v.push(100);
    if wide {
        v.push(45);
        v.push(54);
        v.push(52);
        v.push(107);
    }
    v.push(32);
    proof {
        if wide {
            assert(v@ =~= seq![115u8, 105, 100, 101, 45, 98, 97, 110, 100, 45, 54, 52, 107, 32]);
        } else {
            assert(v@ =~= seq![115u8, 105, 100, 101, 45, 98, 97, 110, 100, 32]);
        }
    }
    v
}

/// The bytes of `" continue\n"`.
fn continue_suffix_vec() -> (v: Vec<u8>)
    ensures
        v@ == continue_suffix(),
{
    let mut v: Vec<u8> = Vec::new();
    v.push(32);
    v.push(99);
    v.push(111);
    v.push(110);
    v.push(116);
    v.push(105);
    v.push(110);
    v.push(117);
    v.push(101);
    v.push(10);
    proof {
        assert(v@ =~= continue_suffix());
    }
    v
}

// ---------------------------------------------------------------------------
// Version parameter scan
// ---------------------------------------------------------------------------

/// Accept the request unless it names a protocol version other than 1.
fn version_param_ok(p: &Vec<u8>) -> (r: bool)
    ensures
        r == version_ok(p@),
{
    let tag = version_tag_vec();
    let plen = p.len();
    if plen < 8 {
        return true;
    }
    let mut j: usize = 0;
    while j <= plen - 8
        invariant
            p@.len() == plen,
            plen >= 8,
            tag@ == version_tag(),
            0 <= j <= plen,
            find_version(p@, 0) == find_version(p@, j as int),
        decreases plen - j,
    {
        if matches_at(p, j, &tag) {
            // the first "version=" stands at j
            let ok = j + 8 < plen && p[j + 8] == 49 && (j + 9 == plen || p[j + 9] == 0);
            proof {
                assert(find_version(p@, j as int) == j);
            }
            return ok;
        }
        j = j + 1;
    }
    proof {
        assert(find_version(p@, j as int) == -1);
    }
    true
}

// ---------------------------------------------------------------------------
// Advertisement builder
// ---------------------------------------------------------------------------

/// Appending one reference extends the advertised lines by its line.
proof fn lemma_ref_lines_snoc(refs: Seq<RefSpec>, i: int)
    requires
        0 <= i < refs.len(),
    ensures
        ref_lines(refs.take(i + 1)) == ref_lines(refs.take(i)) + ref_line(refs[i]),
    decreases i,
{
    if i == 0 {
        assert(refs.take(1).skip(1) =~= Seq::<RefSpec>::empty());
        assert(refs.take(1)[0] == refs[0]);
        assert(refs.take(0) =~= Seq::<RefSpec>::empty());
        assert(ref_lines(Seq::<RefSpec>::empty()) == Seq::<u8>::empty());
        assert(ref_lines(refs.take(1)) == ref_line(refs[0]) + Seq::<u8>::empty());
        assert(ref_line(refs[0]) + Seq::<u8>::empty() =~= Seq::<u8>::empty() + ref_line(refs[0]));
    } else {
        let t = refs.skip(1);
        lemma_ref_lines_snoc(t, i - 1);
        assert(refs.take(i + 1).skip(1) =~= t.take(i));
        assert(refs.take(i).skip(1) =~= t.take(i - 1));
        assert(refs.take(i + 1)[0] == refs[0]);
        assert(refs.take(i)[0] == refs[0]);
        assert(t[i - 1] == refs[i]);
        assert(ref_line(refs[0]) + (ref_lines(t.take(i - 1)) + ref_line(refs[i])) =~= (ref_line(
            refs[0],
        ) + ref_lines(t.take(i - 1))) + ref_line(refs[i]));
    }
}

/// The whole advertisement message for this snapshot.
pub fn build_advertisement(repo: &RepoModel) -> (v: Vec<u8>)
    requires
        repo_wf(repo@),
    ensures
        v@ == advertisement(repo@),
{
    let mut payload: Vec<u8> = Vec::new();
    payload.extend_from_slice(repo.head.as_slice());
    let mut suffix = cap_suffix_vec();
    payload.append(&mut suffix);
    payload.push(10);
    proof {
        assert(payload@ =~= repo@.head + cap_suffix() + seq![10u8]);
    }
    let mut v = encode(&payload);
    let n = repo.refs.len();
    let mut i: usize = 0;
    proof {
        assert(repo@.refs.take(0) =~= Seq::<RefSpec>::empty());
        assert(v@ =~= cap_line(repo@.head) + ref_lines(repo@.refs.take(0)));
    }
    while i < n
        invariant
            repo_wf(repo@),
            repo@.refs.len() == n,
            repo.refs@.len() == n,
            0 <= i <= n,
            v@ == cap_line(repo@.head) + ref_lines(repo@.refs.take(i as int)),
        decreases n - i,
    {
        let r = &repo.refs[i];
        proof {
            assert(repo@.refs[i as int] == repo.refs@[i as int]@);
        }
        let mut lp: Vec<u8> = Vec::new();
        lp.extend_from_slice(r.oid.as_slice());
        lp.push(32);
        lp.extend_from_slice(r.name.as_slice());
        lp.push(10);
        proof {
            let rs = repo@.refs[i as int];
            assert(lp@ =~= rs.oid + seq![32u8] + rs.name + seq![10u8]);
        }
        let mut line = encode(&lp);
        v.append(&mut line);
        proof {
            lemma_ref_lines_snoc(repo@.refs, i as int);
            assert(v@ =~= cap_line(repo@.head) + ref_lines(repo@.refs.take(i + 1)));
        }
        i = i + 1;
    }
    proof {
        assert(repo@.refs.take(n as int) =~= repo@.refs);
    }
    v
}

/// The NAK pkt-line, `"0008NAK\n"`.
pub fn nak_vec() -> (v: Vec<u8>)
    ensures
        v@ == nak_pkt(),
{
    let mut p: Vec<u8> = Vec::new();
    p.push(78);
    p.push(65);
    p.push(75);
    p.push(10);
    proof {
        assert(p@ =~= nak_payload());
    }
    encode(&p)
}

// ---------------------------------------------------------------------------
// The server
// ---------------------------------------------------------------------------

/// Partial delivery: an encoded pkt-line split at any byte boundary across
/// two deliveries is answered exactly as when it arrives whole. The first
/// part decodes nothing and answers nothing — it only joins the buffer — and
/// once the rest has joined it, the session drains as if the frame had been
/// fed in one piece.
pub proof fn lemma_partial_delivery(s: ServerSpec, p: Seq<u8>, i: int)
    requires
        s.buf.len() == 0,
        p.len() + 4 <= 65535,
        0 <= i < spec_encode(p).len(),
    ensures
        ({
            let e = spec_encode(p);
            let first = drain(with_buf(s, e.take(i)));
            &&& first.s == with_buf(s, e.take(i))
            &&& first.outs == Seq::<SpecOut>::empty()
            &&& first.err is None
            &&& drain(with_buf(first.s, first.s.buf + e.skip(i))) == drain(with_buf(s, e))
        }),
{
    let e = spec_encode(p);
    crate::pktline::lemma_prefix_incomplete(p, i);
    lemma_drain_incomplete(with_buf(s, e.take(i)));
    assert(e.take(i) + e.skip(i) =~= e);
    assert(with_buf(with_buf(s, e.take(i)), e.take(i) + e.skip(i)) =~= with_buf(s, e));
}

impl Server {
    /// A fresh session over this snapshot, awaiting the request line.
    pub fn new(repo: RepoModel) -> (s: Server)
        requires
            repo_wf(repo@),
        ensures
            s@.repo == repo@,
            s@.state == SessionState::AwaitingRequest,
            s@.wanted == Seq::<u8>::empty(),
            s@.common == Seq::<u8>::empty(),
            s@.have == Seq::<Seq<u8>>::empty(),
            s@.buf == Seq::<u8>::empty(),
            server_wf(s@),
    {
        let s = Server {
            repo,
            state: SessionState::AwaitingRequest,
            wanted: Vec::new(),
            common: Vec::new(),
            have: Vec::new(),
            buf: Vec::new(),
        };
        proof {
            assert(s@.have =~= Seq::<Seq<u8>>::empty());
        }
        s
    }

    /// Has the session reached its end? The run loop stops when this holds.
    pub fn is_finished(&self) -> (b: bool)
        ensures
            b == (self@.state == SessionState::Done),
    {
        self.state == SessionState::Done
    }

    /// Answer one FLUSH pkt, appending what must be sent to `outs`.
    fn do_flush(&mut self, outs: &mut Vec<Output>) -> (e: Option<ProtocolError>)
        requires
            server_wf(old(self)@),
        ensures
            ({
                let r = step_flush(old(self)@);
                &&& final(self)@ == r.s
                &&& final(self)@.buf == old(self)@.buf
                &&& outs_view(final(outs)@) == outs_view(old(outs)@) + r.outs
                &&& e == r.err
                &&& server_wf(final(self)@)
            }),
    {
        proof {
            reveal(crate::server::step_flush);
        }
        if self.have.len() > 0 {
            let mut lp: Vec<u8> = Vec::new();
            lp.push(65);
            lp.push(67);
            lp.push(75);
            lp.push(32);
            lp.extend_from_slice(self.common.as_slice());
            let mut cs = continue_suffix_vec();
            lp.append(&mut cs);
            proof {
                assert(lp@ =~= ack_prefix() + old(self)@.common + continue_suffix());
            }
            let ack = encode(&lp);
            outs.push(Output::Send(ack));
            outs.push(Output::Send(nak_vec()));
            proof {
                assert(outs_view(outs@) =~= outs_view(old(outs)@) + step_flush(old(self)@).outs);
            }
            None
        } else if self.wanted.len() == 0 {
            self.state = SessionState::Done;
            proof {
                assert(outs_view(outs@) =~= outs_view(old(outs)@) + step_flush(old(self)@).outs);
            }
            None
        } else {
            proof {
                assert(outs_view(outs@) =~= outs_view(old(outs)@) + step_flush(old(self)@).outs);
            }
            None
        }
    }

    /// Answer one payload-carrying pkt-line, appending what must be sent.
    fn do_line(&mut self, payload: &Vec<u8>, outs: &mut Vec<Output>) -> (e: Option<ProtocolError>)
        requires
            server_wf(old(self)@),
        ensures
            ({
                let r = step_line(old(self)@, payload@);
                &&& final(self)@ == r.s
                &&& final(self)@.buf == old(self)@.buf
                &&& outs_view(final(outs)@) == outs_view(old(outs)@) + r.outs
                &&& e == r.err
                &&& server_wf(final(self)@)
            }),
    {
        proof {
            reveal(crate::server::step_line);
        }
        if has_prefix(payload, &upload_cmd_vec()) {
            if !(self.state == SessionState::AwaitingRequest) {
                proof {
                    assert(outs_view(outs@) =~= outs_view(old(outs)@));
                }
                return Some(ProtocolError::UnexpectedRequest);
            }
            if !version_param_ok(payload) {
                proof {
                    assert(outs_view(outs@) =~= outs_view(old(outs)@));
                }
                return Some(ProtocolError::UnsupportedVersion);
            }
            let adv = build_advertisement(&self.repo);
            outs.push(Output::Send(adv));
            outs.push(Output::Send(crate::pktline::encode_flush()));
            self.state = SessionState::Negotiating;
            proof {
                assert(outs_view(outs@) =~= outs_view(old(outs)@) + step_line(
                    old(self)@,
                    payload@,
                ).outs);
            }
            None
        } else if has_prefix(payload, &want_vec()) {
            if payload.len() < 45 {
                proof {
                    assert(outs_view(outs@) =~= outs_view(old(outs)@));
                }
                return Some(ProtocolError::TruncatedCommand);
            }
            self.wanted = copy_range(payload, 5, 45);
            if self.state == SessionState::AwaitingRequest {
                self.state = SessionState::Negotiating;
            }
            proof {
                assert(outs_view(outs@) =~= outs_view(old(outs)@));
            }
            None
        } else if has_prefix(payload, &have_vec()) {
            if payload.len() < 45 {
                proof {
                    assert(outs_view(outs@) =~= outs_view(old(outs)@));
                }
                return Some(ProtocolError::TruncatedCommand);
            }
            let oid = copy_range(payload, 5, 45);
            if self.common.len() == 0 && commits_contain(&self.repo, &oid) {
                self.common = copy_bytes(&oid);
            }
            self.have.push(oid);
            if self.state == SessionState::AwaitingRequest {
                self.state = SessionState::Negotiating;
            }
            proof {
                assert(self@.have =~= old(self)@.have.push(payload@.subrange(5, 45)));
                assert(self@ =~= step_line(old(self)@, payload@).s);
                assert(outs_view(outs@) =~= outs_view(old(outs)@));
            }
            None
        } else if bytes_eq(payload, &done_vec()) {
            if self.state == SessionState::Done {
                proof {
                    assert(outs_view(outs@) =~= outs_view(old(outs)@));
                }
                return None;
            }
            if self.wanted.len() == 0 {
                proof {
                    assert(outs_view(outs@) =~= outs_view(old(outs)@));
                }
                return Some(ProtocolError::MissingWant);
            }
            let ack = if self.common.len() == 0 {
                nak_vec()
            } else {
                let mut lp: Vec<u8> = Vec::new();
                lp.push(65);
                lp.push(67);
                lp.push(75);
                lp.push(32);
                lp.extend_from_slice(self.common.as_slice());
                lp.push(10);
                proof {
                    assert(lp@ =~= ack_prefix() + old(self)@.common + seq![10u8]);
                }
                encode(&lp)
            };
            outs.push(Output::Send(ack));
            outs.push(Output::BuildPack(copy_bytes(&self.wanted)));
            self.state = SessionState::Done;
            proof {
                assert(outs_view(outs@) =~= outs_view(old(outs)@) + step_line(
                    old(self)@,
                    payload@,
                ).outs);
            }
            None
        } else {
            proof {
                assert(outs_view(outs@) =~= outs_view(old(outs)@));
            }
            None
        }
    }

    /// Feed raw channel bytes into the session.
    ///
    /// The bytes join the inbound buffer; every complete pkt-line at its front
    /// is consumed and answered, in order, a partial trailing line staying
    /// buffered for the next call. The returned outputs are for the caller to
    /// perform in order, stopping the session if a send fails. A returned
    /// error is fatal for the session; outputs gathered before it still stand,
    /// as they may already have been acted on.
    #[verifier::rlimit(100)]
    #[verifier::loop_isolation(false)]
    pub fn recv(&mut self, input: Vec<u8>) -> (r: (Vec<Output>, Option<ProtocolError>))
        requires
            server_wf(old(self)@),
        ensures
            ({
                let d = drain(with_buf(old(self)@, old(self)@.buf + input@));
                &&& final(self)@ == d.s
                &&& outs_view(r.0@) == d.outs
                &&& r.1 == d.err
                &&& server_wf(final(self)@)
            }),
    {
        let ghost input0 = input@;
        let mut input = input;
        self.buf.append(&mut input);
        let ghost start = self@;
        proof {
            assert(start =~= with_buf(old(self)@, old(self)@.buf + input0));
        }
        let mut outs: Vec<Output> = Vec::new();
        proof {
            assert(outs_view(outs@) =~= Seq::<SpecOut>::empty());
            assert(Seq::<SpecOut>::empty() + drain(self@).outs =~= drain(self@).outs);
        }
        loop
            invariant
                server_wf(self@),
                drain(start).s == drain(self@).s,
                drain(start).outs == outs_view(outs@) + drain(self@).outs,
                drain(start).err == drain(self@).err,
            decreases self@.buf.len(),
        {
            let ghost pre = self@;
            match decode_one(&self.buf) {
                Ok(Pkt::Incomplete) => {
                    proof {
                        lemma_drain_incomplete(pre);
                        assert(outs_view(outs@) + Seq::<SpecOut>::empty() =~= outs_view(outs@));
                    }
                    return (outs, None);
                },
                Err(e) => {
                    proof {
                        lemma_drain_bad(pre);
                        assert(outs_view(outs@) + Seq::<SpecOut>::empty() =~= outs_view(outs@));
                    }
                    return (outs, Some(e));
                },
                Ok(Pkt::Flush) => {
                    self.buf = tail_from(&self.buf, 4);
                    proof {
                        assert(self@ =~= with_buf(pre, pre.buf.skip(4)));
                    }
                    let ghost mid = self@;
                    let ghost before_outs = outs@;
                    let e = self.do_flush(&mut outs);
                    proof {
                        let r1 = step_flush(mid);
                        lemma_drain_step(pre, r1);
                        if r1.err is None {
                            assert(outs_view(before_outs) + (r1.outs + drain(self@).outs)
                                =~= (outs_view(before_outs) + r1.outs) + drain(self@).outs);
                        } else {
                            assert(outs_view(outs@) + Seq::<SpecOut>::empty() =~= outs_view(
                                outs@,
                            ));
                        }
                    }
                    if let Some(err) = e {
                        return (outs, Some(err));
                    }
                },
                Ok(Pkt::Line { payload, consumed }) => {
                    self.buf = tail_from(&self.buf, consumed);
                    proof {
                        assert(self@ =~= with_buf(pre, pre.buf.skip(consumed as int)));
                    }
                    let ghost mid = self@;
                    let ghost before_outs = outs@;
                    let e = self.do_line(&payload, &mut outs);
                    proof {
                        let r1 = step_line(mid, payload@);
                        lemma_drain_step(pre, r1);
                        if r1.err is None {
                            assert(outs_view(before_outs) + (r1.outs + drain(self@).outs)
                                =~= (outs_view(before_outs) + r1.outs) + drain(self@).outs);
                        } else {
                            assert(outs_view(outs@) + Seq::<SpecOut>::empty() =~= outs_view(
                                outs@,
                            ));
                        }
                    }
                    if let Some(err) = e {
                        return (outs, Some(err));
                    }
                },
            }
        }
    }
}

} // verus!

