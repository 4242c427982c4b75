//! Choosing the commits a pack must hold, and framing pack bytes for the
//! side-band channel.
//!
//! The commit graph itself belongs to the repository; the walk order is handed
//! in as a list of commits, each with its parents, topologically ordered from
//! the wanted commit. What is verified here is the selection rule: walk until
//! at least one visited commit is among the client's haves *and* the frontier
//! of parents still owed a visit is empty, and keep every id seen strictly
//! before that point.

use vstd::arithmetic::div_mod::lemma_fundamental_div_mod_converse_div;
use vstd::prelude::*;

use crate::bytes::{bytes_eq, copy_bytes, copy_range};
use crate::pktline::{encode, spec_encode};

verus! {

/// One commit as the walk yields it: its id and its parents' ids.
pub struct CommitNode {
    pub oid: Vec<u8>,
    pub parents: Vec<Vec<u8>>,
}

/// Mathematical image of a [`CommitNode`].
#[verifier::ext_equal]
pub ghost struct CommitSpec {
    pub oid: Seq<u8>,
    pub parents: Seq<Seq<u8>>,
}

impl View for CommitNode {
    type V = CommitSpec;

    open spec fn view(&self) -> CommitSpec {
        CommitSpec { oid: self.oid@, parents: self.parents@.map(|i: int, p: Vec<u8>| p@) }
    }
}

/// The images of a list of byte buffers.
pub open spec fn ids_view(v: Seq<Vec<u8>>) -> Seq<Seq<u8>> {
    v.map(|i: int, b: Vec<u8>| b@)
}

/// The images of the walked commits.
pub open spec fn walk_view(v: Seq<CommitNode>) -> Seq<CommitSpec> {
    v.map(|i: int, c: CommitNode| c@)
}

/// The ids kept from the walk, one commit at a time. A commit first marks the
/// walk as matched when its id is among the haves, and leaves the frontier by
/// its first occurrence there; once the walk is matched and the frontier is
/// empty the rest of the walk is dropped, the boundary commit itself
/// excluded. Otherwise the id is kept and its parents join the frontier.
pub open spec fn spec_select(
    walk: Seq<CommitSpec>,
    have: Seq<Seq<u8>>,
    matched: bool,
    frontier: Seq<Seq<u8>>,
) -> Seq<Seq<u8>>
    decreases walk.len(),
{
    if walk.len() == 0 {
        Seq::empty()
    } else {
        let c = walk[0];
        let m = matched || have.contains(c.oid);
        let f = frontier.remove_value(c.oid);
        if m && f.len() == 0 {
            Seq::empty()
        } else {
            seq![c.oid] + spec_select(walk.skip(1), have, m, f + c.parents)
        }
    }
}

/// The ids a pack for this walk and these haves holds, from an unmatched
/// start with an empty frontier.
pub open spec fn selected(walk: Seq<CommitSpec>, have: Seq<Seq<u8>>) -> Seq<Seq<u8>> {
    spec_select(walk, have, false, Seq::empty())
}

/// With no have anywhere in the walk, nothing stops it: every walked commit
/// is packed, down to the root.
pub proof fn lemma_select_no_common(
    walk: Seq<CommitSpec>,
    have: Seq<Seq<u8>>,
    matched: bool,
    frontier: Seq<Seq<u8>>,
)
    requires
        forall|i: int| 0 <= i < walk.len() ==> !have.contains((#[trigger] walk[i]).oid),
        !matched,
    ensures
        spec_select(walk, have, matched, frontier) == walk.map(|i: int, c: CommitSpec| c.oid),
    decreases walk.len(),
{
    let oids = walk.map(|i: int, c: CommitSpec| c.oid);
    if walk.len() == 0 {
        assert(oids =~= Seq::<Seq<u8>>::empty());
    } else {
        let c = walk[0];
        let f = frontier.remove_value(c.oid);
        assert(!have.contains(c.oid));
        assert(forall|i: int|
            0 <= i < walk.skip(1).len() ==> (#[trigger] walk.skip(1)[i]) == walk[i + 1]);
        lemma_select_no_common(walk.skip(1), have, false, f + c.parents);
        assert(oids =~= seq![c.oid] + walk.skip(1).map(|i: int, cc: CommitSpec| cc.oid));
    }
}

/// The selection only ever stops, it never skips: what is packed is an
/// initial segment of the walked ids, so the one open choice is the boundary,
/// and the boundary commit itself is excluded.
pub proof fn lemma_select_prefix(
    walk: Seq<CommitSpec>,
    have: Seq<Seq<u8>>,
    matched: bool,
    frontier: Seq<Seq<u8>>,
)
    ensures
        spec_select(walk, have, matched, frontier).len() <= walk.len(),
        spec_select(walk, have, matched, frontier) == walk.map(|i: int, c: CommitSpec| c.oid).take(
            spec_select(walk, have, matched, frontier).len() as int,
        ),
    decreases walk.len(),
{
    let oids = walk.map(|i: int, c: CommitSpec| c.oid);
    let sel = spec_select(walk, have, matched, frontier);
    if walk.len() == 0 {
        assert(sel =~= oids.take(0));
    } else {
        let c = walk[0];
        let m = matched || have.contains(c.oid);
        let f = frontier.remove_value(c.oid);
        if m && f.len() == 0 {
            assert(sel =~= oids.take(0));
        } else {
            let rest = walk.skip(1);
            lemma_select_prefix(rest, have, m, f + c.parents);
            let rest_oids = rest.map(|j: int, cc: CommitSpec| cc.oid);
            assert(forall|i: int|
                0 <= i < rest.len() ==> #[trigger] rest_oids[i] == oids[i + 1]);
            assert(sel =~= oids.take(sel.len() as int));
        }
    }
}

/// Does the list hold these bytes?
fn ids_contain(v: &Vec<Vec<u8>>, x: &Vec<u8>) -> (r: bool)
    ensures
        r == ids_view(v@).contains(x@),
{
    let mut i: usize = 0;
    while i < v.len()
        invariant
            0 <= i <= v@.len(),
            forall|k: int| 0 <= k < i ==> ids_view(v@)[k] != x@,
        decreases v@.len() - i,
    {
        if bytes_eq(&v[i], x) {
            proof {
                assert(ids_view(v@)[i as int] == x@);
            }
            return true;
        }
        i = i + 1;
    }
    false
}

/// Remove the first entry holding these bytes, if any does.
fn remove_value_vec(v: &mut Vec<Vec<u8>>, x: &Vec<u8>)
    ensures
        ids_view(final(v)@) == ids_view(old(v)@).remove_value(x@),
{
    let mut j: usize = 0;
    while j < v.len()
        invariant
            0 <= j <= v@.len(),
            v@ == old(v)@,
            forall|k: int| 0 <= k < j ==> ids_view(v@)[k] != x@,
        decreases v@.len() - j,
    {
        if bytes_eq(&v[j], x) {
            let ghost s = ids_view(v@);
            v.remove(j);
            proof {
                s.index_of_first_ensures(x@);
                assert(s[j as int] == x@);
                assert(s.contains(x@));
                let i = s.index_of_first(x@)->Some_0;
                assert(s[i] == x@);
                assert(i == j);
                assert(ids_view(v@) =~= s.remove(j as int));
            }
            return;
        }
        j = j + 1;
    }
    proof {
        let s = ids_view(v@);
        assert(forall|k: int| 0 <= k < s.len() ==> s[k] != x@);
        assert(!s.contains(x@));
        s.index_of_first_ensures(x@);
    }
}

/// The ids to hand the pack builder for this walk and these haves.
#[verifier::loop_isolation(false)]
pub fn select_commits(walk: &Vec<CommitNode>, have: &Vec<Vec<u8>>) -> (ids: Vec<Vec<u8>>)
    ensures
        ids_view(ids@) == selected(walk_view(walk@), ids_view(have@)),
{
    let ghost ws = walk_view(walk@);
    let ghost hs = ids_view(have@);
    let mut ids: Vec<Vec<u8>> = Vec::new();
    let mut frontier: Vec<Vec<u8>> = Vec::new();
    let mut matched = false;
    let mut done = false;
    let mut i: usize = 0;
    proof {
        assert(ids_view(ids@) =~= Seq::<Seq<u8>>::empty());
        assert(ids_view(frontier@) =~= Seq::<Seq<u8>>::empty());
        assert(ws.skip(0) =~= ws);
        assert(Seq::<Seq<u8>>::empty() + spec_select(ws, hs, false, Seq::empty())
            =~= spec_select(ws, hs, false, Seq::empty()));
    }
    while i < walk.len() && !done
        invariant
            0 <= i <= walk@.len(),
            !done ==> selected(ws, hs) == ids_view(ids@) + spec_select(
                ws.skip(i as int),
                hs,
                matched,
                ids_view(frontier@),
            ),
            done ==> selected(ws, hs) == ids_view(ids@),
        decreases walk@.len() - i + (if done { 0int } else { 1int }),
    {
        let ghost m0 = matched;
        let ghost f0 = ids_view(frontier@);
        let c = &walk[i];
        proof {
            assert(ws[i as int] == walk@[i as int]@);
        }
        if !matched && ids_contain(have, &c.oid) {
            matched = true;
        }
        remove_value_vec(&mut frontier, &c.oid);
        proof {
            assert(ws.skip(i as int)[0] == ws[i as int]);
            assert(ws.skip(i as int).skip(1) =~= ws.skip(i as int + 1));
        }
        if matched && frontier.len() == 0 {
            done = true;
            proof {
                assert(spec_select(ws.skip(i as int), hs, m0, f0) =~= Seq::<Seq<u8>>::empty());
                assert(ids_view(ids@) + Seq::<Seq<u8>>::empty() =~= ids_view(ids@));
            }
        } else {
            let ghost ids0 = ids_view(ids@);
            ids.push(copy_bytes(&c.oid));
            let ghost f1 = ids_view(frontier@);
            let mut k: usize = 0;
            while k < c.parents.len()
                invariant
                    0 <= k <= c.parents@.len(),
                    ids_view(frontier@) == f1 + ids_view(c.parents@).take(k as int),
                decreases c.parents@.len() - k,
            {
                frontier.push(copy_bytes(&c.parents[k]));
                proof {
                    assert((f1 + ids_view(c.parents@).take(k as int)).push(c.parents@[k as int]@)
                        =~= f1 + ids_view(c.parents@).take(k as int + 1));
                }
                k = k + 1;
            }
            proof {
                assert(ids_view(c.parents@).take(c.parents@.len() as int) =~= ids_view(
                    c.parents@,
                ));
                assert(ids_view(c.parents@) =~= ws[i as int].parents);
                assert(ids_view(ids@) =~= ids0 + seq![ws[i as int].oid]);
                assert(spec_select(ws.skip(i as int), hs, m0, f0) == seq![ws[i as int].oid]
                    + spec_select(ws.skip(i as int + 1), hs, matched, f1 + ws[i as int].parents));
                assert((ids0 + seq![ws[i as int].oid]) + spec_select(
                    ws.skip(i as int + 1),
                    hs,
                    matched,
                    ids_view(frontier@),
                ) =~= ids0 + (seq![ws[i as int].oid] + spec_select(
                    ws.skip(i as int + 1),
                    hs,
                    matched,
                    ids_view(frontier@),
                )));
            }
            i = i + 1;
        }
    }
    proof {
        if !done {
            assert(ws.skip(walk@.len() as int) =~= Seq::<CommitSpec>::empty());
            assert(ids_view(ids@) + Seq::<Seq<u8>>::empty() =~= ids_view(ids@));
        }
    }
    ids
}

/// Bytes of pack data one side-band frame carries at most: chosen so header,
/// control byte and chunk never pass the 65520-byte side-band ceiling.
pub const SIDEBAND_CHUNK: usize = 65515;

/// How many data frames a pack of `len` bytes takes.
pub open spec fn frame_count(len: nat) -> nat {
    ((len + 65514) / 65515) as nat
}

/// The side-band data frame for chunk `i` of `data`: control byte 1 and up to
/// 65515 pack bytes, pkt-line framed.
pub open spec fn spec_frame(data: Seq<u8>, i: int) -> Seq<u8> {
    let lo = i * 65515;
    let hi = if data.len() < lo + 65515 {
        data.len() as int
    } else {
        lo + 65515
    };
    spec_encode(seq![1u8] + data.subrange(lo, hi))
}

/// Split pack bytes into side-band data frames, in order. (The closing FLUSH
/// pkt-line travels as a message of its own, after these.)
#[verifier::loop_isolation(false)]
pub fn sideband_frames(data: &Vec<u8>) -> (frames: Vec<Vec<u8>>)
    ensures
        frames@.len() == frame_count(data@.len()),
        forall|i: int| 0 <= i < frames@.len() ==> (#[trigger] frames@[i])@ == spec_frame(data@, i),
{
    let mut frames: Vec<Vec<u8>> = Vec::new();
    let len = data.len();
    let mut sent: usize = 0;
    proof {
        if len == 0 {
            lemma_fundamental_div_mod_converse_div(65514int, 65515int, 0int, 65514int);
        }
    }
    while sent < len
        invariant
            sent <= len,
            len == data@.len(),
            sent == frames@.len() * 65515 || (sent == len && frames@.len() == frame_count(
                len as nat,
            )),
            sent == len ==> frames@.len() == frame_count(len as nat),
            forall|i: int| 0 <= i < frames@.len() ==> (#[trigger] frames@[i])@ == spec_frame(
                data@,
                i,
            ),
        decreases len - sent,
    {
        let ghost k = frames@.len() as int;
        let remaining = len - sent;
        let chunk = if remaining < SIDEBAND_CHUNK {
            remaining
        } else {
            SIDEBAND_CHUNK
        };
        let mut payload: Vec<u8> = Vec::new();
        payload.push(1);
        let mut part = copy_range(data, sent, sent + chunk);
        payload.append(&mut part);
        proof {
            assert(payload@ =~= seq![1u8] + data@.subrange(sent as int, sent + chunk));
        }
        let frame = encode(&payload);
        proof {
            assert(sent == k * 65515);
            assert(frame@ == spec_frame(data@, k));
        }
        frames.push(frame);
        sent = sent + chunk;
        proof {
            if chunk < SIDEBAND_CHUNK {
                assert(sent == len);
                assert(len + 65514 == (k + 1) * 65515 + (chunk - 1));
                lemma_fundamental_div_mod_converse_div(
                    len + 65514,
                    65515int,
                    k + 1,
                    chunk - 1,
                );
            }
            if sent == len {
                assert(len + 65514 == (k + 1) * 65515 + (chunk - 1));
                lemma_fundamental_div_mod_converse_div(
                    len + 65514,
                    65515int,
                    k + 1,
                    chunk - 1,
                );
            }
        }
    }
    proof {
        if len > 0 {
            assert(sent == len);
        }
    }
    frames
}

} // verus!
