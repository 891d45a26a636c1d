//! One handshake after the other: what a device has done so far decides how it starts the next
//! one, and two devices stay in step whatever gets lost between them.

use crate::bytes::zeros;
use crate::hybrid_v23::completion::{law_answered_handshake_completes, Run};
use crate::hybrid_v23::device::handshake::{
    acceptance_step, begin_step, completion_step, cookie_reply_of, cookie_step, initiation_of,
    initiation_step, is_begun, is_housekept, is_message, law_message_of_bytes, message_step,
    named_step, process_step, reply_step, response_of, response_step, AcceptedInitiation,
    PendingInitiation, PendingResponse, ProcessDraws, Step,
};
use crate::hybrid_v23::device::{
    forgetting, is_given_psk, lemma_releasing_all_keys, DeviceView,
};
use crate::hybrid_v23::dos::DosView;
use crate::hybrid_v23::messages::{
    CookieReply, Initiation, Response, SessionId, MODE_BOOTSTRAP, MODE_RATCHET, MODE_RESYNC,
};
use crate::hybrid_v23::noise::{
    identity_verdict, is_response_stage, names_initiator, InitiationInputs, Initiator,
    ResponseInputs,
};
use crate::hybrid_v23::peer::{key_hash, Peer};
use crate::hybrid_v23::ratchet::RatchetState;
use crate::hybrid_v23::runtime::RuntimeReading;
use crate::hybrid_v23::sessions::SessionView;
use crate::types::{HandshakeError, Output, Psk, SocketAddr};
use vstd::prelude::*;

verus! {

/// A call of a method of a device: what it was made with and what it returned.
pub ghost enum Call {
    Begin {
        pk_hash: [u8; 32],
        sid: SessionId,
        inputs: InitiationInputs,
        now: u64,
        started: Result<Option<Vec<u8>>, HandshakeError>,
    },
    Process {
        msg: Seq<u8>,
        src: Option<SocketAddr>,
        reading: RuntimeReading,
        draws: ProcessDraws,
        now: u64,
        step: Result<Step, HandshakeError>,
    },
    AcceptInitiation {
        initiation: PendingInitiation,
        shk: Option<[u8; 32]>,
        now: u64,
        unix_secs: u64,
        verdict: Result<AcceptedInitiation, HandshakeError>,
    },
    Respond {
        accepted: AcceptedInitiation,
        shared: Option<[u8; 32]>,
        sid: SessionId,
        answer_inputs: ResponseInputs,
        now: u64,
        answer: Result<Option<Output>, HandshakeError>,
    },
    Complete {
        response: PendingResponse,
        shk_master: Option<[u8; 32]>,
        shk_static: Option<[u8; 32]>,
        now: u64,
        unix_secs: u64,
        outcome: Result<Output, HandshakeError>,
    },
    Release { id: u32 },
    ForgetRemoteRatchet { pk_hash: [u8; 32] },
    SetPsk { pk_hash: [u8; 32], psk: Psk },
    SetRiKey { ri_key: Option<[u8; 8]> },
    SetSk,
    Add { pk: [u8; 32], pk_pq: Seq<u8>, added: bool },
    Remove { pk_hash: [u8; 32] },
    Clear,
    /// Any call of a method of the flood defence.
    Defend { dos: DosView },
}

impl Call {
    /// Does the call lead from one state of a device to another one? A response that is
    /// completed was looked into while the device waited for the same handshake as now.
    pub open spec fn leads<O>(self, before: DeviceView<O>, after: DeviceView<O>) -> bool {
        match self {
            Call::Begin { pk_hash, sid, inputs, now, started } => begin_step(
                before,
                after,
                pk_hash,
                sid,
                inputs,
                now,
                started,
            ),
            Call::Process { msg, src, reading, draws, now, step } => process_step(
                before,
                after,
                msg,
                src,
                reading,
                draws,
                now,
                step,
            ),
            Call::AcceptInitiation { initiation, shk, now, unix_secs, verdict } => acceptance_step(
                before,
                after,
                initiation,
                shk,
                now,
                unix_secs,
                verdict,
            ),
            Call::Respond { accepted, shared, sid, answer_inputs, now, answer } => reply_step(
                before,
                after,
                accepted,
                shared,
                sid,
                answer_inputs,
                now,
                answer,
            ),
            Call::Complete { response, shk_master, shk_static, now, unix_secs, outcome } => {
                &&& response.stage.epoch < u64::MAX
                &&& outcome is Ok ==> is_response_stage(
                    response.stage,
                    before.keys->0,
                    before.peers[response.pk_hash].state,
                    response.msg,
                )
                &&& completion_step(
                    before,
                    after,
                    response,
                    shk_master,
                    shk_static,
                    now,
                    unix_secs,
                    outcome,
                )
            },
            Call::Release { id } => after == before.releasing(id),
            Call::ForgetRemoteRatchet { pk_hash } => if before.peers.contains_key(pk_hash) {
                after == before.with_peer(pk_hash, forgetting(before.peers[pk_hash]))
            } else {
                after == before
            },
            Call::SetPsk { pk_hash, psk } => if before.peers.contains_key(pk_hash) {
                &&& is_given_psk(before.peers[pk_hash], after.peers[pk_hash], psk)
                &&& after == before.with_peer(pk_hash, after.peers[pk_hash])
            } else {
                after == before
            },
            Call::SetRiKey { ri_key } => after == (DeviceView { ri_key, ..before }),
            Call::SetSk => exists|rekeyed: DeviceView<O>, ids: Seq<u32>| #[trigger]
                after.follows_key_change(before, rekeyed, ids),
            Call::Add { pk, pk_pq, added } => if added {
                exists|peer: Peer<O>| #[trigger]
                    before.is_added(pk, pk_pq, peer.opaque, peer) && after == before.with_peer(
                        peer.pk_hash,
                        peer,
                    )
            } else {
                after == before
            },
            Call::Remove { pk_hash } => if before.peers.contains_key(pk_hash) {
                after == (DeviceView {
                    peers: before.peers.remove(pk_hash),
                    sessions: before.sessions.without_peer(pk_hash),
                    ..before
                })
            } else {
                after == before
            },
            Call::Clear => after == (DeviceView {
                sessions: SessionView::empty(),
                peers: Map::empty(),
                ..before
            }),
            Call::Defend { dos } => after == (DeviceView { dos, ..before }),
        }
    }

    /// Did the call start a handshake with a peer?
    pub open spec fn begins(self, k: [u8; 32]) -> bool {
        self matches Call::Begin { pk_hash, started, .. } && pk_hash == k && started matches Ok(
            Some(_),
        )
    }

    /// Did the call complete a handshake with a peer?
    pub open spec fn completes(self, k: [u8; 32]) -> bool {
        self matches Call::Complete { response, outcome, .. } && response.pk_hash == k && outcome
            is Ok
    }

    /// The epoch of the handshake that the call completes.
    pub open spec fn epoch(self) -> u64 {
        match self {
            Call::Complete { response, .. } => response.stage.epoch,
            _ => 0,
        }
    }

    /// Did the call forget the ratchet key of a peer?
    pub open spec fn forgets(self, k: [u8; 32]) -> bool {
        self matches Call::ForgetRemoteRatchet { pk_hash } && pk_hash == k
    }

    /// Did the call answer a handshake that a peer has started?
    pub open spec fn answers(self, k: [u8; 32]) -> bool {
        self matches Call::Respond { accepted, answer, .. } && accepted.pk_hash == k && answer
            matches Ok(Some(_))
    }

    /// Does a peer start over with the call, as it is added or given a pre-shared key?
    pub open spec fn restarts(self, k: [u8; 32]) -> bool {
        match self {
            Call::SetPsk { pk_hash, .. } => pk_hash == k,
            Call::Add { pk, pk_pq, added } => added && key_hash(pk@, pk_pq) == k@,
            _ => false,
        }
    }
}

/// The states of a device, with a call between any two.
pub open spec fn is_history<O>(devices: Seq<DeviceView<O>>, calls: Seq<Call>) -> bool {
    &&& devices.len() == calls.len() + 1
    &&& forall|i: int|
        0 <= i < calls.len() ==> (#[trigger] calls[i]).leads(devices[i], devices[i + 1])
}

/// How many handshakes with a peer were completed since it started over.
pub open spec fn completed(calls: Seq<Call>, k: [u8; 32]) -> nat
    decreases calls.len(),
{
    if calls.len() == 0 || calls.last().restarts(k) {
        0
    } else {
        completed(calls.drop_last(), k) + (if calls.last().completes(k) {
            1nat
        } else {
            0
        })
    }
}

/// Was a handshake with a peer started since the peer started over?
pub open spec fn begun(calls: Seq<Call>, k: [u8; 32]) -> bool
    decreases calls.len(),
{
    if calls.len() == 0 || calls.last().restarts(k) {
        false
    } else {
        calls.last().begins(k) || begun(calls.drop_last(), k)
    }
}

/// Was the ratchet key of a peer forgotten since the last completed handshake with it?
pub open spec fn forgotten(calls: Seq<Call>, k: [u8; 32]) -> bool
    decreases calls.len(),
{
    if calls.len() == 0 || calls.last().restarts(k) || calls.last().completes(k) {
        false
    } else {
        calls.last().forgets(k) || forgotten(calls.drop_last(), k)
    }
}

/// Has the device only started handshakes with a peer, and answered none, since the peer
/// started over? An initiation that was in flight then may be completed if it was made in
/// epoch zero.
pub open spec fn only_initiates(calls: Seq<Call>, k: [u8; 32]) -> bool
    decreases calls.len(),
{
    if calls.len() == 0 || calls.last().restarts(k) {
        true
    } else {
        let earlier = calls.drop_last();
        &&& only_initiates(earlier, k)
        &&& !calls.last().answers(k)
        &&& calls.last().completes(k) && !begun(earlier, k) && completed(earlier, k) == 0
            ==> calls.last().epoch() == 0
    }
}

/// What the ratchet and the state of a peer are after `n` completed handshakes. An initiation
/// that was in flight when the peer started over may be of any epoch, as long as no other one
/// was started and none was completed.
spec fn is_after<O>(peer: Peer<O>, n: nat, forgotten: bool, begun: bool) -> bool {
    &&& peer.ratchet.epoch == n
    &&& (peer.ratchet.remote_kid is Some) == (n > 0 && !forgotten)
    &&& (peer.ratchet.remote_pub is Some) == (n > 0 && !forgotten)
    &&& (begun || n > 0) && peer.state is InitiationSent ==> peer.state->epoch == n
}

/// Has a call left the ratchets of all peers as they were, and gone on waiting for the same
/// handshakes or given them up?
spec fn leaves_ratchets<O>(before: DeviceView<O>, after: DeviceView<O>) -> bool {
    forall|k: [u8; 32]| #[trigger]
        after.peers.contains_key(k) ==> {
            &&& before.peers.contains_key(k)
            &&& after.peers[k].ratchet == before.peers[k].ratchet
            &&& after.peers[k].state == before.peers[k].state || after.peers[k].state is Reset
        }
}

/// The first step of taking in a message leaves the ratchets as they are.
proof fn lemma_process_leaves<O>(
    before: DeviceView<O>,
    after: DeviceView<O>,
    msg: Seq<u8>,
    src: Option<SocketAddr>,
    reading: RuntimeReading,
    draws: ProcessDraws,
    now: u64,
    r: Result<Step, HandshakeError>,
)
    requires
        process_step(before, after, msg, src, reading, draws, now, r),
    ensures
        leaves_ratchets(before, after),
{
    if msg.len() >= 4 && before.keys is Some {
        let (kept, ids) = choose|kept: DeviceView<O>, ids: Seq<u32>| #[trigger]
            is_housekept(before, kept, reading, ids, now) && message_step(
                kept,
                after,
                msg,
                src,
                draws,
                now,
                r,
            );
        assert(kept.peers == before.peers);
        if Initiation::recognizes(msg) {
            assert(initiation_step(kept, after, initiation_of(msg), src, draws, now, r));
            assert(after.peers == kept.peers);
        } else if Response::recognizes(msg) {
            assert(response_step(kept, after, response_of(msg), src, draws, now, r));
        } else if CookieReply::recognizes(msg) {
            assert(cookie_step(kept, after, cookie_reply_of(msg), now, r));
        }
    }
}

/// Accepting or refusing an initiation leaves the ratchets as they are.
proof fn lemma_acceptance_leaves<O>(
    before: DeviceView<O>,
    after: DeviceView<O>,
    pending: PendingInitiation,
    shk: Option<[u8; 32]>,
    now: u64,
    unix_secs: u64,
    r: Result<AcceptedInitiation, HandshakeError>,
)
    requires
        acceptance_step(before, after, pending, shk, now, unix_secs, r),
    ensures
        leaves_ratchets(before, after),
{
    let stage = pending.stage;
    match identity_verdict(stage.ck@, stage.hs@, stage.dh@, pending.msg.noise, shk) {
        Ok(plain) => {
            let who = choose|who: Initiator| #[trigger]
                names_initiator(stage, pending.msg.noise, shk->0@, plain, who) && named_step(
                    before,
                    after,
                    pending,
                    who,
                    now,
                    unix_secs,
                    r,
                );
            assert(named_step(before, after, pending, who, now, unix_secs, r));
        },
        Err(_) => {},
    }
}

/// A change of keys leaves the ratchets as they are.
proof fn lemma_key_change_leaves<O>(
    before: DeviceView<O>,
    after: DeviceView<O>,
    rekeyed: DeviceView<O>,
    ids: Seq<u32>,
)
    requires
        after.follows_key_change(before, rekeyed, ids),
    ensures
        leaves_ratchets(before, after),
{
    lemma_releasing_all_keys(rekeyed, ids);
    assert forall|k: [u8; 32]| #[trigger] after.peers.contains_key(k) implies {
        &&& before.peers.contains_key(k)
        &&& after.peers[k].ratchet == before.peers[k].ratchet
        &&& after.peers[k].state == before.peers[k].state || after.peers[k].state is Reset
    } by {
        assert(rekeyed.peers.contains_key(k));
        assert(rekeyed.peers.dom().contains(k));
    }
}

/// One call.
proof fn lemma_call<O>(
    call: Call,
    before: DeviceView<O>,
    after: DeviceView<O>,
    k: [u8; 32],
    n: nat,
    lost: bool,
    open: bool,
)
    requires
        call.leads(before, after),
        after.peers.contains_key(k),
        !call.restarts(k),
        before.peers.contains_key(k) ==> is_after(before.peers[k], n, lost, open),
        !call.answers(k),
        call.completes(k) && !open && n == 0 ==> call.epoch() == 0,
    ensures
        before.peers.contains_key(k),
        is_after(
            after.peers[k],
            n + (if call.completes(k) {
                1nat
            } else {
                0
            }),
            !call.completes(k) && (lost || call.forgets(k)),
            open || call.begins(k),
        ),
{
    match call {
        Call::Process { msg, src, reading, draws, now, step } => {
            lemma_process_leaves(before, after, msg, src, reading, draws, now, step);
        },
        Call::AcceptInitiation { initiation, shk, now, unix_secs, verdict } => {
            lemma_acceptance_leaves(before, after, initiation, shk, now, unix_secs, verdict);
        },
        Call::Respond { .. } => {
            assert(after.peers[k] == before.peers[k]);
        },
        Call::SetSk => {
            let (rekeyed, ids) = choose|rekeyed: DeviceView<O>, ids: Seq<u32>| #[trigger]
                after.follows_key_change(before, rekeyed, ids);
            lemma_key_change_leaves(before, after, rekeyed, ids);
        },
        Call::Add { pk, pk_pq, added } => {
            if added {
                let peer = choose|peer: Peer<O>| #[trigger]
                    before.is_added(pk, pk_pq, peer.opaque, peer) && after == before.with_peer(
                        peer.pk_hash,
                        peer,
                    );
                assert(peer.pk_hash != k);
            }
        },
        _ => {},
    }
}

/// One call with which a peer starts over.
proof fn lemma_restart<O>(call: Call, before: DeviceView<O>, after: DeviceView<O>, k: [u8; 32])
    requires
        call.leads(before, after),
        after.peers.contains_key(k),
        call.restarts(k),
    ensures
        is_after(after.peers[k], 0, false, false),
{
    if let Call::Add { pk, pk_pq, added } = call {
        let peer = choose|peer: Peer<O>| #[trigger]
            before.is_added(pk, pk_pq, peer.opaque, peer) && after == before.with_peer(
                peer.pk_hash,
                peer,
            );
        assert(peer.pk_hash =~= k);
    }
}

/// After any calls, the ratchet counts the handshakes that were completed.
proof fn lemma_history<O>(devices: Seq<DeviceView<O>>, calls: Seq<Call>, k: [u8; 32])
    requires
        is_history(devices, calls),
        devices[0].peers.contains_key(k) ==> is_after(devices[0].peers[k], 0, false, false),
        only_initiates(calls, k),
        devices.last().peers.contains_key(k),
    ensures
        is_after(
            devices.last().peers[k],
            completed(calls, k),
            forgotten(calls, k),
            begun(calls, k),
        ),
    decreases calls.len(),
{
    if calls.len() > 0 {
        let n = calls.len() - 1;
        let earlier = calls.drop_last();
        assert(calls[n].leads(devices[n], devices[n + 1]));
        if calls.last().restarts(k) {
            lemma_restart(calls.last(), devices[n], devices[n + 1], k);
        } else {
            assert forall|i: int| 0 <= i < n implies (#[trigger] earlier[i]).leads(
                devices.drop_last()[i],
                devices.drop_last()[i + 1],
            ) by {
                assert(calls[i].leads(devices[i], devices[i + 1]));
            }
            if devices[n].peers.contains_key(k) {
                lemma_history(devices.drop_last(), earlier, k);
            }
            lemma_call(
                calls.last(),
                devices[n],
                devices[n + 1],
                k,
                completed(earlier, k),
                forgotten(earlier, k),
                begun(earlier, k),
            );
        }
    }
}

/// Since a peer was added or given a pre-shared key, a device that answers none of its
/// handshakes starts the one after `n` completed ones in the epoch `n`, whatever else was
/// called in between: the first one from nothing, every later one with the ratchet key that
/// the last response has brought, and as a recovery if that key was forgotten since. Only a
/// handshake with the ratchet key names a key and carries a ciphertext for it; in the others
/// both fields are zero.
pub proof fn law_epochs_count_handshakes<O>(
    devices: Seq<DeviceView<O>>,
    calls: Seq<Call>,
    k: [u8; 32],
    after: DeviceView<O>,
    sid: SessionId,
    inputs: InitiationInputs,
    now: u64,
    r: Result<Option<Vec<u8>>, HandshakeError>,
)
    requires
        is_history(devices, calls),
        devices[0].peers.contains_key(k) ==> {
            let peer = devices[0].peers[k];
            peer.ratchet.is_fresh(peer.own_pk_hash@, peer.pk_hash@, peer.psk@)
        },
        only_initiates(calls, k),
        begin_step(devices.last(), after, k, sid, inputs, now, r),
    ensures
        devices.last().peers.contains_key(k) ==> devices.last().peers[k].ratchet.epoch == completed(
            calls,
            k,
        ),
        r matches Ok(Some(bytes)) ==> {
            let msg = initiation_of(bytes@).noise;
            let n = completed(calls, k);
            &&& bytes@ == initiation_of(bytes@).bytes()
            &&& msg.f_epoch == n
            &&& msg.f_mode == (if n == 0 {
                MODE_BOOTSTRAP
            } else if forgotten(calls, k) {
                MODE_RESYNC
            } else {
                MODE_RATCHET
            })
            &&& if msg.f_mode == MODE_RATCHET {
                &&& devices.last().peers[k].ratchet.remote_kid == Some(msg.f_ratchet_kid)
                &&& inputs.ratchet matches Some(encapsulation)
                &&& msg.f_ratchet_ct == encapsulation.ct
            } else {
                &&& msg.f_ratchet_kid@ == zeros(16)
                &&& msg.f_ratchet_ct@ == zeros(768)
            }
        },
{
    let before = devices.last();
    if before.peers.contains_key(k) {
        lemma_history(devices, calls, k);
    }
    if let Ok(Some(bytes)) = r {
        let msg = choose|msg: Initiation| #[trigger]
            is_begun(before, before.peers[k], after.peers[k], sid, inputs, msg, now) && is_message(
                r,
                msg.bytes(),
            );
        law_message_of_bytes(
            msg,
            response_of(Seq::empty()),
            cookie_reply_of(Seq::empty()),
        );
        if msg.noise.f_mode == MODE_RATCHET {
            assert(msg.noise.f_ratchet_kid =~= before.peers[k].ratchet.remote_kid->0);
            assert(msg.noise.f_ratchet_ct =~= inputs.ratchet->0.ct);
        }
    }
}

/// How far a handshake gets: its initiation is lost or refused, the answer to it is lost, or
/// the answer is taken in.
pub ghost enum End {
    Lost,
    Answered,
    Returned,
}

/// Does a handshake get that far?
pub open spec fn reaches<A, B>(run: Run<A, B>, end: End) -> bool {
    match end {
        End::Lost => true,
        End::Answered => run.is_answered(),
        End::Returned => run.is_answered() && run.is_taken_in(),
    }
}

/// The initiator's ratchet after a handshake that gets that far.
pub open spec fn initiator_ratchet<A, B>(run: Run<A, B>, end: End) -> RatchetState {
    match end {
        End::Returned => run.completed.peers[run.hash_r].ratchet,
        _ => run.waiting().ratchet,
    }
}

/// The responder's ratchet after a handshake that gets that far.
pub open spec fn responder_ratchet<A, B>(run: Run<A, B>, end: End) -> RatchetState {
    match end {
        End::Lost => run.of_initiator().ratchet,
        _ => run.answered.peers[run.hash_i].ratchet,
    }
}

/// Does one handshake follow another one? Between them the initiator may forget the ratchet
/// key of the responder.
pub open spec fn follows<A, B>(before: Run<A, B>, end: End, run: Run<A, B>) -> bool {
    let left = initiator_ratchet(before, end);
    &&& run.of_responder().ratchet == left || run.of_responder().ratchet == (RatchetState {
        remote_pub: None,
        remote_kid: None,
        ..left
    })
    &&& run.of_initiator().ratchet == responder_ratchet(before, end)
}

/// Handshakes between two devices that know each other, one after the other, always started
/// by the same device.
pub open spec fn is_series<A, B>(runs: Seq<Run<A, B>>, ends: Seq<End>) -> bool {
    &&& runs.len() == ends.len()
    &&& forall|i: int|
        0 <= i < runs.len() ==> {
            &&& (#[trigger] runs[i]).acquainted()
            &&& runs[i].steps()
            &&& runs[i].countable()
            &&& reaches(runs[i], ends[i])
        }
    &&& forall|i: int|
        1 <= i < runs.len() ==> follows(runs[i - 1], ends[i - 1], #[trigger] runs[i])
}

/// However many initiations and answers are lost in a series of handshakes, and however often
/// the initiator forgets the ratchet key, the two ratchets stay in step. So every handshake
/// of the series whose answer is taken in succeeds.
pub proof fn law_series_stays_in_step<A, B>(runs: Seq<Run<A, B>>, ends: Seq<End>, i: int)
    requires
        is_series(runs, ends),
        runs[0].in_step(),
        0 <= i < runs.len(),
    ensures
        runs[i].in_step(),
        ends[i] is Returned ==> runs[i].succeeds(),
    decreases i,
{
    if i > 0 {
        let before = runs[i - 1];
        let end = ends[i - 1];
        law_series_stays_in_step(runs, ends, i - 1);
        assert(before.acquainted() && before.steps() && reaches(before, end));
        assert(follows(before, end, runs[i]));
        assert(before.waiting().ratchet == before.of_responder().ratchet);
        if !(end is Lost) {
            law_answered_handshake_completes(before);
        }
    }
    assert(runs[i].acquainted() && reaches(runs[i], ends[i]));
    if ends[i] is Returned {
        law_answered_handshake_completes(runs[i]);
    }
}

} // verus!
