//! What a device guarantees, whatever it receives.

use crate::binding::{lemma_hash, lemma_joined, told_apart};
use crate::bytes::zeros;
use crate::crypto::x25519;
use crate::hybrid_v23::conduct::{
    idle, law_failure_is_on_record, law_hard_limits, law_idle_machine_asks_nobody,
    law_reaping_takes_the_listed, law_success_ends_the_failures, lemma_sample_keeps_idle,
};
use crate::hybrid_v23::device::handshake::{
    acceptance_step, answer_step, begin_step, completion_step, cookie_step, initiation_step,
    is_answer, is_begun, is_cookie_reply, is_housekept, is_message, is_quiet, is_reply, named_step,
    process_step, reply_step, response_step, AcceptedInitiation, PendingInitiation, PendingResponse,
    ProcessDraws, Step,
};
use crate::hybrid_v23::device::{
    forgetting, is_device_validator, is_given_psk, lemma_releasing_all_keys, Device, DeviceView,
};
use crate::hybrid_v23::dos::{DosView, PrecheckDecision};
use crate::hybrid_v23::keys::KeyState;
use crate::hybrid_v23::messages::{CookieReply, Initiation, Response, SessionId};
use crate::hybrid_v23::noise::{
    response_verdict, InitiationInputs, Initiator, ResponseInputs, TemporaryState,
};
use crate::hybrid_v23::peer::{key_hash, Peer, State};
use crate::hybrid_v23::runtime::RuntimeReading;
use crate::hybrid_v23::sessions::{index_of, law_freed, law_without_peer};
use crate::macs::{Validator, LABEL_MAC1};
use crate::types::{HandshakeError, IpAddr, Output, Psk, SocketAddr};
use vstd::prelude::*;

verus! {

// ---------------------------------------------------------------------------
// Starting a handshake
// ---------------------------------------------------------------------------

/// A handshake that begins takes the session identifier for its peer, raises the counter of
/// the peer by one, and names the identifier in its message; nothing else of the device
/// changes. With an identifier that is in use, or for an unknown peer, nothing at all does.
pub proof fn law_beginning_takes_a_session<O>(
    before: DeviceView<O>,
    after: DeviceView<O>,
    k: [u8; 32],
    sid: SessionId,
    inputs: InitiationInputs,
    now: u64,
    r: Result<Option<Vec<u8>>, HandshakeError>,
)
    requires
        begin_step(before, after, k, sid, inputs, now, r),
    ensures
        r matches Ok(Some(bytes)) ==> {
            &&& before.keys is Some
            &&& before.peers.contains_key(k)
            &&& before.sessions.is_free(sid)
            &&& after.sessions.peers.contains_key(index_of(sid))
            &&& after.sessions.peers[index_of(sid)] == k
            &&& after.sessions.sid_peers.contains_key(sid)
            &&& after.sessions.sid_peers[sid] == k
            &&& before.peers[k].k_send < u128::MAX ==> after.peers[k].k_send
                == before.peers[k].k_send + 1
            &&& after.peers[k].k_recv == before.peers[k].k_recv
            &&& after.peers[k].psk == before.peers[k].psk
            &&& after.peers[k].ratchet == before.peers[k].ratchet
            &&& after.peers[k].state matches State::InitiationSent { local, local_sid, .. }
            &&& local == index_of(sid)
            &&& local_sid == sid
            &&& after.peers[k].macs.last_mac1 is Some
            &&& exists|msg: Initiation| #[trigger] msg.bytes() == bytes@ && msg.noise.f_sender
                == sid && msg.noise.f_type == 1 && Some(msg.macs.f_mac1)
                == after.peers[k].macs.last_mac1
            &&& after.dos == before.dos
            &&& after.limits == before.limits
        },
        r matches Ok(None) ==> after == before && !before.sessions.is_free(sid),
        r is Err ==> after.peers == before.peers && after.sessions == before.sessions
            && after.limits == before.limits,
        before.keys is None || !before.peers.contains_key(k) ==> after == before && r == Err::<
            Option<Vec<u8>>,
            HandshakeError,
        >(HandshakeError::UnknownPublicKey),
        forall|other: [u8; 32]|
            other != k ==> {
                &&& after.peers.contains_key(other) == before.peers.contains_key(other)
                &&& before.peers.contains_key(other) ==> #[trigger] after.peers[other]
                    == before.peers[other]
            },
{
    if let Ok(Some(bytes)) = r {
        let peer = before.peers[k];
        let msg = choose|msg: Initiation| #[trigger]
            is_begun(before, peer, after.peers[k], sid, inputs, msg, now) && is_message(
                r,
                msg.bytes(),
            );
        assert(msg.bytes() == bytes@);
        crate::bytes::lemma_le_value_bound(sid@.subrange(0, 4));
        crate::bytes::lemma_pow256();
    }
}

// ---------------------------------------------------------------------------
// Taking in an initiation
// ---------------------------------------------------------------------------

/// An initiation from an address that does not carry the cookie of that address gets no
/// further than the door: it is dropped, or answered with a cookie for just that address,
/// which opens with the first tag that it came with. Peers and sessions stay as they are.
pub proof fn law_no_cookie_no_entry<O>(
    before: DeviceView<O>,
    after: DeviceView<O>,
    msg: Initiation,
    src: SocketAddr,
    draws: ProcessDraws,
    now: u64,
    r: Result<Step, HandshakeError>,
)
    requires
        initiation_step(before, after, msg, Some(src), draws, now, r),
        !before.cookie_ok(msg, src, now),
    ensures
        r matches Ok(Step::Done(out)) && out.keys is None && out.peer is None,
        after.peers == before.peers,
        after.sessions == before.sessions,
        after.limits == before.limits,
        r matches Ok(Step::Done(out)) && (out.reply matches Some(bytes) ==> {
            &&& after.validator is Some
            &&& exists|reply: CookieReply| #[trigger] reply.bytes() == bytes@ && reply.f_receiver
                == msg.noise.f_sender && reply.f_type == 3
                && crate::crypto::xchacha20poly1305_open(
                before.validator->0.cookie_key@,
                reply.f_nonce@,
                msg.macs.f_mac1@,
                reply.f_cookie@,
            ) == Some(after.validator->0.tau(src))
        }),
{
    let (dos, gate) = before.gate(msg, Some(src), draws.challenge, now);
    if gate is Challenge {
        let reply = choose|reply: CookieReply| #[trigger]
            is_cookie_reply(
                reply,
                before.validator->0,
                after.validator->0,
                msg.noise.f_sender,
                src,
                msg.macs,
                draws,
                now,
            ) && is_reply(r, reply.bytes());
        assert(reply.f_type == 3);
    }
}

/// The door is the guard's: an initiation from an address is dropped when the guard says so,
/// challenged when the guard says so, and with a valid cookie passed on when the guard allows
/// it. One without an address is passed on.
pub proof fn law_door_follows_the_guard<O>(
    before: DeviceView<O>,
    after: DeviceView<O>,
    msg: Initiation,
    src: SocketAddr,
    draws: ProcessDraws,
    now: u64,
    r: Result<Step, HandshakeError>,
)
    requires
        initiation_step(before, after, msg, Some(src), draws, now, r),
    ensures
        ({
            let cookie = before.cookie_ok(msg, src, now);
            let (dos, verdict) = before.dos.precheck_spec(src.ip, cookie, draws.challenge, now);
            &&& verdict == PrecheckDecision::Drop ==> is_quiet(r) && after.dos == dos
            &&& verdict == PrecheckDecision::Challenge ==> (r matches Ok(Step::Done(out))
                && out.reply is Some)
            &&& verdict == PrecheckDecision::Allow && cookie ==> !(r matches Ok(Step::Done(_)))
        }),
        r matches Ok(Step::Initiation(pending)) ==> pending.msg == msg && pending.src == Some(src)
            && after.peers == before.peers && after.sessions == before.sessions,
{
}

/// A failure while an initiation is taken in is put on the record of its address, and on that
/// of no other; and it is the only thing that remains of it, but for the cost of the message
/// and the counter of a peer whose message was genuine.
pub proof fn law_failed_initiations_are_blamed<O>(
    before: DeviceView<O>,
    after: DeviceView<O>,
    pending: PendingInitiation,
    shk: Option<[u8; 32]>,
    now: u64,
    unix_secs: u64,
    r: Result<AcceptedInitiation, HandshakeError>,
)
    requires
        acceptance_step(before, after, pending, shk, now, unix_secs, r),
        r is Err,
        r->Err_0 != HandshakeError::RatchetStateMissing,
    ensures
        after.peers == before.peers,
        after.sessions == before.sessions,
        after.keys == before.keys,
        after.validator == before.validator,
        pending.src matches Some(addr) ==> {
            let s = before.dos.state_of(addr.ip, now);
            &&& after.dos.states.contains_key(addr.ip)
            &&& s.consecutive_failures < u32::MAX ==> after.dos.states[addr.ip].consecutive_failures
                == s.consecutive_failures + 1
            &&& forall|other: IpAddr|
                other != addr.ip ==> #[trigger] after.dos.states.contains_key(other)
                    == before.dos.states.contains_key(other)
            &&& after.dos.half_open == before.dos.half_open
        },
        pending.src is None ==> after == before,
{
}

/// An initiation is accepted only of a peer that is there, with the first tag of that peer,
/// within the limit of its address, and if it is newer than all before. The counter and the
/// time of the peer are then set, the handshake that the device itself had begun with it is
/// given up and its session freed, and other peers stay as they are.
pub proof fn law_accepted_initiations<O>(
    before: DeviceView<O>,
    after: DeviceView<O>,
    pending: PendingInitiation,
    who: Initiator,
    now: u64,
    unix_secs: u64,
    r: Result<AcceptedInitiation, HandshakeError>,
)
    requires
        before.sessions.wf(),
        named_step(before, after, pending, who, now, unix_secs, r),
    ensures
        r matches Ok(accepted) ==> {
            let k = who.pk_hash;
            let peer = before.peers[k];
            &&& before.peers.contains_key(k)
            &&& accepted.pk_hash == k
            &&& accepted.src == pending.src
            &&& peer.macs_validator.mac1_ok(pending.msg.noise.bytes(), pending.msg.macs)
            &&& before.limit(pending.src, now).1
            &&& after.limits == before.limit(pending.src, now).0.limits
            &&& after.peers[k].k_recv > peer.k_recv
            &&& after.peers[k].last_initiation_consumption == Some(now)
            &&& after.peers[k].state is Reset
            &&& after.peers[k].ratchet == peer.ratchet
            &&& peer.state.local_id() matches Some(id) ==> !after.sessions.peers.contains_key(id)
            &&& peer.state.local_id() is None ==> after.sessions == before.sessions
        },
        !before.peers.contains_key(who.pk_hash) ==> r == Err::<
            AcceptedInitiation,
            HandshakeError,
        >(HandshakeError::UnknownPublicKey),
        forall|other: [u8; 32]|
            other != who.pk_hash ==> {
                &&& after.peers.contains_key(other) == before.peers.contains_key(other)
                &&& before.peers.contains_key(other) ==> #[trigger] after.peers[other]
                    == before.peers[other]
            },
{
    let k = who.pk_hash;
    if before.peers.contains_key(k) {
        if let Some(id) = before.peers[k].state.local_id() {
            law_freed(before.sessions, id);
        }
    }
}

/// An answer takes the session identifier for the peer; the handshake is half open for its
/// address, and the address gets the success on its record. When it fails, the identifier is
/// free again, nothing is half open that was not before, and the failure is on record.
pub proof fn law_answers_take_a_session<O>(
    before: DeviceView<O>,
    after: DeviceView<O>,
    accepted: AcceptedInitiation,
    state: TemporaryState,
    sid: SessionId,
    inputs: ResponseInputs,
    now: u64,
    r: Result<Option<Output>, HandshakeError>,
)
    requires
        before.sessions.wf(),
        answer_step(before, after, accepted, state, sid, inputs, now, r),
    ensures
        r matches Ok(Some(out)) ==> {
            let k = accepted.pk_hash;
            &&& before.sessions.is_free(sid)
            &&& after.sessions.peers.contains_key(index_of(sid))
            &&& after.sessions.peers[index_of(sid)] == k
            &&& after.sessions.sid_peers[sid] == k
            &&& out.peer == Some(before.peers[k].pk_hash)
            &&& out.reply is Some
            &&& out.keys matches Some(pair)
            &&& !pair.initiator
            &&& pair.birth == now
            &&& accepted.src matches Some(addr) ==> {
                &&& after.dos.half_open.contains_key(index_of(sid))
                &&& after.dos.half_open[index_of(sid)] == (addr.ip, now)
                &&& after.dos.states[addr.ip].consecutive_failures == 0
            }
            &&& accepted.src is None ==> after.dos == before.dos
            &&& after.peers[k].k_recv == before.peers[k].k_recv
            &&& after.peers[k].k_send == before.peers[k].k_send
            &&& exists|resp: Response| #[trigger] resp.bytes() == out.reply->0@
                && resp.noise.f_sender == sid && resp.noise.f_receiver == state.sender
                && resp.noise.f_type == 2
        },
        r matches Ok(None) ==> after == before,
        r is Err ==> {
            &&& !after.sessions.peers.contains_key(index_of(sid))
            &&& after.peers == before.peers
            &&& accepted.src matches Some(addr) ==> {
                &&& !after.dos.half_open.contains_key(index_of(sid))
                &&& after.dos.states.contains_key(addr.ip)
                &&& after.dos.states[addr.ip].failure_times.len() > 0
            }
        },
        forall|other: [u8; 32]|
            other != accepted.pk_hash ==> {
                &&& after.peers.contains_key(other) == before.peers.contains_key(other)
                &&& before.peers.contains_key(other) ==> #[trigger] after.peers[other]
                    == before.peers[other]
            },
{
    let k = accepted.pk_hash;
    if let Ok(Some(out)) = r {
        let peer = before.peers[k];
        let resp = choose|resp: Response| #[trigger]
            is_answer(peer, after.peers[k], sid, state, inputs, resp, out, now);
        assert(resp.bytes() == out.reply->0@);
        if let Some(addr) = accepted.src {
            let opened = before.dos.registered(index_of(sid), addr.ip, now);
            law_success_ends_the_failures(opened.states[addr.ip], now);
        }
    }
    if r is Err {
        if let Some(addr) = accepted.src {
            let opened = before.dos.registered(index_of(sid), addr.ip, now);
            law_failure_is_on_record(opened.released(index_of(sid)), addr.ip, now);
        }
    }
}

/// No reply goes to a peer that is not there, or without the secret that a ratcheted
/// initiation needs.
pub proof fn law_replies_need_a_peer<O>(
    before: DeviceView<O>,
    after: DeviceView<O>,
    accepted: AcceptedInitiation,
    shared: Option<[u8; 32]>,
    sid: SessionId,
    inputs: ResponseInputs,
    now: u64,
    r: Result<Option<Output>, HandshakeError>,
)
    requires
        reply_step(before, after, accepted, shared, sid, inputs, now, r),
    ensures
        !before.peers.contains_key(accepted.pk_hash) ==> r == Err::<
            Option<Output>,
            HandshakeError,
        >(HandshakeError::UnknownPublicKey) && after.sessions == before.sessions && after.peers
            == before.peers,
        before.peers.contains_key(accepted.pk_hash) && accepted.stage.ratchet.mode == 1
            && shared is None ==> r == Err::<Option<Output>, HandshakeError>(
            HandshakeError::DecryptionFailure,
        ) && after.sessions == before.sessions && after.peers == before.peers,
{
}

// ---------------------------------------------------------------------------
// Taking in a response
// ---------------------------------------------------------------------------

/// A response is passed on only to the peer whose session it names, with the first tag of the
/// peer and, from an address, with its cookie and within its limit. It changes nothing of the
/// peers but the secret behind the cookies.
pub proof fn law_responses_are_checked<O>(
    before: DeviceView<O>,
    after: DeviceView<O>,
    msg: Response,
    src: Option<SocketAddr>,
    draws: ProcessDraws,
    now: u64,
    r: Result<Step, HandshakeError>,
)
    requires
        response_step(before, after, msg, src, draws, now, r),
    ensures
        before.peer_of_sid(msg.noise.f_receiver) is None ==> r == Err::<Step, HandshakeError>(
            HandshakeError::UnknownReceiverId,
        ) && after == before,
        r matches Ok(Step::Response(pending)) ==> {
            &&& before.peer_of_sid(msg.noise.f_receiver) matches Some(k)
            &&& pending.pk_hash == k
            &&& pending.msg == msg.noise
            &&& before.peers[k].macs_validator.mac1_ok(msg.noise.bytes(), msg.macs)
            &&& msg.noise.f_hash_ephemeral_pq@ == crate::crypto::blake2s(
                msg.noise.f_ephemeral_ct_pq@,
            )
            &&& src matches Some(addr) ==> before.peers[k].macs_validator.mac2_ok(
                msg.noise.bytes(),
                addr,
                msg.macs,
                now,
            ) && crate::ratelimiter::allow_spec(before.limits, addr.ip, now).1
            &&& after.peers == before.peers
            &&& before.peers[k].state matches State::InitiationSent {
                local_sid,
                mode,
                epoch,
                ..
            }
            &&& local_sid == msg.noise.f_receiver
            &&& mode == msg.noise.f_mode
            &&& epoch == msg.noise.f_epoch
        },
        !(r matches Ok(Step::Initiation(_))),
        after.sessions == before.sessions,
        after.dos == before.dos,
        after.keys == before.keys,
        forall|k: [u8; 32]| #[trigger]
            after.peers.contains_key(k) ==> before.peers.contains_key(k) && after.peers[k]
                == (Peer { macs_validator: after.peers[k].macs_validator, ..before.peers[k] }),
{
}

/// A cookie is taken up only by the peer whose session it names and if it opens; it counts
/// from now on, and nothing else changes. One that does not open changes nothing.
pub proof fn law_cookies_are_taken_up<O>(
    before: DeviceView<O>,
    after: DeviceView<O>,
    msg: CookieReply,
    now: u64,
    r: Result<Step, HandshakeError>,
)
    requires
        cookie_step(before, after, msg, now, r),
    ensures
        r is Ok ==> {
            &&& before.peer_of_sid(msg.f_receiver) matches Some(k)
            &&& after.peers[k].macs.has_cookie(now)
            &&& after.peers[k].macs.cookie->0.birth == now
            &&& before.peers[k].macs.opened(msg.f_nonce@, msg.f_cookie@) == Some(
                after.peers[k].macs.cookie->0.value@,
            )
            &&& after.peers[k].state == before.peers[k].state
            &&& after.peers[k].ratchet == before.peers[k].ratchet
            &&& forall|other: [u8; 32]|
                other != k && before.peers.contains_key(other) ==> #[trigger] after.peers[other]
                    == before.peers[other]
        },
        r is Err ==> after == before,
        r matches Ok(Step::Done(_)) || r is Err,
        after.sessions == before.sessions,
        after.dos == before.dos,
        after.limits == before.limits,
{
}

/// A completed handshake gives the initiator's pair of keys for its peer and leaves it with
/// nothing to wait for, one epoch on. One that is refused gives no keys and changes nothing.
/// In both cases no other peer, no session and no record of an address is touched.
pub proof fn law_completion_gives_keys<O>(
    before: DeviceView<O>,
    after: DeviceView<O>,
    pending: PendingResponse,
    shk_master: Option<[u8; 32]>,
    shk_static: Option<[u8; 32]>,
    now: u64,
    unix_secs: u64,
    r: Result<Output, HandshakeError>,
)
    requires
        pending.stage.epoch < u64::MAX,
        completion_step(before, after, pending, shk_master, shk_static, now, unix_secs, r),
    ensures
        r matches Ok(out) ==> {
            let k = pending.pk_hash;
            &&& before.peers.contains_key(k)
            &&& shk_master is Some
            &&& shk_static is Some
            &&& out.peer == Some(k)
            &&& out.reply is None
            &&& out.keys matches Some(pair)
            &&& pair.initiator
            &&& pair.birth == now
            &&& pair.recv.id == pending.stage.local
            &&& pair.send.id == pending.msg.f_sender@[0] + 0x100 * pending.msg.f_sender@[1]
                + 0x1_0000 * pending.msg.f_sender@[2] + 0x100_0000 * pending.msg.f_sender@[3]
            &&& after.peers[k].state is Reset
            &&& after.peers[k].ratchet.epoch == pending.stage.epoch + 1
            &&& after.peers[k].ratchet.initiation_mode() == 1
            &&& after.peers[k].psk == before.peers[k].psk
            &&& after.peers[k].k_send == before.peers[k].k_send
            &&& after.peers[k].k_recv == before.peers[k].k_recv
        },
        r is Err ==> after == before,
        shk_master is None ==> r is Err,
        shk_static is None ==> r is Err,
        after.sessions == before.sessions,
        after.dos == before.dos,
        after.limits == before.limits,
        forall|other: [u8; 32]|
            other != pending.pk_hash ==> {
                &&& after.peers.contains_key(other) == before.peers.contains_key(other)
                &&& before.peers.contains_key(other) ==> #[trigger] after.peers[other]
                    == before.peers[other]
            },
{
    if r is Ok {
        let sid = pending.msg.f_sender;
        let s = sid@.subrange(0, 4);
        reveal_with_fuel(crate::bytes::le_value, 5);
        assert(s.drop_first().drop_first().drop_first().drop_first() =~= Seq::empty());
        assert(crate::bytes::le_value(s) == s[0] + 0x100 * s[1] + 0x1_0000 * s[2] + 0x100_0000
            * s[3]);
    }
}

// ---------------------------------------------------------------------------
// Any message
// ---------------------------------------------------------------------------

/// What is no message is refused and changes nothing but what housekeeping does; and a device
/// without keys does nothing at all.
pub proof fn law_other_bytes_are_refused<O>(
    before: DeviceView<O>,
    after: DeviceView<O>,
    msg: Seq<u8>,
    src: Option<SocketAddr>,
    reading: RuntimeReading,
    draws: ProcessDraws,
    now: u64,
    r: Result<Step, HandshakeError>,
)
    requires
        process_step(before, after, msg, src, reading, draws, now, r),
    ensures
        msg.len() < 4 ==> r == Err::<Step, HandshakeError>(HandshakeError::InvalidMessageFormat)
            && after == before,
        msg.len() >= 4 && before.keys is None ==> after == before && (r matches Ok(Step::Done(out))
            && out.peer is None && out.reply is None && out.keys is None),
        before.keys is Some && msg.len() >= 4 && msg.len() != 2004 && msg.len() != 2012
            && msg.len() != 92 ==> r == Err::<Step, HandshakeError>(
            HandshakeError::InvalidMessageFormat,
        ) && after.peers == before.peers && after.keys == before.keys && after.limits
            == before.limits,
{
}

/// Housekeeping frees the sessions of the handshakes that are overdue, at most every 15
/// seconds, and leaves keys, peers and limits as they are.
pub proof fn law_housekeeping<O>(
    before: DeviceView<O>,
    after: DeviceView<O>,
    reading: RuntimeReading,
    ids: Seq<u32>,
    now: u64,
)
    requires
        is_housekept(before, after, reading, ids, now),
    ensures
        after.peers == before.peers,
        after.keys == before.keys,
        after.limits == before.limits,
        after.validator == before.validator,
        after.ri_key == before.ri_key,
        ids.len() == 0 ==> after.sessions == before.sessions,
        now < before.dos.read(reading, now).last_reap + 15_000_000_000 ==> ids.len() == 0
            && after.sessions == before.sessions,
        now >= before.dos.read(reading, now).last_reap + 15_000_000_000 ==> after.dos.last_reap
            == now && forall|id: u32| #[trigger]
            ids.contains(id) ==> !after.dos.half_open.contains_key(id),
{
    let read = before.dos.read(reading, now);
    let searched = (DosView { last_reap: now, ..read }).sampled(now);
    law_reaping_takes_the_listed(searched, ids, now);
    lemma_reaped_keeps_time(searched, ids, now);
}

proof fn lemma_reaped_keeps_time(dos: DosView, ids: Seq<u32>, now: u64)
    ensures
        dos.reaped(ids, now).last_reap == dos.last_reap,
    decreases ids.len(),
{
    if ids.len() > 0 {
        lemma_reaped_keeps_time(dos, ids.drop_last(), now);
    }
}

// ---------------------------------------------------------------------------
// The configuration
// ---------------------------------------------------------------------------

/// A new private key ends every handshake that the device had begun, frees their sessions,
/// gives each peer the secret that goes with the new key, and drops the peer that has the
/// key of the device. Pre-shared keys, ratchets and counters stay.
pub proof fn law_key_change<O>(
    before: DeviceView<O>,
    after: DeviceView<O>,
    rekeyed: DeviceView<O>,
    ids: Seq<u32>,
    k: [u8; 32],
)
    requires
        after.follows_key_change(before, rekeyed, ids),
    ensures
        after.peers.contains_key(k) <==> before.peers.contains_key(k) && !(after.keys is Some
            && after.keys->0.pk_hash == k),
        after.peers.contains_key(k) ==> {
            let p = after.peers[k];
            let q = before.peers[k];
            &&& p.state is Reset
            &&& p.psk == q.psk
            &&& p.pk == q.pk
            &&& p.ratchet == q.ratchet
            &&& p.k_send == q.k_send
            &&& p.k_recv == q.k_recv
            &&& p.opaque == q.opaque
            &&& p.macs == q.macs
            &&& after.keys matches Some(keyst) ==> p.ss@ == x25519(keyst.sk@, p.pk@)
            &&& after.keys is None ==> p.ss@ == zeros(32)
        },
        after.limits == before.limits,
        after.ri_key == before.ri_key,
        before.sessions.wf() && before.peers.contains_key(k) && before.peers[k].state.local_id()
            is Some ==> !after.sessions.peers.contains_key(before.peers[k].state.local_id()->0),
{
    lemma_releasing_all_keys(rekeyed, ids);
    assert(rekeyed.peers.contains_key(k) <==> before.peers.contains_key(k)) by {
        assert(rekeyed.peers.dom() == before.peers.dom());
        assert(rekeyed.peers.dom().contains(k) <==> before.peers.dom().contains(k));
    }
    if before.sessions.wf() && before.peers.contains_key(k) && before.peers[k].state.local_id()
        is Some {
        let id = before.peers[k].state.local_id()->0;
        assert(before.waits(id));
        lemma_released(rekeyed, ids, id);
    }
}

proof fn lemma_released<O>(device: DeviceView<O>, ids: Seq<u32>, id: u32)
    requires
        ids.contains(id),
    ensures
        !device.releasing_all(ids).sessions.peers.contains_key(id),
    decreases ids.len(),
{
    if ids.last() != id {
        let i = choose|i: int| 0 <= i < ids.len() && ids[i] == id;
        assert(ids.drop_last()[i] == id);
        lemma_released(device, ids.drop_last(), id);
    }
}

/// Whether a peer can be added: not without a key of the device, not the device itself, and
/// not beyond a million and some, that is 2 to the power 20.
pub proof fn law_adding_fails<O>(device: DeviceView<O>, pk_hash: Seq<u8>)
    ensures
        Device::<O>::add_failure(device, pk_hash) is None <==> {
            &&& device.peers.dom().len() < 1_048_576
            &&& device.keys is Some
            &&& device.keys->0.pk_hash@ != pk_hash
        },
        device.peers.dom().len() >= 1_048_576 ==> Device::<O>::add_failure(device, pk_hash) == Some(
            "Too many peers for device"@,
        ),
        device.peers.dom().len() < 1_048_576 && device.keys is None ==> Device::<O>::add_failure(
            device,
            pk_hash,
        ) == Some("Device key not set"@),
{
}

/// A peer that is added is there under the hash of its keys, has the secret of the two static
/// keys, no pre-shared key and no handshake, and its counters start at zero.
pub proof fn law_added_peers<O>(
    device: DeviceView<O>,
    pk: [u8; 32],
    pk_pq: Seq<u8>,
    opaque: O,
    peer: Peer<O>,
)
    requires
        device.keys is Some,
        device.is_added(pk, pk_pq, opaque, peer),
    ensures
        peer.pk_hash@ == key_hash(pk@, pk_pq),
        peer.ss@ == x25519(device.keys->0.sk@, pk@),
        peer.psk@ == zeros(32),
        peer.state is Reset,
        peer.k_send == 0,
        peer.k_recv == 0,
        peer.ratchet.epoch == 0,
        peer.ratchet.initiation_mode() == 0,
        peer.macs.cookie is None,
        peer.opaque == opaque,
        device.with_peer(peer.pk_hash, peer).peers.contains_key(peer.pk_hash),
        device.with_peer(peer.pk_hash, peer).sessions == device.sessions,
{
}

/// A peer that is removed takes its sessions with it; those of the others stay.
pub proof fn law_removed_peers<O>(device: DeviceView<O>, k: [u8; 32], id: u32)
    requires
        device.sessions.wf(),
    ensures
        ({
            let after = device.sessions.without_peer(k);
            &&& after.wf()
            &&& after.peers.contains_key(id) ==> after.peers[id] != k
            &&& device.sessions.peers.contains_key(id) && device.sessions.peers[id] != k
                ==> after.peers.contains_key(id) && after.peers[id] == device.sessions.peers[id]
                && after.sids[id] == device.sessions.sids[id]
        }),
{
    law_without_peer(device.sessions, k);
    let after = device.sessions.without_peer(k);
    if after.peers.contains_key(id) {
        assert(after.sids.dom().contains(id));
    }
}

/// A pre-shared key changes the first tags and starts the ratchet anew, from roots that depend
/// on it; the handshake in progress, the counters and the cookie stay.
pub proof fn law_new_preshared_key<O>(
    met: Set<Seq<u8>>,
    before: Peer<O>,
    after: Peer<O>,
    psk: Psk,
    other: Peer<O>,
    psk2: Psk,
)
    requires
        is_given_psk(before, after, psk),
        is_given_psk(before, other, psk2),
        told_apart(met),
        met.contains(LABEL_MAC1@ + psk@),
        met.contains(LABEL_MAC1@ + psk2@),
    ensures
        after.psk == psk,
        after.macs.mac1_key@ == other.macs.mac1_key@ ==> psk@ == psk2@,
        after.macs.mac1_key@ == after.macs_validator.mac1_key@,
        after.macs.cookie == before.macs.cookie,
        after.state == before.state,
        after.k_send == before.k_send,
        after.k_recv == before.k_recv,
        after.ss == before.ss,
        after.ratchet.epoch == 0,
        after.ratchet.remote_kid is None,
        after.ratchet.pending_local is None,
{
    if after.macs.mac1_key@ == other.macs.mac1_key@ {
        lemma_hash(met, LABEL_MAC1@ + psk@, LABEL_MAC1@ + psk2@);
        lemma_joined(LABEL_MAC1@, psk@, LABEL_MAC1@, psk2@);
    }
}

/// Forgetting the key of a peer makes the next initiation one without it, in the same epoch
/// and with the same roots, and changes nothing else.
pub proof fn law_forgetting<O>(peer: Peer<O>)
    ensures
        forgetting(peer).ratchet.initiation_mode() == (if peer.ratchet.epoch == 0 {
            0u32
        } else {
            2u32
        }),
        forgetting(peer).ratchet.epoch == peer.ratchet.epoch,
        forgetting(peer).ratchet.rk == peer.ratchet.rk,
        forgetting(peer).ratchet.k_ri == peer.ratchet.k_ri,
        forgetting(peer).ratchet.local_secret == peer.ratchet.local_secret,
        forgetting(peer).ratchet.pending_local == peer.ratchet.pending_local,
        forgetting(peer).psk == peer.psk,
        forgetting(peer).state == peer.state,
        forgetting(peer).k_send == peer.k_send,
        forgetting(peer).k_recv == peer.k_recv,
{
}

/// A rendezvous key that was set by hand is used with every peer; without one, peers whose roots
/// are the same use the same key.
pub proof fn law_rendezvous_keys<O>(device: DeviceView<O>, peer: Peer<O>, other: Peer<O>)
    ensures
        device.ri_key matches Some(key) ==> device.effective_key(peer) == key@,
        peer.ratchet.k_ri@ == other.ratchet.k_ri@ ==> device.effective_key(peer)
            == device.effective_key(other),
{
}

/// The tags of a new peer fit the device that it stands for: what its generator makes, the
/// validators of that device check with the same keys, and cookies from there can be opened.
pub proof fn law_tags_fit_the_device<O>(
    keyst: KeyState,
    device: Validator,
    peer: Peer<O>,
    own_pk: Seq<u8>,
    own_pk_pq: Seq<u8>,
    root: Seq<u8>,
    back: Peer<O>,
    back_root: Seq<u8>,
)
    requires
        keyst.wf(),
        is_device_validator(device, keyst),
        peer.is_new(own_pk, own_pk_pq, root),
        peer.pk@ == keyst.pk@,
        peer.pk_pq@ == keyst.pk_pq@,
        back.is_new(keyst.pk@, keyst.pk_pq@, back_root),
        back.pk@ == own_pk,
        back.pk_pq@ == own_pk_pq,
    ensures
        peer.macs.mac1_key@ == device.mac1_key@,
        peer.macs.cookie_key@ == device.cookie_key@,
        peer.macs.mac1_key@ == back.macs_validator.mac1_key@,
        peer.macs.cookie_key@ == back.macs_validator.cookie_key@,
        back.macs.cookie_key@ == peer.macs_validator.cookie_key@,
        device.root == keyst.cookie_root_secret,
        peer.macs_validator.root@ == root,
        device.birth is None,
        peer.macs_validator.birth is None,
{
}

/// A response whose secrets, tag or proof do not fit fails with that error, and the device stays
/// as it is; one of which everything fits gives keys.
pub proof fn law_completion_follows_the_verdict<O>(
    before: DeviceView<O>,
    after: DeviceView<O>,
    pending: PendingResponse,
    shk_master: Option<[u8; 32]>,
    shk_static: Option<[u8; 32]>,
    now: u64,
    unix_secs: u64,
    r: Result<Output, HandshakeError>,
)
    requires
        completion_step(before, after, pending, shk_master, shk_static, now, unix_secs, r),
        before.peers.contains_key(pending.pk_hash),
    ensures
        ({
            let verdict = response_verdict(
                before.peers[pending.pk_hash],
                pending.stage,
                pending.msg,
                pending.ri_key@,
                shk_master,
                shk_static,
                unix_secs,
            );
            &&& verdict matches Err(e) ==> r == Err::<Output, HandshakeError>(e) && after == before
            &&& verdict is Ok ==> r is Ok
        }),
{
}

/// On an idle machine a handshake may be left half open for 30 seconds, and on one whose
/// processor, memory or file descriptors are at their limit for 5: housekeeping gives up those
/// that are older, and no others.
pub proof fn law_overdue_handshakes<O>(
    before: DeviceView<O>,
    after: DeviceView<O>,
    reading: RuntimeReading,
    ids: Seq<u32>,
    now: u64,
    id: u32,
)
    requires
        is_housekept(before, after, reading, ids, now),
        now >= before.dos.read(reading, now).last_reap + 15_000_000_000,
        before.dos.read(reading, now).samples.len() < u64::MAX,
    ensures
        ({
            let read = before.dos.read(reading, now);
            let open = read.half_open.contains_key(id);
            let since = read.half_open[id].1;
            let full = read.metrics.cpu >= 700_000 || read.metrics.mem >= 850_000 || read.metrics.fd
                >= 900_000;
            &&& idle(read) ==> (ids.contains(id) <==> open && now >= since + 30_000_000_000)
            &&& full ==> (ids.contains(id) <==> open && now >= since + 5_000_000_000)
        }),
{
    let read = before.dos.read(reading, now);
    let marked = DosView { last_reap: now, ..read };
    let searched = marked.sampled(now);
    law_hard_limits(searched, 0, now, 0);
    if idle(read) {
        lemma_sample_keeps_idle(marked, now);
        law_idle_machine_asks_nobody(searched, 0, now, 0);
    }
    assert(ids.contains(id) <==> searched.overdue(
        id,
        crate::hybrid_v23::dos::timeout_spec(searched.share(0, now)),
        now,
    ));
}

} // verus!
