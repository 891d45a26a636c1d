//! What a device guarantees, whatever it receives.

use crate::bytes::zeros;
use crate::crypto::{x25519, xchacha20poly1305_open};
use crate::hybrid_v1::device::handshake::{
    admission_step, begin_step, completion_step, cookie_step, is_answer, is_begun, is_cookie_reply,
    is_message, message_step, named_step, reply_step, response_step, AcceptedInitiation, Admission,
    CookieDraws, PendingInitiation, PendingResponse, Step,
};
use crate::hybrid_v1::device::{Device, DeviceView};
use crate::hybrid_v1::messages::{CookieReply, Initiation, Response};
use crate::hybrid_v1::noise::{InitiationInputs, Initiator, ResponseInputs};
use crate::hybrid_v1::peer::Peer;
use crate::hybrid_v23::messages::MacsFooter;
use crate::hybrid_v23::peer::key_hash;
use crate::ratelimiter::allow_spec;
use crate::types::{HandshakeError, Output, SocketAddr};
use vstd::prelude::*;

verus! {

/// Do two devices know the same peers, and are those other than `k` as they were?
pub open spec fn others_untouched<O>(
    before: DeviceView<O>,
    after: DeviceView<O>,
    k: [u8; 32],
) -> bool {
    forall|other: [u8; 32]|
        other != k ==> {
            &&& after.peers.contains_key(other) == before.peers.contains_key(other)
            &&& before.peers.contains_key(other) ==> #[trigger] after.peers[other]
                == before.peers[other]
        }
}

/// A handshake that begins takes the identifier for its peer, raises the counter of the peer by
/// one, and names the identifier in its message; nothing else of the device changes. With an
/// identifier that is in use, or for an unknown peer, nothing at all does.
pub proof fn law_beginning_takes_an_identifier<O>(
    before: DeviceView<O>,
    after: DeviceView<O>,
    k: [u8; 32],
    id: u32,
    inputs: InitiationInputs,
    now: u64,
    r: Result<Option<Vec<u8>>, HandshakeError>,
)
    requires
        begin_step(before, after, k, id, inputs, now, r),
    ensures
        r matches Ok(Some(bytes)) ==> {
            &&& before.keys is Some
            &&& before.peers.contains_key(k)
            &&& !before.ids.contains_key(id)
            &&& after.ids == before.ids.insert(id, k)
            &&& before.peers[k].k_send < u128::MAX ==> after.peers[k].k_send
                == before.peers[k].k_send + 1
            &&& after.peers[k].k_recv == before.peers[k].k_recv
            &&& after.peers[k].psk == before.peers[k].psk
            &&& after.peers[k].state.local_id() == Some(id)
            &&& exists|msg: Initiation| #[trigger] msg.bytes() == bytes@ && msg.noise.f_sender
                == id && msg.noise.f_type == 1 && Some(msg.macs.f_mac1)
                == after.peers[k].macs.last_mac1
        },
        r matches Ok(None) ==> after == before && before.ids.contains_key(id),
        r is Err ==> after.peers == before.peers,
        before.keys is None || !before.peers.contains_key(k) ==> after == before && r == Err::<
            Option<Vec<u8>>,
            HandshakeError,
        >(HandshakeError::UnknownPublicKey),
        after.limits == before.limits,
        others_untouched(before, after, k),
{
    if let Ok(Some(bytes)) = r {
        let peer = before.peers[k];
        let msg = choose|msg: Initiation| #[trigger]
            is_begun(before.keys->0.pk_hash@, peer, after.peers[k], id, inputs, msg, now)
                && is_message(r, msg.bytes());
        assert(msg.bytes() == bytes@);
    }
}

/// A message is admitted if and only if its first tag is that of the peer and, from an address,
/// its second tag shows the cookie of the address and the limit of the address allows it.
/// Without the cookie it is answered with one, for just that address, which opens with the
/// first tag that it came with.
pub proof fn law_admission<O>(
    before: DeviceView<O>,
    after: DeviceView<O>,
    k: [u8; 32],
    inner: Seq<u8>,
    macs: MacsFooter,
    sender: u32,
    src: Option<SocketAddr>,
    draws: CookieDraws,
    now: u64,
    r: Admission,
)
    requires
        before.peers.contains_key(k),
        admission_step(before, after, k, inner, macs, sender, src, draws, now, r),
    ensures
        ({
            let v = before.peers[k].macs_validator;
            let tagged = v.mac1_ok(inner, macs);
            let known = src matches Some(addr) ==> v.mac2_ok(inner, addr, macs, now);
            let free = src matches Some(addr) ==> allow_spec(before.limits, addr.ip, now).1;
            &&& r is Admitted <==> tagged && known && free
            &&& r is Challenged <==> tagged && !known
            &&& !tagged ==> r == Admission::Refused(HandshakeError::InvalidMac1) && after == before
            &&& tagged && known && !free ==> r == Admission::Refused(HandshakeError::RateLimited)
            &&& src is None ==> after == before
        }),
        r matches Admission::Challenged(bytes) ==> {
            &&& src matches Some(addr)
            &&& exists|reply: CookieReply| #[trigger] reply.bytes() == bytes@ && reply.f_receiver
                == sender && reply.f_type == 3 && xchacha20poly1305_open(
                before.peers[k].macs_validator.cookie_key@,
                reply.f_nonce@,
                macs.f_mac1@,
                reply.f_cookie@,
            ) == Some(after.peers[k].macs_validator.tau(addr))
        },
        after.ids == before.ids,
        after.keys == before.keys,
        others_untouched(before, after, k),
        after.peers.contains_key(k),
        after.peers[k] == (Peer {
            macs_validator: after.peers[k].macs_validator,
            ..before.peers[k]
        }),
        r is Admitted ==> after.peers == before.peers,
{
    if let Admission::Challenged(bytes) = r {
        let reply = choose|reply: CookieReply| #[trigger]
            is_cookie_reply(
                reply,
                before.peers[k].macs_validator,
                after.peers[k].macs_validator,
                sender,
                src->0,
                macs,
                draws,
                now,
            ) && bytes@ == reply.bytes();
        assert(reply.bytes() == bytes@);
    }
}

/// An initiation is accepted only of a peer that is there, with its first tag and, from an
/// address, with its cookie and within its limit, and if it is newer than all before. The
/// counter and the time of the peer are then set, and the handshake that the device itself
/// had begun with it is given up.
pub proof fn law_accepted_initiations<O>(
    before: DeviceView<O>,
    after: DeviceView<O>,
    pending: PendingInitiation,
    who: Initiator,
    draws: CookieDraws,
    now: u64,
    r: Result<Step, HandshakeError>,
)
    requires
        named_step(before, after, pending, who, draws, now, r),
    ensures
        r matches Ok(Step::Accepted(accepted)) ==> {
            let k = who.pk_hash;
            let v = before.peers[k].macs_validator;
            &&& before.peers.contains_key(k)
            &&& accepted.pk_hash == k
            &&& v.mac1_ok(pending.msg.noise.bytes(), pending.msg.macs)
            &&& pending.src matches Some(addr) ==> v.mac2_ok(
                pending.msg.noise.bytes(),
                addr,
                pending.msg.macs,
                now,
            ) && allow_spec(before.limits, addr.ip, now).1
            &&& after.peers[k].k_recv > before.peers[k].k_recv
            &&& after.peers[k].last_initiation_consumption == Some(now)
            &&& after.peers[k].state is Reset
            &&& after.peers[k].k_send == before.peers[k].k_send
            &&& after.peers[k].psk == before.peers[k].psk
        },
        !before.peers.contains_key(who.pk_hash) ==> after == before && r == Err::<
            Step,
            HandshakeError,
        >(HandshakeError::UnknownPublicKey),
        r is Err && before.peers.contains_key(who.pk_hash) ==> after.peers[who.pk_hash].k_recv
            == before.peers[who.pk_hash].k_recv,
        after.ids == before.ids,
        after.keys == before.keys,
        others_untouched(before, after, who.pk_hash),
{
}

/// An answer takes the identifier for the peer and gives the responder's pair of keys; one that
/// fails changes nothing.
pub proof fn law_answers_take_an_identifier<O>(
    before: DeviceView<O>,
    after: DeviceView<O>,
    accepted: AcceptedInitiation,
    id: u32,
    inputs: ResponseInputs,
    now: u64,
    r: Result<Option<Output>, HandshakeError>,
)
    requires
        reply_step(before, after, accepted, id, inputs, now, r),
    ensures
        r matches Ok(Some(out)) ==> {
            let k = accepted.pk_hash;
            &&& before.peers.contains_key(k)
            &&& !before.ids.contains_key(id)
            &&& after.ids == before.ids.insert(id, k)
            &&& out.peer == Some(before.peers[k].pk_hash)
            &&& out.reply is Some
            &&& out.keys matches Some(pair)
            &&& !pair.initiator
            &&& pair.birth == now
            &&& pair.recv.id == id
            &&& pair.send.id == accepted.state.sender
            &&& exists|resp: Response| #[trigger] resp.bytes() == out.reply->0@
                && resp.noise.f_sender == id && resp.noise.f_receiver == accepted.state.sender
                && resp.noise.f_type == 2
        },
        !(r matches Ok(Some(_))) ==> after == before,
        !before.peers.contains_key(accepted.pk_hash) ==> r == Err::<
            Option<Output>,
            HandshakeError,
        >(HandshakeError::UnknownPublicKey),
        after.limits == before.limits,
        others_untouched(before, after, accepted.pk_hash),
{
    if let Ok(Some(out)) = r {
        let k = accepted.pk_hash;
        let resp = choose|resp: Response| #[trigger]
            is_answer(before.peers[k], after.peers[k], id, accepted.state, inputs, resp, out, now);
        assert(resp.bytes() == out.reply->0@);
    }
}

/// A response is passed on only to the peer whose identifier it names and that waits for one,
/// with the first tag of the peer and, from an address, its cookie and within its limit.
pub proof fn law_responses_are_checked<O>(
    before: DeviceView<O>,
    after: DeviceView<O>,
    msg: Response,
    src: Option<SocketAddr>,
    draws: CookieDraws,
    now: u64,
    r: Result<Step, HandshakeError>,
)
    requires
        response_step(before, after, msg, src, draws, now, r),
    ensures
        r matches Ok(Step::Response(pending)) ==> {
            &&& before.ids.contains_key(msg.noise.f_receiver)
            &&& pending.pk_hash == before.ids[msg.noise.f_receiver]
            &&& before.peers.contains_key(pending.pk_hash)
            &&& pending.msg == msg.noise
            &&& before.peers[pending.pk_hash].macs_validator.mac1_ok(msg.noise.bytes(), msg.macs)
            &&& src matches Some(addr) ==> before.peers[pending.pk_hash].macs_validator.mac2_ok(
                msg.noise.bytes(),
                addr,
                msg.macs,
                now,
            ) && allow_spec(before.limits, addr.ip, now).1
            &&& before.peers[pending.pk_hash].state is InitiationSent
            &&& after.peers == before.peers
        },
        !before.ids.contains_key(msg.noise.f_receiver) ==> after == before && r == Err::<
            Step,
            HandshakeError,
        >(HandshakeError::UnknownReceiverId),
        !(r matches Ok(Step::Initiation(_))) && !(r matches Ok(Step::Accepted(_))),
        after.ids == before.ids,
        after.keys == before.keys,
{
}

/// A cookie is taken up only by the peer whose identifier it names and if it opens; it counts
/// from now on, and nothing else changes.
pub proof fn law_cookies_are_taken_up<O>(
    before: DeviceView<O>,
    after: DeviceView<O>,
    msg: CookieReply,
    now: u64,
    r: Result<Step, HandshakeError>,
)
    requires
        cookie_step(before, after, msg, now, r),
    ensures
        r is Ok ==> {
            &&& before.peer_of_id(msg.f_receiver) matches Some(k)
            &&& k == before.ids[msg.f_receiver]
            &&& after.peers[k].macs.has_cookie(now)
            &&& after.peers[k].macs.cookie->0.birth == now
            &&& before.peers[k].macs.opened(msg.f_nonce@, msg.f_cookie@) == Some(
                after.peers[k].macs.cookie->0.value@,
            )
            &&& after.peers[k].state == before.peers[k].state
            &&& others_untouched(before, after, k)
        },
        r is Err ==> after == before,
        after.ids == before.ids,
        after.limits == before.limits,
{
}

/// A completed handshake gives the initiator's pair of keys for its peer and leaves it with
/// nothing to wait for. One that is refused gives no keys and changes nothing.
pub proof fn law_completion_gives_keys<O>(
    before: DeviceView<O>,
    after: DeviceView<O>,
    pending: PendingResponse,
    shk_ee: Seq<u8>,
    shk_se: Seq<u8>,
    now: u64,
    r: Result<Output, HandshakeError>,
)
    requires
        completion_step(before, after, pending, shk_ee, shk_se, now, r),
    ensures
        r matches Ok(out) ==> {
            let k = pending.pk_hash;
            &&& before.peers.contains_key(k)
            &&& out.peer == Some(k)
            &&& out.reply is None
            &&& out.keys matches Some(pair)
            &&& pair.initiator
            &&& pair.birth == now
            &&& pair.recv.id == pending.stage.local
            &&& pair.send.id == pending.msg.f_sender
            &&& after.peers[k].state is Reset
            &&& after.peers[k].psk == before.peers[k].psk
            &&& after.peers[k].k_send == before.peers[k].k_send
            &&& after.peers[k].k_recv == before.peers[k].k_recv
        },
        r is Err ==> after == before,
        after.ids == before.ids,
        after.limits == before.limits,
        others_untouched(before, after, pending.pk_hash),
{
}

/// What is no message is refused, a device without keys does nothing, and an initiation changes
/// nothing before its maker is known.
pub proof fn law_other_bytes_are_refused<O>(
    before: DeviceView<O>,
    after: DeviceView<O>,
    msg: Seq<u8>,
    src: Option<SocketAddr>,
    draws: CookieDraws,
    now: u64,
    r: Result<Step, HandshakeError>,
)
    requires
        message_step(before, after, msg, src, draws, now, r),
    ensures
        msg.len() < 4 ==> r == Err::<Step, HandshakeError>(HandshakeError::InvalidMessageFormat)
            && after == before,
        msg.len() >= 4 && before.keys is None ==> after == before && (r matches Ok(Step::Done(out))
            && out.peer is None && out.reply is None && out.keys is None),
        before.keys is Some && msg.len() >= 4 && msg.len() != 1108 && msg.len() != 1016
            && msg.len() != 64 ==> after == before && r == Err::<Step, HandshakeError>(
            HandshakeError::InvalidMessageFormat,
        ),
        msg.len() == 1108 ==> after == before,
{
}

/// A new private key ends every handshake that the device had begun, frees their identifiers,
/// gives each peer the secret that goes with the new key, and drops the peer that has the
/// key of the device. Pre-shared keys and counters stay.
pub proof fn law_key_change<O>(
    before: DeviceView<O>,
    after: DeviceView<O>,
    rekeyed: DeviceView<O>,
    ids: Seq<u32>,
    k: [u8; 32],
    id: u32,
)
    requires
        after.follows_key_change(before, rekeyed, ids),
    ensures
        after.peers.contains_key(k) <==> before.peers.contains_key(k) && !(after.keys is Some
            && after.keys->0.pk_hash == k),
        after.peers.contains_key(k) ==> {
            let p = after.peers[k];
            let q = before.peers[k];
            &&& p.state is Reset
            &&& p.psk == q.psk
            &&& p.pk == q.pk
            &&& p.k_send == q.k_send
            &&& p.k_recv == q.k_recv
            &&& p.opaque == q.opaque
            &&& after.keys matches Some(keyst) ==> p.ss@ == x25519(keyst.sk@, p.pk@)
            &&& after.keys is None ==> p.ss@ == zeros(32)
        },
        after.ids.contains_key(id) <==> before.ids.contains_key(id) && !before.waits(id),
        after.ids.contains_key(id) ==> after.ids[id] == before.ids[id],
        after.limits == before.limits,
{
    assert(rekeyed.peers.contains_key(k) <==> before.peers.contains_key(k)) by {
        assert(rekeyed.peers.dom() == before.peers.dom());
        assert(rekeyed.peers.dom().contains(k) <==> before.peers.dom().contains(k));
    }
}

/// A peer that is added is there under the hash of its keys, has the secret of the two static
/// keys, no pre-shared key and no handshake, and its counters start at zero. The device itself
/// cannot be added, nor more than 2 to the power 20 peers.
pub proof fn law_added_peers<O>(
    device: DeviceView<O>,
    pk: [u8; 32],
    pk_pq: Seq<u8>,
    opaque: O,
    peer: Peer<O>,
    pk_hash: Seq<u8>,
)
    requires
        device.keys is Some,
        device.is_added(pk, pk_pq, opaque, peer),
    ensures
        peer.pk_hash@ == key_hash(pk@, pk_pq),
        peer.ss@ == x25519(device.keys->0.sk@, pk@),
        peer.psk@ == zeros(32),
        peer.state is Reset,
        peer.k_send == 0,
        peer.k_recv == 0,
        peer.macs.cookie is None,
        peer.opaque == opaque,
        Device::<O>::add_failure(device, pk_hash) is None <==> device.peers.dom().len() < 1_048_576
            && device.keys->0.pk_hash@ != pk_hash,
{
}

} // verus!
