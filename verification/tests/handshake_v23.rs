//! Whole handshakes between two devices. The key encapsulation mechanism is a stand-in: a
//! secret is the hash of the public key and the ciphertext.

use hybrid_wireguard::crypto::{hash2, StaticSecret};
use hybrid_wireguard::hybrid_v23::device::handshake::{ProcessDraws, Step};
use hybrid_wireguard::hybrid_v23::device::Device;
use hybrid_wireguard::hybrid_v23::messages::{
    session_index, CookieReply, Initiation, NoiseInitiation, NoiseResponse, Response, MODE_BOOTSTRAP,
    MODE_RATCHET, MODE_RESYNC,
};
use hybrid_wireguard::hybrid_v23::noise::{InitiationInputs, RatchetEncapsulation, ResponseInputs};
use hybrid_wireguard::hybrid_v23::ri_proof::Decoys;
use hybrid_wireguard::hybrid_v23::runtime::RuntimeReading;
use hybrid_wireguard::types::{HandshakeError, IpAddr, KeyPair, Output, SocketAddr};

const MS: u64 = 1_000_000;

/// A small generator of numbers that look random.
struct Rng(u64);

impl Rng {
    fn next(&mut self) -> u64 {
        self.0 ^= self.0 << 13;
        self.0 ^= self.0 >> 7;
        self.0 ^= self.0 << 17;
        self.0
    }

    fn bytes<const N: usize>(&mut self) -> [u8; N] {
        let mut out = [0u8; N];
        for b in out.iter_mut() {
            *b = (self.next() >> 24) as u8;
        }
        out
    }

    fn decoys(&mut self) -> Decoys {
        let mut decoys = Decoys::new();
        while !decoys.is_complete() {
            decoys.offer(self.next() as u32);
        }
        decoys
    }
}

/// The public key of a stand-in secret key.
fn public_of(secret: &[u8]) -> [u8; 800] {
    let mut out = [0u8; 800];
    for (i, b) in out.iter_mut().enumerate() {
        *b = secret[i % secret.len()] ^ (i as u8) ^ 0x5a;
    }
    out
}

fn decapsulate(secret: &[u8], ct: &[u8]) -> [u8; 32] {
    hash2(&public_of(secret), ct)
}

fn encapsulate(public: &[u8], ct: &[u8]) -> [u8; 32] {
    hash2(public, ct)
}

/// A device with what surrounds it: its keys, a generator and a clock.
struct Side {
    dev: Device<usize>,
    sk_pq: Vec<u8>,
    peer_pq: Vec<u8>,
    peer_hash: [u8; 32],
    rng: Rng,
    now: u64,
    unix: u64,
}

fn quiet_machine() -> RuntimeReading {
    RuntimeReading { stat: None, meminfo: None, open_files: None, limits: None }
}

impl Side {
    fn begin(&mut self) -> Vec<u8> {
        let (ratchet_key, static_key) = {
            let plan = self.dev.plan_initiation(&self.peer_hash).unwrap();
            (plan.ratchet_key, plan.static_key.clone())
        };
        let ratchet = ratchet_key.map(|key| {
            let ct = self.rng.bytes::<768>();
            RatchetEncapsulation { ct, secret: encapsulate(&key, &ct) }
        });
        let eph_sk_pq = self.rng.bytes::<1632>();
        let static_ct = self.rng.bytes::<156>();
        let inputs = InitiationInputs {
            eph_sk: self.rng.bytes(),
            eph_pk_pq: public_of(&eph_sk_pq),
            eph_sk_pq,
            ratchet,
            static_ct,
            static_secret: encapsulate(&static_key, &static_ct),
            ri_draw: self.rng.next() as u32,
            decoys: self.rng.decoys(),
            unix_secs: self.unix,
        };
        loop {
            let sid = self.rng.bytes();
            if let Some(msg) = self.dev.begin(&self.peer_hash, sid, &inputs, self.now).unwrap() {
                return msg;
            }
        }
    }

    fn process(&mut self, msg: &[u8], src: Option<SocketAddr>) -> Result<Output, HandshakeError> {
        let draws = ProcessDraws {
            challenge: self.rng.next() as u32,
            nonce: self.rng.bytes(),
            fresh: self.rng.bytes(),
        };
        match self.dev.process(msg, src, &quiet_machine(), &draws, self.now)? {
            Step::Done(out) => Ok(out),
            Step::Initiation(pending) => {
                let shk = decapsulate(&self.sk_pq, &pending.stage.static_ct);
                let accepted =
                    self.dev.accept_initiation(&pending, Some(shk), self.now, self.unix)?;
                let stage = &accepted.stage;
                let shared = stage
                    .ratchet
                    .local_secret
                    .map(|secret| decapsulate(&secret, &stage.ratchet_ct));
                let eph_ct = self.rng.bytes::<768>();
                let static_ct = self.rng.bytes::<156>();
                let next_secret = self.rng.bytes::<1632>();
                let inputs = ResponseInputs {
                    eph_sk: self.rng.bytes(),
                    eph_ct,
                    shk_master: encapsulate(&stage.eph_pk_pq, &eph_ct),
                    static_ct,
                    shk_static: encapsulate(&self.peer_pq, &static_ct),
                    next_pub: public_of(&next_secret),
                    next_secret,
                    ri_draw: self.rng.next() as u32,
                    decoys: self.rng.decoys(),
                    unix_secs: self.unix,
                };
                loop {
                    let sid = self.rng.bytes();
                    if let Some(out) =
                        self.dev.respond(&accepted, shared, sid, &inputs, self.now)?
                    {
                        return Ok(out);
                    }
                }
            },
            Step::Response(pending) => {
                let master = decapsulate(&pending.stage.eph_sk_pq, &pending.msg.f_ephemeral_ct_pq);
                let shk = pending.stage.hidden.map(|(_, ct)| decapsulate(&self.sk_pq, &ct));
                self.dev.complete(&pending, Some(master), shk, self.now, self.unix)
            },
        }
    }
}

/// Two devices that know each other and share a pre-shared key.
fn setup_devices() -> (Side, Side) {
    let mut rng = Rng(0x1234_5678_9abc_def1);
    let now = 1_000_000_000_000;
    let mut sides: Vec<(StaticSecret, Vec<u8>, Vec<u8>)> = Vec::new();
    for _ in 0..2 {
        let sk = StaticSecret::from_bytes(&rng.bytes());
        let sk_pq = rng.bytes::<64>().to_vec();
        let pk_pq = public_of(&sk_pq).to_vec();
        sides.push((sk, sk_pq, pk_pq));
    }
    let psk = rng.bytes::<32>();
    let mut out: Vec<Side> = Vec::new();
    for i in 0..2 {
        let (sk, sk_pq, pk_pq) = &sides[i];
        let (other_sk, _, other_pq) = &sides[1 - i];
        let other_pk = other_sk.public();
        let mut dev: Device<usize> = Device::new(now);
        dev.set_sk(Some((sk.duplicate(), sk_pq.clone(), pk_pq.clone())));
        dev.add(&other_pk, other_pq, i).unwrap();
        let peer_hash = Device::<usize>::hash_static_keys(&other_pk, other_pq);
        dev.set_psk(&peer_hash, psk).unwrap();
        out.push(Side {
            dev,
            sk_pq: sk_pq.clone(),
            peer_pq: other_pq.clone(),
            peer_hash,
            rng: Rng(rng.next() | 1),
            now,
            unix: 1_700_000_000,
        });
    }
    let second = out.pop().unwrap();
    let first = out.pop().unwrap();
    (first, second)
}

/// Time passes on both sides, so that the next initiation is no flood.
fn wait(a: &mut Side, b: &mut Side) {
    a.now += 20 * MS;
    b.now += 20 * MS;
}

fn v4(a: u8, b: u8, c: u8, d: u8, port: u16) -> SocketAddr {
    SocketAddr { ip: IpAddr::V4([a, b, c, d]), port }
}

fn assert_transport_keys_match(initiator: &KeyPair, responder: &KeyPair) {
    assert!(initiator.initiator, "initiator key-pair is not confirmed");
    assert!(!responder.initiator, "responder key-pair is confirmed");
    assert_eq!(initiator.send, responder.recv, "KeyI.send != KeyR.recv");
    assert_eq!(initiator.recv, responder.send, "KeyI.recv != KeyR.send");
}

/// A whole handshake that must succeed. The sessions stay open.
fn handshake(a: &mut Side, b: &mut Side) -> (KeyPair, KeyPair) {
    let msg1 = a.begin();
    let answer = b.process(&msg1, None).expect("failed to process initiation");
    let done = a.process(&answer.reply.unwrap(), None).expect("failed to process response");
    let (i, r) = (done.keys.unwrap(), answer.keys.unwrap());
    assert_transport_keys_match(&i, &r);
    (i, r)
}

#[test]
fn handshake_no_load() {
    let (mut dev1, mut dev2) = setup_devices();
    for i in 0..10 {
        println!("handshake : {}", i);
        let msg1 = dev1.begin();
        println!("msg1 : {} bytes", msg1.len());
        println!("msg1 = {:?}", Initiation::parse(&msg1[..]).expect("failed to parse initiation"));

        let answer = dev2.process(&msg1, None).expect("failed to process initiation");
        let ks_r = answer.keys.unwrap();
        let msg2 = answer.reply.unwrap();
        println!("msg2 = {:?}", Response::parse(&msg2[..]).expect("failed to parse response"));
        assert!(!ks_r.initiator, "Responders key-pair is confirmed");
        assert_eq!(answer.peer, Some(dev2.peer_hash));

        let done = dev1.process(&msg2, None).expect("failed to process response");
        let ks_i = done.keys.unwrap();
        assert!(done.reply.is_none(), "Returned message after response");
        assert!(ks_i.initiator, "Initiators key-pair is not confirmed");
        assert_eq!(done.peer, Some(dev1.peer_hash));

        assert_eq!(ks_i.send, ks_r.recv, "KeyI.send != KeyR.recv");
        assert_eq!(ks_i.recv, ks_r.send, "KeyI.recv != KeyR.send");
        assert_ne!(ks_i.send.key, ks_i.recv.key);

        dev1.dev.release(ks_i.local_id());
        dev2.dev.release(ks_r.local_id());
        wait(&mut dev1, &mut dev2);
    }
    let (hash1, hash2) = (dev1.peer_hash, dev2.peer_hash);
    dev1.dev.remove(&hash1).unwrap();
    dev2.dev.remove(&hash2).unwrap();
}

#[test]
fn handshake_under_load() {
    let (mut dev1, mut dev2) = setup_devices();
    let src1 = v4(172, 16, 0, 1, 8080);
    let src2 = v4(172, 16, 0, 2, 7070);
    let now = dev2.now;
    dev2.dev.gradient_dos_checker.update_global_cpu_usage(750_000, now);

    // 1. device-1 : create first initiation
    let msg_init = dev1.begin();

    // 2. device-2 : responds with CookieReply
    let out = dev2.process(&msg_init, Some(src1)).unwrap();
    assert!(out.peer.is_none() && out.keys.is_none(), "unexpected response");
    let msg_cookie = out.reply.expect("unexpected response");

    // device-1 : processes CookieReply (no response)
    let out = dev1.process(&msg_cookie, Some(src2)).unwrap();
    assert!(out.peer.is_none() && out.reply.is_none() && out.keys.is_none());

    wait(&mut dev1, &mut dev2);

    // 3. device-1 : create second initiation
    let msg_init = dev1.begin();

    // 4. device-2 : responds with noise response
    let out = dev2.process(&msg_init, Some(src1)).unwrap();
    assert!(out.peer.is_some(), "unexpected response");
    assert_eq!(out.keys.expect("unexpected response").initiator, false);
    let msg_response = out.reply.expect("unexpected response");

    // 5. device-1 : responds with CookieReply
    let out = dev1.process(&msg_response, Some(src2)).unwrap();
    assert!(out.peer.is_none() && out.keys.is_none(), "unexpected response");
    let msg_cookie = out.reply.expect("unexpected response");

    // device-2 : processes CookieReply (no response)
    let out = dev2.process(&msg_cookie, Some(src1)).unwrap();
    assert!(out.peer.is_none() && out.reply.is_none() && out.keys.is_none());

    wait(&mut dev1, &mut dev2);

    // 6. device-1 : create third initiation
    let msg_init = dev1.begin();

    // 7. device-2 : responds with noise response
    let out = dev2.process(&msg_init, Some(src1)).unwrap();
    let kp1 = out.keys.expect("unexpected response");
    assert_eq!(kp1.initiator, false);
    let msg_response = out.reply.expect("unexpected response");

    // device-1 : process noise response
    let out = dev1.process(&msg_response, Some(src2)).unwrap();
    assert!(out.peer.is_some() && out.reply.is_none(), "unexpected response");
    let kp2 = out.keys.expect("unexpected response");
    assert_eq!(kp2.initiator, true);

    assert_eq!(kp1.send, kp2.recv);
    assert_eq!(kp1.recv, kp2.send);
}

#[test]
fn initiation_with_source_requires_cookie_before_expensive_processing() {
    let (mut dev1, mut dev2) = setup_devices();
    let src1 = v4(172, 16, 0, 10, 8080);
    let src2 = v4(172, 16, 0, 20, 7070);

    let msg_init = dev1.begin();
    let out = dev2.process(&msg_init, Some(src1)).unwrap();
    assert!(
        out.peer.is_none() && out.keys.is_none(),
        "initiation without cookie should only return CookieReply"
    );
    let msg_cookie = out.reply.expect("initiation without cookie should only return CookieReply");
    CookieReply::parse(&msg_cookie[..]).expect("failed to parse CookieReply");

    let out = dev1.process(&msg_cookie, Some(src2)).unwrap();
    assert!(
        out.peer.is_none() && out.reply.is_none() && out.keys.is_none(),
        "CookieReply should not produce a transport key"
    );

    wait(&mut dev1, &mut dev2);

    let msg_init = dev1.begin();
    let out = dev2.process(&msg_init, Some(src1)).unwrap();
    assert!(out.peer.is_some() && out.reply.is_some());
    assert_eq!(
        out.keys.expect("initiation with valid cookie should produce a response").initiator,
        false
    );
}

#[test]
fn cookie_is_bound_to_its_source() {
    let (mut dev1, mut dev2) = setup_devices();
    let src = v4(172, 16, 0, 10, 8080);
    let cookie = dev2.process(&dev1.begin(), Some(src)).unwrap().reply.unwrap();
    dev1.process(&cookie, None).unwrap();
    wait(&mut dev1, &mut dev2);
    let msg = dev1.begin();
    let out = dev2.process(&msg, Some(v4(172, 16, 0, 11, 8080))).unwrap();
    assert!(out.keys.is_none());
    CookieReply::parse(&out.reply.unwrap()).unwrap();
    let out = dev2.process(&msg, Some(src)).unwrap();
    assert!(out.keys.is_some());
}

#[test]
fn response_hash_tamper_fails() {
    let (mut dev1, mut dev2) = setup_devices();
    let msg1 = dev1.begin();
    let msg2 = dev2.process(&msg1, None).expect("failed to process initiation").reply.unwrap();
    let mut parsed = Response::parse(&msg2[..]).expect("failed to parse response");
    parsed.noise.f_hash_ephemeral_pq[0] ^= 0x01;
    let err = match dev1.process(&parsed.as_bytes(), None) {
        Err(err) => err,
        Ok(_) => panic!("tampered response hash should fail"),
    };
    assert!(matches!(
        err,
        HandshakeError::DecryptionFailure | HandshakeError::InvalidMac1 | HandshakeError::InvalidTr
    ));
}

#[test]
fn handshake_message_sizes_reflect_v23_ratchet_payloads() {
    let initiation_len = Initiation::default().as_bytes().len();
    let response_len = Response::default().as_bytes().len();
    let cookie_len = CookieReply::default().as_bytes().len();
    const IPV6_UDP_OVERHEAD: usize = 48;

    assert_eq!(initiation_len, 2004);
    assert_eq!(response_len, 2012);
    assert_eq!(cookie_len, 92);
    assert!(initiation_len + IPV6_UDP_OVERHEAD > 1280);
    assert!(response_len + IPV6_UDP_OVERHEAD > 1280);
    assert!(cookie_len + IPV6_UDP_OVERHEAD <= 1280);
}

#[test]
fn ratchet_retry_after_dropped_response_keeps_epoch_usable() {
    let (mut dev1, mut dev2) = setup_devices();

    let msg1 = dev1.begin();
    let parsed1 = Initiation::parse(&msg1[..]).expect("failed to parse bootstrap initiation");
    assert_eq!(parsed1.noise.f_mode, MODE_BOOTSTRAP);
    assert_eq!(parsed1.noise.f_epoch, 0);

    let answer = dev2.process(&msg1, None).expect("failed to process bootstrap initiation");
    let msg2 = answer.reply.unwrap();
    let parsed2 = Response::parse(&msg2[..]).expect("failed to parse bootstrap response");
    assert_eq!(parsed2.noise.f_mode, MODE_BOOTSTRAP);
    assert_eq!(parsed2.noise.f_epoch, 0);

    let done = dev1.process(&msg2, None).expect("failed to process bootstrap response");
    let ks_i0 = done.keys.unwrap();
    let ks_r0 = answer.keys.unwrap();
    assert_transport_keys_match(&ks_i0, &ks_r0);
    dev1.dev.release(ks_i0.local_id());
    dev2.dev.release(ks_r0.local_id());

    wait(&mut dev1, &mut dev2);

    let msg3 = dev1.begin();
    let parsed3 = Initiation::parse(&msg3[..]).expect("failed to parse first ratchet initiation");
    assert_eq!(parsed3.noise.f_mode, MODE_RATCHET);
    assert_eq!(parsed3.noise.f_epoch, 1);
    assert_ne!(parsed3.noise.f_ratchet_kid, [0u8; 16]);
    assert_ne!(parsed3.noise.f_ratchet_ct, [0u8; 768]);
    let dropped_sid = parsed3.noise.f_sender;
    let dropped_local = session_index(&dropped_sid);

    let answer = dev2.process(&msg3, None).expect("failed to process first ratchet initiation");
    let msg4 = answer.reply.unwrap();
    let parsed4 = Response::parse(&msg4[..]).expect("failed to parse dropped ratchet response");
    assert_eq!(parsed4.noise.f_mode, MODE_RATCHET);
    assert_eq!(parsed4.noise.f_epoch, 1);
    dev2.dev.release(answer.keys.unwrap().local_id());
    dev1.dev.release(dropped_local);

    wait(&mut dev1, &mut dev2);

    let msg5 = dev1.begin();
    let parsed5 = Initiation::parse(&msg5[..]).expect("failed to parse ratchet retry");
    assert_eq!(parsed5.noise.f_mode, MODE_RATCHET);
    assert_eq!(parsed5.noise.f_epoch, 1);

    let answer = dev2.process(&msg5, None).expect("failed to process ratchet retry");
    let msg6 = answer.reply.unwrap();
    let done = dev1.process(&msg6, None).expect("failed to process ratchet retry response");
    let ks_i2 = done.keys.unwrap();
    let ks_r2 = answer.keys.unwrap();
    assert_transport_keys_match(&ks_i2, &ks_r2);
    dev1.dev.release(ks_i2.local_id());
    dev2.dev.release(ks_r2.local_id());
}

#[test]
fn resync_mode_recovers_after_forgetting_remote_ratchet_public_key() {
    let (mut dev1, mut dev2) = setup_devices();

    let msg1 = dev1.begin();
    let answer = dev2.process(&msg1, None).expect("failed to process bootstrap initiation");
    let msg2 = answer.reply.unwrap();
    let done = dev1.process(&msg2, None).expect("failed to process bootstrap response");
    let ks_i0 = done.keys.unwrap();
    let ks_r0 = answer.keys.unwrap();
    assert_transport_keys_match(&ks_i0, &ks_r0);
    dev1.dev.release(ks_i0.local_id());
    dev2.dev.release(ks_r0.local_id());

    let hash = dev1.peer_hash;
    dev1.dev.forget_remote_ratchet(&hash).expect("failed to clear remote ratchet public key");

    wait(&mut dev1, &mut dev2);

    let msg3 = dev1.begin();
    let parsed3 = Initiation::parse(&msg3[..]).expect("failed to parse resync initiation");
    assert_eq!(parsed3.noise.f_mode, MODE_RESYNC);
    assert_eq!(parsed3.noise.f_epoch, 1);
    assert_eq!(parsed3.noise.f_ratchet_kid, [0u8; 16]);
    assert_eq!(parsed3.noise.f_ratchet_ct, [0u8; 768]);

    let answer = dev2.process(&msg3, None).expect("failed to process resync initiation");
    let msg4 = answer.reply.unwrap();
    let parsed4 = Response::parse(&msg4[..]).expect("failed to parse resync response");
    assert_eq!(parsed4.noise.f_mode, MODE_RESYNC);
    assert_eq!(parsed4.noise.f_epoch, 1);

    let done = dev1.process(&msg4, None).expect("failed to process resync response");
    let ks_i1 = done.keys.unwrap();
    let ks_r1 = answer.keys.unwrap();
    assert_transport_keys_match(&ks_i1, &ks_r1);
    dev1.dev.release(ks_i1.local_id());
    dev2.dev.release(ks_r1.local_id());

    wait(&mut dev1, &mut dev2);

    let msg5 = dev1.begin();
    let parsed5 = Initiation::parse(&msg5[..]).expect("failed to parse post-resync initiation");
    assert_eq!(parsed5.noise.f_mode, MODE_RATCHET);
    assert_eq!(parsed5.noise.f_epoch, 2);
    let sid = parsed5.noise.f_sender;
    dev1.dev.release(session_index(&sid));
}

#[test]
fn epochs_count_completed_handshakes() {
    let (mut dev1, mut dev2) = setup_devices();
    for epoch in 0..4u64 {
        // a start that nobody answers counts for nothing
        for _ in 0..2 {
            let first = Initiation::parse(&dev1.begin()).unwrap().noise;
            assert_eq!(first.f_epoch, epoch);
            if epoch == 0 {
                assert_eq!(first.f_mode, MODE_BOOTSTRAP);
                assert_eq!(first.f_ratchet_kid, [0u8; 16]);
                assert_eq!(first.f_ratchet_ct, [0u8; 768]);
            } else {
                assert_eq!(first.f_mode, MODE_RATCHET);
                assert_ne!(first.f_ratchet_kid, [0u8; 16]);
                assert_ne!(first.f_ratchet_ct, [0u8; 768]);
            }
        }
        handshake(&mut dev1, &mut dev2);
        wait(&mut dev1, &mut dev2);
    }
    let hash = dev1.peer_hash;
    dev1.dev.forget_remote_ratchet(&hash).unwrap();
    for _ in 0..2 {
        let recovery = Initiation::parse(&dev1.begin()).unwrap().noise;
        assert_eq!(recovery.f_epoch, 4);
        assert_eq!(recovery.f_mode, MODE_RESYNC);
        assert_eq!(recovery.f_ratchet_kid, [0u8; 16]);
        assert_eq!(recovery.f_ratchet_ct, [0u8; 768]);
    }
    handshake(&mut dev1, &mut dev2);
    let next = Initiation::parse(&dev1.begin()).unwrap().noise;
    assert_eq!((next.f_epoch, next.f_mode), (5, MODE_RATCHET));
}

#[test]
fn other_calls_leave_the_epochs_alone() {
    let (mut dev1, mut dev2) = setup_devices();
    let (hash, hash2) = (dev1.peer_hash, dev2.peer_hash);
    handshake(&mut dev1, &mut dev2);
    wait(&mut dev1, &mut dev2);
    handshake(&mut dev1, &mut dev2);

    let other = StaticSecret::from_bytes(&[3u8; 32]).public();
    let other_pq = public_of(&[4u8; 64]).to_vec();
    let other_hash = Device::<usize>::hash_static_keys(&other, &other_pq);
    dev1.dev.add(&other, &other_pq, 7).unwrap();
    dev1.dev.set_psk(&other_hash, [5u8; 32]).unwrap();
    dev1.dev.set_ri_key(Some([6u8; 8]));
    dev1.dev.set_ri_key(None);
    let keys = dev1.dev.get_sk().map(|(sk, sk_pq, pk_pq)| (sk.duplicate(), sk_pq.clone(), pk_pq.clone()));
    dev1.dev.set_sk(keys);
    dev1.dev.remove(&other_hash).unwrap();
    let next = Initiation::parse(&dev1.begin()).unwrap().noise;
    assert_eq!((next.f_epoch, next.f_mode), (2, MODE_RATCHET));

    // a pre-shared key starts the count over, also with an initiation in flight
    dev1.dev.set_psk(&hash, [8u8; 32]).unwrap();
    dev2.dev.set_psk(&hash2, [8u8; 32]).unwrap();
    let first = Initiation::parse(&dev1.begin()).unwrap().noise;
    assert_eq!((first.f_epoch, first.f_mode), (0, MODE_BOOTSTRAP));
    wait(&mut dev1, &mut dev2);
    handshake(&mut dev1, &mut dev2);
    let second = Initiation::parse(&dev1.begin()).unwrap().noise;
    assert_eq!((second.f_epoch, second.f_mode), (1, MODE_RATCHET));
}

#[test]
fn sessions_are_allocated_until_they_are_released() {
    let (mut dev1, mut dev2) = setup_devices();
    let (i, r) = handshake(&mut dev1, &mut dev2);
    assert!(dev1.dev.is_allocated(i.local_id()) && dev2.dev.is_allocated(r.local_id()));
    assert!(!dev1.dev.is_allocated(0));
    dev1.dev.release(i.local_id());
    assert!(!dev1.dev.is_allocated(i.local_id()));
}

#[test]
fn lost_messages_leave_the_ratchets_in_step() {
    let (mut dev1, mut dev2) = setup_devices();
    let hash = dev1.peer_hash;
    for round in 0..12u64 {
        if round % 5 == 4 {
            dev1.dev.forget_remote_ratchet(&hash).unwrap();
        }
        let msg = dev1.begin();
        if round % 3 == 1 {
            continue;
        }
        let answer = dev2.process(&msg, None).expect("failed to process initiation");
        wait(&mut dev1, &mut dev2);
        if round % 4 == 2 {
            continue;
        }
        let done = dev1.process(&answer.reply.unwrap(), None).expect("failed to process response");
        assert_transport_keys_match(&done.keys.unwrap(), &answer.keys.unwrap());
    }
    handshake(&mut dev1, &mut dev2);
}

#[test]
fn a_late_answer_still_finds_its_session() {
    let (mut dev1, mut dev2) = setup_devices();
    let answer = dev2.process(&dev1.begin(), None).unwrap();
    dev1.now += 3_600_000 * MS;
    let done = dev1.process(&answer.reply.unwrap(), None).expect("failed to process response");
    assert_transport_keys_match(&done.keys.unwrap(), &answer.keys.unwrap());
}

#[test]
fn handshake_uses_full_32_byte_session_ids() {
    let (mut dev1, mut dev2) = setup_devices();

    let msg1 = dev1.begin();
    let parsed1 = Initiation::parse(&msg1[..]).expect("failed to parse initiation");
    assert_eq!(parsed1.noise.f_sender.len(), 32);
    assert_ne!(parsed1.noise.f_sender, [0u8; 32]);

    let answer = dev2.process(&msg1, None).expect("failed to process initiation");
    let msg2 = answer.reply.unwrap();
    let parsed2 = Response::parse(&msg2[..]).expect("failed to parse response");
    assert_eq!(parsed2.noise.f_sender.len(), 32);
    assert_eq!(parsed2.noise.f_receiver.len(), 32);
    assert_ne!(parsed2.noise.f_sender, [0u8; 32]);
    assert_eq!(parsed2.noise.f_receiver, parsed1.noise.f_sender);
    assert_ne!(parsed2.noise.f_hash_ephemeral_pq, [0u8; 32]);
}

#[test]
fn initiation_encrypted_identity_tamper_fails() {
    let (mut dev1, mut dev2) = setup_devices();
    let msg1 = dev1.begin();
    let mut parsed = Initiation::parse(&msg1[..]).expect("failed to parse initiation");
    parsed.noise.f_identity[0] ^= 0x01;
    let err = match dev2.process(&parsed.as_bytes(), None) {
        Err(err) => err,
        Ok(_) => panic!("tampered encrypted identity should fail"),
    };
    assert!(matches!(err, HandshakeError::DecryptionFailure | HandshakeError::InvalidMac1));
}

#[test]
fn every_handshake_has_its_own_keys() {
    let (mut dev1, mut dev2) = setup_devices();
    let (first, _) = handshake(&mut dev1, &mut dev2);
    wait(&mut dev1, &mut dev2);
    let (second, _) = handshake(&mut dev1, &mut dev2);
    assert_ne!(first.send.key, second.send.key);
    assert_ne!(first.recv.key, second.recv.key);
}

#[test]
fn the_responder_of_the_last_handshake_is_an_epoch_behind() {
    let (mut dev1, mut dev2) = setup_devices();
    handshake(&mut dev1, &mut dev2);
    wait(&mut dev1, &mut dev2);
    assert_eq!(dev1.process(&dev2.begin(), None).err(), Some(HandshakeError::InvalidEpoch));
}

#[test]
fn replayed_initiation_is_refused() {
    let (mut dev1, mut dev2) = setup_devices();
    let msg = dev1.begin();
    dev2.process(&msg, None).unwrap();
    wait(&mut dev1, &mut dev2);
    assert_eq!(dev2.process(&msg, None).err(), Some(HandshakeError::OldTimestamp));
}

#[test]
fn initiation_flood_is_refused() {
    let (mut dev1, mut dev2) = setup_devices();
    dev2.process(&dev1.begin(), None).unwrap();
    dev2.now += 20 * MS - 1;
    assert_eq!(dev2.process(&dev1.begin(), None).err(), Some(HandshakeError::InitiationFlood));
    dev2.now += 1;
    dev2.process(&dev1.begin(), None).unwrap();
}

#[test]
fn replayed_response_is_refused() {
    let (mut dev1, mut dev2) = setup_devices();
    let msg2 = dev2.process(&dev1.begin(), None).unwrap().reply.unwrap();
    dev1.process(&msg2, None).unwrap();
    assert_eq!(dev1.process(&msg2, None).err(), Some(HandshakeError::InvalidState));
}

#[test]
fn wrong_psk_is_refused() {
    let (mut dev1, mut dev2) = setup_devices();
    let hash = dev2.peer_hash;
    dev2.dev.set_psk(&hash, [9u8; 32]).unwrap();
    assert_eq!(dev2.process(&dev1.begin(), None).err(), Some(HandshakeError::InvalidMac1));
}

#[test]
fn clock_skew_is_refused_beyond_its_limit() {
    let (mut dev1, mut dev2) = setup_devices();
    dev2.unix += 120;
    dev2.process(&dev1.begin(), None).unwrap();
    wait(&mut dev1, &mut dev2);
    dev2.unix += 1;
    assert_eq!(dev2.process(&dev1.begin(), None).err(), Some(HandshakeError::InvalidTi));
}

#[test]
fn manual_rendezvous_key_must_be_shared() {
    let (mut dev1, mut dev2) = setup_devices();
    dev1.dev.set_ri_key(Some([1, 2, 3, 4, 5, 6, 7, 8]));
    assert_eq!(dev1.dev.get_ri_key(), Some([1, 2, 3, 4, 5, 6, 7, 8]));
    assert_eq!(dev2.process(&dev1.begin(), None).err(), Some(HandshakeError::InvalidTi));
    dev2.dev.set_ri_key(Some([1, 2, 3, 4, 5, 6, 7, 8]));
    wait(&mut dev1, &mut dev2);
    handshake(&mut dev1, &mut dev2);
}

#[test]
fn unknown_sender_is_refused() {
    let (mut dev1, mut dev2) = setup_devices();
    let hash = dev2.peer_hash;
    dev2.dev.remove(&hash).unwrap();
    assert_eq!(dev2.process(&dev1.begin(), None).err(), Some(HandshakeError::UnknownPublicKey));
}

#[test]
fn unknown_receiver_is_refused() {
    let (mut dev1, mut dev2) = setup_devices();
    let msg1 = dev1.begin();
    let msg2 = dev2.process(&msg1, None).unwrap().reply.unwrap();
    let sid = Initiation::parse(&msg1).unwrap().noise.f_sender;
    dev1.dev.release(session_index(&sid));
    assert_eq!(dev1.process(&msg2, None).err(), Some(HandshakeError::UnknownReceiverId));
}

#[test]
fn tampered_initiation_fields_are_refused() {
    let cases: Vec<(fn(&mut NoiseInitiation), HandshakeError)> = vec![
        (|m| m.f_mode = 3, HandshakeError::InvalidMode),
        (|m| m.f_ephemeral = [0u8; 32], HandshakeError::InvalidSharedSecret),
        (|m| m.f_static_ct_pq[3] ^= 1, HandshakeError::DecryptionFailure),
        (|m| m.f_timestamp[3] ^= 1, HandshakeError::InvalidMac1),
    ];
    for (change, expected) in cases {
        let (mut dev1, mut dev2) = setup_devices();
        let mut msg = Initiation::parse(&dev1.begin()).unwrap();
        change(&mut msg.noise);
        assert_eq!(dev2.process(&msg.as_bytes(), None).err(), Some(expected));
    }
}

#[test]
fn tampered_response_fields_are_refused() {
    let cases: Vec<(fn(&mut NoiseResponse), HandshakeError)> = vec![
        (|m| m.f_receiver[9] ^= 1, HandshakeError::UnknownReceiverId),
        (|m| m.f_ephemeral_ct_pq[9] ^= 1, HandshakeError::DecryptionFailure),
        (|m| m.f_confirm[9] ^= 1, HandshakeError::InvalidMac1),
    ];
    for (change, expected) in cases {
        let (mut dev1, mut dev2) = setup_devices();
        let reply = dev2.process(&dev1.begin(), None).unwrap().reply.unwrap();
        let mut msg = Response::parse(&reply).unwrap();
        change(&mut msg.noise);
        assert_eq!(dev1.process(&msg.as_bytes(), None).err(), Some(expected));
    }
}

#[test]
fn malformed_messages_are_refused() {
    let (mut dev1, mut dev2) = setup_devices();
    let msg = dev1.begin();
    let bad = Some(HandshakeError::InvalidMessageFormat);
    assert_eq!(dev2.process(&[1, 0, 0], None).err(), bad);
    assert_eq!(dev2.process(&msg[..2003], None).err(), bad);
    assert_eq!(dev2.process(&[4, 0, 0, 0], None).err(), bad);
    assert_eq!(dev2.process(&[2, 0, 0, 0, 1], None).err(), bad);
    assert_eq!(dev2.process(&[3, 0, 0, 0], None).err(), bad);
}

#[test]
fn a_device_without_keys_is_silent() {
    let (mut dev1, mut dev2) = setup_devices();
    let msg = dev1.begin();
    dev2.dev.set_sk(None);
    assert!(dev2.dev.get_sk().is_none());
    let out = dev2.process(&msg, None).unwrap();
    assert!(out.peer.is_none() && out.reply.is_none() && out.keys.is_none());
    let hash = dev2.peer_hash;
    assert_eq!(
        dev2.dev.plan_initiation(&hash).err(),
        Some(HandshakeError::UnknownPublicKey)
    );
}

#[test]
fn failed_decapsulation_is_refused() {
    let (mut dev1, mut dev2) = setup_devices();
    let draws = ProcessDraws { challenge: 0, nonce: [0u8; 24], fresh: [0u8; 32] };
    let msg = dev1.begin();
    match dev2.dev.process(&msg, None, &quiet_machine(), &draws, dev2.now) {
        Ok(Step::Initiation(pending)) => {
            let r = dev2.dev.accept_initiation(&pending, None, dev2.now, dev2.unix);
            assert_eq!(r.err(), Some(HandshakeError::DecryptionFailure));
        },
        _ => panic!("an initiation was expected"),
    }
    let reply = dev2.process(&msg, None).unwrap().reply.unwrap();
    match dev1.dev.process(&reply, None, &quiet_machine(), &draws, dev1.now) {
        Ok(Step::Response(pending)) => {
            let r = dev1.dev.complete(&pending, None, Some([0u8; 32]), dev1.now, dev1.unix);
            assert_eq!(r.err(), Some(HandshakeError::DecryptionFailure));
            let r = dev1.dev.complete(&pending, Some([0u8; 32]), None, dev1.now, dev1.unix);
            assert_eq!(r.err(), Some(HandshakeError::DecryptionFailure));
        },
        _ => panic!("a response was expected"),
    }
}

#[test]
fn peers_can_be_listed_and_configured() {
    let (mut dev1, dev2) = setup_devices();
    let hash = dev1.peer_hash;
    assert_eq!(dev1.dev.len(), 1);
    assert!(dev1.dev.contains_key(&hash));
    assert_eq!(dev1.dev.get(&hash), Some(&0));
    assert_eq!(dev2.dev.get(&hash), None);
    let listed: Vec<([u8; 32], usize)> = dev1.dev.iter().iter().map(|(k, o)| (**k, **o)).collect();
    assert_eq!(listed, vec![(hash, 0)]);
    dev1.dev.set_psk(&hash, [5u8; 32]).unwrap();
    assert_eq!(dev1.dev.get_psk(&hash).unwrap(), [5u8; 32]);
    let missing = dev1.dev.get_psk(&[0u8; 32]).unwrap_err();
    assert_eq!(missing.message(), "ConfigError(No such public key)");
    assert_eq!(
        dev1.dev.remove(&[0u8; 32]).unwrap_err().description(),
        "Public key not in device"
    );
    dev1.dev.clear();
    assert_eq!(dev1.dev.len(), 0);
}

#[test]
fn a_device_does_not_add_itself() {
    let mut dev: Device<usize> = Device::new(0);
    let sk = StaticSecret::from_bytes(&[7u8; 32]);
    let pk = sk.public();
    let err = dev.add(&pk, &[1, 2, 3], 0).unwrap_err();
    assert_eq!(err.description(), "Device key not set");
    dev.set_sk(Some((sk, vec![4], vec![1, 2, 3])));
    let err = dev.add(&pk, &[1, 2, 3], 0).unwrap_err();
    assert_eq!(err.description(), "Public key of peer matches the device");
    dev.add(&pk, &[1, 2, 4], 0).unwrap();
    assert_eq!(dev.len(), 1);
    let sk = StaticSecret::from_bytes(&[7u8; 32]);
    dev.set_sk(Some((sk, vec![4], vec![1, 2, 4])));
    assert_eq!(dev.len(), 0);
}

#[test]
fn session_index_is_the_head_of_the_identifier() {
    let mut sid = [0xffu8; 32];
    sid[..4].copy_from_slice(&[0x78, 0x56, 0x34, 0x12]);
    assert_eq!(session_index(&sid), 0x1234_5678);
}
