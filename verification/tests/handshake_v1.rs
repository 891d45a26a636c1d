//! Whole handshakes of the first version. The key encapsulation mechanism is a stand-in: a
//! secret is the hash of the public key and the ciphertext.

use hybrid_wireguard::crypto::{hash2, StaticSecret};
use hybrid_wireguard::hybrid_v1::device::handshake::{CookieDraws, Step};
use hybrid_wireguard::hybrid_v1::device::Device;
use hybrid_wireguard::hybrid_v1::messages::{CookieReply, Initiation, NoiseInitiation, Response};
use hybrid_wireguard::hybrid_v1::noise::{InitiationInputs, ResponseInputs};
use hybrid_wireguard::types::{HandshakeError, IpAddr, KeyPair, Output, SocketAddr};

const MS: u64 = 1_000_000;

struct Rng(u64);

impl Rng {
    fn next(&mut self) -> u64 {
        self.0 ^= self.0 << 13;
        self.0 ^= self.0 >> 7;
        self.0 ^= self.0 << 17;
        self.0
    }

    fn bytes<const N: usize>(&mut self) -> [u8; N] {
        let mut out = [0u8; N];
        for b in out.iter_mut() {
            *b = (self.next() >> 24) as u8;
        }
        out
    }
}

fn public_of(secret: &[u8]) -> [u8; 800] {
    let mut out = [0u8; 800];
    for (i, b) in out.iter_mut().enumerate() {
        *b = secret[i % secret.len()] ^ (i as u8) ^ 0x5a;
    }
    out
}

struct Side {
    dev: Device<usize>,
    sk_pq: Vec<u8>,
    peer_pq: Vec<u8>,
    peer_hash: [u8; 32],
    rng: Rng,
    now: u64,
}

impl Side {
    fn decapsulate(&self, ct: &[u8]) -> [u8; 32] {
        hash2(&public_of(&self.sk_pq), ct)
    }

    fn draws(&mut self) -> CookieDraws {
        CookieDraws { nonce: self.rng.bytes(), fresh: self.rng.bytes() }
    }

    fn begin(&mut self) -> Vec<u8> {
        let static_key = self.dev.plan_initiation(&self.peer_hash).unwrap().static_key.clone();
        let eph_sk_pq = self.rng.bytes::<1632>();
        let static_ct = self.rng.bytes::<156>();
        let inputs = InitiationInputs {
            eph_sk: self.rng.bytes(),
            eph_pk_pq: public_of(&eph_sk_pq),
            eph_sk_pq,
            static_ct,
            static_secret: hash2(&static_key, &static_ct),
        };
        loop {
            let id = self.rng.next() as u32;
            if let Some(msg) = self.dev.begin(&self.peer_hash, id, &inputs, self.now).unwrap() {
                return msg;
            }
        }
    }

    fn process(&mut self, msg: &[u8], src: Option<SocketAddr>) -> Result<Output, HandshakeError> {
        let draws = self.draws();
        let mut step = self.dev.process(msg, src, &draws, self.now)?;
        loop {
            step = match step {
                Step::Done(out) => return Ok(out),
                Step::Initiation(pending) => {
                    let shk = self.decapsulate(&pending.stage.static_ct);
                    let draws = self.draws();
                    self.dev.accept_initiation(&pending, &shk, &draws, self.now)?
                },
                Step::Accepted(accepted) => {
                    let eph_ct = self.rng.bytes::<768>();
                    let static_ct = self.rng.bytes::<156>();
                    let inputs = ResponseInputs {
                        eph_sk: self.rng.bytes(),
                        eph_ct,
                        eph_secret: hash2(&accepted.state.eph_pk_pq, &eph_ct),
                        static_ct,
                        static_secret: hash2(&self.peer_pq, &static_ct),
                    };
                    loop {
                        let id = self.rng.next() as u32;
                        if let Some(out) = self.dev.respond(&accepted, id, &inputs, self.now)? {
                            return Ok(out);
                        }
                    }
                },
                Step::Response(pending) => {
                    let ee = hash2(
                        &public_of(&pending.stage.eph_sk_pq),
                        &pending.msg.f_ephemeral_ct_pq,
                    );
                    let se = self.decapsulate(&pending.stage.static_ct);
                    return self.dev.complete(&pending, &ee, &se, self.now);
                },
            };
        }
    }
}

fn setup_devices() -> (Side, Side) {
    let mut rng = Rng(0x0bad_cafe_1234_5671);
    let mut keys: Vec<(StaticSecret, Vec<u8>, Vec<u8>)> = Vec::new();
    for _ in 0..2 {
        let sk = StaticSecret::from_bytes(&rng.bytes());
        let sk_pq = rng.bytes::<64>().to_vec();
        let pk_pq = public_of(&sk_pq).to_vec();
        keys.push((sk, sk_pq, pk_pq));
    }
    let psk = rng.bytes::<32>();
    let mut out: Vec<Side> = Vec::new();
    for i in 0..2 {
        let (sk, sk_pq, pk_pq) = &keys[i];
        let (other_sk, _, other_pq) = &keys[1 - i];
        let mut dev: Device<usize> = Device::new();
        dev.set_sk(Some((sk.duplicate(), sk_pq.clone(), pk_pq.clone())));
        dev.add(&other_sk.public(), other_pq, i).unwrap();
        let peer_hash = Device::<usize>::hash_static_keys(&other_sk.public(), other_pq);
        dev.set_psk(&peer_hash, psk).unwrap();
        out.push(Side {
            dev,
            sk_pq: sk_pq.clone(),
            peer_pq: other_pq.clone(),
            peer_hash,
            rng: Rng(rng.next() | 1),
            now: 1_000_000_000_000,
        });
    }
    let second = out.pop().unwrap();
    let first = out.pop().unwrap();
    (first, second)
}

fn wait(a: &mut Side, b: &mut Side) {
    a.now += 20 * MS;
    b.now += 20 * MS;
}

fn assert_match(initiator: &KeyPair, responder: &KeyPair) {
    assert!(initiator.initiator);
    assert!(!responder.initiator);
    assert_eq!(initiator.send, responder.recv);
    assert_eq!(initiator.recv, responder.send);
    assert_ne!(initiator.send.key, initiator.recv.key);
}

#[test]
fn first_version_handshakes_succeed() {
    let (mut dev1, mut dev2) = setup_devices();
    for _ in 0..5 {
        let msg1 = dev1.begin();
        assert_eq!(msg1.len(), Initiation::default().as_bytes().len());
        let answer = dev2.process(&msg1, None).unwrap();
        let msg2 = answer.reply.unwrap();
        assert_eq!(msg2.len(), Response::default().as_bytes().len());
        let done = dev1.process(&msg2, None).unwrap();
        assert!(done.reply.is_none());
        let (ks_i, ks_r) = (done.keys.unwrap(), answer.keys.unwrap());
        assert_match(&ks_i, &ks_r);
        dev1.dev.release(ks_i.local_id());
        dev2.dev.release(ks_r.local_id());
        wait(&mut dev1, &mut dev2);
    }
    let (hash1, hash2) = (dev1.peer_hash, dev2.peer_hash);
    dev1.dev.remove(&hash1).unwrap();
    dev2.dev.remove(&hash2).unwrap();
    assert_eq!(dev1.dev.len(), 0);
}

#[test]
fn first_version_under_load() {
    let (mut dev1, mut dev2) = setup_devices();
    let src1 = SocketAddr { ip: IpAddr::V4([172, 16, 0, 1]), port: 8080 };
    let src2 = SocketAddr { ip: IpAddr::V6([1u8; 16]), port: 7070 };
    let cookie = dev2.process(&dev1.begin(), Some(src1)).unwrap();
    assert!(cookie.keys.is_none() && cookie.peer.is_none());
    let cookie = cookie.reply.unwrap();
    CookieReply::parse(&cookie).unwrap();
    assert!(dev1.process(&cookie, Some(src2)).unwrap().reply.is_none());
    wait(&mut dev1, &mut dev2);
    let answer = dev2.process(&dev1.begin(), Some(src1)).unwrap();
    assert!(answer.keys.is_some());
    let cookie = dev1.process(&answer.reply.unwrap(), Some(src2)).unwrap().reply.unwrap();
    assert!(dev2.process(&cookie, Some(src1)).unwrap().reply.is_none());
    wait(&mut dev1, &mut dev2);
    let answer = dev2.process(&dev1.begin(), Some(src1)).unwrap();
    let done = dev1.process(&answer.reply.unwrap(), Some(src2)).unwrap();
    assert_match(&done.keys.unwrap(), &answer.keys.unwrap());
}

#[test]
fn first_version_sessions_are_allocated_until_they_are_released() {
    let (mut dev1, mut dev2) = setup_devices();
    let answer = dev2.process(&dev1.begin(), None).unwrap();
    let done = dev1.process(&answer.reply.unwrap(), None).unwrap();
    let (i, r) = (done.keys.unwrap().local_id(), answer.keys.unwrap().local_id());
    assert!(dev1.dev.is_allocated(i) && dev2.dev.is_allocated(r));
    assert!(!dev1.dev.is_allocated(i ^ 1));
    dev1.dev.release(i);
    assert!(!dev1.dev.is_allocated(i));
}

#[test]
fn first_version_refuses_replays_and_floods() {
    let (mut dev1, mut dev2) = setup_devices();
    let msg = dev1.begin();
    let reply = dev2.process(&msg, None).unwrap().reply.unwrap();
    assert_eq!(dev2.process(&dev1.begin(), None).err(), Some(HandshakeError::InitiationFlood));
    wait(&mut dev1, &mut dev2);
    assert_eq!(dev2.process(&msg, None).err(), Some(HandshakeError::OldTimestamp));
    // the second initiation has replaced the first one
    assert_eq!(dev1.process(&reply, None).err(), Some(HandshakeError::DecryptionFailure));
}

#[test]
fn first_version_refuses_tampered_messages() {
    let cases: Vec<(fn(&mut NoiseInitiation), HandshakeError)> = vec![
        (|m| m.f_ephemeral = [0u8; 32], HandshakeError::InvalidSharedSecret),
        (|m| m.f_static[0] ^= 1, HandshakeError::DecryptionFailure),
        (|m| m.f_timestamp[0] ^= 1, HandshakeError::InvalidMac1),
    ];
    for (change, expected) in cases {
        let (mut dev1, mut dev2) = setup_devices();
        let mut msg = Initiation::parse(&dev1.begin()).unwrap();
        change(&mut msg.noise);
        assert_eq!(dev2.process(&msg.as_bytes(), None).err(), Some(expected));
    }
    let (mut dev1, mut dev2) = setup_devices();
    let reply = dev2.process(&dev1.begin(), None).unwrap().reply.unwrap();
    let mut msg = Response::parse(&reply).unwrap();
    msg.noise.f_empty[0] ^= 1;
    assert_eq!(dev1.process(&msg.as_bytes(), None).err(), Some(HandshakeError::InvalidMac1));
    msg.noise.f_receiver ^= 1;
    assert_eq!(dev1.process(&msg.as_bytes(), None).err(), Some(HandshakeError::UnknownReceiverId));
    assert_eq!(dev1.process(&reply[..9], None).err(), Some(HandshakeError::InvalidMessageFormat));
    dev1.process(&reply, None).unwrap();
    assert_eq!(dev1.process(&reply, None).err(), Some(HandshakeError::InvalidState));
}

#[test]
fn first_version_knows_its_peers() {
    let (mut dev1, mut dev2) = setup_devices();
    let hash = dev1.peer_hash;
    assert!(dev1.dev.contains_key(&hash));
    assert_eq!(dev1.dev.get(&hash), Some(&0));
    assert_eq!(dev1.dev.iter().len(), 1);
    assert!(dev1.dev.get_sk().is_some());
    let msg = dev1.begin();
    let own = dev2.peer_hash;
    dev2.dev.set_psk(&own, [1u8; 32]).unwrap();
    assert_eq!(dev2.dev.get_psk(&own).unwrap(), [1u8; 32]);
    assert_eq!(dev2.process(&msg, None).err(), Some(HandshakeError::InvalidMac1));
    dev2.dev.remove(&own).unwrap();
    assert_eq!(dev2.process(&msg, None).err(), Some(HandshakeError::UnknownPublicKey));
    dev2.dev.set_sk(None);
    assert!(dev2.process(&msg, None).unwrap().reply.is_none());
    dev1.dev.clear();
    assert_eq!(dev1.dev.len(), 0);
}
