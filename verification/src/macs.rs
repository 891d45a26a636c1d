//! The two tags at the end of a handshake message, and the cookies behind the second one.
//!
//! The first tag shows that the sender knows the pre-shared key. The second one shows that
//! the sender has received a cookie at the address it sends from.

use crate::bytes::{join, take, zeros};
use crate::crypto::{
    blake2s, blake2s_mac, ct_eq, hash2, kdf1, kdf1_spec, mac, xchacha20poly1305_open,
    xchacha20poly1305_seal, xopen, xseal,
};
use crate::hybrid_v23::messages::MacsFooter;
use crate::types::{addr_to_mac_bytes, HandshakeError, SocketAddr};
use vstd::prelude::*;

verus! {

/// "mac1----"
pub const LABEL_MAC1: [u8; 8] = [0x6d, 0x61, 0x63, 0x31, 0x2d, 0x2d, 0x2d, 0x2d];

/// "cookie--"
pub const LABEL_COOKIE: [u8; 8] = [0x63, 0x6f, 0x6f, 0x6b, 0x69, 0x65, 0x2d, 0x2d];

/// How long a cookie and the secret behind it are used, in nanoseconds: two minutes.
pub const COOKIE_UPDATE_INTERVAL: u64 = 120_000_000_000;

/// The time from `then` to `now`, in nanoseconds; none if `then` lies ahead.
pub open spec fn elapsed_spec(then: u64, now: u64) -> int {
    if now >= then {
        now - then
    } else {
        0
    }
}

/// The time from `then` to `now`, in nanoseconds; none if `then` lies ahead.
pub fn elapsed(then: u64, now: u64) -> (r: u64)
    ensures
        r == elapsed_spec(then, now),
{
    if now >= then {
        now - then
    } else {
        0
    }
}

/// A cookie and the time at which it was received.
#[derive(Clone, Copy)]
pub struct Cookie {
    pub value: [u8; 16],
    pub birth: u64,
}

/// Computes the tags of the messages to a peer.
pub struct Generator {
    pub mac1_key: [u8; 32],
    pub cookie_key: [u8; 32],
    pub last_mac1: Option<[u8; 16]>,
    pub cookie: Option<Cookie>,
}

impl Generator {
    /// The first tag of a message.
    pub open spec fn mac1(self, inner: Seq<u8>) -> Seq<u8> {
        blake2s_mac(self.mac1_key@, inner)
    }

    /// Is there a cookie that is not too old?
    pub open spec fn has_cookie(self, now: u64) -> bool {
        self.cookie matches Some(c) && elapsed_spec(c.birth, now) <= COOKIE_UPDATE_INTERVAL
    }

    /// The second tag of a message: zeros without a cookie.
    pub open spec fn mac2(self, inner: Seq<u8>, now: u64) -> Seq<u8> {
        if self.has_cookie(now) {
            blake2s_mac(self.cookie->0.value@, inner + self.mac1(inner))
        } else {
            zeros(16)
        }
    }

    /// For messages to the peer with the given pre-shared key, whose cookies are encrypted
    /// under a key that `identity` determines.
    pub fn new(psk: &[u8; 32], identity: &[u8; 32]) -> (r: Self)
        ensures
            r.mac1_key@ == blake2s(LABEL_MAC1@ + psk@),
            r.cookie_key@ == blake2s(LABEL_COOKIE@ + identity@),
            r.last_mac1 is None,
            r.cookie is None,
    {
        Generator {
            mac1_key: hash2(&LABEL_MAC1, psk),
            cookie_key: hash2(&LABEL_COOKIE, identity),
            last_mac1: None,
            cookie: None,
        }
    }

    /// Uses another pre-shared key from now on.
    pub fn set_mac1_key(&mut self, psk: &[u8; 32])
        ensures
            final(self).mac1_key@ == blake2s(LABEL_MAC1@ + psk@),
            *final(self) == (Generator { mac1_key: final(self).mac1_key, ..*old(self) }),
    {
        self.mac1_key = hash2(&LABEL_MAC1, psk);
    }

    /// What a cookie reply to the last message opens to.
    pub open spec fn opened(self, nonce: Seq<u8>, sealed: Seq<u8>) -> Option<Seq<u8>> {
        match self.last_mac1 {
            Some(mac1) => xchacha20poly1305_open(self.cookie_key@, nonce, mac1@, sealed),
            None => None,
        }
    }

    /// Takes in a cookie reply. It must answer the last message and open to a cookie.
    pub fn process(&mut self, nonce: &[u8; 24], sealed: &[u8; 32], now: u64) -> (r: Result<
        (),
        HandshakeError,
    >)
        ensures
            match r {
                Ok(_) => final(self).cookie matches Some(c) && c.birth == now && old(
                    self,
                ).opened(nonce@, sealed@) == Some(c.value@) && *final(self) == (Generator {
                    cookie: final(self).cookie,
                    ..*old(self)
                }),
                Err(e) => *final(self) == *old(self) && (if old(self).last_mac1 is None {
                    e == HandshakeError::InvalidState
                } else {
                    e == HandshakeError::DecryptionFailure && old(self).opened(
                        nonce@,
                        sealed@,
                    ) is None
                }),
            },
    {
        let mac1 = match self.last_mac1 {
            Some(mac1) => mac1,
            None => return Err(HandshakeError::InvalidState),
        };
        match xopen(&self.cookie_key, nonce, &mac1, sealed) {
            Ok(tau) => {
                assert(tau@.subrange(0, 16) =~= tau@);
                self.cookie = Some(Cookie { value: take(&tau, 0), birth: now });
                Ok(())
            },
            Err(_) => Err(HandshakeError::DecryptionFailure),
        }
    }

    /// The generator after a message whose first tag is `mac1`: it waits for the reply to
    /// that message, and has thrown away a cookie that is too old.
    pub open spec fn after_generate(self, mac1: [u8; 16], now: u64) -> Self {
        Generator {
            last_mac1: Some(mac1),
            cookie: if self.has_cookie(now) {
                self.cookie
            } else {
                None
            },
            ..self
        }
    }

    /// The tags of a message.
    pub fn generate(&mut self, inner: &[u8], now: u64) -> (r: MacsFooter)
        ensures
            r.f_mac1@ == old(self).mac1(inner@),
            r.f_mac2@ == old(self).mac2(inner@, now),
            *final(self) == old(self).after_generate(r.f_mac1, now),
    {
        let f_mac1 = mac(&self.mac1_key, inner);
        let none: [u8; 16] = [0u8; 16];
        assert(none@ =~= zeros(16));
        let f_mac2 = match self.cookie {
            Some(cookie) => {
                if elapsed(cookie.birth, now) > COOKIE_UPDATE_INTERVAL {
                    self.cookie = None;
                    none
                } else {
                    mac(&cookie.value, &join(inner, &f_mac1))
                }
            },
            None => none,
        };
        self.last_mac1 = Some(f_mac1);
        MacsFooter { f_mac1, f_mac2 }
    }
}

/// Checks the tags of the messages from a peer and hands out cookies.
pub struct Validator {
    pub mac1_key: [u8; 32],
    pub cookie_key: [u8; 32],
    pub root: [u8; 32],
    pub secret: [u8; 32],
    pub birth: Option<u64>,
}

impl Validator {
    /// The cookie of an address.
    pub open spec fn tau(self, src: SocketAddr) -> Seq<u8> {
        blake2s_mac(self.secret@, src.mac_bytes())
    }

    /// Is the secret behind the cookies in use?
    pub open spec fn has_secret(self, now: u64) -> bool {
        self.birth matches Some(b) && elapsed_spec(b, now) < COOKIE_UPDATE_INTERVAL
    }

    /// For messages from the peer with the given pre-shared key. Cookies are encrypted
    /// under a key that `identity` determines; the secrets behind them stem from `root`.
    pub fn new(psk: &[u8; 32], identity: &[u8; 32], root: &[u8; 32]) -> (r: Self)
        ensures
            r.mac1_key@ == blake2s(LABEL_MAC1@ + psk@),
            r.cookie_key@ == blake2s(LABEL_COOKIE@ + identity@),
            r.root == *root,
            r.secret@ == zeros(32),
            r.birth is None,
    {
        let secret: [u8; 32] = [0u8; 32];
        assert(secret@ =~= zeros(32));
        Validator {
            mac1_key: hash2(&LABEL_MAC1, psk),
            cookie_key: hash2(&LABEL_COOKIE, identity),
            root: *root,
            secret,
            birth: None,
        }
    }

    /// For messages from anybody: no pre-shared key is known.
    pub fn new_device(identity: &[u8; 32], root: &[u8; 32]) -> (r: Self)
        ensures
            r.mac1_key@ == blake2s(LABEL_MAC1@ + zeros(32)),
            r.cookie_key@ == blake2s(LABEL_COOKIE@ + identity@),
            r.root == *root,
            r.secret@ == zeros(32),
            r.birth is None,
    {
        let none: [u8; 32] = [0u8; 32];
        assert(none@ =~= zeros(32));
        Validator::new(&none, identity, root)
    }

    /// Uses another pre-shared key from now on.
    pub fn set_mac1_key(&mut self, psk: &[u8; 32])
        ensures
            final(self).mac1_key@ == blake2s(LABEL_MAC1@ + psk@),
            *final(self) == (Validator { mac1_key: final(self).mac1_key, ..*old(self) }),
    {
        self.mac1_key = hash2(&LABEL_MAC1, psk);
    }

    /// Is the first tag of a message right?
    pub open spec fn mac1_ok(self, inner: Seq<u8>, macs: MacsFooter) -> bool {
        macs.f_mac1@ == blake2s_mac(self.mac1_key@, inner)
    }

    /// Accepts a message with the right first tag.
    pub fn check_mac1(&self, inner: &[u8], macs: &MacsFooter) -> (r: Result<(), HandshakeError>)
        ensures
            r == (if self.mac1_ok(inner@, *macs) {
                Ok::<(), HandshakeError>(())
            } else {
                Err(HandshakeError::InvalidMac1)
            }),
    {
        let expected = mac(&self.mac1_key, inner);
        if ct_eq(&macs.f_mac1, &expected) {
            Ok(())
        } else {
            Err(HandshakeError::InvalidMac1)
        }
    }

    /// Is the second tag of a message from `src` right?
    pub open spec fn mac2_ok(self, inner: Seq<u8>, src: SocketAddr, macs: MacsFooter, now: u64) -> bool {
        self.has_secret(now) && macs.f_mac2@ == blake2s_mac(self.tau(src), inner + macs.f_mac1@)
    }

    /// Is the second tag of a message from `src` right?
    pub fn check_mac2(&self, inner: &[u8], src: &SocketAddr, macs: &MacsFooter, now: u64) -> (r:
        bool)
        ensures
            r == self.mac2_ok(inner@, *src, *macs, now),
    {
        match self.birth {
            Some(birth) => {
                if elapsed(birth, now) < COOKIE_UPDATE_INTERVAL {
                    let tau = mac(&self.secret, &addr_to_mac_bytes(src));
                    ct_eq(&macs.f_mac2, &mac(&tau, &join(inner, &macs.f_mac1)))
                } else {
                    false
                }
            },
            None => false,
        }
    }

    /// The validator with a secret in use: the present one, or a new one from `fresh`.
    pub open spec fn is_refreshed(self, before: Self, fresh: Seq<u8>, now: u64) -> bool {
        if before.has_secret(now) {
            self == before
        } else {
            self == (Validator { secret: self.secret, birth: Some(now), ..before }) && self.secret@
                == kdf1_spec(before.root@, fresh)
        }
    }

    /// Encrypts the cookie of `src` for the sender of a message whose first tag is `mac1`.
    /// Where the secret behind the cookies is too old, `fresh` determines the next one.
    pub fn seal_cookie(
        &mut self,
        src: &SocketAddr,
        mac1: &[u8; 16],
        nonce: &[u8; 24],
        fresh: &[u8; 32],
        now: u64,
    ) -> (r: [u8; 32])
        ensures
            final(self).is_refreshed(*old(self), fresh@, now),
            r@ == xchacha20poly1305_seal(
                old(self).cookie_key@,
                nonce@,
                mac1@,
                final(self).tau(*src),
            ),
            xchacha20poly1305_open(old(self).cookie_key@, nonce@, mac1@, r@) == Some(
                final(self).tau(*src),
            ),
    {
        let in_use = match self.birth {
            Some(birth) => elapsed(birth, now) < COOKIE_UPDATE_INTERVAL,
            None => false,
        };
        if !in_use {
            self.secret = kdf1(&self.root, fresh);
            self.birth = Some(now);
        }
        let tau = mac(&self.secret, &addr_to_mac_bytes(src));
        let sealed = xseal(&self.cookie_key, nonce, mac1, &tau);
        assert(sealed@.subrange(0, 32) =~= sealed@);
        take(&sealed, 0)
    }
}

/// A cookie is accepted: a sender that opens the reply to its last message tags its next
/// message so that the validator that made the reply accepts the second tag, as long as
/// the cookie and the secret behind it are in use and the message comes from the same
/// address.
pub proof fn law_cookie_is_accepted(
    generator: Generator,
    validator: Validator,
    src: SocketAddr,
    nonce: Seq<u8>,
    sealed: Seq<u8>,
    received: u64,
    cookie: Cookie,
    inner: Seq<u8>,
    macs: MacsFooter,
    now: u64,
)
    requires
        generator.cookie_key == validator.cookie_key,
        generator.last_mac1 is Some,
        xchacha20poly1305_open(validator.cookie_key@, nonce, generator.last_mac1->0@, sealed)
            == Some(validator.tau(src)),
        generator.opened(nonce, sealed) == Some(cookie.value@),
        cookie.birth == received,
        elapsed_spec(received, now) <= COOKIE_UPDATE_INTERVAL,
        validator.has_secret(now),
        ({
            let holder = Generator { cookie: Some(cookie), ..generator };
            macs.f_mac1@ == holder.mac1(inner) && macs.f_mac2@ == holder.mac2(inner, now)
        }),
    ensures
        validator.mac2_ok(inner, src, macs, now),
{
}

} // verus!
