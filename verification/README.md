# Hybrid WireGuard handshakes

Handshakes of WireGuard that combine Diffie-Hellman with key encapsulation, meant to keep the
transport keys secret as long as one of the two holds. Everything under `src/` is
verified with Verus: what each function returns and changes is stated in its contract, and
no verified function panics.

| Place | Contents |
| --- | --- |
| `src/crypto.rs`, `src/exchange.rs` | Hashes, key derivation, encryption and X25519, on top of outside crates |
| `src/hybrid_v1/` | The first version of the hybrid handshake |
| `src/hybrid_v23/` | Version 2.3: recovery ratchet, rendezvous proofs, defence against floods |
| `src/pq_star/` | Peers of the handshake that uses key encapsulation alone |
| `src/macs.rs`, `src/ratelimiter.rs` | Tags, cookies and the limit on messages per address |
| `src/session_table.rs`, `src/assoc.rs` | Tables of sessions and peers |
| `src/uapi/` | The configuration protocol: reading changes line by line, writing the state |
| `app/` | Benchmarks, randomness, clocks, key encapsulation and addresses |

The library performs no key encapsulation, reads no clock and draws no random numbers. A
function that needs one of these takes it as an argument, and a handshake step ends where a
ciphertext has to be decapsulated. `app/v1.rs` and `app/v23.rs` show how the steps follow
each other.

## What is proved

Besides the contracts of the single functions, proof functions whose names begin with
`law_` state what holds across them. Among these are:

- A handshake between two devices that know each other completes, from the bytes of the
  initiation to the keys on both sides, with sources and cookies or without, and what one
  side sends with is what the other receives with (`completion.rs` of both versions).
- A device that takes in a cookie has its next message from that address admitted
  (`cookies.rs` of both versions).
- In version 2.3 a completed handshake leaves both sides ready for the next one, and a device
  that has completed `n` handshakes with a peer starts the next one in epoch `n`, as a
  recovery if the ratchet key was forgotten (`history.rs`).
- An initiation is accepted once, and so is a response.
- The ratchets of the two sides stay in step through any series of handshakes, whatever
  initiations and answers are lost and however often the ratchet key is forgotten.
- In version 2.3 an initiation from an address is not decapsulated before it carries a valid
  cookie.
- An unsupported protocol version changes nothing about a peer.

The contracts of the outside functions are believed, not proved. Each of them is a function
marked `#[verifier::external_body]` with a comment that says what is claimed.
