//! The labels as text.

use crate::decimal::{WORD_INF, WORD_INFINITY};
use crate::hybrid_v23::keys::LABEL_COOKIE_ROOT;
use crate::hybrid_v23::ratchet::{LABEL_KRI, LABEL_RK};
use crate::hybrid_v23::ri_proof::LABEL_RI;
use crate::hybrid_v23::runtime::{
    LABEL_MAX_OPEN_FILES, LABEL_MEM_AVAILABLE, LABEL_MEM_TOTAL, WORD_CPU,
};
use crate::hybrid_v23::schedule::{
    LABEL_AUTH_I, LABEL_AUTH_R, LABEL_KEM_R, LABEL_KID, LABEL_PROTOCOL, LABEL_RECOVERY,
    LABEL_RI_RATCHET, LABEL_SESSION, LABEL_SESSION_KEY, LABEL_SHK2, LABEL_SHK_EE, LABEL_TRANSPORT,
};
use crate::macs::{LABEL_COOKIE, LABEL_MAC1};
use vstd::prelude::*;
use vstd::utf8::*;

verus! {

/// Each label is the text that it stands for.
pub proof fn law_labels_are_texts()
    ensures
        LABEL_MAC1@ == encode_utf8("mac1----"@),
        LABEL_COOKIE@ == encode_utf8("cookie--"@),
        LABEL_PROTOCOL@ == encode_utf8("Hybrid-WireGuard-v2.3"@),
        LABEL_KEM_R@ == encode_utf8("kem-r-public"@),
        LABEL_SESSION@ == encode_utf8("hybrid-wireguard-v2.3-session-key"@),
        LABEL_AUTH_I@ == encode_utf8("auth_i"@),
        LABEL_AUTH_R@ == encode_utf8("auth_r"@),
        LABEL_KID@ == encode_utf8("kid"@),
        LABEL_RECOVERY@ == encode_utf8("recovery-ratchet"@),
        LABEL_RI_RATCHET@ == encode_utf8("ri-ratchet"@),
        LABEL_SESSION_KEY@ == encode_utf8("session-key"@),
        LABEL_TRANSPORT@ == encode_utf8("transport"@),
        LABEL_SHK2@ == encode_utf8("hybrid-wg-shk2"@),
        LABEL_SHK_EE@ == encode_utf8("hybrid-wg-shk-ee"@),
        LABEL_RK@ == encode_utf8("hybrid-wireguard-v2.3-rk"@),
        LABEL_KRI@ == encode_utf8("hybrid-wireguard-v2.3-kri"@),
        LABEL_RI@ == encode_utf8("hybrid-wireguard-ri-v2.3"@),
        WORD_CPU@ == encode_utf8("cpu"@),
        LABEL_MEM_TOTAL@ == encode_utf8("MemTotal:"@),
        LABEL_MEM_AVAILABLE@ == encode_utf8("MemAvailable:"@),
        LABEL_MAX_OPEN_FILES@ == encode_utf8("Max open files"@),
        WORD_INF@ == encode_utf8("inf"@),
        WORD_INFINITY@ == encode_utf8("infinity"@),
        LABEL_COOKIE_ROOT@ == encode_utf8("hybrid-wireguard-cookie-root-v1"@),
{
    reveal_strlit("hybrid-wireguard-cookie-root-v1");
    is_ascii_chars_encode_utf8("hybrid-wireguard-cookie-root-v1"@);
    assert(LABEL_COOKIE_ROOT@ =~= encode_utf8("hybrid-wireguard-cookie-root-v1"@));
    reveal_strlit("mac1----");
    is_ascii_chars_encode_utf8("mac1----"@);
    assert(LABEL_MAC1@ =~= encode_utf8("mac1----"@));
    reveal_strlit("cookie--");
    is_ascii_chars_encode_utf8("cookie--"@);
    assert(LABEL_COOKIE@ =~= encode_utf8("cookie--"@));
    reveal_strlit("Hybrid-WireGuard-v2.3");
    is_ascii_chars_encode_utf8("Hybrid-WireGuard-v2.3"@);
    assert(LABEL_PROTOCOL@ =~= encode_utf8("Hybrid-WireGuard-v2.3"@));
    reveal_strlit("kem-r-public");
    is_ascii_chars_encode_utf8("kem-r-public"@);
    assert(LABEL_KEM_R@ =~= encode_utf8("kem-r-public"@));
    reveal_strlit("hybrid-wireguard-v2.3-session-key");
    is_ascii_chars_encode_utf8("hybrid-wireguard-v2.3-session-key"@);
    assert(LABEL_SESSION@ =~= encode_utf8("hybrid-wireguard-v2.3-session-key"@));
    reveal_strlit("auth_i");
    is_ascii_chars_encode_utf8("auth_i"@);
    assert(LABEL_AUTH_I@ =~= encode_utf8("auth_i"@));
    reveal_strlit("auth_r");
    is_ascii_chars_encode_utf8("auth_r"@);
    assert(LABEL_AUTH_R@ =~= encode_utf8("auth_r"@));
    reveal_strlit("kid");
    is_ascii_chars_encode_utf8("kid"@);
    assert(LABEL_KID@ =~= encode_utf8("kid"@));
    reveal_strlit("recovery-ratchet");
    is_ascii_chars_encode_utf8("recovery-ratchet"@);
    assert(LABEL_RECOVERY@ =~= encode_utf8("recovery-ratchet"@));
    reveal_strlit("ri-ratchet");
    is_ascii_chars_encode_utf8("ri-ratchet"@);
    assert(LABEL_RI_RATCHET@ =~= encode_utf8("ri-ratchet"@));
    reveal_strlit("session-key");
    is_ascii_chars_encode_utf8("session-key"@);
    assert(LABEL_SESSION_KEY@ =~= encode_utf8("session-key"@));
    reveal_strlit("transport");
    is_ascii_chars_encode_utf8("transport"@);
    assert(LABEL_TRANSPORT@ =~= encode_utf8("transport"@));
    reveal_strlit("hybrid-wg-shk2");
    is_ascii_chars_encode_utf8("hybrid-wg-shk2"@);
    assert(LABEL_SHK2@ =~= encode_utf8("hybrid-wg-shk2"@));
    reveal_strlit("hybrid-wg-shk-ee");
    is_ascii_chars_encode_utf8("hybrid-wg-shk-ee"@);
    assert(LABEL_SHK_EE@ =~= encode_utf8("hybrid-wg-shk-ee"@));
    reveal_strlit("hybrid-wireguard-v2.3-rk");
    is_ascii_chars_encode_utf8("hybrid-wireguard-v2.3-rk"@);
    assert(LABEL_RK@ =~= encode_utf8("hybrid-wireguard-v2.3-rk"@));
    reveal_strlit("hybrid-wireguard-v2.3-kri");
    is_ascii_chars_encode_utf8("hybrid-wireguard-v2.3-kri"@);
    assert(LABEL_KRI@ =~= encode_utf8("hybrid-wireguard-v2.3-kri"@));
    reveal_strlit("hybrid-wireguard-ri-v2.3");
    is_ascii_chars_encode_utf8("hybrid-wireguard-ri-v2.3"@);
    assert(LABEL_RI@ =~= encode_utf8("hybrid-wireguard-ri-v2.3"@));
    reveal_strlit("cpu");
    is_ascii_chars_encode_utf8("cpu"@);
    assert(WORD_CPU@ =~= encode_utf8("cpu"@));
    reveal_strlit("MemTotal:");
    is_ascii_chars_encode_utf8("MemTotal:"@);
    assert(LABEL_MEM_TOTAL@ =~= encode_utf8("MemTotal:"@));
    reveal_strlit("MemAvailable:");
    is_ascii_chars_encode_utf8("MemAvailable:"@);
    assert(LABEL_MEM_AVAILABLE@ =~= encode_utf8("MemAvailable:"@));
    reveal_strlit("Max open files");
    is_ascii_chars_encode_utf8("Max open files"@);
    assert(LABEL_MAX_OPEN_FILES@ =~= encode_utf8("Max open files"@));
    reveal_strlit("inf");
    is_ascii_chars_encode_utf8("inf"@);
    assert(WORD_INF@ =~= encode_utf8("inf"@));
    reveal_strlit("infinity");
    is_ascii_chars_encode_utf8("infinity"@);
    assert(WORD_INFINITY@ =~= encode_utf8("infinity"@));
}

} // verus!
