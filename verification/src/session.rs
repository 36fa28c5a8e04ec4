//! Session tokens and session-prefix handling.
use vstd::prelude::*;
use vstd::string::*;

use crate::random::random_bytes;
use crate::text::{chars_of, hex_encode, hex_lower, is_hex_char, lemma_hex_lower_len};

verus! {

/// Days a session lasts.
pub const SESSION_DURATION_DAYS: i64 = 7;

/// A fresh session token: 32 random bytes as 64 lower-case hex digits.
pub fn generate_session_token() -> (res: String)
    ensures
        exists|b: Seq<u8>| b.len() == 32 && res@ == #[trigger] hex_lower(b),
        res@.len() == 64,
{
    let bytes = random_bytes(32);
    proof {
        lemma_hex_lower_len(bytes@);
    }
    let s = hex_encode(&bytes);
    assert(bytes@.len() == 32 && s@ == hex_lower(bytes@));
    s
}

/// A token prefix is exactly eight hexadecimal characters.
pub open spec fn valid_prefix(p: Seq<char>) -> bool {
    p.len() == 8 && forall|k: int| 0 <= k < p.len() ==> is_hex_char(#[trigger] p[k])
}

/// The `LIKE` pattern that matches tokens starting with `prefix`, or the
/// request error when the prefix is not eight hexadecimal characters.
pub fn prefix_pattern(prefix: &str) -> (res: Result<String, String>)
    ensures
        res is Ok <==> valid_prefix(prefix@),
        res matches Ok(p) ==> p@ == prefix@ + "%"@,
        res matches Err(e) ==> e@ == "Session prefix must be exactly 8 hex characters"@,
{
    let cs = chars_of(prefix);
    let mut ok = cs.len() == 8;
    let mut i: usize = 0;
    while i < cs.len()
        invariant
            cs@ == prefix@,
            0 <= i <= cs@.len(),
            ok == (cs@.len() == 8 && forall|k: int| 0 <= k < i ==> is_hex_char(#[trigger] cs@[k])),
        decreases cs@.len() - i,
    {
        let c = cs[i];
        let h = ('0' <= c && c <= '9') || ('a' <= c && c <= 'f') || ('A' <= c && c <= 'F');
        ok = ok && h;
        i = i + 1;
    }
    if ok {
        Ok(String::from_str(prefix).concat("%"))
    } else {
        Err(String::from_str("Session prefix must be exactly 8 hex characters"))
    }
}

} // verus!
