//! Device authorization (OAuth 2.0 device grant, RFC 8628) for the mod:
//! code generation, user-code normalisation and token error bodies.
use vstd::prelude::*;
use vstd::string::*;

use crate::random::{random_below, random_bytes};
use crate::text::{
    hex_encode, hex_lower, keeps_case, lemma_hex_lower_len, push_char, starts_with, to_uppercase,
    uppercased,
};

verus! {

/// Minutes until a device code expires.
pub const DEVICE_CODE_EXPIRY_MINUTES: i64 = 15;

/// Recommended polling interval in seconds.
pub const POLLING_INTERVAL_SECONDS: i64 = 5;

/// Number of random characters in a user code.
pub const USER_CODE_LENGTH: usize = 6;

/// The user-code alphabet (no look-alikes: 0/O and 1/I/L are left out).
pub open spec fn user_code_charset() -> Seq<char> {
    "ABCDEFGHJKMNPQRSTUVWXYZ23456789"@
}

/// A fresh device code: 16 random bytes as 32 lower-case hex digits.
pub fn generate_device_code() -> (res: String)
    ensures
        exists|b: Seq<u8>| b.len() == 16 && res@ == #[trigger] hex_lower(b),
        res@.len() == 32,
{
    let bytes = random_bytes(16);
    proof {
        lemma_hex_lower_len(bytes@);
    }
    let s = hex_encode(&bytes);
    assert(bytes@.len() == 16 && s@ == hex_lower(bytes@));
    s
}

/// A code in the shape that [`generate_user_code`] gives: `GLINT-` and six
/// characters of [`user_code_charset`].
pub open spec fn is_user_code(code: Seq<char>) -> bool {
    &&& code.len() == 12
    &&& "GLINT-"@.is_prefix_of(code)
    &&& forall|k: int| 6 <= k < 12 ==> user_code_charset().contains(#[trigger] code[k])
}

/// Every character of a user code keeps its case under upper-casing.
proof fn lemma_user_code_keeps_case(code: Seq<char>)
    requires
        is_user_code(code),
    ensures
        forall|i: int| 0 <= i < code.len() ==> keeps_case(#[trigger] code[i]),
{
    reveal_strlit("ABCDEFGHJKMNPQRSTUVWXYZ23456789");
    reveal_strlit("GLINT-");
    assert forall|i: int| 0 <= i < code.len() implies keeps_case(#[trigger] code[i]) by {
        if i < 6 {
            assert(code[i] == "GLINT-"@[i]);
        } else {
            assert(user_code_charset().contains(code[i]));
            let j = choose|j: int| 0 <= j < user_code_charset().len() && user_code_charset()[j] == code[i];
            assert(keeps_case(user_code_charset()[j]));
        }
    }
}

/// The user code spelled by six draws: `GLINT-` and, for each draw, the
/// character of [`user_code_charset`] at that index.
pub open spec fn code_of_draws(draws: Seq<usize>) -> Seq<char> {
    "GLINT-"@ + draws.map_values(|i: usize| user_code_charset()[i as int])
}

/// Whether `draws` are six indices into [`user_code_charset`].
pub open spec fn valid_draws(draws: Seq<usize>) -> bool {
    draws.len() == USER_CODE_LENGTH && forall|k: int|
        0 <= k < draws.len() ==> #[trigger] draws[k] < user_code_charset().len()
}

/// The user code for six drawn indices into [`user_code_charset`].
pub fn user_code_from_draws(draws: &Vec<usize>) -> (res: String)
    requires
        valid_draws(draws@),
    ensures
        res@ == code_of_draws(draws@),
        is_user_code(res@),
{
    let charset = "ABCDEFGHJKMNPQRSTUVWXYZ23456789";
    proof {
        reveal_strlit("ABCDEFGHJKMNPQRSTUVWXYZ23456789");
        reveal_strlit("GLINT-");
    }
    let mut code = String::from_str("GLINT-");
    let mut i: usize = 0;
    while i < draws.len()
        invariant
            valid_draws(draws@),
            charset@ == user_code_charset(),
            user_code_charset().len() == 31,
            0 <= i <= draws@.len(),
            code@ == "GLINT-"@ + draws@.take(i as int).map_values(
                |j: usize| user_code_charset()[j as int],
            ),
        decreases draws@.len() - i,
    {
        let idx = draws[i];
        let c = charset.get_char(idx);
        push_char(&mut code, c);
        assert(draws@.take(i as int + 1) =~= draws@.take(i as int).push(idx));
        assert(draws@.take(i as int + 1).map_values(|j: usize| user_code_charset()[j as int])
            =~= draws@.take(i as int).map_values(|j: usize| user_code_charset()[j as int]).push(c));
        i = i + 1;
    }
    assert(draws@.take(i as int) =~= draws@);
    let ghost m = draws@.map_values(|j: usize| user_code_charset()[j as int]);
    assert(code@.subrange(0, 6) =~= "GLINT-"@);
    assert forall|k: int| 6 <= k < 12 implies user_code_charset().contains(#[trigger] code@[k]) by {
        assert(code@[k] == m[k - 6]);
        assert(m[k - 6] == user_code_charset()[draws@[k - 6] as int]);
    }
    code
}

/// A fresh user code `GLINT-XXXXXX`: six random draws from
/// [`user_code_charset`], spelled by [`user_code_from_draws`].
pub fn generate_user_code() -> (res: String)
    ensures
        exists|draws: Seq<usize>| valid_draws(draws) && res@ == #[trigger] code_of_draws(draws),
        is_user_code(res@),
{
    let mut draws: Vec<usize> = Vec::new();
    let mut i: usize = 0;
    proof {
        reveal_strlit("ABCDEFGHJKMNPQRSTUVWXYZ23456789");
    }
    while i < USER_CODE_LENGTH
        invariant
            user_code_charset().len() == 31,
            0 <= i <= USER_CODE_LENGTH,
            draws@.len() == i,
            forall|k: int| 0 <= k < i ==> #[trigger] draws@[k] < 31,
        decreases USER_CODE_LENGTH - i,
    {
        let d = random_below(31);
        draws.push(d);
        i = i + 1;
    }
    user_code_from_draws(&draws)
}

/// A user code with the `GLINT-` prefix added when it is missing.
pub open spec fn with_prefix(code: Seq<char>) -> Seq<char> {
    if "GLINT-"@.is_prefix_of(code) {
        code
    } else {
        "GLINT-"@ + code
    }
}

/// The user code looked up for what a user typed: upper-cased, with the
/// `GLINT-` prefix added when it is missing.
pub open spec fn spec_normalize_user_code(typed: Seq<char>) -> Seq<char> {
    with_prefix(uppercased(typed))
}

/// Add the `GLINT-` prefix to an upper-cased user code when it is missing.
pub fn prefixed_user_code(upper: &str) -> (res: String)
    ensures
        res@ == with_prefix(upper@),
{
    if starts_with(upper, "GLINT-") {
        String::from_str(upper)
    } else {
        String::from_str("GLINT-").concat(upper)
    }
}

/// The user code looked up for what a user typed. A code as
/// [`generate_user_code`] gives it is looked up as it stands.
pub fn normalize_user_code(user_code: &str) -> (res: String)
    ensures
        res@ == spec_normalize_user_code(user_code@),
        is_user_code(user_code@) ==> res@ == user_code@,
{
    proof {
        if is_user_code(user_code@) {
            lemma_user_code_keeps_case(user_code@);
        }
    }
    let up = to_uppercase(user_code);
    prefixed_user_code(up.as_str())
}

/// Error body of the token endpoint (RFC 8628 error codes).
pub struct DeviceTokenError {
    pub error: String,
    pub error_description: Option<String>,
}

impl DeviceTokenError {
    pub fn authorization_pending() -> (res: DeviceTokenError)
        ensures
            res.error@ == "authorization_pending"@,
            res.error_description matches Some(d) && d@
                == "The user has not yet authorized this device"@,
    {
        DeviceTokenError {
            error: String::from_str("authorization_pending"),
            error_description: Some(String::from_str("The user has not yet authorized this device")),
        }
    }

    pub fn expired_token() -> (res: DeviceTokenError)
        ensures
            res.error@ == "expired_token"@,
            res.error_description matches Some(d) && d@ == "The device code has expired"@,
    {
        DeviceTokenError {
            error: String::from_str("expired_token"),
            error_description: Some(String::from_str("The device code has expired")),
        }
    }

    pub fn invalid_grant() -> (res: DeviceTokenError)
        ensures
            res.error@ == "invalid_grant"@,
            res.error_description matches Some(d) && d@
                == "The device code is invalid or has already been used"@,
    {
        DeviceTokenError {
            error: String::from_str("invalid_grant"),
            error_description: Some(
                String::from_str("The device code is invalid or has already been used"),
            ),
        }
    }
}

/// Response of the device authorization endpoint.
pub struct DeviceAuthResponse {
    pub device_code: String,
    pub user_code: String,
    pub verification_uri: String,
    pub verification_uri_complete: String,
    pub expires_in: i64,
    pub interval: i64,
}

/// Request body of the token endpoint.
pub struct DeviceTokenRequest {
    pub device_code: String,
}

/// Successful response of the token endpoint.
pub struct DeviceTokenResponse {
    pub access_token: String,
    pub token_type: String,
    pub expires_in: i64,
}

/// Request body of the confirmation endpoint.
pub struct DeviceConfirmRequest {
    pub user_code: String,
}

/// Response of the confirmation endpoint.
pub struct DeviceConfirmResponse {
    pub success: bool,
}

} // verus!
