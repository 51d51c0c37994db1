//! Header construction for the API client.
//!
//! Every request of one run carries an authorization header with the bearer
//! credential and an identifying client string.  A credential that the
//! header-encoding step would reject must be refused loudly before any
//! request is made; `validate_credential` is that test.

use vstd::prelude::*;
use vstd::string::StrSliceExecFns;
use vstd::string::StringExecFns;

verus! {

/// A character the header-encoding step accepts: horizontal tab, or a
/// visible ASCII character, or space.
pub open spec fn spec_header_char(c: char) -> bool {
    c as u32 == 9 || (0x20 <= c as u32 && c as u32 <= 0x7e)
}

/// A credential the authorization header can carry: non-empty, and made of
/// characters the header-encoding step accepts.
pub open spec fn spec_valid_credential(s: Seq<char>) -> bool {
    s.len() > 0 && forall|i: int| 0 <= i < s.len() ==> spec_header_char(#[trigger] s[i])
}

/// Tests whether a credential can survive the header-encoding step.  An
/// empty or malformed credential must be refused before any request is
/// made.
pub fn validate_credential(token: &str) -> (r: bool)
    ensures
        r == spec_valid_credential(token@),
{
    let n = token.unicode_len();
    if n == 0 {
        return false;
    }
    let mut i: usize = 0;
    while i < n
        invariant
            n == token@.len(),
            n > 0,
            i <= n,
            forall|j: int| 0 <= j < i ==> spec_header_char(#[trigger] token@[j]),
        decreases n - i,
    {
        let c = token.get_char(i);
        let u = c as u32;
        if !(u == 9 || (0x20 <= u && u <= 0x7e)) {
            return false;
        }
        i = i + 1;
    }
    true
}

/// The authorization header value: the bearer marker followed by the
/// credential.
pub fn authorization_value(token: &str) -> (r: String)
    requires
        spec_valid_credential(token@),
    ensures
        r@ == "Bearer "@ + token@,
{
    let mut s = String::from_str("Bearer ");
    s.append(token);
    s
}

/// The identifying client string sent with every request.
pub fn user_agent_value() -> (r: String)
    ensures
        r@ == "ibr"@,
{
    String::from_str("ibr")
}

} // verus!
