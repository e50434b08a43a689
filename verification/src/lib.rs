//! Verified core of a receipt-management backend's authentication and
//! authorization subsystem: credential hashing, signed session tokens,
//! token extraction from request headers, the authorization gates, and
//! the session cookie builder.

use vstd::prelude::*;

pub mod account;
pub mod bytes;
pub mod claims;
pub mod clock;
pub mod cookie;
pub mod email;
pub mod errors;
pub mod extract;
pub mod gate;
pub mod hashing;
pub mod token;

verus! {

/// True when `role` spells the administrator role.
pub open spec fn spec_is_admin_role(role: Seq<u8>) -> bool {
    role == seq!['a' as u8, 'd' as u8, 'm' as u8, 'i' as u8, 'n' as u8]
}

/// Decides whether a role byte string grants administrator rights.
pub fn is_admin_role(role: &Vec<u8>) -> (r: bool)
    ensures
        r == spec_is_admin_role(role@),
{
    let r = role.len() == 5 && role[0] == 'a' as u8 && role[1] == 'd' as u8 && role[2] == 'm' as u8
        && role[3] == 'i' as u8 && role[4] == 'n' as u8;
    proof {
        if r {
            assert(role@ =~= seq!['a' as u8, 'd' as u8, 'm' as u8, 'i' as u8, 'n' as u8]);
        }
    }
    r
}

} // verus!
