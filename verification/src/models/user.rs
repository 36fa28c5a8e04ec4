//! User administration requests.
use vstd::prelude::*;

use crate::models::Role;

verus! {

/// Request to change a user's role.
#[derive(Debug, Clone, Copy, PartialEq, Eq, Structural)]
pub struct UpdateUserRoleRequest {
    pub role: Role,
}

} // verus!
