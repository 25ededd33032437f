//! User roles and the permission rule: a numerically smaller priority
//! grants at least what any larger one does.

use vstd::prelude::*;

verus! {

#[derive(Debug, Clone, Copy, PartialEq, Eq)]
pub enum Role {
    Admin,
    Business,
    Guest,
}

impl Role {
    /// Rank of the role; administrators come first.
    pub open spec fn spec_priority(self) -> int {
        match self {
            Role::Admin => 1,
            Role::Business => 2,
            Role::Guest => 3,
        }
    }

    fn priority(&self) -> (r: u8)
        ensures
            r as int == self.spec_priority(),
    {
        match self {
            Role::Admin => 1,
            Role::Business => 2,
            Role::Guest => 3,
        }
    }

    /// Whether this role may do what `required` asks for: exactly when its
    /// priority does not exceed the required one.
    pub fn is_granted(&self, required: Role) -> (r: bool)
        ensures
            r == (self.spec_priority() <= required.spec_priority()),
    {
        self.priority() <= required.priority()
    }
}

/// The role of a user: administrator exactly when listed among the admin
/// ids, guest otherwise.
pub fn get_user_role(user_id: i64, admin_ids: &Vec<i64>) -> (r: Role)
    ensures
        admin_ids@.contains(user_id) ==> r == Role::Admin,
        !admin_ids@.contains(user_id) ==> r == Role::Guest,
{
    let n = admin_ids.len();
    let mut i: usize = 0;
    while i < n
        invariant
            n == admin_ids.len(),
            i <= n,
            forall|j: int| 0 <= j < i ==> admin_ids@[j] != user_id,
        decreases n - i,
    {
        if admin_ids[i] == user_id {
            return Role::Admin;
        }
        i = i + 1;
    }
    proof {
        assert(!admin_ids@.contains(user_id));
    }
    Role::Guest
}

} // verus!
