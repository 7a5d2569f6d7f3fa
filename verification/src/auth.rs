//! The claims a verified token carries, and the one decision the
//! authorizer makes over them. Token transport and signature handling
//! are the middleware's; the group test is checked here.

use vstd::prelude::*;

verus! {

/// Why a request's credentials were refused.
#[derive(Debug, Clone, Copy, PartialEq, Eq, Structural)]
pub enum AuthError {
    InvalidToken,
}

/// What a decoded token asserts about its caller: the groups the caller
/// belongs to.
pub struct Claims {
    pub groups: Vec<String>,
}

impl Claims {
    /// Whether the caller belongs to the given group; the authorizer
    /// lets a request through exactly when this holds for the
    /// content-creator group.
    pub fn is_member_of(&self, group: &str) -> (r: bool)
        ensures
            r == self.groups.deep_view().contains(group@),
    {
        let gs = group.to_owned();
        let mut i: usize = 0;
        while i < self.groups.len()
            invariant
                i <= self.groups@.len(),
                gs@ == group@,
                forall|j: int| 0 <= j < i ==> (#[trigger] self.groups@[j])@ != group@,
            decreases self.groups@.len() - i,
        {
            if self.groups[i] == gs {
                proof {
                    assert(self.groups.deep_view()[i as int] == group@);
                }
                return true;
            }
            i += 1;
        }
        proof {
            assert(forall|j: int|
                0 <= j < self.groups.deep_view().len() ==> self.groups.deep_view()[j] != group@);
        }
        false
    }
}

} // verus!
