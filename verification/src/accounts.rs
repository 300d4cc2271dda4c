//! The registered entities: the deployment-wide registry and the users.

use vstd::prelude::*;

use crate::codec::IDENTITY_LEN;

verus! {

/// The singleton registry of a deployment: an authority identity, a
/// display name, and a monotonically increasing count of registered
/// users. Created once; mutated only by registration.
pub struct AttendanceSystem {
    pub authority: Vec<u8>,
    pub name: String,
    pub total_users: u64,
}

/// One registered user: an owner identity, a display name, a running
/// count of successful clock-ins, and the registered flag.
pub struct UserAccount {
    pub authority: Vec<u8>,
    pub name: String,
    pub total_clock_ins: u64,
    pub is_registered: bool,
}

impl UserAccount {
    /// A user is well formed when its owner identity has the fixed
    /// length.
    pub open spec fn wf(self) -> bool {
        self.authority@.len() == IDENTITY_LEN
    }
}

/// Create the deployment's registry with no users yet.
pub fn initialize_attendance_system(authority: Vec<u8>, name: String) -> (r: AttendanceSystem)
    requires
        authority@.len() == IDENTITY_LEN,
    ensures
        r.authority@ == authority@,
        r.name@ == name@,
        r.total_users == 0,
{
    AttendanceSystem { authority, name, total_users: 0 }
}

/// Register one user: create its account with a zeroed clock-in counter
/// and the registered flag set, and count it in the registry.
pub fn register_user(system: &mut AttendanceSystem, authority: Vec<u8>, name: String) -> (r:
    UserAccount)
    requires
        old(system).total_users < u64::MAX,
        authority@.len() == IDENTITY_LEN,
    ensures
        final(system).total_users == old(system).total_users + 1,
        final(system).authority@ == old(system).authority@,
        final(system).name@ == old(system).name@,
        r.authority@ == authority@,
        r.name@ == name@,
        r.total_clock_ins == 0,
        r.is_registered,
        r.wf(),
{
    system.total_users = system.total_users + 1;
    UserAccount { authority, name, total_clock_ins: 0, is_registered: true }
}

/// Read back a user's display name, clock-in count and identity.
pub fn get_user_attendance(user: &UserAccount) -> (r: (&String, u64, &Vec<u8>))
    ensures
        r.0@ == user.name@,
        r.1 == user.total_clock_ins,
        r.2@ == user.authority@,
{
    (&user.name, user.total_clock_ins, &user.authority)
}

} // verus!
