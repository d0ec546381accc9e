//! The privilege level that the process runs with.

use vstd::prelude::*;

verus! {

/// How the process is privileged.
#[derive(Debug, Clone, Copy, PartialEq, Eq, Structural)]
pub enum Privilege {
    /// Real and effective user are root.
    Root,
    /// An ordinary user.
    User,
    /// Started from a set-user-id binary: effective user root, real user not.
    Suid,
}

/// The name a script sees for a privilege level.
pub open spec fn privilege_text(p: Privilege) -> Seq<char> {
    match p {
        Privilege::Root => "root"@,
        Privilege::User => "user"@,
        Privilege::Suid => "suid"@,
    }
}

/// Calls `sudo::check`, which asks the operating system for the real and effective user.
/// Nothing is claimed of the answer: it depends on how the process was started.
#[verifier::external_body]
fn current_privilege() -> Privilege {
    match sudo::check() {
        sudo::RunningAs::Root => Privilege::Root,
        sudo::RunningAs::User => Privilege::User,
        sudo::RunningAs::Suid => Privilege::Suid,
    }
}

/// Whether `p` is an answer the operating system's check can give.
pub closed spec fn reported(p: Privilege) -> bool {
    call_ensures(current_privilege, (), p)
}

/// The name of a privilege level: `root`, `user` or `suid`.
pub fn privilege_name(p: Privilege) -> (r: String)
    ensures
        r@ == privilege_text(p),
{
    match p {
        Privilege::Root => String::from_str("root"),
        Privilege::User => String::from_str("user"),
        Privilege::Suid => String::from_str("suid"),
    }
}

/// Different privilege levels have different names, so the name `running_as` gives
/// tells which level the operating system reported.
pub proof fn law_privilege_names_distinct(p: Privilege, q: Privilege)
    requires
        p != q,
    ensures
        privilege_text(p) != privilege_text(q),
{
    reveal_strlit("root");
    reveal_strlit("user");
    reveal_strlit("suid");
    assert("root"@[0] != "user"@[0]);
    assert("root"@[0] != "suid"@[0]);
    assert("user"@[0] != "suid"@[0]);
}

/// The name of the privilege level the process runs with: the name of the level that
/// the operating system's check answered.
pub fn running_as() -> (r: String)
    ensures
        exists|p: Privilege| reported(p) && r@ == privilege_text(p),
{
    let p = current_privilege();
    privilege_name(p)
}

} // verus!
