//! Privilege transition: the immutable security context applied to a
//! process launched under another identity. The library only computes the
//! context; creating the process and waiting on it is the caller's
//! concern, and the child's reported exit code is propagated unchanged.

use vstd::prelude::*;

use crate::record::Passwd;
use crate::text::{dec_digits, u32_to_string};

verus! {

/// The security attributes of a child process: numeric identity, working
/// directory (kept unchanged when absent), the environment overlay, and
/// the program to run. The environment always carries `USER`, `UID` and
/// `GROUPS`; `HOME` and `SHELL` are set when present.
pub struct SecurityContext {
    pub uid: u32,
    pub gid: u32,
    pub working_dir: Option<String>,
    pub env_user: String,
    pub env_uid: String,
    pub env_groups: String,
    pub env_home: Option<String>,
    pub env_shell: Option<String>,
    pub program: String,
    pub args: Vec<String>,
}

impl SecurityContext {
    /// The context of a login or identity-substitution session: the
    /// target's identity and shell, the working directory moved to the
    /// target's home, and the full environment overlay taken from the
    /// target's record.
    pub fn session_context(user: &Passwd) -> (c: SecurityContext)
        ensures
            c.uid == user.uid,
            c.gid == user.gid,
            c.working_dir matches Some(w) && w@ == user.home@,
            c.env_user@ == user.user@,
            c.env_uid@ == dec_digits(user.uid as int),
            c.env_groups@ == dec_digits(user.gid as int),
            c.env_home matches Some(h) && h@ == user.home@,
            c.env_shell matches Some(s) && s@ == user.shell@,
            c.program@ == user.shell@,
            c.args@.len() == 0,
    {
        SecurityContext {
            uid: user.uid,
            gid: user.gid,
            working_dir: Some(user.home.clone()),
            env_user: user.user.clone(),
            env_uid: u32_to_string(user.uid),
            env_groups: u32_to_string(user.gid),
            env_home: Some(user.home.clone()),
            env_shell: Some(user.shell.clone()),
            program: user.shell.clone(),
            args: Vec::new(),
        }
    }

    /// The context of elevating one command: always the fixed superuser
    /// identity — `USER=root`, `UID=0`, `GROUPS=0`, uid and gid zero —
    /// whatever record the invoking user has, with the working directory
    /// kept unchanged.
    pub fn elevation_context(program: &str, args: Vec<String>) -> (c: SecurityContext)
        ensures
            c.uid == 0,
            c.gid == 0,
            c.working_dir is None,
            c.env_user@ == "root"@,
            c.env_uid@ == "0"@,
            c.env_groups@ == "0"@,
            c.env_home is None,
            c.env_shell is None,
            c.program@ == program@,
            c.args == args,
    {
        SecurityContext {
            uid: 0,
            gid: 0,
            working_dir: None,
            env_user: String::from_str("root"),
            env_uid: String::from_str("0"),
            env_groups: String::from_str("0"),
            env_home: None,
            env_shell: None,
            program: String::from_str(program),
            args,
        }
    }
}

/// Maps a completed child's reported exit code onto the caller's own exit
/// code unchanged; a child that reports none yields success.
pub fn propagate_exit_status(code: Option<i32>) -> (r: i32)
    ensures
        r == match code {
            Some(c) => c,
            None => 0,
        },
{
    match code {
        Some(c) => c,
        None => 0,
    }
}

} // verus!
