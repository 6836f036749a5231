//! The authentication engine: the decision whether a secret is owed at
//! all, and a retry state machine, optionally bounded, that consumes
//! verification verdicts and ends in acceptance or in one of two distinct
//! denials.

use vstd::prelude::*;

use crate::codec::{hash_matches, stored_hash_valid};
use crate::record::{parse_group_file, parse_passwd_file, Group, GroupV, Passwd};
use crate::store::{find_passwd_by_uid, get_passwd_by_id};
use crate::text::{split_on, str_eq};

verus! {

/// Operational failures of an authentication or elevation flow.
#[derive(PartialEq, Eq, Structural, Clone, Copy, Debug)]
pub enum AuthError {
    /// The backing snapshot could not be read.
    StoreUnavailable,
    /// The stored hash cannot be decoded; distinct from a wrong password.
    CorruptStoredHash,
    /// The child process could not be started.
    SpawnFailure,
}

impl AuthError {
    /// A short description, in place of a formatting trait.
    pub fn message(&self) -> (r: &'static str)
        ensures
            r@ == match self {
                AuthError::StoreUnavailable => "store unavailable"@,
                AuthError::CorruptStoredHash => "corrupt stored hash"@,
                AuthError::SpawnFailure => "failed to start child process"@,
            },
    {
        match self {
            AuthError::StoreUnavailable => "store unavailable",
            AuthError::CorruptStoredHash => "corrupt stored hash",
            AuthError::SpawnFailure => "failed to start child process",
        }
    }
}

/// Whether a target identity may be assumed without proof of a secret.
#[derive(PartialEq, Eq, Structural, Clone, Copy, Debug)]
pub enum Authorization {
    AutoAccepted,
    RequiresSecret,
}

pub open spec fn authorize_spec(
    stored_hash: Seq<char>,
    caller_uid: u32,
    substitution: bool,
) -> Authorization {
    if stored_hash.len() == 0 || (substitution && caller_uid == 0) {
        Authorization::AutoAccepted
    } else {
        Authorization::RequiresSecret
    }
}

/// Decides, before any secret is requested, whether verification is owed:
/// a passwordless account (empty stored hash) is accepted outright, as is
/// the superuser substituting another identity.
pub fn authorize(stored_hash: &str, caller_uid: u32, substitution: bool) -> (a: Authorization)
    ensures
        a == authorize_spec(stored_hash@, caller_uid, substitution),
{
    if stored_hash.is_empty() || (substitution && caller_uid == 0) {
        Authorization::AutoAccepted
    } else {
        Authorization::RequiresSecret
    }
}

/// Why a flow was denied: attempts exhausted, or the secret stream ended
/// while one was still awaited. The two are distinct terminal outcomes.
#[derive(PartialEq, Eq, Structural, Clone, Copy, Debug)]
pub enum Denial {
    Exhausted,
    InputEnded,
}

#[derive(PartialEq, Eq, Structural, Clone, Copy, Debug)]
pub enum Phase {
    AwaitingSecret,
    Accepted,
    Denied(Denial),
}

/// What an awaiting flow can consume: a verification verdict for one
/// candidate secret, or the end of the secret stream.
#[derive(PartialEq, Eq, Structural, Clone, Copy, Debug)]
pub enum AuthEvent {
    Secret(bool),
    EndOfInput,
}

/// One authentication flow: an optional attempt ceiling, the count of
/// rejections so far, and the current phase.
#[derive(Clone, Copy, Debug)]
pub struct AuthFlow {
    pub limit: Option<u32>,
    pub failures: u32,
    pub phase: Phase,
}

/// While a bounded flow still awaits a secret, attempts remain.
pub open spec fn flow_wf(f: AuthFlow) -> bool {
    f.phase is AwaitingSecret ==> match f.limit {
        Some(l) => f.failures < l,
        None => true,
    }
}

pub open spec fn begin_spec(
    limit: Option<u32>,
    stored_hash: Seq<char>,
    caller_uid: u32,
    substitution: bool,
) -> AuthFlow {
    if authorize_spec(stored_hash, caller_uid, substitution) is AutoAccepted {
        AuthFlow { limit, failures: 0, phase: Phase::Accepted }
    } else if limit == Some(0u32) {
        AuthFlow { limit, failures: 0, phase: Phase::Denied(Denial::Exhausted) }
    } else {
        AuthFlow { limit, failures: 0, phase: Phase::AwaitingSecret }
    }
}

/// Opens an authentication flow against a target record's stored hash.
/// An auto-accepted target is `Accepted` at once, without an attempt and
/// without the codec; a ceiling of zero denies at once.
pub fn begin(limit: Option<u32>, stored_hash: &str, caller_uid: u32, substitution: bool) -> (f:
    AuthFlow)
    ensures
        f == begin_spec(limit, stored_hash@, caller_uid, substitution),
        flow_wf(f),
{
    let a = authorize(stored_hash, caller_uid, substitution);
    if a == Authorization::AutoAccepted {
        AuthFlow { limit, failures: 0, phase: Phase::Accepted }
    } else {
        match limit {
            Some(l) => {
                if l == 0 {
                    AuthFlow { limit, failures: 0, phase: Phase::Denied(Denial::Exhausted) }
                } else {
                    AuthFlow { limit, failures: 0, phase: Phase::AwaitingSecret }
                }
            },
            None => AuthFlow { limit, failures: 0, phase: Phase::AwaitingSecret },
        }
    }
}

/// The transition of an awaiting flow on one event: a matching secret
/// accepts; a mismatch counts one more rejection and, once the ceiling is
/// reached, denies for exhaustion; the end of input denies at once without
/// consuming an attempt.
pub open spec fn step_spec(f: AuthFlow, ev: AuthEvent) -> AuthFlow {
    match ev {
        AuthEvent::EndOfInput => AuthFlow {
            limit: f.limit,
            failures: f.failures,
            phase: Phase::Denied(Denial::InputEnded),
        },
        AuthEvent::Secret(m) => if m {
            AuthFlow { limit: f.limit, failures: f.failures, phase: Phase::Accepted }
        } else {
            let nf = if f.failures < u32::MAX {
                (f.failures + 1) as u32
            } else {
                f.failures
            };
            let exhausted = match f.limit {
                Some(l) => nf >= l,
                None => false,
            };
            AuthFlow {
                limit: f.limit,
                failures: nf,
                phase: if exhausted {
                    Phase::Denied(Denial::Exhausted)
                } else {
                    Phase::AwaitingSecret
                },
            }
        },
    }
}

/// Advances an awaiting flow by one event.
pub fn step(f: &mut AuthFlow, ev: AuthEvent)
    requires
        flow_wf(*old(f)),
        old(f).phase is AwaitingSecret,
    ensures
        *final(f) == step_spec(*old(f), ev),
        flow_wf(*final(f)),
{
    match ev {
        AuthEvent::EndOfInput => {
            f.phase = Phase::Denied(Denial::InputEnded);
        },
        AuthEvent::Secret(m) => {
            if m {
                f.phase = Phase::Accepted;
            } else {
                if f.failures < u32::MAX {
                    f.failures = f.failures + 1;
                }
                let exhausted = match f.limit {
                    Some(l) => f.failures >= l,
                    None => false,
                };
                if exhausted {
                    f.phase = Phase::Denied(Denial::Exhausted);
                } else {
                    f.phase = Phase::AwaitingSecret;
                }
            }
        },
    }
}

/// Feeds one candidate secret to an awaiting flow: the codec's verdict
/// becomes the machine's event. A stored hash the codec cannot act on is
/// an operational error that aborts the attempt and leaves the flow as it
/// was.
pub fn submit_secret(f: &mut AuthFlow, record: &Passwd, secret: &str) -> (r: Result<
    (),
    AuthError,
>)
    requires
        flow_wf(*old(f)),
        old(f).phase is AwaitingSecret,
        secret@.len() <= 0x3fff_ffff,
    ensures
        match r {
            Ok(_) => {
                &&& stored_hash_valid(record.hash@)
                &&& *final(f) == step_spec(
                    *old(f),
                    AuthEvent::Secret(hash_matches(record.hash@, secret@)),
                )
                &&& flow_wf(*final(f))
            },
            Err(e) => {
                &&& e == AuthError::CorruptStoredHash
                &&& !stored_hash_valid(record.hash@)
                &&& *final(f) == *old(f)
            },
        },
{
    match record.try_verify(secret) {
        Some(m) => {
            step(f, AuthEvent::Secret(m));
            Ok(())
        },
        None => Err(AuthError::CorruptStoredHash),
    }
}

/// The flow after a whole sequence of events; a flow that is no longer
/// awaiting consumes nothing further.
pub open spec fn run_spec(f: AuthFlow, evs: Seq<AuthEvent>) -> AuthFlow
    decreases evs.len(),
{
    if evs.len() == 0 || !(f.phase is AwaitingSecret) {
        f
    } else {
        run_spec(step_spec(f, evs[0]), evs.drop_first())
    }
}

/// A terminal flow stays exactly as it is, whatever else arrives.
pub proof fn lemma_terminal_absorbs(f: AuthFlow, evs: Seq<AuthEvent>)
    requires
        !(f.phase is AwaitingSecret),
    ensures
        run_spec(f, evs) == f,
{
}

proof fn lemma_rejections_from(f: AuthFlow, evs: Seq<AuthEvent>)
    requires
        flow_wf(f),
        f.phase is AwaitingSecret,
        f.limit is Some,
        forall|i: int| 0 <= i < evs.len() ==> evs[i] == AuthEvent::Secret(false),
        f.failures + evs.len() <= f.limit->0,
    ensures
        ({
            let r = run_spec(f, evs);
            &&& r.limit == f.limit
            &&& r.failures == f.failures + evs.len()
            &&& r.phase == if f.failures + evs.len() == f.limit->0 {
                Phase::Denied(Denial::Exhausted)
            } else {
                Phase::AwaitingSecret
            }
        }),
    decreases evs.len(),
{
    if evs.len() > 0 {
        let f1 = step_spec(f, evs[0]);
        let rest = evs.drop_first();
        assert(forall|i: int| 0 <= i < rest.len() ==> rest[i] == evs[i + 1]);
        if f1.phase is AwaitingSecret {
            lemma_rejections_from(f1, rest);
        } else {
            assert(f1.failures == f.limit->0);
            assert(rest.len() == 0);
            lemma_terminal_absorbs(f1, rest);
        }
    }
}

/// Authentication bounded at `n` attempts: a fresh bounded flow that sees
/// nothing but rejected secrets counts every one of them, still awaits
/// another attempt while fewer than `n` have failed, and at exactly the
/// `n`-th consecutive rejection reaches terminal denial for exhaustion,
/// after which it consumes nothing further.
pub proof fn lemma_bounded_retry(
    n: u32,
    stored_hash: Seq<char>,
    caller_uid: u32,
    substitution: bool,
    evs: Seq<AuthEvent>,
)
    requires
        n > 0,
        authorize_spec(stored_hash, caller_uid, substitution) is RequiresSecret,
        forall|i: int| 0 <= i < evs.len() ==> evs[i] == AuthEvent::Secret(false),
        evs.len() <= n,
    ensures
        ({
            let r = run_spec(begin_spec(Some(n), stored_hash, caller_uid, substitution), evs);
            &&& r.failures == evs.len()
            &&& evs.len() < n ==> r.phase == Phase::AwaitingSecret
            &&& evs.len() == n ==> r.phase == Phase::Denied(Denial::Exhausted)
        }),
{
    let f = begin_spec(Some(n), stored_hash, caller_uid, substitution);
    lemma_rejections_from(f, evs);
}

/// An unbounded flow is never denied for exhaustion: rejections alone
/// leave it awaiting the next attempt.
pub proof fn lemma_unbounded_retry(f: AuthFlow, evs: Seq<AuthEvent>)
    requires
        f.phase is AwaitingSecret,
        f.limit is None,
        forall|i: int| 0 <= i < evs.len() ==> evs[i] == AuthEvent::Secret(false),
    ensures
        run_spec(f, evs).phase is AwaitingSecret,
        run_spec(f, evs).limit is None,
    decreases evs.len(),
{
    if evs.len() > 0 {
        let rest = evs.drop_first();
        assert(forall|i: int| 0 <= i < rest.len() ==> rest[i] == evs[i + 1]);
        lemma_unbounded_retry(step_spec(f, evs[0]), rest);
    }
}

/// Whether some group named `sudo` lists `user` among its members.
pub open spec fn sudo_group_admits(gs: Seq<GroupV>, user: Seq<char>) -> bool {
    exists|i: int|
        0 <= i < gs.len() && (#[trigger] gs[i]).group == "sudo"@ && split_on(
            gs[i].users,
            ',',
        ).contains(user)
}

/// What an elevation request may do before any secret is asked for.
pub enum ElevationAccess {
    /// The caller is already the superuser: no checks, no secret.
    AlreadyRoot,
    /// The caller's record, against which a secret may now be verified.
    Authorized(Passwd),
    /// The caller has no record in the user database.
    UnknownUser,
    /// The caller is not a member of any `sudo` group.
    NotInSudoGroup,
}

/// Decides whether the caller may request elevation: the superuser always
/// may; anyone else must appear in the user database and be listed by a
/// group named `sudo`.
pub fn check_elevation(caller_uid: u32, passwd_data: &str, group_data: &str) -> (r:
    ElevationAccess)
    ensures
        ({
            let es = parse_passwd_file(passwd_data@);
            let gs = parse_group_file(group_data@);
            match r {
                ElevationAccess::AlreadyRoot => caller_uid == 0,
                ElevationAccess::UnknownUser => caller_uid != 0 && find_passwd_by_uid(
                    es,
                    caller_uid,
                ) is None,
                ElevationAccess::NotInSudoGroup => caller_uid != 0 && (find_passwd_by_uid(
                    es,
                    caller_uid,
                ) matches Some(p) && !sudo_group_admits(gs, p.user)),
                ElevationAccess::Authorized(p) => caller_uid != 0 && find_passwd_by_uid(
                    es,
                    caller_uid,
                ) == Some(p@) && sudo_group_admits(gs, p@.user),
            }
        }),
{
    if caller_uid == 0 {
        return ElevationAccess::AlreadyRoot;
    }
    let p = match get_passwd_by_id(passwd_data, caller_uid) {
        Some(p) => p,
        None => {
            return ElevationAccess::UnknownUser;
        },
    };
    let groups = match Group::parse_file(group_data) {
        Ok(v) => v,
        Err(_) => {
            proof {
                assert(false);
            }
            return ElevationAccess::UnknownUser;
        },
    };
    let ghost gs = parse_group_file(group_data@);
    let n = groups.len();
    let mut i: usize = 0;
    while i < n
        invariant
            i <= n,
            n == groups@.len(),
            gs == groups.deep_view(),
            gs == parse_group_file(group_data@),
            caller_uid != 0,
            find_passwd_by_uid(parse_passwd_file(passwd_data@), caller_uid) == Some(p@),
            forall|j: int|
                0 <= j < i ==> !((#[trigger] gs[j]).group == "sudo"@ && split_on(
                    gs[j].users,
                    ',',
                ).contains(p.user@)),
        decreases n - i,
    {
        proof {
            assert(gs[i as int] == groups@[i as int]@);
        }
        if str_eq(groups[i].group.as_str(), "sudo") && groups[i].has_member(p.user.as_str()) {
            proof {
                assert(sudo_group_admits(gs, p.user@));
            }
            return ElevationAccess::Authorized(p);
        }
        i += 1;
    }
    ElevationAccess::NotInSudoGroup
}

} // verus!
