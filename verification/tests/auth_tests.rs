use userutils::auth::{
    authorize, begin, check_elevation, step, submit_secret, AuthError, AuthEvent, Authorization,
    Denial, ElevationAccess, Phase,
};
use userutils::record::Passwd;
use userutils::store::get_passwd_by_name;

#[test]
fn empty_hash_is_auto_accepted() {
    assert_eq!(authorize("", 1000, false), Authorization::AutoAccepted);
    assert_eq!(authorize("", 1000, true), Authorization::AutoAccepted);
    let f = begin(None, "", 1000, false);
    assert_eq!(f.phase, Phase::Accepted);
    assert_eq!(f.failures, 0);
}

#[test]
fn superuser_substitution_is_auto_accepted() {
    assert_eq!(authorize("somehash", 0, true), Authorization::AutoAccepted);
    assert_eq!(begin(None, "somehash", 0, true).phase, Phase::Accepted);
}

#[test]
fn nonempty_hash_requires_secret() {
    assert_eq!(authorize("somehash", 1000, false), Authorization::RequiresSecret);
    assert_eq!(authorize("somehash", 0, false), Authorization::RequiresSecret);
    assert_eq!(authorize("somehash", 1000, true), Authorization::RequiresSecret);
    let f = begin(Some(3), "somehash", 1000, false);
    assert_eq!(f.phase, Phase::AwaitingSecret);
    assert_eq!(f.failures, 0);
}

#[test]
fn three_rejections_reach_denial() {
    let mut f = begin(Some(3), "somehash", 1000, false);
    step(&mut f, AuthEvent::Secret(false));
    assert_eq!(f.phase, Phase::AwaitingSecret);
    assert_eq!(f.failures, 1);
    step(&mut f, AuthEvent::Secret(false));
    assert_eq!(f.phase, Phase::AwaitingSecret);
    assert_eq!(f.failures, 2);
    step(&mut f, AuthEvent::Secret(false));
    assert_eq!(f.phase, Phase::Denied(Denial::Exhausted));
    assert_eq!(f.failures, 3);
}

#[test]
fn matching_secret_accepts() {
    let mut f = begin(Some(3), "somehash", 1000, false);
    step(&mut f, AuthEvent::Secret(false));
    step(&mut f, AuthEvent::Secret(true));
    assert_eq!(f.phase, Phase::Accepted);
    assert_eq!(f.failures, 1);
}

#[test]
fn end_of_input_denies_without_consuming_an_attempt() {
    let mut f = begin(Some(3), "somehash", 1000, false);
    step(&mut f, AuthEvent::EndOfInput);
    assert_eq!(f.phase, Phase::Denied(Denial::InputEnded));
    assert_eq!(f.failures, 0);
}

#[test]
fn zero_bound_denies_at_once() {
    let f = begin(Some(0), "somehash", 1000, false);
    assert_eq!(f.phase, Phase::Denied(Denial::Exhausted));
}

#[test]
fn unbounded_flow_keeps_awaiting() {
    let mut f = begin(None, "somehash", 1000, false);
    for _ in 0..10 {
        step(&mut f, AuthEvent::Secret(false));
        assert_eq!(f.phase, Phase::AwaitingSecret);
    }
    assert_eq!(f.failures, 10);
}

#[test]
fn stored_scenario_accepts_correct_secret() {
    let hash = Passwd::encode("wonderland", "saltsalt");
    let data = format!("alice;{};1000;1000;Alice;/home/alice;/bin/sh\n", hash);
    let alice = get_passwd_by_name(&data, "alice").unwrap();
    let mut f = begin(Some(3), &alice.hash, 1000, false);
    assert_eq!(f.phase, Phase::AwaitingSecret);
    assert_eq!(submit_secret(&mut f, &alice, "wonderland"), Ok(()));
    assert_eq!(f.phase, Phase::Accepted);
}

#[test]
fn stored_scenario_denies_after_three_wrong_secrets() {
    let hash = Passwd::encode("wonderland", "saltsalt");
    let data = format!("alice;{};1000;1000;Alice;/home/alice;/bin/sh\n", hash);
    let alice = get_passwd_by_name(&data, "alice").unwrap();
    let mut f = begin(Some(3), &alice.hash, 1000, false);
    for k in 1..=3u32 {
        assert_eq!(submit_secret(&mut f, &alice, "queen of hearts"), Ok(()));
        assert_eq!(f.failures, k);
    }
    assert_eq!(f.phase, Phase::Denied(Denial::Exhausted));
}

#[test]
fn empty_hash_account_accepts_any_secret_at_once() {
    let data = "bob;;1001;1001;Bob;/home/bob;/bin/sh\n";
    let bob = get_passwd_by_name(data, "bob").unwrap();
    assert_eq!(bob.hash, "");
    let f = begin(None, &bob.hash, 1001, false);
    assert_eq!(f.phase, Phase::Accepted);
    let g = begin(Some(3), &bob.hash, 1001, true);
    assert_eq!(g.phase, Phase::Accepted);
}

#[test]
fn corrupt_stored_hash_aborts_the_attempt() {
    let data = "carol;notahash;1002;1002;Carol;/home/carol;/bin/sh\n";
    let carol = get_passwd_by_name(data, "carol").unwrap();
    let mut f = begin(Some(3), &carol.hash, 1002, false);
    assert_eq!(f.phase, Phase::AwaitingSecret);
    assert_eq!(submit_secret(&mut f, &carol, "anything"), Err(AuthError::CorruptStoredHash));
    assert_eq!(f.phase, Phase::AwaitingSecret);
    assert_eq!(f.failures, 0);
}

#[test]
fn elevation_superuser_needs_no_checks() {
    assert!(matches!(check_elevation(0, "", ""), ElevationAccess::AlreadyRoot));
}

#[test]
fn elevation_unknown_user_is_refused() {
    let passwd = "alice;H;1000;1000;Alice;/home/alice;/bin/sh\n";
    let group = "sudo;27;alice\n";
    assert!(matches!(check_elevation(1234, passwd, group), ElevationAccess::UnknownUser));
}

#[test]
fn elevation_outside_sudo_group_is_refused() {
    let passwd = "mallory;H;1003;1003;Mallory;/home/mallory;/bin/sh\n";
    let group = "sudo;27;alice,bob\nusers;100;mallory\n";
    assert!(matches!(check_elevation(1003, passwd, group), ElevationAccess::NotInSudoGroup));
}

#[test]
fn elevation_sudo_member_is_authorized() {
    let passwd = "alice;H;1000;1000;Alice;/home/alice;/bin/sh\n";
    let group = "users;100;mallory\nsudo;27;bob,alice\n";
    match check_elevation(1000, passwd, group) {
        ElevationAccess::Authorized(p) => {
            assert_eq!(p.user, "alice");
            assert_eq!(p.uid, 1000);
        },
        _ => panic!("expected authorization"),
    }
}

#[test]
fn elevation_membership_is_not_substring_match() {
    let passwd = "ali;H;1005;1005;Ali;/home/ali;/bin/sh\n";
    let group = "sudo;27;alice\n";
    assert!(matches!(check_elevation(1005, passwd, group), ElevationAccess::NotInSudoGroup));
}

#[test]
fn error_messages_name_the_failure() {
    assert_eq!(AuthError::StoreUnavailable.message(), "store unavailable");
    assert_eq!(AuthError::CorruptStoredHash.message(), "corrupt stored hash");
    assert_eq!(AuthError::SpawnFailure.message(), "failed to start child process");
}
