use userutils::context::{propagate_exit_status, SecurityContext};
use userutils::record::Passwd;

#[test]
fn session_context_takes_the_target_identity() {
    let p = Passwd::parse("alice;H;1000;1001;Alice;/home/alice;/bin/ion").unwrap();
    let c = SecurityContext::session_context(&p);
    assert_eq!(c.uid, 1000);
    assert_eq!(c.gid, 1001);
    assert_eq!(c.working_dir.as_deref(), Some("/home/alice"));
    assert_eq!(c.env_user, "alice");
    assert_eq!(c.env_uid, "1000");
    assert_eq!(c.env_groups, "1001");
    assert_eq!(c.env_home.as_deref(), Some("/home/alice"));
    assert_eq!(c.env_shell.as_deref(), Some("/bin/ion"));
    assert_eq!(c.program, "/bin/ion");
    assert!(c.args.is_empty());
}

#[test]
fn elevation_context_always_becomes_superuser() {
    let args = vec![String::from("-l"), String::from("/")];
    let c = SecurityContext::elevation_context("ls", args.clone());
    assert_eq!(c.uid, 0);
    assert_eq!(c.gid, 0);
    assert!(c.working_dir.is_none());
    assert_eq!(c.env_user, "root");
    assert_eq!(c.env_uid, "0");
    assert_eq!(c.env_groups, "0");
    assert!(c.env_home.is_none());
    assert!(c.env_shell.is_none());
    assert_eq!(c.program, "ls");
    assert_eq!(c.args, args);
}

#[test]
fn elevation_context_ignores_the_invoking_record() {
    let invoker = Passwd::parse("mallory;H;1003;1003;Mallory;/home/mallory;/bin/sh").unwrap();
    let c = SecurityContext::elevation_context(&invoker.shell, Vec::new());
    assert_eq!(c.uid, 0);
    assert_eq!(c.env_user, "root");
    assert_eq!(c.env_uid, "0");
    assert_eq!(c.env_groups, "0");
}

#[test]
fn exit_status_is_propagated_unchanged() {
    assert_eq!(propagate_exit_status(Some(42)), 42);
    assert_eq!(propagate_exit_status(Some(0)), 0);
    assert_eq!(propagate_exit_status(Some(-1)), -1);
    assert_eq!(propagate_exit_status(None), 0);
}
