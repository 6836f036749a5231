use userutils::record::{Group, Passwd};

#[test]
fn parse_valid_user_line() {
    let p = Passwd::parse("alice;H;1000;1001;Alice;/home/alice;/bin/sh").unwrap();
    assert_eq!(p.user, "alice");
    assert_eq!(p.hash, "H");
    assert_eq!(p.uid, 1000);
    assert_eq!(p.gid, 1001);
    assert_eq!(p.name, "Alice");
    assert_eq!(p.home, "/home/alice");
    assert_eq!(p.shell, "/bin/sh");
}

#[test]
fn parse_empty_hash_user_line() {
    let p = Passwd::parse("bob;;1001;1001;Bob;/home/bob;/bin/sh").unwrap();
    assert_eq!(p.hash, "");
    assert_eq!(p.uid, 1001);
}

#[test]
fn parse_user_line_missing_field() {
    assert!(Passwd::parse("alice;H;1000;1000;Alice;/home/alice").is_err());
    assert!(Passwd::parse("").is_err());
    assert!(Passwd::parse("alice").is_err());
}

#[test]
fn parse_user_line_extra_field() {
    assert!(Passwd::parse("alice;H;1000;1000;Alice;/home/alice;/bin/sh;extra").is_err());
    assert!(Passwd::parse("alice;H;1000;1000;Alice;/home/alice;/bin/sh;").is_err());
}

#[test]
fn parse_user_line_non_numeric_id() {
    assert!(Passwd::parse("alice;H;10x0;1000;Alice;/home/alice;/bin/sh").is_err());
    assert!(Passwd::parse("alice;H;;1000;Alice;/home/alice;/bin/sh").is_err());
    assert!(Passwd::parse("alice;H;1000;-1;Alice;/home/alice;/bin/sh").is_err());
    assert!(Passwd::parse("alice;H;+10;1000;Alice;/home/alice;/bin/sh").is_err());
}

#[test]
fn parse_user_id_bounds() {
    let p = Passwd::parse("a;h;4294967295;0;n;/h;/s").unwrap();
    assert_eq!(p.uid, u32::MAX);
    assert_eq!(p.gid, 0);
    assert!(Passwd::parse("a;h;4294967296;0;n;/h;/s").is_err());
    let q = Passwd::parse("a;h;007;0;n;/h;/s").unwrap();
    assert_eq!(q.uid, 7);
}

#[test]
fn parse_valid_group_line() {
    let g = Group::parse("sudo;27;alice,bob").unwrap();
    assert_eq!(g.group, "sudo");
    assert_eq!(g.gid, 27);
    assert_eq!(g.users, "alice,bob");
}

#[test]
fn parse_group_line_malformed() {
    assert!(Group::parse("sudo;27").is_err());
    assert!(Group::parse("sudo;27;alice;extra").is_err());
    assert!(Group::parse("sudo;twenty;alice").is_err());
}

#[test]
fn user_round_trip() {
    let p = Passwd::parse("alice;H$x;1000;1001;Alice Liddell;/home/alice;/bin/sh").unwrap();
    let line = p.serialize();
    assert_eq!(line, "alice;H$x;1000;1001;Alice Liddell;/home/alice;/bin/sh");
    let q = Passwd::parse(&line).unwrap();
    assert_eq!(q.user, p.user);
    assert_eq!(q.hash, p.hash);
    assert_eq!(q.uid, p.uid);
    assert_eq!(q.gid, p.gid);
    assert_eq!(q.name, p.name);
    assert_eq!(q.home, p.home);
    assert_eq!(q.shell, p.shell);
}

#[test]
fn group_round_trip() {
    let g = Group::parse("wheel;10;alice,bob,carol").unwrap();
    let line = g.serialize();
    assert_eq!(line, "wheel;10;alice,bob,carol");
    let h = Group::parse(&line).unwrap();
    assert_eq!(h.group, g.group);
    assert_eq!(h.gid, g.gid);
    assert_eq!(h.users, g.users);
}

#[test]
fn parse_file_skips_malformed_lines() {
    let data = "alice;H;1000;1000;Alice;/home/alice;/bin/sh\n\
                broken line\n\
                bob;;1001;1001;Bob;/home/bob;/bin/sh\n\
                carol;H;xx;1002;Carol;/home/carol;/bin/sh\n\
                dave;H;1003;1003;Dave;/home/dave;/bin/sh\n";
    let entries = Passwd::parse_file(data).unwrap();
    assert_eq!(entries.len(), 3);
    assert_eq!(entries[0].user, "alice");
    assert_eq!(entries[1].user, "bob");
    assert_eq!(entries[2].user, "dave");
}

#[test]
fn parse_file_without_trailing_newline() {
    let entries =
        Passwd::parse_file("alice;H;1;1;A;/h;/s\nbob;H;2;2;B;/h;/s").unwrap();
    assert_eq!(entries.len(), 2);
    assert_eq!(entries[1].user, "bob");
}

#[test]
fn parse_file_empty() {
    assert_eq!(Passwd::parse_file("").unwrap().len(), 0);
    assert_eq!(Group::parse_file("").unwrap().len(), 0);
}

#[test]
fn parse_file_crlf_lines() {
    let entries = Passwd::parse_file("alice;H;1;1;A;/h;/s\r\nbob;H;2;2;B;/h;/s\r\n").unwrap();
    assert_eq!(entries.len(), 2);
    assert_eq!(entries[0].shell, "/s");
    assert_eq!(entries[1].user, "bob");
}

#[test]
fn group_file_skips_malformed_lines() {
    let data = "sudo;27;alice\nnot a group\nwheel;10;bob\n";
    let entries = Group::parse_file(data).unwrap();
    assert_eq!(entries.len(), 2);
    assert_eq!(entries[0].group, "sudo");
    assert_eq!(entries[1].group, "wheel");
}

#[test]
fn membership_is_exact_token_equality() {
    let g = Group::parse("sudo;27;alice,bob").unwrap();
    assert!(g.has_member("alice"));
    assert!(g.has_member("bob"));
    assert!(!g.has_member("ali"));
    assert!(!g.has_member("lice"));
    assert!(!g.has_member("alice,bob"));
    assert!(!g.has_member("carol"));
}
