use userutils::record::Passwd;

fn record_with_hash(hash: &str) -> Passwd {
    Passwd {
        user: String::from("alice"),
        hash: String::from(hash),
        uid: 1000,
        gid: 1000,
        name: String::from("Alice"),
        home: String::from("/home/alice"),
        shell: String::from("/bin/sh"),
    }
}

#[test]
fn encode_has_fixed_parameters() {
    let h = Passwd::encode("open sesame", "saltsalt");
    assert!(h.starts_with("$argon2i$m=4096,t=10,p=1$"));
}

#[test]
fn encode_then_verify_accepts_the_secret() {
    let h = Passwd::encode("open sesame", "saltsalt");
    let p = record_with_hash(&h);
    assert_eq!(p.try_verify("open sesame"), Some(true));
}

#[test]
fn encode_then_verify_rejects_other_secrets() {
    let h = Passwd::encode("open sesame", "saltsalt");
    let p = record_with_hash(&h);
    assert_eq!(p.try_verify("open sesam"), Some(false));
    assert_eq!(p.try_verify(""), Some(false));
    assert_eq!(p.try_verify("OPEN SESAME"), Some(false));
}

#[test]
fn encode_distinct_salts_verify_independently() {
    let h1 = Passwd::encode("secret", "salt0001");
    let h2 = Passwd::encode("secret", "salt0002");
    assert_ne!(h1, h2);
    assert_eq!(record_with_hash(&h1).try_verify("secret"), Some(true));
    assert_eq!(record_with_hash(&h2).try_verify("secret"), Some(true));
}

#[test]
fn empty_secret_round_trips() {
    let h = Passwd::encode("", "saltsalt");
    let p = record_with_hash(&h);
    assert_eq!(p.try_verify(""), Some(true));
    assert_eq!(p.try_verify("x"), Some(false));
}

#[test]
fn corrupt_hash_yields_no_verdict() {
    assert_eq!(record_with_hash("garbage").try_verify("pw"), None);
    assert_eq!(record_with_hash("").try_verify("pw"), None);
    assert_eq!(record_with_hash("$argon2").try_verify("pw"), None);
    assert_eq!(record_with_hash("$argon2i$m=4096").try_verify("pw"), None);
    assert_eq!(record_with_hash("$argon2i$m=4096,t=10,p=1").try_verify("pw"), None);
    assert_eq!(record_with_hash("$argon2i$m=4096,t=10,p=1$short$x").try_verify("pw"), None);
}

#[test]
fn truncated_copy_of_real_hash_never_accepts() {
    let h = Passwd::encode("open sesame", "saltsalt");
    for cut in [h.len() - 1, h.len() - 20, h.len() / 2] {
        let v = record_with_hash(&h[..cut]).try_verify("open sesame");
        assert_ne!(v, Some(true));
    }
}

#[test]
fn well_shaped_hash_with_bad_parameters_yields_no_verdict() {
    let stored = "$argon2i$m=0,t=0,p=0$aaaaaaaaaaa$xx";
    assert_eq!(record_with_hash(stored).try_verify("pw"), None);
}

#[test]
fn known_encoded_vector_verifies() {
    let stored = "$argon2i$m=4096,t=3,p=1$dG9kbzogZnV6eiB0ZXN0cw\
                  $Eh1lW3mjkhlMLRQdE7vXZnvwDXSGLBfXa6BGK4a1J3s";
    let p = record_with_hash(stored);
    assert_eq!(p.try_verify("argon2i!"), Some(true));
    assert_eq!(p.try_verify("nope"), Some(false));
}
