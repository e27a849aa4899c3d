use hiss_native::{apply_setting, parse_connection_string};

#[test]
fn empty_string_gives_defaults() {
    let c = parse_connection_string("");
    assert_eq!(c.host, "localhost");
    assert_eq!(c.port, 1433);
    assert_eq!(c.database, "master");
    assert_eq!(c.uid, "");
    assert_eq!(c.pwd, "");
    assert!(!c.trust_cert);
}

#[test]
fn all_keys_are_read() {
    let c = parse_connection_string(
        "Server=db.example.com,1500; Database=app;UID=sa;PWD=pw1;TrustServerCertificate=yes",
    );
    assert_eq!(c.host, "db.example.com");
    assert_eq!(c.port, 1500);
    assert_eq!(c.database, "app");
    assert_eq!(c.uid, "sa");
    assert_eq!(c.pwd, "pw1");
    assert!(c.trust_cert);
}

#[test]
fn alternative_key_names() {
    let c = parse_connection_string(
        "server=h;Initial Catalog=cat;User Id=u;Password=p;trustservercertificate=TRUE",
    );
    assert_eq!(c.host, "h");
    assert_eq!(c.port, 1433);
    assert_eq!(c.database, "cat");
    assert_eq!(c.uid, "u");
    assert_eq!(c.pwd, "p");
    assert!(c.trust_cert);
}

#[test]
fn bad_port_and_unknown_keys_are_ignored() {
    let c = parse_connection_string("server=h, abc;Timeout=5;junk;;trustservercertificate=no");
    assert_eq!(c.host, "h");
    assert_eq!(c.port, 1433);
    assert!(!c.trust_cert);
    let c = parse_connection_string("server=h,70000");
    assert_eq!(c.port, 1433);
    let c = parse_connection_string("server=h, +99 ;trustservercertificate=1");
    assert_eq!(c.port, 99);
    assert!(c.trust_cert);
}

#[test]
fn unicode_white_space_is_trimmed() {
    let c = parse_connection_string("\u{3000}server = h\u{a0} ;\tdatabase=\u{2009}d\u{2009}");
    assert_eq!(c.host, "h");
    assert_eq!(c.database, "d");
}

#[test]
fn settings_apply_one_at_a_time() {
    let mut c = parse_connection_string("");
    apply_setting(&mut c, "server", "db,1600");
    assert_eq!((c.host.as_str(), c.port), ("db", 1600));
    apply_setting(&mut c, "server", "other");
    assert_eq!((c.host.as_str(), c.port), ("other", 1600));
    apply_setting(&mut c, "initial catalog", "cat");
    assert_eq!(c.database, "cat");
    apply_setting(&mut c, "user id", "u");
    apply_setting(&mut c, "password", "p");
    assert_eq!((c.uid.as_str(), c.pwd.as_str()), ("u", "p"));
    apply_setting(&mut c, "trustservercertificate", "Yes");
    assert!(c.trust_cert);
    apply_setting(&mut c, "trustservercertificate", "0");
    assert!(!c.trust_cert);
    apply_setting(&mut c, "Server", "ignored");
    assert_eq!(c.host, "other");
}
