use ssh_menu::config::model::{default_port, default_user, find_host, Config, Host};

fn host(name: &str, addr: &str) -> Host {
    Host {
        name: name.to_string(),
        host: addr.to_string(),
        user: "root".to_string(),
        port: 22,
        key: None,
        group: None,
        tags: vec![],
        jump: None,
        note: None,
        extra: vec![],
        last_used: None,
        use_count: 0,
    }
}

#[test]
fn defaults_are_root_and_22() {
    assert_eq!(default_user(), "root");
    assert_eq!(default_port(), 22);
    let c = Config::default();
    assert!(c.hosts.is_empty());
}

#[test]
fn display_line_full_entry() {
    let mut h = host("prod-db", "db.example.com");
    h.group = Some("prod".to_string());
    h.tags = vec!["mysql".to_string(), "linux".to_string()];
    let expected = format!("{:<12} {:<22} {}@{}{}{}{}", "prod", "prod-db", "root", "db.example.com", "", "", " [mysql,linux]");
    assert_eq!(h.display_line(), expected);
    assert_eq!(h.display_line(), "prod         prod-db                root@db.example.com [mysql,linux]");
}

#[test]
fn display_line_port_and_jump() {
    let mut h = host("bastion-jump", "10.0.0.1");
    h.user = "admin".to_string();
    h.port = 2222;
    h.jump = Some("prod-db".to_string());
    assert_eq!(
        h.display_line(),
        format!("{:<12} {:<22} admin@10.0.0.1:2222 via prod-db", "", "bastion-jump")
    );
}

#[test]
fn display_line_long_name_not_cut() {
    let h = host("a-very-long-host-name-that-exceeds", "x");
    assert_eq!(h.display_line(), format!("{:<12} a-very-long-host-name-that-exceeds root@x", ""));
}

#[test]
fn matches_is_case_insensitive_substring() {
    let mut h = host("Prod-DB", "db.example.com");
    h.group = Some("Prod".to_string());
    h.tags = vec!["mysql".to_string(), "linux".to_string()];
    assert!(h.matches(""));
    assert!(h.matches("prod-db"));
    assert!(h.matches("EXAMPLE"));
    assert!(h.matches("root"));
    assert!(h.matches("mysql linux"));
    assert!(h.matches("root prod"));
    assert!(!h.matches("db prod"));
    assert!(!h.matches("staging"));
}

#[test]
fn matches_across_field_boundary() {
    // fields are joined with single spaces before searching
    let h = host("web", "web.lan");
    assert!(h.matches("web web.lan root"));
    assert!(!h.matches("webweb"));
}

#[test]
fn duplicate_copies_all_fields() {
    let mut h = host("a", "b");
    h.key = Some("k".to_string());
    h.extra = vec!["-v".to_string()];
    h.use_count = 3;
    let d = h.duplicate();
    assert_eq!(d.name, "a");
    assert_eq!(d.key.as_deref(), Some("k"));
    assert_eq!(d.extra, vec!["-v".to_string()]);
    assert_eq!(d.use_count, 3);
}

#[test]
fn find_host_gives_the_first_of_a_name() {
    let cfg = Config {
        hosts: vec![host("web", "a"), host("db", "b"), host("db", "c")],
    };
    assert_eq!(find_host(&cfg, "db"), Some(1));
    assert_eq!(find_host(&cfg, "web"), Some(0));
    assert_eq!(find_host(&cfg, "DB"), None);
    assert_eq!(find_host(&cfg, "mail"), None);
}

#[test]
fn longer_query_never_matches_more() {
    let mut h = host("Prod-DB", "db.example.com");
    h.tags = vec!["mysql".to_string()];
    assert!(h.matches("PROD-DB DB.EXAMPLE"));
    for q2 in ["PROD", "db db.", "B.EX", "", "Prod-DB DB.EXAMPLE"] {
        assert!(h.matches(q2));
    }
    assert!(!h.matches("prod-dbx"));
}
