use ssh_menu::config::model::{Config, Host};
use ssh_menu::ssh::import::{merge_into, parse_ssh_config_text};

const SAMPLE: &str = "\
# my hosts
Host *
    User everyone

Host prod-db
    HostName db.example.com
    User root
    Port 2200
    IdentityFile ~/.ssh/prod_key

Host web staging-web
  hostname=web.staging.lan
  USER deploy
  ProxyJump prod-db

Host nohostname
  User ghost

Host quoted
  HostName \"q.example.com\"
  Port notanumber

Host prod-db
  HostName db2.example.com
";

fn names(v: &[Host]) -> Vec<String> {
    v.iter().map(|h| h.name.clone()).collect()
}

#[test]
fn parses_entries_and_overrides() {
    let hosts = parse_ssh_config_text(SAMPLE);
    assert_eq!(names(&hosts), vec!["web", "nohostname", "quoted", "prod-db"]);
    let web = &hosts[0];
    assert_eq!(web.host, "web.staging.lan");
    assert_eq!(web.user, "deploy");
    assert_eq!(web.port, 22);
    assert_eq!(web.jump.as_deref(), Some("prod-db"));
    assert_eq!(web.group.as_deref(), Some("ssh_config"));
    let nohostname = &hosts[1];
    assert_eq!(nohostname.host, "nohostname");
    assert_eq!(nohostname.user, "ghost");
    let quoted = &hosts[2];
    assert_eq!(quoted.host, "q.example.com");
    assert_eq!(quoted.port, 22);
    let prod = &hosts[3];
    assert_eq!(prod.host, "db2.example.com");
    assert_eq!(prod.user, "root");
    assert_eq!(prod.port, 22);
    assert_eq!(prod.key, None);
}

#[test]
fn first_occurrence_fields_when_unique() {
    let text = "Host a\n  HostName a.lan\n  Port 2200\n  IdentityFile ~/.ssh/k\n  User u\n";
    let hosts = parse_ssh_config_text(text);
    assert_eq!(hosts.len(), 1);
    assert_eq!(hosts[0].port, 2200);
    assert_eq!(hosts[0].key.as_deref(), Some("~/.ssh/k"));
    assert_eq!(hosts[0].user, "u");
    assert_eq!(hosts[0].tags.len(), 0);
    assert_eq!(hosts[0].use_count, 0);
}

#[test]
fn crlf_and_empty_values() {
    let text = "Host a\r\n  HostName a.lan\r\n  User\r\n  Port +8022\r\n";
    let hosts = parse_ssh_config_text(text);
    assert_eq!(hosts.len(), 1);
    assert_eq!(hosts[0].host, "a.lan");
    assert_eq!(hosts[0].user, "root");
    assert_eq!(hosts[0].port, 8022);
}

#[test]
fn port_out_of_range_falls_back() {
    let hosts = parse_ssh_config_text("Host a\nHostName x\nPort 70000\n");
    assert_eq!(hosts[0].port, 22);
}

#[test]
fn wildcards_and_empty_text() {
    assert!(parse_ssh_config_text("").is_empty());
    assert!(parse_ssh_config_text("Host web-?\n HostName x\nHost *.lan\n HostName y\n").is_empty());
    // keys before any Host are ignored
    assert!(parse_ssh_config_text("HostName x\nUser y\n").is_empty());
}

fn mk(name: &str) -> Host {
    Host {
        name: name.to_string(),
        host: format!("{}.lan", name),
        user: "root".to_string(),
        port: 22,
        key: None,
        group: None,
        tags: vec![],
        jump: None,
        note: None,
        extra: vec![],
        last_used: None,
        use_count: 0,
    }
}

#[test]
fn merge_counts_and_keeps_existing() {
    let mut cfg = Config { hosts: vec![mk("a"), mk("b")] };
    let (added, skipped) = merge_into(&mut cfg, vec![mk("b"), mk("c"), mk("d")]);
    assert_eq!((added, skipped), (2, 1));
    assert_eq!(names(&cfg.hosts), vec!["a", "b", "c", "d"]);
}

#[test]
fn merge_twice_adds_nothing() {
    let mut cfg = Config { hosts: vec![mk("a")] };
    let incoming = vec![mk("a"), mk("x")];
    let again = vec![mk("a"), mk("x")];
    assert_eq!(merge_into(&mut cfg, incoming), (1, 1));
    assert_eq!(merge_into(&mut cfg, again), (0, 2));
    assert_eq!(names(&cfg.hosts), vec!["a", "x"]);
}

#[test]
fn merge_duplicate_new_names_both_added() {
    let mut cfg = Config { hosts: vec![] };
    assert_eq!(merge_into(&mut cfg, vec![mk("n"), mk("n")]), (2, 0));
    assert_eq!(cfg.hosts.len(), 2);
}

#[test]
fn spaced_equals_keeps_equals_in_value() {
    // the keyword ends at the first blank, so the value starts with "="
    let hosts = parse_ssh_config_text("Host a\nHostName = a.lan\n");
    assert_eq!(hosts[0].host, "= a.lan");
}

#[test]
fn block_without_hostname_uses_its_name() {
    let hosts = parse_ssh_config_text("Host alias\n  User bob\n");
    assert_eq!(hosts.len(), 1);
    let h = &hosts[0];
    assert_eq!(h.name, "alias");
    assert_eq!(h.host, "alias");
    assert_eq!(h.user, "bob");
    assert_eq!(h.port, 22);
    assert_eq!(h.key, None);
    assert_eq!(h.group.as_deref(), Some("ssh_config"));
    assert!(h.tags.is_empty());
    assert_eq!(h.jump, None);
    assert_eq!(h.note, None);
    assert!(h.extra.is_empty());
}

#[test]
fn later_block_without_hostname_overrides() {
    let hosts = parse_ssh_config_text("Host a\n HostName a.lan\nHost b\n HostName b.lan\nHost a\n User z\n");
    assert_eq!(names(&hosts), vec!["b", "a"]);
    assert_eq!(hosts[1].host, "a");
    assert_eq!(hosts[1].user, "z");
}
