use ssh_menu::config::model::{Config, Host};
use ssh_menu::ssh::connect::{build_ssh_args, build_ssh_args_with_home, expand_tilde, expand_tilde_with, jump_target};

fn entry(name: &str, addr: &str, user: &str, port: u16) -> Host {
    Host {
        name: name.to_string(),
        host: addr.to_string(),
        user: user.to_string(),
        port,
        key: None,
        group: None,
        tags: vec![],
        jump: None,
        note: None,
        extra: vec![],
        last_used: None,
        use_count: 0,
    }
}

fn sample() -> Config {
    Config {
        hosts: vec![
            entry("prod-db", "db.example.com", "root", 22),
            entry("bastion", "10.0.0.1", "admin", 2222),
            entry("prod-db", "other.example.com", "ops", 22),
        ],
    }
}

#[test]
fn plain_host_gets_only_destination() {
    let cfg = sample();
    let t = entry("web", "web.lan", "ubuntu", 22);
    assert_eq!(build_ssh_args(&cfg, &t), vec!["ubuntu@web.lan".to_string()]);
}

#[test]
fn all_options_in_order() {
    let cfg = sample();
    let mut t = entry("win", "10.0.0.5", "admin", 3389);
    t.key = Some("/keys/id".to_string());
    t.jump = Some("prod-db".to_string());
    t.extra = vec!["-o".to_string(), "ServerAliveInterval=30".to_string()];
    let args = build_ssh_args(&cfg, &t);
    assert_eq!(
        args,
        vec!["-i", "/keys/id", "-p", "3389", "-J", "root@db.example.com", "-o", "ServerAliveInterval=30", "admin@10.0.0.5"]
            .into_iter()
            .map(String::from)
            .collect::<Vec<_>>()
    );
}

#[test]
fn jump_with_port_and_unknown_jump() {
    let cfg = sample();
    let mut t = entry("inner", "192.168.1.9", "root", 22);
    t.jump = Some("bastion".to_string());
    assert_eq!(build_ssh_args(&cfg, &t), vec!["-J", "admin@10.0.0.1:2222", "root@192.168.1.9"]);
    t.jump = Some("my-alias".to_string());
    assert_eq!(build_ssh_args(&cfg, &t), vec!["-J", "my-alias", "root@192.168.1.9"]);
}

#[test]
fn jump_resolves_first_of_duplicate_names() {
    let cfg = sample();
    assert_eq!(jump_target(&cfg, &"prod-db".to_string()).iter().collect::<String>(), "root@db.example.com");
}

#[test]
fn tilde_expansion_with_given_home() {
    let home = Some("/home/alice".to_string());
    assert_eq!(expand_tilde_with("~/.ssh/id_rsa", &home), "/home/alice/.ssh/id_rsa");
    assert_eq!(expand_tilde_with("~", &home), "/home/alice");
    assert_eq!(expand_tilde_with("~bob/x", &home), "~bob/x");
    assert_eq!(expand_tilde_with("/abs/key", &home), "/abs/key");
    assert_eq!(expand_tilde_with("~/k", &None), "~/k");
    assert_eq!(expand_tilde_with("~/", &home), "/home/alice/");
}

#[test]
fn key_with_home_in_args() {
    let cfg = sample();
    let mut t = entry("h", "h.lan", "me", 22);
    t.key = Some("~/.ssh/id_ed25519".to_string());
    let args = build_ssh_args_with_home(&cfg, &t, &Some("/home/me".to_string()));
    assert_eq!(args, vec!["-i", "/home/me/.ssh/id_ed25519", "me@h.lan"]);
}

#[test]
fn plain_path_not_expanded() {
    assert_eq!(expand_tilde("/etc/key"), "/etc/key");
    assert_eq!(expand_tilde("relative/key"), "relative/key");
}
