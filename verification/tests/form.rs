use ssh_menu::config::model::Host;
use ssh_menu::tui::form::{tags_from, FormState};

fn full_host() -> Host {
    Host {
        name: "prod-db".to_string(),
        host: "db.example.com".to_string(),
        user: "admin".to_string(),
        port: 2200,
        key: Some("~/.ssh/id".to_string()),
        group: Some("prod".to_string()),
        tags: vec!["mysql".to_string(), "linux".to_string()],
        jump: Some("bastion".to_string()),
        note: Some("primary".to_string()),
        extra: vec!["-v".to_string()],
        last_used: Some("2026-01-01T00:00:00Z".to_string()),
        use_count: 7,
    }
}

fn values(f: &FormState) -> Vec<String> {
    f.fields.iter().map(|(_, v)| v.clone()).collect()
}

#[test]
fn blank_form_fields() {
    let f = FormState::new(None);
    let labels: Vec<String> = f.fields.iter().map(|(l, _)| l.clone()).collect();
    assert_eq!(labels, vec!["name", "host", "user", "port", "key", "group", "tags", "jump", "note"]);
    assert_eq!(values(&f), vec!["", "", "root", "22", "", "", "", "", ""]);
    assert_eq!(f.cursor, 0);
    assert_eq!(f.editing_index, None);
    assert!(f.to_host().is_none());
}

#[test]
fn form_of_host_round_trips() {
    let h = full_host();
    let f = FormState::new(Some(&h));
    assert_eq!(values(&f), vec!["prod-db", "db.example.com", "admin", "2200", "~/.ssh/id", "prod", "mysql,linux", "bastion", "primary"]);
    let back = f.to_host().unwrap();
    assert_eq!(back.name, h.name);
    assert_eq!(back.host, h.host);
    assert_eq!(back.user, h.user);
    assert_eq!(back.port, h.port);
    assert_eq!(back.key, h.key);
    assert_eq!(back.group, h.group);
    assert_eq!(back.tags, h.tags);
    assert_eq!(back.jump, h.jump);
    assert_eq!(back.note, h.note);
    assert!(back.extra.is_empty());
    assert_eq!(back.last_used, None);
    assert_eq!(back.use_count, 0);
}

#[test]
fn form_defaults_and_cleanup() {
    let mut f = FormState::new(None);
    f.fields[0].1 = "n".to_string();
    f.fields[1].1 = "h".to_string();
    f.fields[2].1 = String::new();
    f.fields[3].1 = "abc".to_string();
    f.fields[6].1 = " a, ,b ,".to_string();
    let h = f.to_host().unwrap();
    assert_eq!(h.user, "root");
    assert_eq!(h.port, 22);
    assert_eq!(h.tags, vec!["a".to_string(), "b".to_string()]);
    assert_eq!(h.key, None);
    assert_eq!(h.group, None);
}

#[test]
fn form_requires_name_and_host() {
    let mut f = FormState::new(None);
    f.fields[0].1 = "n".to_string();
    assert!(f.to_host().is_none());
    f.fields[0].1 = String::new();
    f.fields[1].1 = "h".to_string();
    assert!(f.to_host().is_none());
}

#[test]
fn tags_split_and_trim() {
    let cs: Vec<char> = "x,, y ,z\u{3000}".chars().collect();
    assert_eq!(tags_from(&cs), vec!["x".to_string(), "y".to_string(), "z".to_string()]);
    assert!(tags_from(&[]).is_empty());
}
