use ssh_menu::ssh::ssh_candidates;

#[test]
fn unix_candidates_in_order() {
    assert_eq!(
        ssh_candidates(None, false, None),
        vec!["ssh", "/usr/bin/ssh", "/usr/local/bin/ssh", "/opt/homebrew/bin/ssh"]
    );
}

#[test]
fn override_comes_first_unless_empty() {
    let c = ssh_candidates(Some("/opt/ssh/bin/ssh".to_string()), false, None);
    assert_eq!(c[0], "/opt/ssh/bin/ssh");
    assert_eq!(c[1], "ssh");
    assert_eq!(c.len(), 5);
    let e = ssh_candidates(Some(String::new()), false, None);
    assert_eq!(e[0], "ssh");
    assert_eq!(e.len(), 4);
}

#[test]
fn windows_candidates_use_the_system_folder() {
    assert_eq!(
        ssh_candidates(None, true, Some("D:\\Win".to_string())),
        vec![
            "ssh",
            "D:\\Win\\System32\\OpenSSH\\ssh.exe",
            "C:\\Program Files\\Git\\usr\\bin\\ssh.exe",
            "C:\\Program Files (x86)\\Git\\usr\\bin\\ssh.exe",
        ]
    );
    let d = ssh_candidates(None, true, None);
    assert_eq!(d[1], "C:\\Windows\\System32\\OpenSSH\\ssh.exe");
}
