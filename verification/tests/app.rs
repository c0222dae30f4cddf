use ssh_menu::config::model::{Config, Host};
use ssh_menu::tui::app::{App, ExitAction, Mode};
use ssh_menu::tui::events::{handle_key, Effect, Key};
use ssh_menu::tui::sort::SortBy;

fn hst(name: &str, addr: &str, group: Option<&str>) -> Host {
    Host {
        name: name.to_string(),
        host: addr.to_string(),
        user: "root".to_string(),
        port: 22,
        key: None,
        group: group.map(|g| g.to_string()),
        tags: vec![],
        jump: None,
        note: None,
        extra: vec![],
        last_used: None,
        use_count: 0,
    }
}

fn sample_app() -> App {
    let cfg = Config {
        hosts: vec![
            hst("staging-web", "web.staging.lan", Some("staging")),
            hst("Prod-db", "db.example.com", Some("prod")),
            hst("cloud-vps", "vps.example.net", Some("cloud")),
            hst("bastion", "10.0.0.1", Some("prod")),
        ],
    };
    App::new(cfg, "/tmp/x.toml".to_string())
}

fn shown(app: &App) -> Vec<String> {
    app.filtered.iter().map(|&i| app.cfg.hosts[i].name.clone()).collect()
}

fn press(app: &mut App, k: Key) -> Effect {
    handle_key(app, k, false)
}

fn type_text(app: &mut App, s: &str) {
    for c in s.chars() {
        press(app, Key::Char(c));
    }
}

#[test]
fn new_app_sorted_by_lowercase_name() {
    let app = sample_app();
    assert_eq!(shown(&app), vec!["bastion", "cloud-vps", "Prod-db", "staging-web"]);
    assert_eq!(app.selected, Some(0));
    assert!(matches!(app.mode, Mode::Normal));
    assert_eq!(app.status, "按 ? 查看帮助 · Enter 连接 · a 添加 · / 搜索 · q 退出");
    assert!(app.show_details);
    assert_eq!(app.sort_by, SortBy::Name);
}

#[test]
fn empty_app_has_no_selection() {
    let app = App::new(Config { hosts: vec![] }, String::new());
    assert!(app.filtered.is_empty());
    assert_eq!(app.selected, None);
    assert!(app.selected_host().is_none());
}

#[test]
fn navigation_wraps() {
    let mut app = sample_app();
    press(&mut app, Key::Up);
    assert_eq!(app.selected, Some(3));
    press(&mut app, Key::Char('j'));
    assert_eq!(app.selected, Some(0));
    press(&mut app, Key::Char('G'));
    assert_eq!(app.selected, Some(3));
    press(&mut app, Key::Char('g'));
    assert_eq!(app.selected, Some(0));
    app.move_sel(-5);
    assert_eq!(app.selected, Some(3));
    app.move_sel(6);
    assert_eq!(app.selected, Some(1));
}

#[test]
fn search_filters_and_escape_clears() {
    let mut app = sample_app();
    press(&mut app, Key::Char('/'));
    assert!(matches!(app.mode, Mode::Search));
    type_text(&mut app, "PROD");
    assert_eq!(shown(&app), vec!["bastion", "Prod-db"]);
    assert_eq!(app.query, "PROD");
    press(&mut app, Key::Backspace);
    assert_eq!(app.query, "PRO");
    press(&mut app, Key::Esc);
    assert!(matches!(app.mode, Mode::Normal));
    assert_eq!(app.query, "");
    assert_eq!(shown(&app).len(), 4);
}

#[test]
fn search_without_match_empties_selection() {
    let mut app = sample_app();
    press(&mut app, Key::Char('/'));
    type_text(&mut app, "zzz");
    assert!(app.filtered.is_empty());
    assert_eq!(app.selected, None);
    press(&mut app, Key::Enter);
    assert!(matches!(app.mode, Mode::Normal));
    assert_eq!(app.query, "zzz");
}

#[test]
fn enter_connects_selected() {
    let mut app = sample_app();
    press(&mut app, Key::Down);
    assert_eq!(press(&mut app, Key::Enter), Effect::Nothing);
    match &app.exit {
        Some(ExitAction::Connect(h)) => assert_eq!(h.name, "cloud-vps"),
        _ => panic!("expected a connect"),
    }
}

#[test]
fn quit_keys() {
    let mut app = sample_app();
    press(&mut app, Key::Char('q'));
    assert!(matches!(app.exit, Some(ExitAction::Quit)));
    let mut app2 = sample_app();
    handle_key(&mut app2, Key::Char('c'), true);
    assert!(matches!(app2.exit, Some(ExitAction::Quit)));
    let mut app3 = sample_app();
    handle_key(&mut app3, Key::Char('c'), false);
    assert!(app3.exit.is_none());
}

#[test]
fn delete_needs_confirmation() {
    let mut app = sample_app();
    press(&mut app, Key::Char('D'));
    match &app.mode {
        Mode::Confirm(msg, idx) => {
            assert_eq!(msg, "Delete 'bastion'? (y/N)");
            assert_eq!(*idx, 3);
        }
        _ => panic!("expected a question"),
    }
    assert_eq!(press(&mut app, Key::Char('n')), Effect::Nothing);
    assert_eq!(app.cfg.hosts.len(), 4);
    press(&mut app, Key::Char('D'));
    assert_eq!(press(&mut app, Key::Char('Y')), Effect::Save);
    assert_eq!(app.cfg.hosts.len(), 3);
    assert_eq!(shown(&app), vec!["cloud-vps", "Prod-db", "staging-web"]);
    assert!(matches!(app.mode, Mode::Normal));
}

#[test]
fn add_host_through_form() {
    let mut app = sample_app();
    press(&mut app, Key::Char('a'));
    type_text(&mut app, "alpha");
    press(&mut app, Key::Tab);
    assert_eq!(press(&mut app, Key::Enter), Effect::Nothing);
    assert_eq!(app.status, "name and host are required");
    type_text(&mut app, "a.lan");
    press(&mut app, Key::Backspace);
    type_text(&mut app, "n");
    assert_eq!(handle_key(&mut app, Key::Char('s'), true), Effect::Save);
    assert!(matches!(app.mode, Mode::Normal));
    assert_eq!(app.cfg.hosts.len(), 5);
    assert_eq!(app.cfg.hosts[4].host, "a.lan");
    assert_eq!(shown(&app)[0], "alpha");
}

#[test]
fn edit_host_through_form() {
    let mut app = sample_app();
    press(&mut app, Key::Char('e'));
    match &app.mode {
        Mode::Form(f) => {
            assert_eq!(f.editing_index, Some(3));
            assert_eq!(f.fields[0].1, "bastion");
        }
        _ => panic!("expected a form"),
    }
    press(&mut app, Key::BackTab);
    press(&mut app, Key::Up);
    type_text(&mut app, "x");
    assert_eq!(press(&mut app, Key::Enter), Effect::Save);
    assert_eq!(app.cfg.hosts[3].jump.as_deref(), Some("x"));
    assert_eq!(app.cfg.hosts.len(), 4);
}

#[test]
fn form_escape_discards() {
    let mut app = sample_app();
    press(&mut app, Key::Char('a'));
    type_text(&mut app, "zz");
    press(&mut app, Key::Esc);
    assert!(matches!(app.mode, Mode::Normal));
    assert_eq!(app.cfg.hosts.len(), 4);
}

#[test]
fn help_closes_on_any_key() {
    let mut app = sample_app();
    app.mode = Mode::Help;
    press(&mut app, Key::Other);
    assert!(matches!(app.mode, Mode::Normal));
}

#[test]
fn sort_by_group_then_name() {
    let mut app = sample_app();
    app.toggle_sort();
    assert_eq!(app.sort_by, SortBy::Group);
    assert_eq!(app.status, "✓ sort: group");
    assert_eq!(shown(&app), vec!["cloud-vps", "Prod-db", "bastion", "staging-web"]);
}

#[test]
fn sort_recent_and_most_used() {
    let mut app = sample_app();
    app.cfg.hosts[0].use_count = 5;
    app.cfg.hosts[2].use_count = 9;
    app.cfg.hosts[1].last_used = Some("2026-01-02T00:00:00Z".to_string());
    app.cfg.hosts[3].last_used = Some("2026-01-01T00:00:00Z".to_string());
    app.toggle_sort();
    app.toggle_sort();
    assert_eq!(app.sort_by, SortBy::Recent);
    assert_eq!(shown(&app), vec!["Prod-db", "bastion", "staging-web", "cloud-vps"]);
    app.toggle_sort();
    assert_eq!(shown(&app), vec!["cloud-vps", "staging-web", "Prod-db", "bastion"]);
}

#[test]
fn details_toggle_reports() {
    let mut app = sample_app();
    app.toggle_details();
    assert!(!app.show_details);
    assert_eq!(app.status, "✓ details panel: off");
    app.toggle_details();
    assert_eq!(app.status, "✓ details panel: on");
}

#[test]
fn jump_to_letter_wraps_and_reports() {
    let mut app = sample_app();
    app.jump_to_letter('P');
    assert_eq!(app.selected, Some(2));
    assert_eq!(app.status, "→ jumped to 'Prod-db'");
    app.jump_to_letter('b');
    assert_eq!(app.selected, Some(0));
    app.jump_to_letter('b');
    assert_eq!(app.selected, Some(0));
    app.jump_to_letter('x');
    assert_eq!(app.selected, Some(0));
    assert_eq!(app.status, "no host starting with 'x'");
}

#[test]
fn save_outcome_in_status() {
    let mut app = sample_app();
    app.record_save(Ok(()));
    assert_eq!(app.status, "✓ saved to /tmp/x.toml");
    app.record_save(Err("disk full".to_string()));
    assert_eq!(app.status, "✗ save failed: disk full");
}

#[test]
fn selected_host_and_index() {
    let mut app = sample_app();
    app.move_sel(2);
    assert_eq!(app.selected_index(), Some(1));
    assert_eq!(app.selected_host().map(|h| h.name.clone()), Some("Prod-db".to_string()));
}

#[test]
fn lowercase_d_is_a_letter_jump_not_a_delete() {
    let mut app = sample_app();
    press(&mut app, Key::Char('d'));
    assert!(matches!(app.mode, Mode::Normal));
    assert_eq!(app.cfg.hosts.len(), 4);
    assert_eq!(app.status, "no host starting with 'd'");
}

#[test]
fn page_home_end_and_digit_keys() {
    let mut app = sample_app();
    press(&mut app, Key::PageDown);
    assert_eq!(app.selected, Some(2));
    press(&mut app, Key::PageUp);
    assert_eq!(app.selected, Some(0));
    press(&mut app, Key::End);
    assert_eq!(app.selected, Some(3));
    press(&mut app, Key::Home);
    assert_eq!(app.selected, Some(0));
    press(&mut app, Key::Char('3'));
    assert_eq!(app.selected, Some(2));
    press(&mut app, Key::Char('9'));
    assert_eq!(app.selected, Some(2));
    press(&mut app, Key::Char('1'));
    assert_eq!(app.selected, Some(0));
}

#[test]
fn letter_keys_jump_case_insensitively() {
    let mut app = sample_app();
    press(&mut app, Key::Char('p'));
    assert_eq!(app.selected, Some(2));
    assert_eq!(app.status, "→ jumped to 'Prod-db'");
    press(&mut app, Key::Char('B'));
    assert_eq!(app.selected, Some(0));
}

#[test]
fn view_keys_sort_details_help_refresh() {
    let mut app = sample_app();
    press(&mut app, Key::Char('s'));
    assert_eq!(app.sort_by, SortBy::Group);
    assert_eq!(app.status, "✓ sort: group");
    assert_eq!(shown(&app), vec!["cloud-vps", "Prod-db", "bastion", "staging-web"]);
    press(&mut app, Key::Char('i'));
    assert!(!app.show_details);
    assert_eq!(app.status, "✓ details panel: off");
    press(&mut app, Key::Down);
    press(&mut app, Key::Char('r'));
    assert_eq!(shown(&app), vec!["cloud-vps", "Prod-db", "bastion", "staging-web"]);
    assert_eq!(app.selected, Some(1));
    press(&mut app, Key::Char('?'));
    assert!(matches!(app.mode, Mode::Help));
    press(&mut app, Key::Char('q'));
    assert!(matches!(app.mode, Mode::Normal));
    assert!(app.exit.is_none());
}

#[test]
fn y_shows_the_ssh_command() {
    let mut app = sample_app();
    app.cfg.hosts[3].port = 2222;
    press(&mut app, Key::Char('y'));
    assert_eq!(app.status, "$ ssh -p 2222 root@10.0.0.1");
    let mut empty = App::new(Config { hosts: vec![] }, String::new());
    let before = empty.status.clone();
    press(&mut empty, Key::Char('y'));
    assert_eq!(empty.status, before);
}

#[test]
fn search_ctrl_u_and_single_match_enter() {
    let mut app = sample_app();
    press(&mut app, Key::Char('/'));
    type_text(&mut app, "prod");
    assert_eq!(shown(&app).len(), 2);
    handle_key(&mut app, Key::Char('u'), true);
    assert_eq!(app.query, "");
    assert!(matches!(app.mode, Mode::Search));
    assert_eq!(shown(&app).len(), 4);
    type_text(&mut app, "cloud");
    assert_eq!(shown(&app), vec!["cloud-vps"]);
    press(&mut app, Key::Enter);
    assert!(matches!(app.mode, Mode::Normal));
    match &app.exit {
        Some(ExitAction::Connect(h)) => assert_eq!(h.name, "cloud-vps"),
        _ => panic!("expected a connect"),
    }
}

#[test]
fn search_enter_with_several_matches_only_leaves() {
    let mut app = sample_app();
    press(&mut app, Key::Char('/'));
    type_text(&mut app, "prod");
    press(&mut app, Key::Enter);
    assert!(matches!(app.mode, Mode::Normal));
    assert!(app.exit.is_none());
    assert_eq!(app.query, "prod");
}

#[test]
fn form_ctrl_u_clears_the_field() {
    let mut app = sample_app();
    press(&mut app, Key::Char('a'));
    type_text(&mut app, "abc");
    handle_key(&mut app, Key::Char('u'), true);
    match &app.mode {
        Mode::Form(f) => {
            assert_eq!(f.fields[0].1, "");
            assert_eq!(f.cursor, 0);
        }
        _ => panic!("expected a form"),
    }
}

#[test]
fn editing_keeps_usage_record() {
    let mut app = sample_app();
    app.cfg.hosts[3].use_count = 4;
    app.cfg.hosts[3].last_used = Some("2026-01-01T00:00:00Z".to_string());
    app.cfg.hosts[3].extra = vec!["-A".to_string()];
    press(&mut app, Key::Char('e'));
    type_text(&mut app, "2");
    assert_eq!(press(&mut app, Key::Enter), Effect::Save);
    assert_eq!(app.cfg.hosts[3].name, "bastion2");
    assert_eq!(app.cfg.hosts[3].use_count, 4);
    assert_eq!(app.cfg.hosts[3].last_used.as_deref(), Some("2026-01-01T00:00:00Z"));
    assert!(app.cfg.hosts[3].extra.is_empty());
}

#[test]
fn type_then_erase_restores_list() {
    let mut app = sample_app();
    press(&mut app, Key::Char('/'));
    type_text(&mut app, "pro");
    let before = shown(&app);
    press(&mut app, Key::Char('x'));
    assert!(app.filtered.is_empty());
    press(&mut app, Key::Backspace);
    assert_eq!(app.query, "pro");
    assert_eq!(shown(&app), before);
    assert!(matches!(app.mode, Mode::Search));
}
