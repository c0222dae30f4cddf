use ssh_menu::tui::sort::SortBy;
use ssh_menu::config::model::Host;
use ssh_menu::tui::app::Mode;
use ssh_menu::tui::form::FormState;
use ssh_menu::tui::view::{
    field_hint, footer_text, form_lines, group_palette_index, host_row, truncate, GROUP_COLORS,
};

#[test]
fn hints_by_label() {
    assert_eq!(field_hint("port"), "SSH 端口，默认 22");
    assert_eq!(field_hint("name"), "必填 · 显示别名（支持中文）");
    assert_eq!(field_hint("unknown"), "");
}

#[test]
fn truncate_counts_characters() {
    assert_eq!(truncate("abcdef", 4), "abc…");
    assert_eq!(truncate("abcd", 4), "abcd");
    assert_eq!(truncate("主机名称很长", 3), "主机…");
    assert_eq!(truncate("ab", 0), "…");
}

#[test]
fn palette_index_is_djb2() {
    let mut h: u32 = 5381;
    for b in "prod".as_bytes() {
        h = h.wrapping_mul(33).wrapping_add(*b as u32);
    }
    assert_eq!(group_palette_index("prod"), (h as usize) % GROUP_COLORS);
    assert_eq!(group_palette_index(""), 5381 % 9);
}

#[test]
fn sort_labels_cycle() {
    assert_eq!(SortBy::Name.label(), "name");
    assert_eq!(SortBy::Name.next(), SortBy::Group);
    assert_eq!(SortBy::Group.next().label(), "recent");
    assert_eq!(SortBy::MostUsed.label(), "most-used");
    assert_eq!(SortBy::MostUsed.next(), SortBy::Name);
    let mut s = SortBy::Recent;
    for _ in 0..4 {
        s = s.next();
    }
    assert_eq!(s, SortBy::Recent);
}

fn row_host() -> Host {
    Host {
        name: "a-very-long-host-name-here".to_string(),
        host: "10.0.0.1".to_string(),
        user: "root".to_string(),
        port: 2222,
        key: None,
        group: Some("production-eu".to_string()),
        tags: vec!["db".to_string(), "eu".to_string()],
        jump: Some("bastion".to_string()),
        note: None,
        extra: vec![],
        last_used: None,
        use_count: 7,
    }
}

#[test]
fn row_texts_of_a_full_host() {
    let r = host_row(0, &row_host());
    assert_eq!(r.number, "  1 ");
    assert_eq!(r.group, "productio…");
    assert_eq!(r.group_color, Some(group_palette_index("production-eu")));
    assert_eq!(r.name, format!("{:<18}", truncate("a-very-long-host-name-here", 18)));
    assert_eq!(r.name, "a-very-long-host-…");
    assert_eq!(r.port, ":2222");
    assert_eq!(r.jump, " ↪ bastion");
    assert_eq!(r.tags, "  #db #eu");
    assert_eq!(r.uses, "  ×7");
}

#[test]
fn row_texts_of_a_plain_host() {
    let mut h = row_host();
    h.name = "web".to_string();
    h.port = 22;
    h.group = None;
    h.tags = vec![];
    h.jump = None;
    h.use_count = 0;
    let r = host_row(12, &h);
    assert_eq!(r.number, "  · ");
    assert_eq!(r.group, "-         ");
    assert_eq!(r.group_color, None);
    assert_eq!(r.name, "web               ");
    assert_eq!(r.port, "");
    assert_eq!(r.jump, "");
    assert_eq!(r.tags, "");
    assert_eq!(r.uses, "");
}

#[test]
fn form_lines_of_a_blank_form() {
    let mut f = FormState::new(None);
    f.cursor = 1;
    let lines = form_lines(&f);
    assert_eq!(lines.len(), 9);
    // name: required, empty, away from the cursor
    assert!(!lines[0].active);
    assert!(lines[0].required);
    assert_eq!(lines[0].marker, "   ");
    assert_eq!(lines[0].label, "*name  ");
    assert!(lines[0].placeholder);
    assert_eq!(lines[0].value, "（空）");
    assert_eq!(lines[0].hint, "");
    // host: required, empty, under the cursor
    assert!(lines[1].active);
    assert_eq!(lines[1].marker, " ▶ ");
    assert_eq!(lines[1].label, "*host  ");
    assert!(!lines[1].placeholder);
    assert_eq!(lines[1].value, "");
    assert_eq!(lines[1].hint, field_hint("host"));
    // user: optional, filled
    assert!(!lines[2].required);
    assert_eq!(lines[2].label, " user  ");
    assert_eq!(lines[2].value, "root");
    assert!(!lines[2].placeholder);
    assert_eq!(lines[5].label, " group ");
}

#[test]
fn footer_texts_by_mode() {
    assert_eq!(footer_text(&Mode::Normal), None);
    assert_eq!(footer_text(&Mode::Help), Some(" 按任意键关闭帮助".to_string()));
    assert_eq!(
        footer_text(&Mode::Confirm("Delete 'web'? (y/N)".to_string(), 0)),
        Some(" ⚠  Delete 'web'? (y/N)".to_string())
    );
    assert_eq!(
        footer_text(&Mode::Search),
        Some(" 输入过滤 · Ctrl-U 清空 · ↑/↓ 移动 · Enter 若只剩 1 条则连接 · Esc 返回".to_string())
    );
    assert_eq!(
        footer_text(&Mode::Form(FormState::new(None))),
        Some(" Tab/↑/↓ 切字段 · Ctrl-U 清空字段 · Enter 或 Ctrl-S 保存 · Esc 取消".to_string())
    );
}
