//! Key handling of the host list: one key press takes the application from
//! one state to the next and may ask the program to save the configuration.
use vstd::prelude::*;
use crate::config::model::{copy_opt, HostView};
use crate::ssh::connect::{build_ssh_args, key_uses_home, ssh_args};
use crate::text::{
    append_chars, chars_of, digit_value, join, join_strings, pop_char, push_char, text_of, texts,
};
use crate::tui::app::{
    app_ok, details_status, letter_jump, reselect, row_or_zero, selected_pos, sort_status, App,
    AppView, ExitAction, ExitView, Mode, ModeView,
};
use crate::tui::form::{blank_host, field_values, form_fields, form_host, FormState, FormView};
use crate::tui::sort::{filtered_ok, next_sort};

verus! {

/// A key press, as far as the list tells keys apart.
#[derive(Clone, Copy, Debug, PartialEq, Eq, Structural)]
pub enum Key {
    Char(char),
    Esc,
    Enter,
    Up,
    Down,
    PageUp,
    PageDown,
    Home,
    End,
    Tab,
    BackTab,
    Backspace,
    /// Any other key.
    Other,
}

/// What the program must do after a key.
#[derive(Clone, Copy, Debug, PartialEq, Eq, Structural)]
pub enum Effect {
    Nothing,
    /// Write the configuration back to its file, then report with
    /// [`App::record_save`].
    Save,
}

// ---------------------------------------------------------------------------
// The transition relation
// ---------------------------------------------------------------------------

/// `w` is `v` with its list rebuilt (see [`App::refilter`]).
pub open spec fn rebuilt(v: AppView, w: AppView) -> bool {
    &&& filtered_ok(v.hosts, v.query, v.sort_by, w.filtered)
    &&& w == AppView {
        filtered: w.filtered,
        selected: reselect(v.selected, w.filtered.len()),
        ..v
    }
}

/// Leaving without connecting.
pub open spec fn quit(v: AppView) -> AppView {
    AppView { exit: Some(ExitView::Quit), ..v }
}

/// The selection moved by `delta` rows, wrapping; unchanged on an empty list.
pub open spec fn moved(v: AppView, delta: int) -> AppView {
    if v.filtered.len() == 0 {
        v
    } else {
        AppView {
            selected: Some(
                ((row_or_zero(v.selected) + delta) % (v.filtered.len() as int)) as usize,
            ),
            ..v
        }
    }
}

/// The question asked before deleting a host.
pub open spec fn delete_question(name: Seq<char>) -> Seq<char> {
    "Delete '"@ + name + "'? (y/N)"@
}

/// The status when a form lacks its name or host.
pub open spec fn required_status() -> Seq<char> {
    "name and host are required"@
}

/// A form opened on `h`.
pub open spec fn form_for(h: HostView, idx: Option<usize>) -> FormView {
    FormView { editing_index: idx, fields: form_fields(h), cursor: 0 }
}

/// `c` is an ASCII letter.
pub open spec fn is_letter(c: char) -> bool {
    ('a' <= c && c <= 'z') || ('A' <= c && c <= 'Z')
}

/// `c` is one of `1`–`9`.
pub open spec fn is_row_digit(c: char) -> bool {
    '1' <= c && c <= '9'
}

/// Row `n` (counting from 1) selected, when the list has that many rows.
pub open spec fn row_picked(v: AppView, n: int) -> AppView {
    if 1 <= n <= v.filtered.len() {
        AppView { selected: Some((n - 1) as usize), ..v }
    } else {
        v
    }
}

/// The status showing an `ssh` command line.
pub open spec fn command_status(args: Seq<Seq<char>>) -> Seq<char> {
    "$ ssh "@ + join(args, seq![' '])
}

/// `w` is `v` with the status showing the `ssh` command of the selected host
/// (see [`crate::ssh::build_ssh_args`]); nothing changes without one.
pub open spec fn command_shown(v: AppView, w: AppView) -> bool {
    match selected_pos(v) {
        Some(i) => {
            &&& exists|home: Option<Seq<char>>|
                w == AppView { status: command_status(#[trigger] ssh_args(v.hosts, v.hosts[i], home)), ..v }
            &&& !key_uses_home(v.hosts[i]) ==> w == AppView {
                status: command_status(ssh_args(v.hosts, v.hosts[i], None)),
                ..v
            }
        },
        None => w == v,
    }
}

/// Keys in the list.
pub open spec fn normal_step(v: AppView, key: Key, ctrl: bool, w: AppView, eff: Effect) -> bool {
    let len = v.filtered.len();
    &&& eff == Effect::Nothing
    &&& if key == Key::Char('q') || key == Key::Esc || (key == Key::Char('c') && ctrl) {
        w == quit(v)
    } else if key == Key::Down || key == Key::Char('j') {
        w == moved(v, 1)
    } else if key == Key::Up || key == Key::Char('k') {
        w == moved(v, -1)
    } else if key == Key::PageDown {
        w == moved(v, 10)
    } else if key == Key::PageUp {
        w == moved(v, -10)
    } else if key == Key::Char('g') || key == Key::Home {
        w == if len > 0 {
            AppView { selected: Some(0usize), ..v }
        } else {
            v
        }
    } else if key == Key::Char('G') || key == Key::End {
        w == if len > 0 {
            AppView { selected: Some((len - 1) as usize), ..v }
        } else {
            v
        }
    } else if key == Key::Enter {
        w == match selected_pos(v) {
            Some(i) => AppView { exit: Some(ExitView::Connect(v.hosts[i])), ..v },
            None => v,
        }
    } else if key == Key::Char('/') {
        rebuilt(AppView { query: Seq::empty(), mode: ModeView::Search, ..v }, w)
    } else if key == Key::Char('a') {
        w == AppView { mode: ModeView::Form(form_for(blank_host(), None)), ..v }
    } else if key == Key::Char('e') {
        w == match selected_pos(v) {
            Some(i) => AppView { mode: ModeView::Form(form_for(v.hosts[i], Some(i as usize))), ..v },
            None => v,
        }
    } else if key == Key::Char('D') {
        w == match selected_pos(v) {
            Some(i) => AppView {
                mode: ModeView::Confirm(delete_question(v.hosts[i].name), i as usize),
                ..v
            },
            None => v,
        }
    } else if key == Key::Char('y') {
        command_shown(v, w)
    } else if key == Key::Char('s') {
        rebuilt(
            AppView { sort_by: next_sort(v.sort_by), status: sort_status(next_sort(v.sort_by)), ..v },
            w,
        )
    } else if key == Key::Char('i') {
        w == AppView {
            show_details: !v.show_details,
            status: details_status(!v.show_details),
            ..v
        }
    } else if key == Key::Char('r') {
        rebuilt(v, w)
    } else if key == Key::Char('?') {
        w == AppView { mode: ModeView::Help, ..v }
    } else {
        match key {
            Key::Char(c) => if is_row_digit(c) {
                w == row_picked(v, digit_value(c) as int)
            } else if is_letter(c) {
                w == letter_jump(v, c)
            } else {
                w == v
            },
            _ => w == v,
        }
    }
}

/// Keys while typing a search query.
pub open spec fn search_step(v: AppView, key: Key, ctrl: bool, w: AppView, eff: Effect) -> bool {
    &&& eff == Effect::Nothing
    &&& if key == Key::Char('u') && ctrl {
        rebuilt(AppView { query: Seq::empty(), ..v }, w)
    } else {
        match key {
            Key::Esc => rebuilt(AppView { query: Seq::empty(), mode: ModeView::Normal, ..v }, w),
            Key::Enter => w == if v.filtered.len() == 1 && v.filtered[0] < v.hosts.len() {
                AppView {
                    mode: ModeView::Normal,
                    exit: Some(ExitView::Connect(v.hosts[v.filtered[0] as int])),
                    ..v
                }
            } else {
                AppView { mode: ModeView::Normal, ..v }
            },
            Key::Backspace => rebuilt(
                AppView {
                    query: if v.query.len() > 0 {
                        v.query.drop_last()
                    } else {
                        v.query
                    },
                    ..v
                },
                w,
            ),
            Key::Char(c) => rebuilt(AppView { query: v.query.push(c), ..v }, w),
            Key::Down => w == moved(v, 1),
            Key::Up => w == moved(v, -1),
            _ => w == v,
        }
    }
}

/// The form with the value of the field under the cursor replaced.
pub open spec fn with_value(f: FormView, val: Seq<char>) -> FormView {
    FormView { fields: f.fields.update(f.cursor as int, (f.fields[f.cursor as int].0, val)), ..f }
}

/// `h` with the usage record (last use and count) of `old`.
pub open spec fn kept_usage(h: HostView, old: HostView) -> HostView {
    HostView { last_used: old.last_used, use_count: old.use_count, ..h }
}

/// Saving a form: the host it describes replaces the edited host (keeping
/// its usage record) or is appended, the list is rebuilt and the
/// configuration must be saved; a form without name or host only sets the
/// status.
pub open spec fn save_step(v: AppView, f: FormView, w: AppView, eff: Effect) -> bool {
    match form_host(field_values(f.fields)) {
        Some(h) => {
            &&& eff == Effect::Save
            &&& rebuilt(
                AppView {
                    hosts: match f.editing_index {
                        Some(i) => v.hosts.update(i as int, kept_usage(h, v.hosts[i as int])),
                        None => v.hosts.push(h),
                    },
                    mode: ModeView::Normal,
                    ..v
                },
                w,
            )
        },
        None => eff == Effect::Nothing && w == AppView { status: required_status(), ..v },
    }
}

/// Keys in the host form `f`.
pub open spec fn form_step(v: AppView, f: FormView, key: Key, ctrl: bool, w: AppView, eff: Effect) -> bool {
    let val = f.fields[f.cursor as int].1;
    let n = f.fields.len() as int;
    if key == Key::Enter || (key == Key::Char('s') && ctrl) {
        save_step(v, f, w, eff)
    } else if key == Key::Char('u') && ctrl {
        eff == Effect::Nothing && w == AppView {
            mode: ModeView::Form(with_value(f, Seq::empty())),
            ..v
        }
    } else {
        &&& eff == Effect::Nothing
        &&& match key {
            Key::Esc => w == AppView { mode: ModeView::Normal, ..v },
            Key::Tab | Key::Down => w == AppView {
                mode: ModeView::Form(FormView { cursor: ((f.cursor + 1) % n) as usize, ..f }),
                ..v
            },
            Key::BackTab | Key::Up => w == AppView {
                mode: ModeView::Form(
                    FormView {
                        cursor: if f.cursor == 0 {
                            (n - 1) as usize
                        } else {
                            (f.cursor - 1) as usize
                        },
                        ..f
                    },
                ),
                ..v
            },
            Key::Backspace => w == AppView {
                mode: ModeView::Form(
                    with_value(
                        f,
                        if val.len() > 0 {
                            val.drop_last()
                        } else {
                            val
                        },
                    ),
                ),
                ..v
            },
            Key::Char(c) => w == AppView { mode: ModeView::Form(with_value(f, val.push(c))), ..v },
            _ => w == v,
        }
    }
}

/// Keys while asked whether to delete the saved host at `idx`: `y` or `Y`
/// deletes it and asks to save; any key leaves the question.
pub open spec fn confirm_step(v: AppView, idx: usize, key: Key, w: AppView, eff: Effect) -> bool {
    if key == Key::Char('y') || key == Key::Char('Y') {
        &&& eff == Effect::Save
        &&& rebuilt(AppView { hosts: v.hosts.remove(idx as int), mode: ModeView::Normal, ..v }, w)
    } else {
        eff == Effect::Nothing && w == AppView { mode: ModeView::Normal, ..v }
    }
}

/// One key press: the state `v` becomes `w` and the program must do `eff`.
/// The key reference closes on any key.
pub open spec fn key_step(v: AppView, key: Key, ctrl: bool, w: AppView, eff: Effect) -> bool {
    match v.mode {
        ModeView::Normal => normal_step(v, key, ctrl, w, eff),
        ModeView::Search => search_step(v, key, ctrl, w, eff),
        ModeView::Form(f) => form_step(v, f, key, ctrl, w, eff),
        ModeView::Confirm(_, idx) => confirm_step(v, idx, key, w, eff),
        ModeView::Help => eff == Effect::Nothing && w == AppView { mode: ModeView::Normal, ..v },
    }
}

// ---------------------------------------------------------------------------
// Handlers
// ---------------------------------------------------------------------------

/// Handles one key press (see [`key_step`]); the state invariant is kept.
pub fn handle_key(app: &mut App, key: Key, ctrl: bool) -> (eff: Effect)
    requires
        old(app).wf(),
        old(app)@.filtered.len() + 10 <= i32::MAX,
    ensures
        final(app).wf(),
        key_step(old(app)@, key, ctrl, final(app)@, eff),
{
    let mut mode = Mode::Normal;
    std::mem::swap(&mut mode, &mut app.mode);
    match mode {
        Mode::Normal => handle_normal(app, key, ctrl),
        Mode::Search => handle_search(app, key, ctrl),
        Mode::Form(fs) => handle_form(app, fs, key, ctrl),
        Mode::Confirm(msg, idx) => handle_confirm(app, msg, idx, key),
        Mode::Help => Effect::Nothing,
    }
}

/// The list with its mode set back to `m`.
pub open spec fn with_mode(v: AppView, m: ModeView) -> AppView {
    AppView { mode: m, ..v }
}

/// Keys in the list (the mode has been taken out and stands at Normal).
fn handle_normal(app: &mut App, key: Key, ctrl: bool) -> (eff: Effect)
    requires
        old(app)@.mode == ModeView::Normal,
        app_ok(old(app)@),
        old(app)@.filtered.len() + 10 <= i32::MAX,
    ensures
        final(app).wf(),
        normal_step(old(app)@, key, ctrl, final(app)@, eff),
{
    let quit = match key {
        Key::Char('q') | Key::Esc => true,
        Key::Char('c') => ctrl,
        _ => false,
    };
    if quit {
        app.exit = Some(ExitAction::Quit);
        return Effect::Nothing;
    }
    match key {
        Key::Down | Key::Char('j') => {
            app.move_sel(1);
        },
        Key::Up | Key::Char('k') => {
            app.move_sel(-1);
        },
        Key::PageDown => {
            app.move_sel(10);
        },
        Key::PageUp => {
            app.move_sel(-10);
        },
        Key::Char('g') | Key::Home => {
            if app.filtered.len() != 0 {
                app.selected = Some(0);
            }
        },
        Key::Char('G') | Key::End => {
            if app.filtered.len() != 0 {
                app.selected = Some(app.filtered.len() - 1);
            }
        },
        Key::Enter => {
            match app.selected_host() {
                Some(h) => {
                    let c = h.duplicate();
                    app.exit = Some(ExitAction::Connect(c));
                },
                None => {},
            }
        },
        Key::Char('/') => {
            app.query = String::new();
            app.mode = Mode::Search;
            app.refilter();
        },
        Key::Char('a') => {
            app.mode = Mode::Form(FormState::new(None));
        },
        Key::Char('e') => {
            let idx = app.selected_index();
            match app.selected_host() {
                Some(h) => {
                    let mut f = FormState::new(Some(h));
                    f.editing_index = idx;
                    app.mode = Mode::Form(f);
                },
                None => {},
            }
        },
        Key::Char('D') => {
            let idx = app.selected_index();
            match app.selected_host() {
                Some(h) => {
                    let mut q = String::from_str("Delete '");
                    q.append(h.name.as_str());
                    q.append("'? (y/N)");
                    let i = idx.unwrap();
                    app.mode = Mode::Confirm(q, i);
                },
                None => {},
            }
        },
        Key::Char('y') => {
            show_command(app);
        },
        Key::Char('s') => {
            app.toggle_sort();
        },
        Key::Char('i') => {
            app.toggle_details();
        },
        Key::Char('r') => {
            app.refilter();
        },
        Key::Char('?') => {
            app.mode = Mode::Help;
        },
        Key::Char(c) => {
            if '1' <= c && c <= '9' {
                let n = ((c as u32) - 48) as usize;
                if n <= app.filtered.len() {
                    app.selected = Some(n - 1);
                }
            } else if ('a' <= c && c <= 'z') || ('A' <= c && c <= 'Z') {
                app.jump_to_letter(c);
            }
        },
        _ => {},
    }
    Effect::Nothing
}

/// Shows the `ssh` command of the selected host in the status line.
fn show_command(app: &mut App)
    requires
        app_ok(old(app)@),
    ensures
        command_shown(old(app)@, final(app)@),
{
    match app.selected_host() {
        Some(h) => {
            let args = build_ssh_args(&app.cfg, h);
            let ghost home = choose|home: Option<Seq<char>>|
                texts(args@) == ssh_args(old(app)@.hosts, h@, home);
            let sep = vec![' '];
            let joined = join_strings(&args, &sep);
            let mut line = chars_of("$ ssh ");
            append_chars(&mut line, &joined);
            app.status = text_of(&line);
            proof {
                reveal_strlit("$ ssh ");
                assert(sep@ == seq![' ']);
                assert(app@ == AppView {
                    status: command_status(ssh_args(old(app)@.hosts, h@, home)),
                    ..old(app)@
                });
            }
        },
        None => {},
    }
}

/// Keys while typing a search query (the mode has been taken out).
fn handle_search(app: &mut App, key: Key, ctrl: bool) -> (eff: Effect)
    requires
        old(app)@.mode == ModeView::Normal,
        app_ok(with_mode(old(app)@, ModeView::Search)),
        old(app)@.filtered.len() + 10 <= i32::MAX,
    ensures
        final(app).wf(),
        search_step(with_mode(old(app)@, ModeView::Search), key, ctrl, final(app)@, eff),
{
    if key == Key::Char('u') && ctrl {
        app.query = String::new();
        app.mode = Mode::Search;
        app.refilter();
        return Effect::Nothing;
    }
    match key {
        Key::Esc => {
            app.query = String::new();
            app.refilter();
        },
        Key::Enter => {
            if app.filtered.len() == 1 {
                let idx = app.filtered[0];
                let c = app.cfg.hosts[idx].duplicate();
                app.exit = Some(ExitAction::Connect(c));
            }
        },
        Key::Backspace => {
            let _ = pop_char(&mut app.query);
            app.mode = Mode::Search;
            app.refilter();
        },
        Key::Char(c) => {
            push_char(&mut app.query, c);
            app.mode = Mode::Search;
            app.refilter();
        },
        Key::Down => {
            app.mode = Mode::Search;
            app.move_sel(1);
        },
        Key::Up => {
            app.mode = Mode::Search;
            app.move_sel(-1);
        },
        _ => {
            app.mode = Mode::Search;
        },
    }
    Effect::Nothing
}

/// Replaces the value of field `k`.
fn set_value(f: &mut FormState, k: usize, val: String)
    requires
        k < old(f).fields@.len(),
    ensures
        final(f)@ == (FormView {
            fields: old(f)@.fields.update(k as int, (old(f)@.fields[k as int].0, val@)),
            ..old(f)@
        }),
{
    let (label, _old) = f.fields.remove(k);
    f.fields.insert(k, (label, val));
    assert(f@.fields =~= old(f)@.fields.update(k as int, (old(f)@.fields[k as int].0, val@)));
}

/// Keys in the host form (the mode has been taken out).
fn handle_form(app: &mut App, fs: FormState, key: Key, ctrl: bool) -> (eff: Effect)
    requires
        old(app)@.mode == ModeView::Normal,
        app_ok(with_mode(old(app)@, ModeView::Form(fs@))),
    ensures
        final(app).wf(),
        form_step(with_mode(old(app)@, ModeView::Form(fs@)), fs@, key, ctrl, final(app)@, eff),
{
    let mut fs = fs;
    let n = fs.fields.len();
    let save = match key {
        Key::Enter => true,
        Key::Char('s') => ctrl,
        _ => false,
    };
    if save {
        return save_form(app, fs);
    }
    if key == Key::Char('u') && ctrl {
        let k = fs.cursor;
        set_value(&mut fs, k, String::new());
        app.mode = Mode::Form(fs);
        return Effect::Nothing;
    }
    match key {
        Key::Esc => {
            return Effect::Nothing;
        },
        Key::Tab | Key::Down => {
            fs.cursor = (fs.cursor + 1) % n;
        },
        Key::BackTab | Key::Up => {
            fs.cursor = if fs.cursor == 0 {
                n - 1
            } else {
                fs.cursor - 1
            };
        },
        Key::Backspace => {
            let k = fs.cursor;
            let mut v = fs.fields[k].1.clone();
            let _ = pop_char(&mut v);
            set_value(&mut fs, k, v);
        },
        Key::Char(c) => {
            let k = fs.cursor;
            let mut v = fs.fields[k].1.clone();
            push_char(&mut v, c);
            set_value(&mut fs, k, v);
        },
        _ => {},
    }
    app.mode = Mode::Form(fs);
    Effect::Nothing
}

/// Saves the form into the hosts (see [`save_step`]).
fn save_form(app: &mut App, fs: FormState) -> (eff: Effect)
    requires
        old(app)@.mode == ModeView::Normal,
        app_ok(with_mode(old(app)@, ModeView::Form(fs@))),
    ensures
        final(app).wf(),
        save_step(with_mode(old(app)@, ModeView::Form(fs@)), fs@, final(app)@, eff),
{
    let ghost before = old(app).cfg.hosts@;
    match fs.to_host() {
        Some(h) => {
            let ghost hv = h@;
            match fs.editing_index {
                Some(i) => {
                    let mut h = h;
                    h.last_used = copy_opt(&app.cfg.hosts[i].last_used);
                    h.use_count = app.cfg.hosts[i].use_count;
                    let ghost kv = h@;
                    assert(kv == kept_usage(hv, before[i as int]@));
                    app.cfg.hosts.set(i, h);
                    assert(app.cfg@ =~= crate::config::model::hosts_view(before).update(i as int, kv));
                },
                None => {
                    app.cfg.hosts.push(h);
                    assert(app.cfg@ =~= crate::config::model::hosts_view(before).push(hv));
                },
            }
            app.refilter();
            Effect::Save
        },
        None => {
            app.status = String::from_str("name and host are required");
            app.mode = Mode::Form(fs);
            Effect::Nothing
        },
    }
}

/// Answers the delete question (the mode has been taken out).
fn handle_confirm(app: &mut App, msg: String, idx: usize, key: Key) -> (eff: Effect)
    requires
        old(app)@.mode == ModeView::Normal,
        app_ok(with_mode(old(app)@, ModeView::Confirm(msg@, idx))),
    ensures
        final(app).wf(),
        confirm_step(with_mode(old(app)@, ModeView::Confirm(msg@, idx)), idx, key, final(app)@, eff),
{
    match key {
        Key::Char('y') | Key::Char('Y') => {
            let ghost before = app.cfg.hosts@;
            let _removed = app.cfg.hosts.remove(idx);
            proof {
                before.remove_ensures(idx as int);
                assert(app.cfg@ =~= crate::config::model::hosts_view(before).remove(idx as int));
            }
            app.refilter();
            Effect::Save
        },
        _ => Effect::Nothing,
    }
}

} // verus!

verus! {

// ---------------------------------------------------------------------------
// Laws of key handling
// ---------------------------------------------------------------------------

/// Moving the selection by `d` rows and then back by `d` rows comes back to
/// the same row (down then up, PageDown then PageUp).
pub proof fn law_move_back(v: AppView, d: int)
    requires
        0 < v.filtered.len() <= usize::MAX,
        crate::tui::app::selection_ok(v.selected, v.filtered.len()),
    ensures
        moved(moved(v, d), -d) == v,
{
    let len = v.filtered.len() as int;
    let r = row_or_zero(v.selected);
    let x = (r + d) % len;
    vstd::arithmetic::div_mod::lemma_mod_bound(r + d, len);
    let w = moved(v, d);
    assert(row_or_zero(w.selected) == x);
    vstd::arithmetic::div_mod::lemma_add_mod_noop(r + d, -d, len);
    vstd::arithmetic::div_mod::lemma_add_mod_noop(x, -d, len);
    vstd::arithmetic::div_mod::lemma_mod_twice(r + d, len);
    vstd::arithmetic::div_mod::lemma_small_mod(r as nat, len as nat);
    assert((x - d) % len == r);
    assert(moved(w, -d).selected == v.selected);
}

/// Saving a form that edits a saved host keeps that host's usage record
/// (when it was last used and how often).
pub proof fn law_edit_keeps_usage(v: AppView, f: FormView, w: AppView, eff: Effect, i: usize)
    requires
        save_step(v, f, w, eff),
        f.editing_index == Some(i),
        i < v.hosts.len(),
        form_host(field_values(f.fields)) is Some,
    ensures
        eff == Effect::Save,
        w.hosts[i as int].last_used == v.hosts[i as int].last_used,
        w.hosts[i as int].use_count == v.hosts[i as int].use_count,
{
}

/// A letter jump that moves the selection lands on a host whose name
/// starts with that letter, ASCII case-insensitively.
pub proof fn law_letter_jump_lands(v: AppView, c: char)
    requires
        app_ok(v),
        v.filtered.len() <= usize::MAX,
        letter_jump(v, c).selected != v.selected,
    ensures
        crate::tui::app::selected_pos(letter_jump(v, c)) matches Some(i) && {
            let name = v.hosts[i].name;
            name.len() > 0 && crate::text::ascii_lower(name[0]) == crate::text::ascii_lower(c)
        },
{
    let lc = crate::text::ascii_lower(c);
    assert(exists|s: int| crate::tui::app::letter_hit(v, lc, s));
    let s = crate::tui::app::first_letter_hit(v, lc);
    let hit = choose|t: int| crate::tui::app::letter_hit(v, lc, t);
    assert(exists|t: int|
        crate::tui::app::letter_hit(v, lc, t) && forall|u: int| 1 <= u < t ==> !crate::tui::app::letter_hit(v, lc, u)) by {
        crate::tui::app::lemma_first_hit_exists(v, lc, hit);
    }
    assert(crate::tui::app::letter_hit(v, lc, s));
    let len = v.filtered.len() as int;
    let row = (row_or_zero(v.selected) + s) % len;
    vstd::arithmetic::div_mod::lemma_mod_bound(row_or_zero(v.selected) + s, len);
    assert(crate::tui::app::selected_pos(letter_jump(v, c)) == Some(v.filtered[row] as int));
}

/// Typing a character in the search box and erasing it gives back the same
/// query and the same shown list.
pub proof fn law_type_then_erase(v: AppView, c: char, w1: AppView, e1: Effect, w2: AppView, e2: Effect)
    requires
        app_ok(v),
        v.mode == ModeView::Search,
        search_step(v, Key::Char(c), false, w1, e1),
        search_step(w1, Key::Backspace, false, w2, e2),
    ensures
        w2.query == v.query,
        w2.filtered == v.filtered,
        w2.hosts == v.hosts,
        w2.mode == ModeView::Search,
{
    assert(w1.query == v.query.push(c));
    assert(w1.query.drop_last() == v.query);
    crate::tui::sort::law_filtered_unique(v.hosts, v.query, v.sort_by, w2.filtered, v.filtered);
}

/// The field after `c` in a form of `n` fields, and the field before it.
pub open spec fn next_field(c: int, n: int) -> int {
    (c + 1) % n
}

pub open spec fn prev_field(c: int, n: int) -> int {
    if c == 0 {
        n - 1
    } else {
        c - 1
    }
}

/// Tab then Shift-Tab in the form comes back to the same field.
pub proof fn law_form_tab_back(c: int, n: int)
    requires
        0 <= c < n,
    ensures
        prev_field(next_field(c, n), n) == c,
{
    if c + 1 < n {
        vstd::arithmetic::div_mod::lemma_small_mod((c + 1) as nat, n as nat);
    } else {
        vstd::arithmetic::div_mod::lemma_mod_self_0(n);
    }
}

/// With an empty query every saved host is shown.
pub proof fn law_empty_query_shows_all(hosts: Seq<HostView>, s: crate::tui::sort::SortBy, f: Seq<usize>)
    requires
        filtered_ok(hosts, Seq::empty(), s, f),
    ensures
        forall|i: usize| i < hosts.len() ==> #[trigger] f.contains(i),
{
    assert forall|i: usize| i < hosts.len() implies #[trigger] f.contains(i) by {
        assert(crate::config::model::host_matches(hosts[i as int], Seq::empty()));
    }
}

} // verus!

verus! {

/// In the search box, as in the list, Down selects the next row and Up the
/// previous one, wrapping around at the ends; nothing else changes.
pub proof fn law_arrows_move_one_row(v: AppView, ctrl: bool, w: AppView, eff: Effect)
    requires
        0 < v.filtered.len() <= usize::MAX,
        crate::tui::app::selection_ok(v.selected, v.filtered.len()),
        v.mode == ModeView::Search || v.mode == ModeView::Normal,
    ensures
        key_step(v, Key::Down, ctrl, w, eff) ==> {
            &&& eff == Effect::Nothing
            &&& w == AppView {
                selected: Some(((row_or_zero(v.selected) + 1) % (v.filtered.len() as int)) as usize),
                ..v
            }
        },
        key_step(v, Key::Up, ctrl, w, eff) ==> {
            &&& eff == Effect::Nothing
            &&& w == AppView {
                selected: Some(
                    ((row_or_zero(v.selected) + v.filtered.len() - 1) % (v.filtered.len() as int)) as usize,
                ),
                ..v
            }
        },
{
    let len = v.filtered.len() as int;
    let r = row_or_zero(v.selected);
    vstd::arithmetic::div_mod::lemma_mod_add_multiples_vanish(r - 1, len);
    assert(len + (r - 1) == r + len - 1);
}

/// Answering the delete question with `y` or `Y` removes exactly the host it
/// asks about and asks to save; any other answer keeps every host. Either
/// way the list is back in browsing.
pub proof fn law_delete_answer(v: AppView, q: Seq<char>, idx: usize, key: Key, ctrl: bool, w: AppView, eff: Effect)
    requires
        v.mode == ModeView::Confirm(q, idx),
        idx < v.hosts.len(),
        key_step(v, key, ctrl, w, eff),
    ensures
        w.mode == ModeView::Normal,
        key == Key::Char('y') || key == Key::Char('Y') ==> {
            &&& eff == Effect::Save
            &&& w.hosts.len() + 1 == v.hosts.len()
            &&& forall|i: int| 0 <= i < idx ==> w.hosts[i] == v.hosts[i]
            &&& forall|i: int| idx <= i < w.hosts.len() ==> w.hosts[i] == v.hosts[i + 1]
        },
        !(key == Key::Char('y') || key == Key::Char('Y')) ==> eff == Effect::Nothing && w.hosts
            == v.hosts,
{
}

/// `D` on a selected host and then `y` deletes that host, and only it.
pub proof fn law_delete_selected(
    v: AppView,
    c1: bool,
    w1: AppView,
    e1: Effect,
    c2: bool,
    w2: AppView,
    e2: Effect,
)
    requires
        app_ok(v),
        v.mode == ModeView::Normal,
        selected_pos(v) is Some,
        key_step(v, Key::Char('D'), c1, w1, e1),
        key_step(w1, Key::Char('y'), c2, w2, e2),
    ensures
        e2 == Effect::Save,
        w2.hosts == v.hosts.remove(selected_pos(v).unwrap()),
        w2.mode == ModeView::Normal,
{
    let i = selected_pos(v).unwrap();
    assert(w1.hosts == v.hosts);
    assert(w1.mode == ModeView::Confirm(delete_question(v.hosts[i].name), i as usize));
}

} // verus!
