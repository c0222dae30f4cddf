//! The state of the interactive host list: the hosts, the search query, the
//! filtered and sorted view of them, the selection, the current mode and the
//! status line.
use vstd::prelude::*;
use vstd::arithmetic::div_mod::{lemma_fundamental_div_mod, lemma_mod_multiples_vanish, lemma_small_mod};
use crate::config::model::{Config, Host, HostView};
use crate::text::{ascii_lower, ascii_lower_char, chars_of, push_char};
use crate::tui::form::{FormState, FormView};
use crate::tui::sort::{filtered_ok, next_sort, sort_label, sorted_matches, SortBy};

verus! {

/// How the list was left.
pub enum ExitAction {
    /// Leave without connecting.
    Quit,
    /// Connect to this host.
    Connect(Host),
}

/// The exit intent as plain values.
pub enum ExitView {
    Quit,
    Connect(HostView),
}

impl View for ExitAction {
    type V = ExitView;

    open spec fn view(&self) -> ExitView {
        match self {
            ExitAction::Quit => ExitView::Quit,
            ExitAction::Connect(h) => ExitView::Connect(h@),
        }
    }
}

/// What keys currently do.
pub enum Mode {
    /// Browsing the list.
    Normal,
    /// Typing a search query.
    Search,
    /// Adding or editing a host.
    Form(FormState),
    /// Waiting for `y` to delete the saved host at the given position; the
    /// text is the question shown.
    Confirm(String, usize),
    /// Showing the key reference.
    Help,
}

/// The mode as plain values.
pub enum ModeView {
    Normal,
    Search,
    Form(FormView),
    Confirm(Seq<char>, usize),
    Help,
}

impl View for Mode {
    type V = ModeView;

    open spec fn view(&self) -> ModeView {
        match self {
            Mode::Normal => ModeView::Normal,
            Mode::Search => ModeView::Search,
            Mode::Form(f) => ModeView::Form(f@),
            Mode::Confirm(m, i) => ModeView::Confirm(m@, *i),
            Mode::Help => ModeView::Help,
        }
    }
}

/// The application state.
pub struct App {
    /// The saved hosts.
    pub cfg: Config,
    /// Where the configuration is saved (shown in status messages).
    pub cfg_path: String,
    /// The search query.
    pub query: String,
    /// The selected row of the filtered list.
    pub selected: Option<usize>,
    /// What keys currently do.
    pub mode: Mode,
    /// The status line.
    pub status: String,
    /// Positions (in `cfg.hosts`) of the hosts shown, in display order.
    pub filtered: Vec<usize>,
    /// Set when the list is left.
    pub exit: Option<ExitAction>,
    /// Whether the details panel is shown.
    pub show_details: bool,
    /// The order of the list.
    pub sort_by: SortBy,
}

/// The application state as plain values.
pub struct AppView {
    pub hosts: Seq<HostView>,
    pub path: Seq<char>,
    pub query: Seq<char>,
    pub selected: Option<usize>,
    pub mode: ModeView,
    pub status: Seq<char>,
    pub filtered: Seq<usize>,
    pub exit: Option<ExitView>,
    pub show_details: bool,
    pub sort_by: SortBy,
}

/// The view of an optional exit intent.
pub open spec fn exit_view(e: Option<ExitAction>) -> Option<ExitView> {
    match e {
        Some(x) => Some(x@),
        None => None,
    }
}

impl View for App {
    type V = AppView;

    open spec fn view(&self) -> AppView {
        AppView {
            hosts: self.cfg@,
            path: self.cfg_path@,
            query: self.query@,
            selected: self.selected,
            mode: self.mode@,
            status: self.status@,
            filtered: self.filtered@,
            exit: exit_view(self.exit),
            show_details: self.show_details,
            sort_by: self.sort_by,
        }
    }
}

/// A selection fits a list of `len` rows: none exactly when the list is
/// empty, otherwise a row of it.
pub open spec fn selection_ok(sel: Option<usize>, len: nat) -> bool {
    if len == 0 {
        sel is None
    } else {
        sel is Some && sel.unwrap() < len
    }
}

/// The mode refers only to saved hosts that exist, and a form has its nine
/// fields.
pub open spec fn mode_ok(m: ModeView, n: nat) -> bool {
    match m {
        ModeView::Form(f) => {
            &&& f.fields.len() == 9
            &&& f.cursor < 9
            &&& f.editing_index matches Some(i) ==> i < n
        },
        ModeView::Confirm(_, i) => i < n,
        _ => true,
    }
}

/// The invariant of the application state: the shown list is the hosts that
/// match the query in the chosen order, the selection is a row of it, and the
/// mode is consistent with the hosts.
pub open spec fn app_ok(v: AppView) -> bool {
    &&& filtered_ok(v.hosts, v.query, v.sort_by, v.filtered)
    &&& selection_ok(v.selected, v.filtered.len())
    &&& mode_ok(v.mode, v.hosts.len())
}

/// The selection after the list is rebuilt with `len` rows: none for an empty
/// list, the first row when there was none or it fell off the end, else kept.
pub open spec fn reselect(sel: Option<usize>, len: nat) -> Option<usize> {
    if len == 0 {
        None
    } else if sel is None || sel.unwrap() >= len {
        Some(0)
    } else {
        sel
    }
}

/// The selected row, or 0.
pub open spec fn row_or_zero(sel: Option<usize>) -> int {
    match sel {
        Some(s) => s as int,
        None => 0,
    }
}

/// The position in the saved list of the selected host, when the selection
/// is a row and that row names a saved host.
pub open spec fn selected_pos(v: AppView) -> Option<int> {
    match v.selected {
        Some(s) => if s < v.filtered.len() && v.filtered[s as int] < v.hosts.len() {
            Some(v.filtered[s as int] as int)
        } else {
            None
        },
        None => None,
    }
}

/// The status shown when the list opens.
pub open spec fn welcome_status() -> Seq<char> {
    "按 ? 查看帮助 · Enter 连接 · a 添加 · / 搜索 · q 退出"@
}

/// The status after the order changed.
pub open spec fn sort_status(s: SortBy) -> Seq<char> {
    "✓ sort: "@ + sort_label(s)
}

/// The status after the details panel was switched.
pub open spec fn details_status(on: bool) -> Seq<char> {
    "✓ details panel: "@ + if on {
        "on"@
    } else {
        "off"@
    }
}

/// The status after jumping to a host.
pub open spec fn jumped_status(name: Seq<char>) -> Seq<char> {
    "→ jumped to '"@ + name + "'"@
}

/// The status when no host starts with the letter.
pub open spec fn no_letter_status(c: char) -> Seq<char> {
    "no host starting with '"@ + seq![c] + "'"@
}

/// The status after saving the configuration.
pub open spec fn saved_status(path: Seq<char>) -> Seq<char> {
    "✓ saved to "@ + path
}

/// The status after saving failed.
pub open spec fn save_failed_status(err: Seq<char>) -> Seq<char> {
    "✗ save failed: "@ + err
}

/// The host at `step` rows after the selection (wrapping) has a name whose
/// first character, ASCII-lowercased, is `lc`.
pub open spec fn letter_hit(v: AppView, lc: char, step: int) -> bool {
    let len = v.filtered.len() as int;
    let cur = row_or_zero(v.selected);
    &&& 1 <= step <= len
    &&& {
        let h = v.hosts[v.filtered[(cur + step) % len] as int];
        h.name.len() > 0 && ascii_lower(h.name[0]) == lc
    }
}

/// The first step that hits (meaningful when one does).
pub open spec fn first_letter_hit(v: AppView, lc: char) -> int {
    choose|s: int| letter_hit(v, lc, s) && forall|t: int| 1 <= t < s ==> !letter_hit(v, lc, t)
}

/// When some step hits, a first one does.
pub proof fn lemma_first_hit_exists(v: AppView, lc: char, s: int)
    requires
        letter_hit(v, lc, s),
    ensures
        exists|f: int| letter_hit(v, lc, f) && forall|t: int| 1 <= t < f ==> !letter_hit(v, lc, t),
    decreases s,
{
    if exists|t: int| 1 <= t < s && letter_hit(v, lc, t) {
        let t = choose|t: int| 1 <= t < s && letter_hit(v, lc, t);
        lemma_first_hit_exists(v, lc, t);
    } else {
        assert(letter_hit(v, lc, s) && forall|t: int| 1 <= t < s ==> !letter_hit(v, lc, t));
    }
}

/// The state after jumping to the next host (after the selection, wrapping
/// around) whose name starts with `c`, ASCII case-insensitively: that row is
/// selected and named in the status; when there is none, only the status
/// says so.
pub open spec fn letter_jump(v: AppView, c: char) -> AppView {
    let lc = ascii_lower(c);
    if exists|s: int| letter_hit(v, lc, s) {
        let s = first_letter_hit(v, lc);
        let len = v.filtered.len() as int;
        let row = (row_or_zero(v.selected) + s) % len;
        AppView {
            selected: Some(row as usize),
            status: jumped_status(v.hosts[v.filtered[row] as int].name),
            ..v
        }
    } else {
        AppView { status: no_letter_status(c), ..v }
    }
}

/// The non-negative remainder of a negative number, from the remainder of its
/// absolute value.
proof fn lemma_neg_mod(x: int, l: int, mm: int)
    requires
        l > 0,
        x < 0,
        mm == (-x) % l,
    ensures
        x % l == if mm == 0 {
            0
        } else {
            l - mm
        },
{
    let k: int = -x;
    lemma_fundamental_div_mod(k, l);
    lemma_mod_multiples_vanish(-(k / l), -mm, l);
    assert(x == l * (-(k / l)) + (-mm)) by (nonlinear_arith)
        requires
            k == -x,
            k == l * (k / l) + mm,
    ;
    assert(x % l == (-mm) % l);
    if mm != 0 {
        assert(0 < mm < l);
        lemma_mod_multiples_vanish(-1, l - mm, l);
        lemma_small_mod((l - mm) as nat, l as nat);
        assert(-mm == l * (-1) + (l - mm));
        assert((l * (-1) + (l - mm)) % l == (l - mm) % l);
        assert((-mm) % l == l - mm);
    } else {
        lemma_small_mod(0, l as nat);
        assert((-mm) % l == 0);
    }
}

/// A string made from a literal.
fn text_lit(s: &str) -> (res: String)
    ensures
        res@ == s@,
{
    String::from_str(s)
}

impl App {
    /// The invariant (see [`app_ok`]).
    pub open spec fn wf(&self) -> bool {
        app_ok(self@)
    }

    /// The list over `cfg`, saved at `cfg_path`: no query, sorted by name,
    /// details shown, first row selected when there is one.
    pub fn new(cfg: Config, cfg_path: String) -> (res: App)
        ensures
            res.wf(),
            res@.hosts == cfg@,
            res@.path == cfg_path@,
            res@.query == Seq::<char>::empty(),
            res@.mode == ModeView::Normal,
            res@.status == welcome_status(),
            res@.exit is None,
            res@.show_details,
            res@.sort_by == SortBy::Name,
            res@.selected == (if res@.filtered.len() == 0 {
                None::<usize>
            } else {
                Some(0usize)
            }),
    {
        let mut s = App {
            cfg,
            cfg_path,
            query: String::new(),
            selected: None,
            mode: Mode::Normal,
            status: text_lit("按 ? 查看帮助 · Enter 连接 · a 添加 · / 搜索 · q 退出"),
            filtered: Vec::new(),
            exit: None,
            show_details: true,
            sort_by: SortBy::Name,
        };
        s.refilter();
        if s.filtered.len() != 0 {
            s.selected = Some(0);
        }
        s
    }

    /// Rebuilds the shown list from the hosts, the query and the order, and
    /// fixes the selection (see [`reselect`]).
    pub fn refilter(&mut self)
        ensures
            filtered_ok(old(self)@.hosts, old(self)@.query, old(self)@.sort_by, final(self)@.filtered),
            final(self)@ == (AppView {
                filtered: final(self)@.filtered,
                selected: reselect(old(self)@.selected, final(self)@.filtered.len()),
                ..old(self)@
            }),
            mode_ok(old(self)@.mode, old(self)@.hosts.len()) ==> final(self).wf(),
    {
        let f = sorted_matches(&self.cfg.hosts, self.query.as_str(), self.sort_by);
        self.filtered = f;
        if self.filtered.len() == 0 {
            self.selected = None;
        } else {
            match self.selected {
                None => {
                    self.selected = Some(0);
                },
                Some(s) => {
                    if s >= self.filtered.len() {
                        self.selected = Some(0);
                    }
                },
            }
        }
    }

    /// The selected host (see [`selected_pos`]).
    pub fn selected_host(&self) -> (res: Option<&Host>)
        ensures
            match res {
                Some(h) => selected_pos(self@) matches Some(i) && h@ == self@.hosts[i],
                None => selected_pos(self@) is None,
            },
    {
        match self.selected {
            None => None,
            Some(sel) => {
                if sel < self.filtered.len() {
                    let idx = self.filtered[sel];
                    if idx < self.cfg.hosts.len() {
                        return Some(&self.cfg.hosts[idx]);
                    }
                }
                None
            },
        }
    }

    /// The position in the saved list of the selected row's host.
    pub fn selected_index(&self) -> (res: Option<usize>)
        ensures
            res == (match self@.selected {
                Some(s) => if s < self@.filtered.len() {
                    Some(self@.filtered[s as int])
                } else {
                    None::<usize>
                },
                None => None::<usize>,
            }),
    {
        match self.selected {
            None => None,
            Some(sel) => {
                if sel < self.filtered.len() {
                    Some(self.filtered[sel])
                } else {
                    None
                }
            },
        }
    }

    /// Records how saving the configuration went in the status line.
    pub fn record_save(&mut self, outcome: Result<(), String>)
        ensures
            final(self)@ == (AppView {
                status: match outcome {
                    Ok(_) => saved_status(old(self)@.path),
                    Err(e) => save_failed_status(e@),
                },
                ..old(self)@
            }),
    {
        match outcome {
            Ok(_) => {
                let mut s = text_lit("✓ saved to ");
                s.append(self.cfg_path.as_str());
                self.status = s;
            },
            Err(e) => {
                let mut s = text_lit("✗ save failed: ");
                s.append(e.as_str());
                self.status = s;
            },
        }
    }

    /// Moves the selection by `delta` rows, wrapping around; nothing happens
    /// on an empty list. The new row is `(row + delta)` modulo the number of
    /// rows, taken non-negative.
    pub fn move_sel(&mut self, delta: i32)
        requires
            old(self)@.filtered.len() <= i32::MAX,
            row_or_zero(old(self)@.selected) <= i32::MAX,
            i32::MIN <= row_or_zero(old(self)@.selected) + delta <= i32::MAX,
        ensures
            old(self)@.filtered.len() == 0 ==> final(self)@ == old(self)@,
            old(self)@.filtered.len() > 0 ==> final(self)@ == (AppView {
                selected: Some(
                    ((row_or_zero(old(self)@.selected) + delta) % (old(self)@.filtered.len() as int)) as usize,
                ),
                ..old(self)@
            }),
    {
        if self.filtered.len() == 0 {
            return;
        }
        let len = self.filtered.len() as i64;
        let cur: i64 = match self.selected {
            Some(s) => s as i64,
            None => 0,
        };
        let x: i64 = cur + delta as i64;
        let r: i64 = if x >= 0 {
            x % len
        } else {
            let m = (-x) % len;
            proof {
                lemma_neg_mod(x as int, len as int, m as int);
            }
            if m == 0 {
                0
            } else {
                len - m
            }
        };
        assert(r as int == (x as int) % (len as int));
        self.selected = Some(r as usize);
    }

    /// Switches to the next order, rebuilds the list and reports the order.
    pub fn toggle_sort(&mut self)
        ensures
            filtered_ok(old(self)@.hosts, old(self)@.query, next_sort(old(self)@.sort_by), final(self)@.filtered),
            final(self)@ == (AppView {
                sort_by: next_sort(old(self)@.sort_by),
                filtered: final(self)@.filtered,
                selected: reselect(old(self)@.selected, final(self)@.filtered.len()),
                status: sort_status(next_sort(old(self)@.sort_by)),
                ..old(self)@
            }),
            mode_ok(old(self)@.mode, old(self)@.hosts.len()) ==> final(self).wf(),
    {
        self.sort_by = self.sort_by.next();
        self.refilter();
        let mut s = text_lit("✓ sort: ");
        let label = self.sort_by.label();
        s.append(label);
        self.status = s;
    }

    /// Shows or hides the details panel and reports it.
    pub fn toggle_details(&mut self)
        ensures
            final(self)@ == (AppView {
                show_details: !old(self)@.show_details,
                status: details_status(!old(self)@.show_details),
                ..old(self)@
            }),
    {
        self.show_details = !self.show_details;
        let mut s = text_lit("✓ details panel: ");
        if self.show_details {
            s.append("on");
        } else {
            s.append("off");
        }
        self.status = s;
    }

    /// Selects the next host (after the selection, wrapping around) whose
    /// name starts with `c`, ASCII case-insensitively, and reports it; when
    /// none does, only reports that.
    pub fn jump_to_letter(&mut self, c: char)
        requires
            old(self).wf(),
        ensures
            final(self).wf(),
            final(self)@ == letter_jump(old(self)@, c),
    {
        let lc = ascii_lower_char(c);
        let cur: usize = match self.selected {
            Some(s) => s,
            None => 0,
        };
        let len = self.filtered.len();
        let ghost v = self@;
        let mut k: usize = 0;
        while k < len
            invariant
                v == self@,
                v == old(self)@,
                app_ok(v),
                len == v.filtered.len(),
                cur as int == row_or_zero(v.selected),
                len > 0 ==> cur < len,
                k <= len,
                lc == ascii_lower(c),
                forall|t: int| 1 <= t <= k ==> !letter_hit(v, lc, t),
            decreases len - k,
        {
            let step = k + 1;
            let i = if step < len - cur {
                cur + step
            } else {
                step - (len - cur)
            };
            proof {
                if cur + step < len {
                    lemma_small_mod((cur + step) as nat, len as nat);
                } else {
                    lemma_mod_multiples_vanish(1, cur + step - len, len as int);
                    lemma_small_mod((cur + step - len) as nat, len as nat);
                }
                assert(i == (cur + step) % (len as int));
            }
            let idx = self.filtered[i];
            assert(idx < self.cfg.hosts@.len());
            assert(v.hosts[idx as int] == self.cfg.hosts@[idx as int]@);
            let name = chars_of(self.cfg.hosts[idx].name.as_str());
            if name.len() > 0 && ascii_lower_char(name[0]) == lc {
                proof {
                    assert(letter_hit(v, lc, step as int));
                    assert(letter_hit(v, lc, step as int) && forall|t: int|
                        1 <= t < step ==> !letter_hit(v, lc, t));
                    let f = first_letter_hit(v, lc);
                    assert(letter_hit(v, lc, f) && forall|t: int| 1 <= t < f ==> !letter_hit(v, lc, t));
                    if f < step {
                        assert(!letter_hit(v, lc, f));
                    } else if f > step {
                        assert(!letter_hit(v, lc, step as int));
                    }
                    assert(f == step);
                }
                self.selected = Some(i);
                let mut s = text_lit("→ jumped to '");
                s.append(self.cfg.hosts[idx].name.as_str());
                s.append("'");
                assert(s@ == jumped_status(v.hosts[idx as int].name));
                self.status = s;
                return;
            }
            k = k + 1;
        }
        proof {
            assert forall|s: int| !letter_hit(v, lc, s) by {}
        }
        let mut s = text_lit("no host starting with '");
        push_char(&mut s, c);
        s.append("'");
        assert(s@ == no_letter_status(c));
        self.status = s;
    }
}

} // verus!
