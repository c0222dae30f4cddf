//! The plain-value parts of drawing the list: the hint under a form field,
//! cutting long names to a column, and the palette slot of a group.
use vstd::prelude::*;
use vstd::string::StringSliceAdditionalSpecFns;
use crate::config::model::Host;
use crate::text::{
    append_chars, chars_of, copy_range, decimal_chars, join_strings, push_padded, same_text, text_of,
};
use crate::tui::app::{Mode, ModeView};
use crate::tui::form::{form_labels, FormState, FormView};

verus! {

/// The one-line hint shown under a form field, by the field's label; empty
/// for an unknown label.
pub open spec fn field_hint_text(name: Seq<char>) -> Seq<char> {
    let l = form_labels();
    if name == l[0] {
        "必填 · 显示别名（支持中文）"@
    } else if name == l[1] {
        "必填 · IP 或主机名"@
    } else if name == l[2] {
        "登录用户，默认 root"@
    } else if name == l[3] {
        "SSH 端口，默认 22"@
    } else if name == l[4] {
        "私钥路径，支持 ~/，留空使用默认/Agent"@
    } else if name == l[5] {
        "可选分组，用于视觉聚合"@
    } else if name == l[6] {
        "可选标签，逗号分隔，可用于搜索"@
    } else if name == l[7] {
        "可选跳板：填本列表里的另一台 name"@
    } else if name == l[8] {
        "自由备注，显示在详情面板"@
    } else {
        ""@
    }
}

/// The hint for a form field (see [`field_hint_text`]).
pub fn field_hint(name: &str) -> (res: &'static str)
    ensures
        res@ == field_hint_text(name@),
{
    let n = chars_of(name);
    if same_text(&n, &['n', 'a', 'm', 'e']) {
        "必填 · 显示别名（支持中文）"
    } else if same_text(&n, &['h', 'o', 's', 't']) {
        "必填 · IP 或主机名"
    } else if same_text(&n, &['u', 's', 'e', 'r']) {
        "登录用户，默认 root"
    } else if same_text(&n, &['p', 'o', 'r', 't']) {
        "SSH 端口，默认 22"
    } else if same_text(&n, &['k', 'e', 'y']) {
        "私钥路径，支持 ~/，留空使用默认/Agent"
    } else if same_text(&n, &['g', 'r', 'o', 'u', 'p']) {
        "可选分组，用于视觉聚合"
    } else if same_text(&n, &['t', 'a', 'g', 's']) {
        "可选标签，逗号分隔，可用于搜索"
    } else if same_text(&n, &['j', 'u', 'm', 'p']) {
        "可选跳板：填本列表里的另一台 name"
    } else if same_text(&n, &['n', 'o', 't', 'e']) {
        "自由备注，显示在详情面板"
    } else {
        ""
    }
}

/// `s` when it has at most `max` characters; otherwise its first `max - 1`
/// characters (none when `max` is 0) followed by `…`.
pub open spec fn truncated(s: Seq<char>, max: nat) -> Seq<char> {
    if s.len() <= max {
        s
    } else {
        s.take(if max > 0 {
            max - 1
        } else {
            0
        }) + seq!['…']
    }
}

/// Cuts characters to a column of `max` (see [`truncated`]).
pub fn truncate_chars(cs: &[char], max: usize) -> (res: Vec<char>)
    ensures
        res@ == truncated(cs@, max as nat),
{
    if cs.len() <= max {
        return copy_range(cs, 0, cs.len());
    }
    let keep = max.saturating_sub(1);
    let mut out = copy_range(cs, 0, keep);
    out.push('…');
    assert(cs@.subrange(0, keep as int) == cs@.take(keep as int));
    assert(cs@.subrange(0, cs@.len() as int) == cs@);
    out
}

/// Cuts a text to a column of `max` characters (see [`truncated`]).
pub fn truncate(s: &str, max: usize) -> (res: String)
    ensures
        res@ == truncated(s@, max as nat),
{
    let cs = chars_of(s);
    let t = truncate_chars(&cs, max);
    text_of(&t)
}

/// The djb2 hash (start 5381, times 33 plus each byte, wrapping at 32 bits)
/// of the first bytes of a text.
pub open spec fn group_hash(b: Seq<u8>) -> u32
    decreases b.len(),
{
    if b.len() == 0 {
        5381
    } else {
        let h = group_hash(b.drop_last());
        let m = ((h as nat * 33) % 0x1_0000_0000) as u32;
        ((m as nat + b.last() as nat) % 0x1_0000_0000) as u32
    }
}

/// The number of colors groups are painted with.
pub const GROUP_COLORS: usize = 9;

/// The palette slot of a group: its UTF-8 bytes hashed (see [`group_hash`]),
/// modulo the number of colors.
pub fn group_palette_index(g: &str) -> (res: usize)
    ensures
        res == group_hash(g.spec_bytes()) as nat % (GROUP_COLORS as nat),
        res < GROUP_COLORS,
{
    let bytes = g.as_bytes();
    let n = bytes.len();
    let mut h: u32 = 5381;
    for i in 0..n
        invariant
            n == bytes@.len(),
            h == group_hash(bytes@.take(i as int)),
    {
        let b = bytes[i];
        assert(bytes@.take(i + 1).drop_last() == bytes@.take(i as int));
        assert(bytes@.take(i + 1).last() == b);
        h = h.wrapping_mul(33).wrapping_add(b as u32);
    }
    assert(bytes@.take(n as int) == bytes@);
    (h % 9) as usize
}

} // verus!

verus! {

// ---------------------------------------------------------------------------
// The texts of a list row, a form line and the footer
// ---------------------------------------------------------------------------

/// `s` padded on the left with spaces to at least `width` characters
/// (`format!("{:>width$}")`).
pub open spec fn pad_left(s: Seq<char>, width: nat) -> Seq<char> {
    if s.len() < width {
        Seq::new((width - s.len()) as nat, |i: int| ' ') + s
    } else {
        s
    }
}

/// The texts of one row of the host list, without colors.
pub struct RowTexts {
    /// ` n ` for the first nine rows (1-based, right-aligned in two columns),
    /// ` ·` otherwise.
    pub number: String,
    /// The group (or `-`), cut and padded to 10 columns.
    pub group: String,
    /// The palette slot of the group; none when the group shows as `-`.
    pub group_color: Option<usize>,
    /// The name, cut and padded to 18 columns.
    pub name: String,
    /// `:port` when not 22.
    pub port: String,
    /// ` ↪ jump` when the host jumps.
    pub jump: String,
    /// `  #t1 #t2` when the host has tags.
    pub tags: String,
    /// `  ×n` when the host was used.
    pub uses: String,
}

/// The group as listed: the group, or `-` for none.
pub open spec fn group_shown(h: crate::config::model::HostView) -> Seq<char> {
    match h.group {
        Some(g) => g,
        None => seq!['-'],
    }
}

/// The number column of row `vis_idx`.
pub open spec fn row_number(vis_idx: nat) -> Seq<char> {
    let n = if vis_idx < 9 {
        crate::text::decimal(vis_idx + 1)
    } else {
        seq!['·']
    };
    seq![' '] + pad_left(n, 2) + seq![' ']
}

/// What the row texts of a host are (see [`RowTexts`]).
pub open spec fn row_texts_ok(vis_idx: nat, h: crate::config::model::HostView, r: RowTexts) -> bool {
    &&& r.number@ == row_number(vis_idx)
    &&& r.group@ == crate::text::pad_right(truncated(group_shown(h), 10), 10)
    &&& r.group_color == if group_shown(h) == seq!['-'] {
        None::<usize>
    } else {
        Some((group_hash(vstd::utf8::encode_utf8(group_shown(h))) as nat % (GROUP_COLORS as nat)) as usize)
    }
    &&& r.name@ == crate::text::pad_right(truncated(h.name, 18), 18)
    &&& r.port@ == crate::config::model::port_suffix(h.port)
    &&& r.jump@ == match h.jump {
        Some(j) => seq![' ', '↪', ' '] + j,
        None => Seq::empty(),
    }
    &&& r.tags@ == if h.tags.len() == 0 {
        Seq::empty()
    } else {
        seq![' ', ' ', '#'] + crate::text::join(h.tags, seq![' ', '#'])
    }
    &&& r.uses@ == if h.use_count > 0 {
        seq![' ', ' ', '×'] + crate::text::decimal(h.use_count as nat)
    } else {
        Seq::empty()
    }
}

} // verus!

verus! {

/// Appends `s` padded on the left to `width` columns.
fn push_padded_left(out: &mut Vec<char>, s: &[char], width: usize)
    ensures
        final(out)@ == old(out)@ + pad_left(s@, width as nat),
{
    let mut k = s.len();
    let ghost start = out@;
    while k < width
        invariant
            s@.len() <= k,
            s@.len() <= width ==> k <= width,
            s@.len() > width ==> k == s@.len(),
            out@ == start + Seq::new((k - s@.len()) as nat, |i: int| ' '),
        decreases width - k,
    {
        out.push(' ');
        assert(Seq::new((k + 1 - s@.len()) as nat, |i: int| ' ') == Seq::new(
            (k - s@.len()) as nat,
            |i: int| ' ',
        ).push(' '));
        k = k + 1;
    }
    append_chars(out, s);
    if s.len() >= width {
        assert(Seq::new(0 as nat, |i: int| ' ') == Seq::<char>::empty());
        assert(start + Seq::new(0 as nat, |i: int| ' ') + s@ == start + s@);
    }
}

/// The texts of row `vis_idx` (0-based) showing host `h`.
pub fn host_row(vis_idx: usize, h: &Host) -> (res: RowTexts)
    ensures
        row_texts_ok(vis_idx as nat, h@, res),
{
    // number column
    let num = if vis_idx < 9 {
        decimal_chars((vis_idx + 1) as u64)
    } else {
        vec!['·']
    };
    assert(vis_idx >= 9 ==> num@ == seq!['·']);
    let mut number: Vec<char> = vec![' '];
    push_padded_left(&mut number, &num, 2);
    number.push(' ');
    assert(number@ == row_number(vis_idx as nat));
    // group column
    let g = match &h.group {
        Some(g) => chars_of(g.as_str()),
        None => vec!['-'],
    };
    assert(g@ == group_shown(h@));
    let gt = truncate_chars(&g, 10);
    let mut group: Vec<char> = Vec::new();
    push_padded(&mut group, &gt, 10);
    assert(group@ == crate::text::pad_right(truncated(group_shown(h@), 10), 10));
    let dash = vec!['-'];
    assert(dash@ == seq!['-']);
    let group_color = if same_text(&g, &dash) {
        None
    } else {
        let gs = text_of(&g);
        let gstr = gs.as_str();
        let slot = group_palette_index(gstr);
        assert(gstr.spec_bytes() == vstd::utf8::encode_utf8(g@));
        Some(slot)
    };
    // name column
    let n = chars_of(h.name.as_str());
    let nt = truncate_chars(&n, 18);
    let mut name: Vec<char> = Vec::new();
    push_padded(&mut name, &nt, 18);
    // port
    let mut port: Vec<char> = Vec::new();
    if h.port != 22 {
        port.push(':');
        let d = decimal_chars(h.port as u64);
        append_chars(&mut port, &d);
    }
    assert(port@ == crate::config::model::port_suffix(h.port));
    // jump
    let mut jump: Vec<char> = Vec::new();
    match &h.jump {
        Some(j) => {
            jump.push(' ');
            jump.push('↪');
            jump.push(' ');
            let jc = chars_of(j.as_str());
            append_chars(&mut jump, &jc);
        },
        None => {},
    }
    assert(jump@ == match h@.jump {
        Some(j) => seq![' ', '↪', ' '] + j,
        None => Seq::<char>::empty(),
    });
    // tags
    let mut tags: Vec<char> = Vec::new();
    if h.tags.len() != 0 {
        tags.push(' ');
        tags.push(' ');
        tags.push('#');
        let sep = vec![' ', '#'];
        assert(sep@ == seq![' ', '#']);
        let joined = join_strings(&h.tags, &sep);
        append_chars(&mut tags, &joined);
        assert(tags@ == seq![' ', ' ', '#'] + joined@);
    }
    assert(h@.tags.len() == h.tags@.len());
    assert(tags@ == if h@.tags.len() == 0 {
        Seq::<char>::empty()
    } else {
        seq![' ', ' ', '#'] + crate::text::join(h@.tags, seq![' ', '#'])
    });
    // uses
    let mut uses: Vec<char> = Vec::new();
    if h.use_count > 0 {
        uses.push(' ');
        uses.push(' ');
        uses.push('×');
        let d = decimal_chars(h.use_count as u64);
        append_chars(&mut uses, &d);
        assert(uses@ == seq![' ', ' ', '×'] + d@);
    }
    assert(uses@ == if h@.use_count > 0 {
        seq![' ', ' ', '×'] + crate::text::decimal(h@.use_count as nat)
    } else {
        Seq::<char>::empty()
    });
    RowTexts {
        number: text_of(&number),
        group: text_of(&group),
        group_color,
        name: text_of(&name),
        port: text_of(&port),
        jump: text_of(&jump),
        tags: text_of(&tags),
        uses: text_of(&uses),
    }
}

} // verus!

verus! {

/// One field line of the form overlay, without colors.
pub struct FormLine {
    /// The field has the cursor.
    pub active: bool,
    /// The field must be filled (name and host).
    pub required: bool,
    /// ` ▶ ` on the field with the cursor, three spaces on the others.
    pub marker: String,
    /// `*` on a required field (a space otherwise), then the label padded
    /// to 6 columns.
    pub label: String,
    /// The value, or `（空）` for an empty value away from the cursor.
    pub value: String,
    /// `value` is the empty placeholder.
    pub placeholder: bool,
    /// The hint shown under the field with the cursor; empty on the others.
    pub hint: String,
}

/// Whether a form label names a field that must be filled.
pub open spec fn required_label(k: Seq<char>) -> bool {
    k == form_labels()[0] || k == form_labels()[1]
}

/// What the line of field `i` of form `f` is (see [`FormLine`]).
pub open spec fn form_line_ok(f: FormView, i: int, l: FormLine) -> bool {
    let k = f.fields[i].0;
    let v = f.fields[i].1;
    let active = i == f.cursor;
    let required = required_label(k);
    let placeholder = v.len() == 0 && !active;
    &&& l.active == active
    &&& l.required == required
    &&& l.marker@ == if active { " ▶ "@ } else { "   "@ }
    &&& l.label@ == (if required { seq!['*'] } else { seq![' '] }) + crate::text::pad_right(k, 6)
    &&& l.placeholder == placeholder
    &&& l.value@ == if placeholder { "（空）"@ } else { v }
    &&& l.hint@ == if active { field_hint_text(k) } else { Seq::<char>::empty() }
}

/// The line of field `i` of a form.
fn form_line(fs: &FormState, i: usize) -> (res: FormLine)
    requires
        i < fs.fields@.len(),
    ensures
        form_line_ok(fs@, i as int, res),
{
    let k = chars_of(fs.fields[i].0.as_str());
    let v = chars_of(fs.fields[i].1.as_str());
    let active = i == fs.cursor;
    let required = same_text(&k, &['n', 'a', 'm', 'e']) || same_text(&k, &['h', 'o', 's', 't']);
    proof {
        assert(form_labels()[0] == seq!['n', 'a', 'm', 'e']);
        assert(form_labels()[1] == seq!['h', 'o', 's', 't']);
    }
    let mut label: Vec<char> = Vec::new();
    label.push(if required { '*' } else { ' ' });
    push_padded(&mut label, &k, 6);
    let placeholder = v.len() == 0 && !active;
    let value = if placeholder { String::from_str("（空）") } else { text_of(&v) };
    let hint = if active { String::from_str(field_hint(fs.fields[i].0.as_str())) } else { String::new() };
    let marker = if active { String::from_str(" ▶ ") } else { String::from_str("   ") };
    FormLine { active, required, marker, label: text_of(&label), value, placeholder, hint }
}

/// The field lines of the form overlay, one per field, in order.
pub fn form_lines(fs: &FormState) -> (res: Vec<FormLine>)
    ensures
        res@.len() == fs@.fields.len(),
        forall|i: int| 0 <= i < res@.len() ==> form_line_ok(fs@, i, #[trigger] res@[i]),
{
    let mut res: Vec<FormLine> = Vec::new();
    let n = fs.fields.len();
    for i in 0..n
        invariant
            n == fs.fields@.len(),
            res@.len() == i,
            forall|j: int| 0 <= j < i ==> form_line_ok(fs@, j, #[trigger] res@[j]),
    {
        let l = form_line(fs, i);
        res.push(l);
    }
    res
}

/// The footer text in each mode but browsing, where the footer shows key
/// pills instead.
pub open spec fn footer_text_of(m: ModeView) -> Option<Seq<char>> {
    match m {
        ModeView::Normal => None,
        ModeView::Search => Some(
            " 输入过滤 · Ctrl-U 清空 · ↑/↓ 移动 · Enter 若只剩 1 条则连接 · Esc 返回"@,
        ),
        ModeView::Form(_) => Some(" Tab/↑/↓ 切字段 · Ctrl-U 清空字段 · Enter 或 Ctrl-S 保存 · Esc 取消"@),
        ModeView::Confirm(q, _) => Some(" ⚠  "@ + q),
        ModeView::Help => Some(" 按任意键关闭帮助"@),
    }
}

/// The footer text of a mode (see [`footer_text_of`]).
pub fn footer_text(mode: &Mode) -> (res: Option<String>)
    ensures
        match res {
            Some(t) => footer_text_of(mode@) == Some(t@),
            None => footer_text_of(mode@) is None,
        },
{
    match mode {
        Mode::Normal => None,
        Mode::Search => Some(
            String::from_str(" 输入过滤 · Ctrl-U 清空 · ↑/↓ 移动 · Enter 若只剩 1 条则连接 · Esc 返回"),
        ),
        Mode::Form(_) => Some(String::from_str(" Tab/↑/↓ 切字段 · Ctrl-U 清空字段 · Enter 或 Ctrl-S 保存 · Esc 取消")),
        Mode::Confirm(q, _) => {
            let mut t = chars_of(" ⚠  ");
            let qc = chars_of(q.as_str());
            append_chars(&mut t, &qc);
            Some(text_of(&t))
        },
        Mode::Help => Some(String::from_str(" 按任意键关闭帮助")),
    }
}

} // verus!
