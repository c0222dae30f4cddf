//! The data model of `~/.ssh-menu.toml`: the list of hosts, how a host is
//! shown on one line, and how it is matched by the search box.
use vstd::prelude::*;
use crate::text::{
    append_chars, chars_of, contains_text, decimal, decimal_chars, find_text, join, join_strings,
    ascii_lowered, is_ascii_text, lemma_contains_trans, occurs_at, lemma_lowered_contains, lower_chars,
    lowercase, pad_right, push_char, push_padded, same_text, text_of, texts,
};

verus! {

/// The whole configuration file: the saved hosts, in file order.
#[derive(Debug, Clone)]
pub struct Config {
    pub hosts: Vec<Host>,
}

/// One saved SSH destination.
#[derive(Debug, Clone)]
pub struct Host {
    /// Display name, also the target of other hosts' `jump`.
    pub name: String,
    /// Address or host name passed to `ssh`.
    pub host: String,
    /// Login user.
    pub user: String,
    /// SSH port.
    pub port: u16,
    /// Identity file (`-i`); may start with `~`.
    pub key: Option<String>,
    /// Optional group shown in the list.
    pub group: Option<String>,
    /// Free tags, searched by the filter.
    pub tags: Vec<String>,
    /// ProxyJump: the name of another saved host, or a raw ssh destination.
    pub jump: Option<String>,
    /// Free note.
    pub note: Option<String>,
    /// Extra arguments passed to `ssh` as they are.
    pub extra: Vec<String>,
    /// When the host was last connected (RFC 3339).
    pub last_used: Option<String>,
    /// How many times the host was connected.
    pub use_count: u32,
}

/// A host seen as plain values.
pub struct HostView {
    pub name: Seq<char>,
    pub host: Seq<char>,
    pub user: Seq<char>,
    pub port: u16,
    pub key: Option<Seq<char>>,
    pub group: Option<Seq<char>>,
    pub tags: Seq<Seq<char>>,
    pub jump: Option<Seq<char>>,
    pub note: Option<Seq<char>>,
    pub extra: Seq<Seq<char>>,
    pub last_used: Option<Seq<char>>,
    pub use_count: u32,
}

/// The text of an optional string.
pub open spec fn opt_text(o: Option<String>) -> Option<Seq<char>> {
    match o {
        Some(s) => Some(s@),
        None => None,
    }
}

impl View for Host {
    type V = HostView;

    open spec fn view(&self) -> HostView {
        HostView {
            name: self.name@,
            host: self.host@,
            user: self.user@,
            port: self.port,
            key: opt_text(self.key),
            group: opt_text(self.group),
            tags: texts(self.tags@),
            jump: opt_text(self.jump),
            note: opt_text(self.note),
            extra: texts(self.extra@),
            last_used: opt_text(self.last_used),
            use_count: self.use_count,
        }
    }
}

/// The views of a list of hosts.
pub open spec fn hosts_view(v: Seq<Host>) -> Seq<HostView> {
    v.map_values(|h: Host| h@)
}

impl View for Config {
    type V = Seq<HostView>;

    open spec fn view(&self) -> Seq<HostView> {
        hosts_view(self.hosts@)
    }
}

impl Default for Config {
    /// A configuration without hosts (what a missing file loads as).
    fn default() -> (res: Config)
        ensures
            res@ == Seq::<HostView>::empty(),
    {
        Config { hosts: Vec::new() }
    }
}

/// The user of a host whose file entry names none: `root`.
pub fn default_user() -> (res: String)
    ensures
        res@ == seq!['r', 'o', 'o', 't'],
{
    let mut s = String::new();
    push_char(&mut s, 'r');
    push_char(&mut s, 'o');
    push_char(&mut s, 'o');
    push_char(&mut s, 't');
    s
}

/// The port of a host whose file entry names none: 22.
pub fn default_port() -> (res: u16)
    ensures
        res == 22,
{
    22
}

/// A copy of an optional string.
pub fn copy_opt(o: &Option<String>) -> (res: Option<String>)
    ensures
        opt_text(res) == opt_text(*o),
{
    match o {
        Some(s) => Some(s.clone()),
        None => None,
    }
}

/// A copy of a list of strings.
pub fn copy_strings(v: &Vec<String>) -> (res: Vec<String>)
    ensures
        texts(res@) == texts(v@),
{
    let mut res: Vec<String> = Vec::new();
    let n = v.len();
    for i in 0..n
        invariant
            n == v@.len(),
            res@ == v@.take(i as int),
    {
        res.push(v[i].clone());
        assert(res@ == v@.take(i + 1));
    }
    assert(v@.take(n as int) == v@);
    res
}

/// The group of a host, or empty.
pub open spec fn group_text(h: HostView) -> Seq<char> {
    match h.group {
        Some(g) => g,
        None => Seq::empty(),
    }
}

/// `:port` when the port is not 22, else nothing.
pub open spec fn port_suffix(port: u16) -> Seq<char> {
    if port == 22 {
        Seq::empty()
    } else {
        seq![':'] + decimal(port as nat)
    }
}

/// ` via <jump>` when the host jumps through another, else nothing.
pub open spec fn jump_suffix(h: HostView) -> Seq<char> {
    match h.jump {
        Some(j) => seq![' ', 'v', 'i', 'a', ' '] + j,
        None => Seq::empty(),
    }
}

/// ` [t1,t2,...]` when the host has tags, else nothing.
pub open spec fn tags_suffix(h: HostView) -> Seq<char> {
    if h.tags.len() == 0 {
        Seq::empty()
    } else {
        seq![' ', '['] + join(h.tags, seq![',']) + seq![']']
    }
}

/// The one-line listing of a host: group padded to 12 characters, name padded
/// to 22, then `user@host`, the port when not 22, the jump and the tags.
pub open spec fn display_text(h: HostView) -> Seq<char> {
    pad_right(group_text(h), 12) + seq![' '] + pad_right(h.name, 22) + seq![' '] + h.user + seq![
        '@',
    ] + h.host + port_suffix(h.port) + jump_suffix(h) + tags_suffix(h)
}

/// The text that the search box looks in: name, host, user, group and the
/// tags, separated by spaces.
pub open spec fn search_text(h: HostView) -> Seq<char> {
    h.name + seq![' '] + h.host + seq![' '] + h.user + seq![' '] + group_text(h) + seq![' ']
        + join(h.tags, seq![' '])
}

/// A host matches a query when the query is empty or when its lowercase form
/// occurs in the lowercase search text of the host.
pub open spec fn host_matches(h: HostView, q: Seq<char>) -> bool {
    q.len() == 0 || contains_text(lowercase(search_text(h)), lowercase(q))
}

/// An ASCII query matches a lowercase search text `hay` when it is empty or
/// its ASCII lowercase form occurs in `hay`.
pub open spec fn ascii_query_matches(hay: Seq<char>, q: Seq<char>) -> bool {
    q.len() == 0 || contains_text(hay, ascii_lowered(q))
}

/// Appends the characters of a string.
fn append_text(out: &mut Vec<char>, s: &String)
    ensures
        final(out)@ == old(out)@ + s@,
{
    let cs = chars_of(s.as_str());
    append_chars(out, &cs);
}

/// Appends the characters of an optional string, or nothing.
fn append_opt(out: &mut Vec<char>, o: &Option<String>)
    ensures
        final(out)@ == old(out)@ + match opt_text(*o) {
            Some(t) => t,
            None => Seq::empty(),
        },
{
    match o {
        Some(s) => append_text(out, s),
        None => {
            assert(old(out)@ + Seq::<char>::empty() == old(out)@);
        },
    }
}

/// Appends [`port_suffix`].
fn push_port_suffix(out: &mut Vec<char>, port: u16)
    ensures
        final(out)@ == old(out)@ + port_suffix(port),
{
    if port != 22 {
        out.push(':');
        let digits = decimal_chars(port as u64);
        append_chars(out, &digits);
    }
}

/// Appends ` via <jump>` when there is a jump.
fn push_jump_suffix(out: &mut Vec<char>, jump: &Option<String>)
    ensures
        final(out)@ == old(out)@ + match opt_text(*jump) {
            Some(j) => seq![' ', 'v', 'i', 'a', ' '] + j,
            None => Seq::<char>::empty(),
        },
{
    match jump {
        Some(j) => {
            out.push(' ');
            out.push('v');
            out.push('i');
            out.push('a');
            out.push(' ');
            append_text(out, j);
        },
        None => {},
    }
}

/// Appends ` [t1,t2,...]` when there are tags.
fn push_tags_suffix(out: &mut Vec<char>, tags: &Vec<String>)
    ensures
        final(out)@ == old(out)@ + if tags@.len() == 0 {
            Seq::<char>::empty()
        } else {
            seq![' ', '['] + join(texts(tags@), seq![',']) + seq![']']
        },
{
    if tags.len() != 0 {
        out.push(' ');
        out.push('[');
        let sep = vec![','];
        assert(sep@ == seq![',']);
        let joined = join_strings(tags, &sep);
        append_chars(out, &joined);
        out.push(']');
    }
}

impl Host {
    /// A field-by-field copy of the host.
    pub fn duplicate(&self) -> (res: Host)
        ensures
            res@ == self@,
    {
        Host {
            name: self.name.clone(),
            host: self.host.clone(),
            user: self.user.clone(),
            port: self.port,
            key: copy_opt(&self.key),
            group: copy_opt(&self.group),
            tags: copy_strings(&self.tags),
            jump: copy_opt(&self.jump),
            note: copy_opt(&self.note),
            extra: copy_strings(&self.extra),
            last_used: copy_opt(&self.last_used),
            use_count: self.use_count,
        }
    }

    /// The one-line listing of the host (see [`display_text`]).
    pub fn display_line(&self) -> (res: String)
        ensures
            res@ == display_text(self@),
    {
        let h = self;
        let mut out: Vec<char> = Vec::new();
        let mut grp: Vec<char> = Vec::new();
        append_opt(&mut grp, &h.group);
        assert(grp@ == group_text(h@));
        push_padded(&mut out, &grp, 12);
        out.push(' ');
        let name = chars_of(h.name.as_str());
        push_padded(&mut out, &name, 22);
        out.push(' ');
        append_text(&mut out, &h.user);
        out.push('@');
        append_text(&mut out, &h.host);
        push_port_suffix(&mut out, h.port);
        push_jump_suffix(&mut out, &h.jump);
        push_tags_suffix(&mut out, &h.tags);
        text_of(&out)
    }

    /// Whether the host matches a search query (see [`host_matches`]).
    pub fn matches(&self, q: &str) -> (res: bool)
        ensures
            res == host_matches(self@, q@),
            is_ascii_text(q@) ==> res == ascii_query_matches(lowercase(search_text(self@)), q@),
    {
        if q.is_empty() {
            return true;
        }
        let h = self;
        let mut hay: Vec<char> = Vec::new();
        append_text(&mut hay, &h.name);
        hay.push(' ');
        append_text(&mut hay, &h.host);
        hay.push(' ');
        append_text(&mut hay, &h.user);
        hay.push(' ');
        append_opt(&mut hay, &h.group);
        hay.push(' ');
        let sep = vec![' '];
        assert(sep@ == seq![' ']);
        let tags = join_strings(&h.tags, &sep);
        append_chars(&mut hay, &tags);
        assert(hay@ == search_text(h@));
        let qc = chars_of(q);
        let lq = lower_chars(&qc);
        let lh = lower_chars(&hay);
        find_text(&lh, &lq)
    }
}

} // verus!

verus! {

// ---------------------------------------------------------------------------
// Finding a host by name
// ---------------------------------------------------------------------------

/// Some saved host has this name.
pub open spec fn has_name(hosts: Seq<HostView>, name: Seq<char>) -> bool {
    exists|i: int| 0 <= i < hosts.len() && #[trigger] hosts[i].name == name
}

/// `i` is the first saved host with this name.
pub open spec fn is_first_named(hosts: Seq<HostView>, name: Seq<char>, i: int) -> bool {
    &&& 0 <= i < hosts.len()
    &&& hosts[i].name == name
    &&& forall|j: int| 0 <= j < i ==> #[trigger] hosts[j].name != name
}

/// The position of the first saved host with this name (meaningful when
/// [`has_name`] holds).
pub open spec fn first_named(hosts: Seq<HostView>, name: Seq<char>) -> int {
    choose|i: int| is_first_named(hosts, name, i)
}

/// A name that some host has is had first by exactly one position.
pub proof fn lemma_first_named(hosts: Seq<HostView>, name: Seq<char>, i: int)
    requires
        is_first_named(hosts, name, i),
    ensures
        first_named(hosts, name) == i,
{
    let k = first_named(hosts, name);
    assert(is_first_named(hosts, name, k));
    if k < i {
        assert(hosts[k].name != name);
    }
    if i < k {
        assert(hosts[i].name != name);
    }
}

/// The position of the first saved host named `name`, or `None` when no host
/// has that name.
pub fn find_host(cfg: &Config, name: &str) -> (res: Option<usize>)
    ensures
        match res {
            Some(i) => is_first_named(cfg@, name@, i as int),
            None => !has_name(cfg@, name@),
        },
{
    let wanted = chars_of(name);
    let n = cfg.hosts.len();
    let ghost hv = cfg@;
    for i in 0..n
        invariant
            n == cfg.hosts@.len(),
            hv == cfg@,
            wanted@ == name@,
            forall|k: int| 0 <= k < i ==> #[trigger] hv[k].name != name@,
    {
        let cur = chars_of(cfg.hosts[i].name.as_str());
        assert(hv[i as int] == cfg.hosts@[i as int]@);
        if same_text(&cur, &wanted) {
            return Some(i);
        }
    }
    None
}

} // verus!

verus! {

/// Typing more never shows more hosts: with an ASCII query `q` (for which
/// [`Host::matches`] is [`ascii_query_matches`] on the host's lowercase search
/// text `hay`), a host that matches `q` matches every part `q2` of it.
pub proof fn law_search_narrows(hay: Seq<char>, q: Seq<char>, q2: Seq<char>)
    requires
        is_ascii_text(q),
        contains_text(q, q2),
        ascii_query_matches(hay, q),
    ensures
        is_ascii_text(q2),
        ascii_query_matches(hay, q2),
{
    lemma_lowered_contains(q, q2);
    if q2.len() > 0 {
        if q.len() == 0 {
            let i = choose|i: int| occurs_at(q, q2, i);
            assert(false);
        }
        lemma_contains_trans(hay, ascii_lowered(q), ascii_lowered(q2));
    }
}

/// The empty query matches every host.
pub proof fn law_empty_query_matches(h: HostView)
    ensures
        host_matches(h, Seq::empty()),
{
}

} // verus!
