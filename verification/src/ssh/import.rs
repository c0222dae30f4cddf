//! Import from OpenSSH's `~/.ssh/config` and merging into the saved list.
//!
//! Understood keywords (case-insensitive): `Host`, `HostName`, `User`,
//! `Port`, `IdentityFile`, `ProxyJump`. A keyword ends at the first
//! whitespace or `=`; its value is the rest of the line, trimmed and without
//! surrounding double quotes. Wildcard `Host` patterns (with `*` or `?`) are
//! skipped; an entry without `HostName` takes its name as address, as OpenSSH
//! does. When a name occurs more than once, the last entry wins (OpenSSH's
//! "later overrides").
use vstd::prelude::*;
use crate::config::model::{default_user, hosts_view, Config, Host, HostView};
use crate::config::model::has_name;
use crate::text::{
    chars_of, copy_range, first_word, first_word_chars, has_char, lower_chars, lowercase,
    parse_port, parse_u16, run_from, run_len, same_text, split_on, strip, strip_chars, text_of,
    trim, trim_chars, CharClass, lemma_split_step,
};

verus! {

// ---------------------------------------------------------------------------
// The parser, as a fold over lines
// ---------------------------------------------------------------------------

/// Where the parser stands after some lines: the finished entries and the
/// entry being read, if any.
pub struct ImportState {
    pub hosts: Seq<HostView>,
    pub cur: Option<HostView>,
}

/// The group given to imported entries.
pub open spec fn import_group() -> Seq<char> {
    seq!['s', 's', 'h', '_', 'c', 'o', 'n', 'f', 'i', 'g']
}

/// A fresh entry for `Host <name>`: no address yet, user `root`, port 22,
/// group `ssh_config`.
pub open spec fn new_import_host(name: Seq<char>) -> HostView {
    HostView {
        name: name,
        host: Seq::empty(),
        user: seq!['r', 'o', 'o', 't'],
        port: 22,
        key: None,
        group: Some(import_group()),
        tags: Seq::empty(),
        jump: None,
        note: None,
        extra: Seq::empty(),
        last_used: None,
        use_count: 0,
    }
}

/// The finished entries, with the current one (if any) added.
pub open spec fn flush(st: ImportState) -> Seq<HostView> {
    match st.cur {
        Some(h) => st.hosts.push(h),
        None => st.hosts,
    }
}

/// The keyword of a line: everything before the first whitespace or `=`.
pub open spec fn line_key(line: Seq<char>) -> Seq<char> {
    line.take(run_len(line, CharClass::NotKeyEnd) as int)
}

/// What follows the character that ends the keyword (empty if none does).
pub open spec fn line_rest(line: Seq<char>) -> Seq<char> {
    let k = run_len(line, CharClass::NotKeyEnd);
    if k < line.len() {
        line.skip(k + 1 as int)
    } else {
        Seq::empty()
    }
}

/// The value of a line: the rest, trimmed, without surrounding quotes.
pub open spec fn line_value(line: Seq<char>) -> Seq<char> {
    strip(trim(line_rest(line)), CharClass::Quote)
}

pub open spec fn kw_host() -> Seq<char> {
    seq!['h', 'o', 's', 't']
}

pub open spec fn kw_hostname() -> Seq<char> {
    seq!['h', 'o', 's', 't', 'n', 'a', 'm', 'e']
}

pub open spec fn kw_user() -> Seq<char> {
    seq!['u', 's', 'e', 'r']
}

pub open spec fn kw_port() -> Seq<char> {
    seq!['p', 'o', 'r', 't']
}

pub open spec fn kw_identityfile() -> Seq<char> {
    seq!['i', 'd', 'e', 'n', 't', 'i', 't', 'y', 'f', 'i', 'l', 'e']
}

pub open spec fn kw_proxyjump() -> Seq<char> {
    seq!['p', 'r', 'o', 'x', 'y', 'j', 'u', 'm', 'p']
}

/// The entry after a `key value` line other than `Host`.
pub open spec fn apply_key(h: HostView, key: Seq<char>, val: Seq<char>) -> HostView {
    if key == kw_hostname() {
        HostView { host: val, ..h }
    } else if key == kw_user() {
        HostView { user: val, ..h }
    } else if key == kw_port() {
        HostView {
            port: match parse_u16(val) {
                Some(p) => p,
                None => 22,
            },
            ..h
        }
    } else if key == kw_identityfile() {
        HostView { key: Some(val), ..h }
    } else if key == kw_proxyjump() {
        HostView { jump: Some(val), ..h }
    } else {
        h
    }
}

/// One line of the file. Blank lines, comments and lines without a value
/// change nothing; `Host` finishes the current entry and starts a new one
/// (none for a wildcard pattern); other keywords fill the current entry.
pub open spec fn import_step(st: ImportState, raw: Seq<char>) -> ImportState {
    let line = trim(raw);
    if line.len() == 0 || line[0] == '#' {
        st
    } else {
        let key = lowercase(trim(line_key(line)));
        let val = line_value(line);
        if val.len() == 0 {
            st
        } else if key == kw_host() {
            let name = first_word(val);
            ImportState {
                hosts: flush(st),
                cur: if name.contains('*') || name.contains('?') {
                    None
                } else {
                    Some(new_import_host(name))
                },
            }
        } else {
            match st.cur {
                None => st,
                Some(h) => ImportState { hosts: st.hosts, cur: Some(apply_key(h, key, val)) },
            }
        }
    }
}

/// The state after a sequence of lines.
pub open spec fn import_lines(lines: Seq<Seq<char>>) -> ImportState
    decreases lines.len(),
{
    if lines.len() == 0 {
        ImportState { hosts: Seq::empty(), cur: None }
    } else {
        import_step(import_lines(lines.drop_last()), lines.last())
    }
}

/// An entry without an address takes its name as address.
pub open spec fn fill_host(h: HostView) -> HostView {
    if h.host.len() == 0 {
        HostView { host: h.name, ..h }
    } else {
        h
    }
}

/// No later entry has the same name as entry `i`.
pub open spec fn is_last_of_name(s: Seq<HostView>, i: int) -> bool {
    forall|j: int| i < j < s.len() ==> #[trigger] s[j].name != s[i].name
}

/// The entries among the first `k` that no later entry (of the whole list)
/// overrides, in order.
pub open spec fn keep_last_upto(s: Seq<HostView>, k: int) -> Seq<HostView>
    decreases k,
{
    if k <= 0 {
        Seq::empty()
    } else {
        let p = keep_last_upto(s, k - 1);
        if is_last_of_name(s, k - 1) {
            p.push(s[k - 1])
        } else {
            p
        }
    }
}

/// The entries of a list of which no later entry has the same name.
pub open spec fn keep_last(s: Seq<HostView>) -> Seq<HostView> {
    keep_last_upto(s, s.len() as int)
}

/// The entries found in the text of an OpenSSH config, before overriding.
pub open spec fn collected_hosts(text: Seq<char>) -> Seq<HostView> {
    flush(import_lines(split_on(text, '\n'))).map_values(|h: HostView| fill_host(h))
}

/// The entries imported from the text of an OpenSSH config (lines are split
/// at `\n`; a `\r` before it is whitespace and trimmed away).
pub open spec fn imported_hosts(text: Seq<char>) -> Seq<HostView> {
    keep_last(collected_hosts(text))
}

// ---------------------------------------------------------------------------
// The parser, executable
// ---------------------------------------------------------------------------

/// The parser's state while reading.
struct Importer {
    hosts: Vec<Host>,
    cur: Option<Host>,
}

/// The view of an optional host.
pub open spec fn opt_host(o: Option<Host>) -> Option<HostView> {
    match o {
        Some(h) => Some(h@),
        None => None,
    }
}

impl Importer {
    spec fn state(&self) -> ImportState {
        ImportState { hosts: hosts_view(self.hosts@), cur: opt_host(self.cur) }
    }
}

/// A new entry for `Host <name>` (see [`new_import_host`]).
fn make_import_host(name: &[char]) -> (res: Host)
    ensures
        res@ == new_import_host(name@),
{
    let g = vec!['s', 's', 'h', '_', 'c', 'o', 'n', 'f', 'i', 'g'];
    assert(g@ == import_group());
    let group = text_of(&g);
    let tags: Vec<String> = Vec::new();
    let extra: Vec<String> = Vec::new();
    assert(crate::text::texts(tags@) == Seq::<Seq<char>>::empty());
    assert(crate::text::texts(extra@) == Seq::<Seq<char>>::empty());
    Host {
        name: text_of(name),
        host: String::new(),
        user: default_user(),
        port: 22,
        key: None,
        group: Some(group),
        tags: tags,
        jump: None,
        note: None,
        extra: extra,
        last_used: None,
        use_count: 0,
    }
}

/// Finishes the current entry (see [`flush`]).
fn flush_into(hosts: &mut Vec<Host>, cur: Option<Host>)
    ensures
        hosts_view(final(hosts)@) == flush(ImportState { hosts: hosts_view(old(hosts)@), cur: opt_host(cur) }),
{
    match cur {
        Some(h) => {
            hosts.push(h);
            assert(hosts_view(hosts@) == hosts_view(old(hosts)@).push(h@));
        },
        None => {},
    }
}

/// Fills one keyword into an entry (see [`apply_key`]).
fn apply_key_exec(h: Host, key: &[char], val: &[char]) -> (res: Host)
    ensures
        res@ == apply_key(h@, key@, val@),
{
    let kw = vec!['h', 'o', 's', 't', 'n', 'a', 'm', 'e'];
    if same_text(key, &kw) {
        return Host { host: text_of(val), ..h };
    }
    let kw = vec!['u', 's', 'e', 'r'];
    if same_text(key, &kw) {
        return Host { user: text_of(val), ..h };
    }
    let kw = vec!['p', 'o', 'r', 't'];
    if same_text(key, &kw) {
        let port = match parse_port(val) {
            Some(p) => p,
            None => 22,
        };
        return Host { port: port, ..h };
    }
    let kw = vec!['i', 'd', 'e', 'n', 't', 'i', 't', 'y', 'f', 'i', 'l', 'e'];
    if same_text(key, &kw) {
        return Host { key: Some(text_of(val)), ..h };
    }
    let kw = vec!['p', 'r', 'o', 'x', 'y', 'j', 'u', 'm', 'p'];
    if same_text(key, &kw) {
        return Host { jump: Some(text_of(val)), ..h };
    }
    h
}

/// Reads one line (see [`import_step`]).
fn import_line(st: Importer, raw: &[char]) -> (res: Importer)
    ensures
        res.state() == import_step(st.state(), raw@),
{
    let line = trim_chars(raw);
    if line.len() == 0 || line[0] == '#' {
        return st;
    }
    let k = run_from(&line, 0, CharClass::NotKeyEnd);
    assert(line@.skip(0) == line@);
    let key_raw = copy_range(&line, 0, k);
    let rest = if k < line.len() {
        copy_range(&line, k + 1, line.len())
    } else {
        Vec::new()
    };
    assert(rest@ == line_rest(line@));
    let key_trim = trim_chars(&key_raw);
    let key = lower_chars(&key_trim);
    let rest_trim = trim_chars(&rest);
    let val = strip_chars(&rest_trim, CharClass::Quote);
    assert(val@ == line_value(line@));
    if val.len() == 0 {
        return st;
    }
    let kw = vec!['h', 'o', 's', 't'];
    if same_text(&key, &kw) {
        let name = first_word_chars(&val);
        let Importer { hosts, cur } = st;
        let mut hosts = hosts;
        flush_into(&mut hosts, cur);
        let wild = has_char(&name, '*') || has_char(&name, '?');
        let new_cur = if wild {
            None
        } else {
            Some(make_import_host(&name))
        };
        return Importer { hosts, cur: new_cur };
    }
    let Importer { hosts, cur } = st;
    match cur {
        None => Importer { hosts, cur: None },
        Some(h) => {
            let h2 = apply_key_exec(h, &key, &val);
            Importer { hosts, cur: Some(h2) }
        },
    }
}

/// Entries without an address take their name (see [`fill_host`]).
fn fill_all(hosts: Vec<Host>) -> (res: Vec<Host>)
    ensures
        hosts_view(res@) == hosts_view(hosts@).map_values(|h: HostView| fill_host(h)),
{
    let mut res: Vec<Host> = Vec::new();
    let n = hosts.len();
    for i in 0..n
        invariant
            n == hosts@.len(),
            hosts_view(res@) == hosts_view(hosts@.take(i as int)).map_values(
                |h: HostView| fill_host(h),
            ),
    {
        let h = hosts[i].duplicate();
        let h2 = if h.host.as_str().is_empty() {
            assert(h@.host.len() == 0);
            let nm = h.name.clone();
            Host { host: nm, ..h }
        } else {
            h
        };
        assert(h2@ == fill_host(hosts@[i as int]@));
        let ghost prev = hosts_view(res@);
        res.push(h2);
        proof {
            assert(hosts_view(res@) == prev.push(h2@));
            assert(hosts@.take(i + 1) == hosts@.take(i as int).push(hosts@[i as int]));
            assert(hosts_view(hosts@.take(i + 1)) == hosts_view(hosts@.take(i as int)).push(
                hosts@[i as int]@,
            ));
            assert(hosts_view(hosts@.take(i + 1)).map_values(|h: HostView| fill_host(h))
                == hosts_view(hosts@.take(i as int)).map_values(|h: HostView| fill_host(h)).push(
                fill_host(hosts@[i as int]@),
            ));
        }
    }
    assert(hosts@.take(n as int) == hosts@);
    res
}

/// Whether the entry at `i` is the last with its name.
fn last_of_name(hosts: &Vec<Host>, i: usize) -> (res: bool)
    requires
        i < hosts@.len(),
    ensures
        res == is_last_of_name(hosts_view(hosts@), i as int),
{
    let n = hosts.len();
    let mut j = i + 1;
    let ghost hv = hosts_view(hosts@);
    while j < n
        invariant
            i < j <= n == hosts@.len() == hv.len(),
            hv == hosts_view(hosts@),
            forall|t: int| i < t < j ==> #[trigger] hv[t].name != hv[i as int].name,
        decreases n - j,
    {
        if hosts[j].name == hosts[i].name {
            assert(hv[j as int].name == hv[i as int].name);
            return false;
        }
        j = j + 1;
    }
    true
}

/// Keeps the entries that no later entry overrides (see [`keep_last`]).
fn keep_last_exec(hosts: &Vec<Host>) -> (res: Vec<Host>)
    ensures
        hosts_view(res@) == keep_last(hosts_view(hosts@)),
{
    let mut res: Vec<Host> = Vec::new();
    let n = hosts.len();
    let ghost hv = hosts_view(hosts@);
    for i in 0..n
        invariant
            n == hosts@.len() == hv.len(),
            hv == hosts_view(hosts@),
            hosts_view(res@) == keep_last_upto(hv, i as int),
    {
        if last_of_name(hosts, i) {
            let h = hosts[i].duplicate();
            res.push(h);
            assert(hosts_view(res@) == keep_last_upto(hv, i as int).push(hv[i as int]));
        }
    }
    res
}

/// Parses the text of an OpenSSH client config into entries (see
/// [`imported_hosts`]).
pub fn parse_ssh_config_text(text: &str) -> (res: Vec<Host>)
    ensures
        hosts_view(res@) == imported_hosts(text@),
{
    let cs = chars_of(text);
    let n = cs.len();
    let mut st = Importer { hosts: Vec::new(), cur: None };
    let mut line: Vec<char> = Vec::new();
    proof {
        assert(cs@.take(0) == Seq::<char>::empty());
        assert(split_on(cs@.take(0), '\n') == seq![Seq::<char>::empty()]);
        assert(split_on(cs@.take(0), '\n').drop_last() == Seq::<Seq<char>>::empty());
        assert(hosts_view(st.hosts@) == Seq::<HostView>::empty());
    }
    for i in 0..n
        invariant
            n == cs@.len(),
            split_on(cs@.take(i as int), '\n').len() >= 1,
            st.state() == import_lines(split_on(cs@.take(i as int), '\n').drop_last()),
            line@ == split_on(cs@.take(i as int), '\n').last(),
    {
        proof {
            lemma_split_step(cs@, i as int, '\n');
        }
        let ghost p = split_on(cs@.take(i as int), '\n');
        if cs[i] == '\n' {
            st = import_line(st, &line);
            line = Vec::new();
            proof {
                assert(p.drop_last().push(p.last()) == p);
                assert(import_lines(p) == import_step(import_lines(p.drop_last()), p.last()));
                assert(split_on(cs@.take(i + 1), '\n').drop_last() == p);
            }
        } else {
            line.push(cs[i]);
            proof {
                assert(split_on(cs@.take(i + 1), '\n').drop_last() == p.drop_last());
            }
        }
    }
    let ghost all = split_on(cs@.take(n as int), '\n');
    assert(cs@.take(n as int) == cs@);
    st = import_line(st, &line);
    proof {
        assert(all.drop_last().push(all.last()) == all);
        assert(import_lines(all) == import_step(import_lines(all.drop_last()), all.last()));
    }
    let Importer { hosts, cur } = st;
    let mut hosts = hosts;
    flush_into(&mut hosts, cur);
    let filled = fill_all(hosts);
    keep_last_exec(&filled)
}

// ---------------------------------------------------------------------------
// Merging into the saved list
// ---------------------------------------------------------------------------

/// The incoming entries whose names no existing entry has, in order.
pub open spec fn fresh_hosts(existing: Seq<HostView>, incoming: Seq<HostView>) -> Seq<HostView>
    decreases incoming.len(),
{
    if incoming.len() == 0 {
        Seq::empty()
    } else {
        let p = fresh_hosts(existing, incoming.drop_last());
        if has_name(existing, incoming.last().name) {
            p
        } else {
            p.push(incoming.last())
        }
    }
}

/// Whether one of the first `upto` hosts has this name.
fn name_taken(hosts: &Vec<Host>, upto: usize, name: &String) -> (res: bool)
    requires
        upto <= hosts@.len(),
    ensures
        res == has_name(hosts_view(hosts@.take(upto as int)), name@),
{
    let ghost hv = hosts_view(hosts@.take(upto as int));
    for i in 0..upto
        invariant
            upto <= hosts@.len(),
            hv == hosts_view(hosts@.take(upto as int)),
            hv.len() == upto,
            forall|t: int| 0 <= t < i ==> #[trigger] hv[t].name != name@,
    {
        assert(hv[i as int] == hosts@[i as int]@);
        if hosts[i].name == *name {
            assert(hv[i as int].name == name@);
            return true;
        }
    }
    false
}

/// Appends the incoming entries whose names are not saved yet; returns how
/// many were added and how many were skipped. Names are compared with the
/// entries saved before the call only, so two incoming entries of one new
/// name are both added.
pub fn merge_into(cfg: &mut Config, incoming: Vec<Host>) -> (res: (usize, usize))
    ensures
        final(cfg)@ == old(cfg)@ + fresh_hosts(old(cfg)@, hosts_view(incoming@)),
        res.0 == fresh_hosts(old(cfg)@, hosts_view(incoming@)).len(),
        res.0 + res.1 == incoming@.len(),
{
    let mut added: usize = 0;
    let mut skipped: usize = 0;
    let base = cfg.hosts.len();
    let ghost old_view = cfg@;
    let ghost inc = hosts_view(incoming@);
    let n = incoming.len();
    assert(cfg.hosts@.take(base as int) == cfg.hosts@);
    for i in 0..n
        invariant
            n == incoming@.len() == inc.len(),
            inc == hosts_view(incoming@),
            base == old_view.len(),
            base <= cfg.hosts@.len(),
            hosts_view(cfg.hosts@.take(base as int)) == old_view,
            cfg@ == old_view + fresh_hosts(old_view, inc.take(i as int)),
            added == fresh_hosts(old_view, inc.take(i as int)).len(),
            added + skipped == i,
    {
        assert(inc.take(i + 1).drop_last() == inc.take(i as int));
        assert(inc.take(i + 1).last() == incoming@[i as int]@);
        let taken = name_taken(&cfg.hosts, base, &incoming[i].name);
        if taken {
            skipped = skipped + 1;
            assert(has_name(old_view, inc.take(i + 1).last().name));
        } else {
            let h = incoming[i].duplicate();
            let ghost prev = cfg.hosts@;
            cfg.hosts.push(h);
            added = added + 1;
            proof {
                assert(cfg.hosts@.take(base as int) =~= prev.take(base as int));
                assert(hosts_view(cfg.hosts@) == hosts_view(prev).push(inc[i as int]));
                assert(!has_name(old_view, inc.take(i + 1).last().name));
                assert(fresh_hosts(old_view, inc.take(i + 1)) == fresh_hosts(
                    old_view,
                    inc.take(i as int),
                ).push(inc[i as int]));
            }
        }
    }
    assert(inc.take(n as int) == inc);
    (added, skipped)
}

} // verus!

verus! {

// ---------------------------------------------------------------------------
// Laws of the importer and of merging
// ---------------------------------------------------------------------------

/// `x` is one of the first `k` entries of `s` that no later entry overrides.
pub open spec fn came_from(s: Seq<HostView>, x: HostView, k: int) -> bool {
    exists|i: int| 0 <= i < k && x == s[i] && #[trigger] is_last_of_name(s, i)
}

/// Every entry of `r` came from the first `k` entries of `s` (see
/// [`came_from`]).
pub open spec fn kept_from(s: Seq<HostView>, r: Seq<HostView>, k: int) -> bool {
    forall|a: int| 0 <= a < r.len() ==> came_from(s, #[trigger] r[a], k)
}

proof fn lemma_kept_from_mono(s: Seq<HostView>, r: Seq<HostView>, k1: int, k2: int)
    requires
        kept_from(s, r, k1),
        k1 <= k2,
    ensures
        kept_from(s, r, k2),
{
    assert forall|a: int| 0 <= a < r.len() implies came_from(s, #[trigger] r[a], k2) by {
        assert(came_from(s, r[a], k1));
        let i = choose|i: int| 0 <= i < k1 && r[a] == s[i] && #[trigger] is_last_of_name(s, i);
        assert(0 <= i < k2 && r[a] == s[i] && is_last_of_name(s, i));
    }
}

/// What keeping the last entries of the first `k` entries yields: entries of
/// the list, each the last of its name, with distinct names; and every such
/// entry is kept.
proof fn lemma_keep_last_upto(s: Seq<HostView>, k: int)
    requires
        0 <= k <= s.len(),
    ensures
        kept_from(s, keep_last_upto(s, k), k),
        forall|i: int|
            0 <= i < k && #[trigger] is_last_of_name(s, i) ==> keep_last_upto(s, k).contains(s[i]),
        forall|a: int, b: int|
            0 <= a < b < keep_last_upto(s, k).len() ==> #[trigger] keep_last_upto(s, k)[a].name
                != #[trigger] keep_last_upto(s, k)[b].name,
    decreases k,
{
    if k > 0 {
        lemma_keep_last_upto(s, k - 1);
        let p = keep_last_upto(s, k - 1);
        let r = keep_last_upto(s, k);
        if is_last_of_name(s, k - 1) {
            assert(r == p.push(s[k - 1]));
            assert forall|a: int| 0 <= a < r.len() implies came_from(s, #[trigger] r[a], k) by {
                if a < p.len() {
                    assert(r[a] == p[a]);
                    assert(came_from(s, p[a], k - 1));
                    let i = choose|i: int|
                        0 <= i < k - 1 && p[a] == s[i] && #[trigger] is_last_of_name(s, i);
                    assert(0 <= i < k && r[a] == s[i] && is_last_of_name(s, i));
                } else {
                    assert(r[a] == s[k - 1]);
                    assert(0 <= k - 1 < k && r[a] == s[k - 1] && is_last_of_name(s, k - 1));
                }
            }
            assert forall|i: int| 0 <= i < k && #[trigger] is_last_of_name(s, i) implies r.contains(
                s[i],
            ) by {
                if i < k - 1 {
                    assert(p.contains(s[i]));
                    let j = choose|j: int| 0 <= j < p.len() && p[j] == s[i];
                    assert(r[j] == p[j]);
                } else {
                    assert(r[p.len() as int] == s[i]);
                }
            }
            assert forall|a: int, b: int|
                0 <= a < b < r.len() implies #[trigger] r[a].name != #[trigger] r[b].name by {
                if b < p.len() {
                    assert(r[a] == p[a] && r[b] == p[b]);
                } else {
                    assert(r[a] == p[a] && r[b] == s[k - 1]);
                    assert(came_from(s, p[a], k - 1));
                    let i = choose|i: int|
                        0 <= i < k - 1 && p[a] == s[i] && #[trigger] is_last_of_name(s, i);
                    assert(s[k - 1].name != s[i].name);
                }
            }
        } else {
            assert(r == p);
            lemma_kept_from_mono(s, p, k - 1, k);
        }
    } else {
        assert(keep_last_upto(s, k).len() == 0);
    }
}

/// Imported entries have distinct names.
pub proof fn law_import_names_unique(text: Seq<char>)
    ensures
        forall|a: int, b: int|
            0 <= a < b < imported_hosts(text).len() ==> #[trigger] imported_hosts(text)[a].name
                != #[trigger] imported_hosts(text)[b].name,
{
    let s = collected_hosts(text);
    lemma_keep_last_upto(s, s.len() as int);
}

/// Later entries override earlier ones: every imported entry is the last
/// entry of its name in the file, and the last entry of every name is
/// imported.
pub proof fn law_import_later_overrides(text: Seq<char>)
    ensures
        kept_from(collected_hosts(text), imported_hosts(text), collected_hosts(text).len() as int),
        forall|i: int|
            0 <= i < collected_hosts(text).len() && #[trigger] is_last_of_name(
                collected_hosts(text),
                i,
            ) ==> imported_hosts(text).contains(collected_hosts(text)[i]),
{
    let s = collected_hosts(text);
    lemma_keep_last_upto(s, s.len() as int);
}

/// The name on a `Host` line (the first word of its value); `None` for every
/// other line: blank lines, comments, lines without a value and other
/// keywords.
pub open spec fn host_line_name(raw: Seq<char>) -> Option<Seq<char>> {
    let line = trim(raw);
    if line.len() == 0 || line[0] == '#' {
        None
    } else if line_value(line).len() > 0 && lowercase(trim(line_key(line))) == kw_host() {
        Some(first_word(line_value(line)))
    } else {
        None
    }
}

/// A `Host` pattern with a wildcard.
pub open spec fn is_wildcard(name: Seq<char>) -> bool {
    name.contains('*') || name.contains('?')
}

/// After a wildcard `Host` line and any lines that are not `Host` lines, no
/// entry is open and the finished entries are those before the wildcard line
/// plus the entry it closed.
proof fn lemma_after_wildcard(lines: Seq<Seq<char>>, w: Seq<char>, rest: Seq<Seq<char>>)
    requires
        host_line_name(w) matches Some(n) && is_wildcard(n),
        forall|i: int| 0 <= i < rest.len() ==> host_line_name(#[trigger] rest[i]) is None,
    ensures
        import_lines(lines.push(w) + rest) == (ImportState {
            hosts: flush(import_lines(lines)),
            cur: None,
        }),
    decreases rest.len(),
{
    if rest.len() == 0 {
        assert(lines.push(w) + rest == lines.push(w));
        assert(lines.push(w).drop_last() == lines);
    } else {
        let init = rest.drop_last();
        assert forall|i: int| 0 <= i < init.len() implies host_line_name(#[trigger] init[i]) is None by {
            assert(init[i] == rest[i]);
        }
        lemma_after_wildcard(lines, w, init);
        assert((lines.push(w) + rest).drop_last() == lines.push(w) + init);
        assert((lines.push(w) + rest).last() == rest.last());
        assert(host_line_name(rest[rest.len() - 1]) is None);
    }
}

/// A wildcard `Host` line finishes the entry being read, and the keywords
/// that follow it, up to the next `Host` line, reach no entry: the finished
/// entries are the same as if those lines were not there.
pub proof fn law_wildcard_host_closes(lines: Seq<Seq<char>>, w: Seq<char>, rest: Seq<Seq<char>>)
    requires
        host_line_name(w) matches Some(n) && is_wildcard(n),
        forall|i: int| 0 <= i < rest.len() ==> host_line_name(#[trigger] rest[i]) is None,
    ensures
        flush(import_lines(lines.push(w) + rest)) == flush(import_lines(lines)),
{
    lemma_after_wildcard(lines, w, rest);
}

/// The same for whole texts: appending a wildcard `Host` line (after a line
/// break) and a block without `Host` lines imports the same entries.
pub proof fn law_wildcard_block_ignored(t: Seq<char>, w: Seq<char>, u: Seq<char>)
    requires
        host_line_name(w) matches Some(n) && is_wildcard(n),
        !w.contains('\n'),
        forall|i: int|
            0 <= i < split_on(u, '\n').len() ==> host_line_name(#[trigger] split_on(u, '\n')[i]) is None,
    ensures
        imported_hosts(t.push('\n') + w.push('\n') + u) == imported_hosts(t),
{
    crate::text::lemma_split_concat(t, w.push('\n') + u, '\n');
    crate::text::lemma_split_concat(w, u, '\n');
    crate::text::lemma_split_no_sep(w, '\n');
    assert(t.push('\n') + w.push('\n') + u == t.push('\n') + (w.push('\n') + u));
    let lines = split_on(t, '\n');
    let rest = split_on(u, '\n');
    assert(split_on(t.push('\n') + w.push('\n') + u, '\n') == lines.push(w) + rest);
    law_wildcard_host_closes(lines, w, rest);
}

/// An entry as the importer makes it: group `ssh_config`, a name without
/// wildcards.
pub open spec fn import_entry_ok(h: HostView) -> bool {
    &&& h.group == Some(import_group())
    &&& !h.name.contains('*')
    &&& !h.name.contains('?')
}

/// The parser's state holds only such entries.
pub open spec fn import_state_ok(st: ImportState) -> bool {
    &&& forall|i: int| 0 <= i < st.hosts.len() ==> import_entry_ok(#[trigger] st.hosts[i])
    &&& st.cur matches Some(h) ==> import_entry_ok(h)
}

proof fn lemma_import_lines_ok(lines: Seq<Seq<char>>)
    ensures
        import_state_ok(import_lines(lines)),
    decreases lines.len(),
{
    if lines.len() > 0 {
        lemma_import_lines_ok(lines.drop_last());
        let st = import_lines(lines.drop_last());
        let h = flush(st);
        assert forall|i: int| 0 <= i < h.len() implies import_entry_ok(#[trigger] h[i]) by {
            if i < st.hosts.len() {
                assert(h[i] == st.hosts[i]);
            }
        }
    }
}

/// Every imported entry has the group `ssh_config` and a name without `*` or
/// `?`, and an address: its `HostName`, or else its name.
pub proof fn law_import_entries_ok(text: Seq<char>)
    ensures
        forall|a: int|
            0 <= a < imported_hosts(text).len() ==> {
                let h = #[trigger] imported_hosts(text)[a];
                &&& h.host.len() > 0 || h.host == h.name
                &&& import_entry_ok(h)
            },
{
    let lines = split_on(text, '\n');
    lemma_import_lines_ok(lines);
    let st = import_lines(lines);
    let f = flush(st);
    assert forall|i: int| 0 <= i < f.len() implies import_entry_ok(#[trigger] f[i]) by {
        if i < st.hosts.len() {
            assert(f[i] == st.hosts[i]);
        }
    }
    let s = collected_hosts(text);
    assert forall|i: int| 0 <= i < s.len() implies import_entry_ok(#[trigger] s[i]) && (s[i].host.len() > 0
        || s[i].host == s[i].name) by {
        assert(s[i] == fill_host(f[i]));
    }
    lemma_keep_last_upto(s, s.len() as int);
    assert forall|a: int| 0 <= a < imported_hosts(text).len() implies ({
        let h = #[trigger] imported_hosts(text)[a];
        &&& h.host.len() > 0 || h.host == h.name
        &&& import_entry_ok(h)
    }) by {
        assert(came_from(s, imported_hosts(text)[a], s.len() as int));
        let i = choose|i: int|
            0 <= i < s.len() && imported_hosts(text)[a] == s[i] && #[trigger] is_last_of_name(s, i);
        assert(import_entry_ok(s[i]) && (s[i].host.len() > 0 || s[i].host == s[i].name));
    }
}

/// After a merge every incoming name is saved: either it was already, or its
/// entry was appended.
proof fn lemma_fresh_covers(existing: Seq<HostView>, incoming: Seq<HostView>)
    ensures
        forall|i: int|
            0 <= i < incoming.len() ==> has_name(
                existing + fresh_hosts(existing, incoming),
                #[trigger] incoming[i].name,
            ),
    decreases incoming.len(),
{
    if incoming.len() > 0 {
        let init = incoming.drop_last();
        lemma_fresh_covers(existing, init);
        let p = fresh_hosts(existing, init);
        let m = existing + fresh_hosts(existing, incoming);
        assert forall|i: int| 0 <= i < incoming.len() implies has_name(
            m,
            #[trigger] incoming[i].name,
        ) by {
            if i < init.len() {
                assert(init[i] == incoming[i]);
                assert(has_name(existing + p, init[i].name));
                let j = choose|j: int|
                    0 <= j < (existing + p).len() && #[trigger] (existing + p)[j].name == init[i].name;
                assert(m[j] == (existing + p)[j]);
            } else if has_name(existing, incoming.last().name) {
                let j = choose|j: int|
                    0 <= j < existing.len() && #[trigger] existing[j].name == incoming.last().name;
                assert(m[j] == existing[j]);
            } else {
                assert(m[m.len() - 1] == incoming.last());
            }
        }
    }
}

/// A list all of whose names are saved adds nothing.
proof fn lemma_fresh_none(existing: Seq<HostView>, incoming: Seq<HostView>)
    requires
        forall|i: int| 0 <= i < incoming.len() ==> has_name(existing, #[trigger] incoming[i].name),
    ensures
        fresh_hosts(existing, incoming) == Seq::<HostView>::empty(),
    decreases incoming.len(),
{
    if incoming.len() > 0 {
        let init = incoming.drop_last();
        assert forall|i: int| 0 <= i < init.len() implies has_name(existing, #[trigger] init[i].name) by {
            assert(init[i] == incoming[i]);
        }
        lemma_fresh_none(existing, init);
        assert(has_name(existing, incoming[incoming.len() - 1].name));
    }
}

/// Importing the same entries twice adds nothing the second time.
pub proof fn law_merge_idempotent(existing: Seq<HostView>, incoming: Seq<HostView>)
    ensures
        fresh_hosts(existing + fresh_hosts(existing, incoming), incoming) == Seq::<HostView>::empty(),
{
    lemma_fresh_covers(existing, incoming);
    lemma_fresh_none(existing + fresh_hosts(existing, incoming), incoming);
}

/// After a merge every incoming name is among the saved hosts.
pub proof fn law_merge_covers(existing: Seq<HostView>, incoming: Seq<HostView>)
    ensures
        forall|i: int|
            0 <= i < incoming.len() ==> has_name(
                existing + fresh_hosts(existing, incoming),
                #[trigger] incoming[i].name,
            ),
{
    lemma_fresh_covers(existing, incoming);
}

} // verus!
