//! The `ssh` command line for a saved host: identity file, port, ProxyJump
//! resolution, extra flags and the destination.
use vstd::prelude::*;
use crate::config::model::{
    first_named, has_name, is_first_named, lemma_first_named, opt_text, port_suffix, Config, Host,
    HostView,
};
use crate::text::{append_chars, chars_of, copy_range, decimal, decimal_chars, text_of, texts};

verus! {

// ---------------------------------------------------------------------------
// Home directory and `~` expansion
// ---------------------------------------------------------------------------

/// `dirs::home_dir()`, as text (lossy where the path is not UTF-8).
/// It reads the environment (`$HOME`, or the password database; the user
/// profile folder on Windows), so nothing is stated of what comes back.
#[verifier::external_body]
fn home_dir_text() -> Option<String> {
    match dirs::home_dir() {
        Some(p) => Some(p.to_string_lossy().into_owned()),
        None => None,
    }
}

/// What std's `Path::join` gives for a base directory and a relative path
/// (`rest` replaces `base` if it is absolute; otherwise the two are joined
/// with the platform separator), as text.
pub uninterp spec fn joined_path(base: Seq<char>, rest: Seq<char>) -> Seq<char>;

/// std `Path::new(base).join(rest)`, as text.
#[verifier::external_body]
fn join_path(base: &str, rest: &str) -> (res: String)
    ensures
        res@ == joined_path(base@, rest@),
{
    std::path::Path::new(base).join(rest).to_string_lossy().into_owned()
}

/// `p` starts with `~/`.
pub open spec fn starts_home_slash(p: Seq<char>) -> bool {
    p.len() >= 2 && p[0] == '~' && p[1] == '/'
}

/// `p` names the home directory or a path under it (`~` or `~/...`).
pub open spec fn uses_home(p: Seq<char>) -> bool {
    starts_home_slash(p) || p == seq!['~']
}

/// `~/rest` becomes `home` joined with `rest`, `~` becomes `home`; anything
/// else, or any path when the home directory is unknown, is left as it is.
pub open spec fn expand_home(p: Seq<char>, home: Option<Seq<char>>) -> Seq<char> {
    match home {
        Some(h) => if starts_home_slash(p) {
            joined_path(h, p.skip(2))
        } else if p == seq!['~'] {
            h
        } else {
            p
        },
        None => p,
    }
}

/// Tilde expansion against a given home directory (see [`expand_home`]).
pub fn expand_tilde_with(p: &str, home: &Option<String>) -> (res: String)
    ensures
        res@ == expand_home(p@, opt_text(*home)),
{
    let cs = chars_of(p);
    match home {
        Some(h) => {
            if cs.len() >= 2 && cs[0] == '~' && cs[1] == '/' {
                let rest = text_of(&copy_range(&cs, 2, cs.len()));
                return join_path(h.as_str(), rest.as_str());
            }
            if cs.len() == 1 && cs[0] == '~' {
                assert(cs@ == seq!['~']);
                return h.clone();
            }
            assert(cs@ != seq!['~']);
            text_of(&cs)
        },
        None => text_of(&cs),
    }
}

/// Tilde expansion against the current user's home directory: the result is
/// the expansion against whatever home directory was found (or none).
/// A path that is neither `~` nor under `~/` comes back unchanged.
pub fn expand_tilde(p: &str) -> (res: String)
    ensures
        exists|home: Option<Seq<char>>| res@ == expand_home(p@, home),
        !uses_home(p@) ==> res@ == p@,
{
    let cs = chars_of(p);
    let wanted = cs.len() >= 1 && cs[0] == '~';
    let home = if wanted {
        home_dir_text()
    } else {
        None
    };
    let res = expand_tilde_with(p, &home);
    assert(res@ == expand_home(p@, opt_text(home)));
    res
}

// ---------------------------------------------------------------------------
// ProxyJump resolution
// ---------------------------------------------------------------------------

/// `user@host`, with `:port` when the port is not 22: how a saved host is
/// given to `-J`.
pub open spec fn jump_destination(h: HostView) -> Seq<char> {
    h.user + seq!['@'] + h.host + port_suffix(h.port)
}

/// What `-J` receives for a jump name: the destination of the first saved
/// host of that name, or the name itself (it may be an alias of
/// `~/.ssh/config`).
pub open spec fn jump_arg(hosts: Seq<HostView>, j: Seq<char>) -> Seq<char> {
    if has_name(hosts, j) {
        jump_destination(hosts[first_named(hosts, j)])
    } else {
        j
    }
}

// ---------------------------------------------------------------------------
// The argument vector
// ---------------------------------------------------------------------------

/// `-i <key>` (expanded) when the host has a key.
pub open spec fn key_args(t: HostView, home: Option<Seq<char>>) -> Seq<Seq<char>> {
    match t.key {
        Some(k) => seq![seq!['-', 'i'], expand_home(k, home)],
        None => Seq::empty(),
    }
}

/// `-p <port>` when the port is not 22.
pub open spec fn port_args(t: HostView) -> Seq<Seq<char>> {
    if t.port != 22 {
        seq![seq!['-', 'p'], decimal(t.port as nat)]
    } else {
        Seq::empty()
    }
}

/// `-J <jump>` when the host jumps through another.
pub open spec fn jump_args(hosts: Seq<HostView>, t: HostView) -> Seq<Seq<char>> {
    match t.jump {
        Some(j) => seq![seq!['-', 'J'], jump_arg(hosts, j)],
        None => Seq::empty(),
    }
}

/// The destination `user@host`.
pub open spec fn destination(t: HostView) -> Seq<char> {
    t.user + seq!['@'] + t.host
}

/// The `ssh` arguments for `t`: key, port and jump options, the extra
/// arguments as they are, and the destination last.
pub open spec fn ssh_args(hosts: Seq<HostView>, t: HostView, home: Option<Seq<char>>) -> Seq<
    Seq<char>,
> {
    key_args(t, home) + port_args(t) + jump_args(hosts, t) + t.extra + seq![destination(t)]
}

/// The host's key needs the home directory to be expanded.
pub open spec fn key_uses_home(t: HostView) -> bool {
    match t.key {
        Some(k) => uses_home(k),
        None => false,
    }
}

/// Pushes a string.
fn push_string(out: &mut Vec<String>, s: String)
    ensures
        texts(final(out)@) == texts(old(out)@).push(s@),
{
    out.push(s);
    assert(texts(out@) == texts(old(out)@).push(s@));
}

/// Pushes a string built from characters.
fn push_text(out: &mut Vec<String>, cs: &[char])
    ensures
        texts(final(out)@) == texts(old(out)@).push(cs@),
{
    let s = text_of(cs);
    out.push(s);
    assert(texts(out@) == texts(old(out)@).push(cs@));
}

/// The `-J` argument for a jump name (see [`jump_arg`]).
pub fn jump_target(cfg: &Config, j: &String) -> (res: Vec<char>)
    ensures
        res@ == jump_arg(cfg@, j@),
{
    let n = cfg.hosts.len();
    let ghost hv = cfg@;
    assert(hv.len() == n);
    for i in 0..n
        invariant
            n == cfg.hosts@.len(),
            hv == cfg@,
            hv.len() == n,
            forall|k: int| 0 <= k < i ==> #[trigger] hv[k].name != j@,
    {
        let h = &cfg.hosts[i];
        assert(hv[i as int] == h@);
        if h.name == *j {
            proof {
                assert(is_first_named(hv, j@, i as int));
                lemma_first_named(hv, j@, i as int);
                assert(has_name(hv, j@));
            }
            let mut out = chars_of(h.user.as_str());
            out.push('@');
            let hc = chars_of(h.host.as_str());
            append_chars(&mut out, &hc);
            let ghost before = out@;
            if h.port != 22 {
                out.push(':');
                let d = decimal_chars(h.port as u64);
                append_chars(&mut out, &d);
            }
            assert(out@ == before + port_suffix(h.port));
            return out;
        }
    }
    assert(!has_name(hv, j@));
    chars_of(j.as_str())
}

/// The `ssh` argument vector for `target` with the given home directory (see
/// [`ssh_args`]).
pub fn build_ssh_args_with_home(cfg: &Config, target: &Host, home: &Option<String>) -> (res: Vec<
    String,
>)
    ensures
        texts(res@) == ssh_args(cfg@, target@, opt_text(*home)),
{
    let t = target;
    let mut args: Vec<String> = Vec::new();
    let ghost tv = t@;
    let ghost hv = cfg@;
    match &t.key {
        Some(k) => {
            let expanded = expand_tilde_with(k.as_str(), home);
            let flag = vec!['-', 'i'];
            push_text(&mut args, &flag);
            push_string(&mut args, expanded);
        },
        None => {},
    }
    assert(texts(args@) == key_args(tv, opt_text(*home)));
    let ghost after_key = texts(args@);
    if t.port != 22 {
        let flag = vec!['-', 'p'];
        push_text(&mut args, &flag);
        let d = decimal_chars(t.port as u64);
        push_text(&mut args, &d);
    }
    assert(texts(args@) == after_key + port_args(tv));
    let ghost after_port = texts(args@);
    match &t.jump {
        Some(j) => {
            let flag = vec!['-', 'J'];
            push_text(&mut args, &flag);
            let arg = jump_target(cfg, j);
            push_text(&mut args, &arg);
        },
        None => {},
    }
    assert(texts(args@) == after_port + jump_args(hv, tv));
    let ghost after_jump = texts(args@);
    let n = t.extra.len();
    for i in 0..n
        invariant
            n == t.extra@.len(),
            tv == t@,
            texts(args@) == after_jump + texts(t.extra@.take(i as int)),
    {
        push_string(&mut args, t.extra[i].clone());
        assert(texts(t.extra@.take(i + 1)) == texts(t.extra@.take(i as int)).push(t.extra@[i as int]@));
    }
    assert(t.extra@.take(n as int) == t.extra@);
    let mut dest = chars_of(t.user.as_str());
    dest.push('@');
    let hc = chars_of(t.host.as_str());
    append_chars(&mut dest, &hc);
    assert(dest@ == destination(tv));
    push_text(&mut args, &dest);
    assert(texts(args@) == key_args(tv, opt_text(*home)) + port_args(tv) + jump_args(hv, tv)
        + tv.extra + seq![destination(tv)]);
    args
}

/// The `ssh` argument vector for `target`, expanding `~` in its key against
/// the current user's home directory. The result is [`ssh_args`] for
/// whatever home directory was found; when the key does not use `~`, it is
/// exact.
pub fn build_ssh_args(cfg: &Config, target: &Host) -> (res: Vec<String>)
    ensures
        exists|home: Option<Seq<char>>| texts(res@) == ssh_args(cfg@, target@, home),
        !key_uses_home(target@) ==> texts(res@) == ssh_args(cfg@, target@, None),
{
    let wanted = match &target.key {
        Some(k) => {
            let cs = chars_of(k.as_str());
            cs.len() >= 1 && cs[0] == '~'
        },
        None => false,
    };
    let home = if wanted {
        home_dir_text()
    } else {
        None
    };
    let res = build_ssh_args_with_home(cfg, target, &home);
    assert(texts(res@) == ssh_args(cfg@, target@, opt_text(home)));
    proof {
        if !key_uses_home(target@) {
            assert(key_args(target@, opt_text(home)) == key_args(target@, None));
        }
    }
    res
}

} // verus!

verus! {

/// The destination `user@host` is always the last argument.
pub proof fn law_destination_last(hosts: Seq<HostView>, t: HostView, home: Option<Seq<char>>)
    ensures
        ssh_args(hosts, t, home).last() == t.user + seq!['@'] + t.host,
{
}

/// ProxyJump resolution: a jump naming a saved host goes to the first host
/// of that name as `user@host[:port]`; any other name is passed to `-J`
/// unchanged.
pub proof fn law_jump_resolution(hosts: Seq<HostView>, j: Seq<char>)
    ensures
        forall|i: int| is_first_named(hosts, j, i) ==> jump_arg(hosts, j) == jump_destination(hosts[i]),
        !has_name(hosts, j) ==> jump_arg(hosts, j) == j,
{
    assert forall|i: int| is_first_named(hosts, j, i) implies jump_arg(hosts, j) == jump_destination(
        hosts[i],
    ) by {
        lemma_first_named(hosts, j, i);
    }
}

/// A key outside the home directory is passed as it is, whatever the home
/// directory.
pub proof fn law_plain_key_unchanged(k: Seq<char>, home: Option<Seq<char>>)
    requires
        !uses_home(k),
    ensures
        expand_home(k, home) == k,
{
}

} // verus!
