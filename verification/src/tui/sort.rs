//! The orders in which the host list can be shown, and the proofs that each
//! is a total order once ties are broken by position in the file.
use vstd::prelude::*;
use crate::config::model::{group_text, hosts_view, Host, HostView};
use crate::text::{chars_of, lower_chars, lowercase};

verus! {

/// The order of the list.
#[derive(Clone, Copy, Debug, PartialEq, Eq, Structural)]
pub enum SortBy {
    /// By lowercase name.
    Name,
    /// By group, then by name.
    Group,
    /// Most recently used first.
    Recent,
    /// Most often used first.
    MostUsed,
}

impl SortBy {
    /// The label shown for the order: `name`, `group`, `recent`, `most-used`.
    pub fn label(&self) -> (res: &'static str)
        ensures
            res@ == sort_label(*self),
    {
        match self {
            SortBy::Name => {
                proof {
                    reveal_strlit("name");
                }
                "name"
            },
            SortBy::Group => {
                proof {
                    reveal_strlit("group");
                }
                "group"
            },
            SortBy::Recent => {
                proof {
                    reveal_strlit("recent");
                }
                "recent"
            },
            SortBy::MostUsed => {
                proof {
                    reveal_strlit("most-used");
                }
                "most-used"
            },
        }
    }

    /// The next order in the cycle name, group, recent, most-used, name.
    pub fn next(&self) -> (res: SortBy)
        ensures
            res == next_sort(*self),
    {
        match self {
            SortBy::Name => SortBy::Group,
            SortBy::Group => SortBy::Recent,
            SortBy::Recent => SortBy::MostUsed,
            SortBy::MostUsed => SortBy::Name,
        }
    }
}

/// The label of an order.
pub open spec fn sort_label(s: SortBy) -> Seq<char> {
    match s {
        SortBy::Name => seq!['n', 'a', 'm', 'e'],
        SortBy::Group => seq!['g', 'r', 'o', 'u', 'p'],
        SortBy::Recent => seq!['r', 'e', 'c', 'e', 'n', 't'],
        SortBy::MostUsed => seq!['m', 'o', 's', 't', '-', 'u', 's', 'e', 'd'],
    }
}

/// The order after `s` in the cycle.
pub open spec fn next_sort(s: SortBy) -> SortBy {
    match s {
        SortBy::Name => SortBy::Group,
        SortBy::Group => SortBy::Recent,
        SortBy::Recent => SortBy::MostUsed,
        SortBy::MostUsed => SortBy::Name,
    }
}

/// Four steps of the cycle come back to the start.
pub proof fn law_sort_cycle(s: SortBy)
    ensures
        next_sort(next_sort(next_sort(next_sort(s)))) == s,
        next_sort(s) != s,
{
}

// ---------------------------------------------------------------------------
// Three-way orders
// ---------------------------------------------------------------------------

/// Lexicographic order of texts by code point, as -1, 0 or 1 (the order of
/// `str`, since UTF-8 keeps code-point order).
pub open spec fn text_order(a: Seq<char>, b: Seq<char>) -> int
    decreases a.len(),
{
    if a.len() == 0 {
        if b.len() == 0 {
            0
        } else {
            -1
        }
    } else if b.len() == 0 {
        1
    } else if (a[0] as int) < (b[0] as int) {
        -1
    } else if (b[0] as int) < (a[0] as int) {
        1
    } else {
        text_order(a.drop_first(), b.drop_first())
    }
}

/// Order of integers as -1, 0 or 1.
pub open spec fn int_order(a: int, b: int) -> int {
    if a < b {
        -1
    } else if b < a {
        1
    } else {
        0
    }
}

/// Order of optional texts: none first, then by text.
pub open spec fn opt_text_order(a: Option<Seq<char>>, b: Option<Seq<char>>) -> int {
    match (a, b) {
        (None, None) => 0,
        (None, Some(_)) => -1,
        (Some(_), None) => 1,
        (Some(x), Some(y)) => text_order(x, y),
    }
}

/// How two hosts compare under an order (-1: first comes earlier).
pub open spec fn host_order(s: SortBy, x: HostView, y: HostView) -> int {
    match s {
        SortBy::Name => text_order(lowercase(x.name), lowercase(y.name)),
        SortBy::Group => {
            let g = text_order(group_text(x), group_text(y));
            if g != 0 {
                g
            } else {
                text_order(x.name, y.name)
            }
        },
        SortBy::Recent => opt_text_order(y.last_used, x.last_used),
        SortBy::MostUsed => int_order(y.use_count as int, x.use_count as int),
    }
}

/// Host `a` is listed before host `b`: it comes earlier under the order, or
/// ties and comes earlier in the file (the sort is stable).
pub open spec fn shown_before(hosts: Seq<HostView>, s: SortBy, a: int, b: int) -> bool {
    let o = host_order(s, hosts[a], hosts[b]);
    o < 0 || (o == 0 && a < b)
}

/// The text order is -1, 0 or 1, antisymmetric, and 0 exactly on equal texts.
pub proof fn lemma_text_order_basic(a: Seq<char>, b: Seq<char>)
    ensures
        -1 <= text_order(a, b) <= 1,
        text_order(a, b) == -text_order(b, a),
        text_order(a, b) == 0 <==> a == b,
    decreases a.len(),
{
    if a.len() > 0 && b.len() > 0 {
        lemma_text_order_basic(a.drop_first(), b.drop_first());
        if text_order(a, b) == 0 {
            assert(a[0] == b[0]);
            assert(a.drop_first() == b.drop_first());
            assert(a =~= b) by {
                assert forall|k: int| 0 <= k < a.len() implies a[k] == b[k] by {
                    if k > 0 {
                        assert(a[k] == a.drop_first()[k - 1]);
                        assert(b[k] == b.drop_first()[k - 1]);
                    }
                }
            }
        }
        if a == b {
            assert(a.drop_first() == b.drop_first());
        }
    } else if a.len() == 0 && b.len() == 0 {
        assert(a =~= b);
    }
}

/// The text order is transitive.
pub proof fn lemma_text_order_trans(a: Seq<char>, b: Seq<char>, c: Seq<char>)
    requires
        text_order(a, b) < 0,
        text_order(b, c) < 0,
    ensures
        text_order(a, c) < 0,
    decreases a.len(),
{
    if a.len() > 0 && b.len() > 0 && c.len() > 0 {
        if a[0] as int == b[0] as int && b[0] as int == c[0] as int {
            lemma_text_order_trans(a.drop_first(), b.drop_first(), c.drop_first());
        }
    }
}

/// Each host order is -1, 0 or 1, antisymmetric, and transitive (strictly
/// where one step is strict).
pub proof fn lemma_host_order(s: SortBy, x: HostView, y: HostView, z: HostView)
    ensures
        -1 <= host_order(s, x, y) <= 1,
        host_order(s, x, y) == -host_order(s, y, x),
        host_order(s, x, y) <= 0 && host_order(s, y, z) <= 0 ==> host_order(s, x, z) <= 0,
        host_order(s, x, y) < 0 && host_order(s, y, z) <= 0 ==> host_order(s, x, z) < 0,
        host_order(s, x, y) <= 0 && host_order(s, y, z) < 0 ==> host_order(s, x, z) < 0,
{
    match s {
        SortBy::Name => {
            let (a, b, c) = (lowercase(x.name), lowercase(y.name), lowercase(z.name));
            lemma_text_order_basic(a, b);
            lemma_text_order_basic(b, c);
            lemma_text_order_basic(a, c);
            if text_order(a, b) < 0 && text_order(b, c) < 0 {
                lemma_text_order_trans(a, b, c);
            }
        },
        SortBy::Group => {
            let (a, b, c) = (group_text(x), group_text(y), group_text(z));
            let (d, e, f) = (x.name, y.name, z.name);
            lemma_text_order_basic(a, b);
            lemma_text_order_basic(b, c);
            lemma_text_order_basic(a, c);
            lemma_text_order_basic(d, e);
            lemma_text_order_basic(e, f);
            lemma_text_order_basic(d, f);
            if text_order(a, b) < 0 && text_order(b, c) < 0 {
                lemma_text_order_trans(a, b, c);
            }
            if text_order(d, e) < 0 && text_order(e, f) < 0 {
                lemma_text_order_trans(d, e, f);
            }
        },
        SortBy::Recent => {
            match (x.last_used, y.last_used, z.last_used) {
                (Some(a), Some(b), Some(c)) => {
                    lemma_text_order_basic(a, b);
                    lemma_text_order_basic(b, c);
                    lemma_text_order_basic(a, c);
                    if text_order(b, a) < 0 && text_order(c, b) < 0 {
                        lemma_text_order_trans(c, b, a);
                    }
                },
                (Some(a), Some(b), None) => {
                    lemma_text_order_basic(a, b);
                },
                (Some(a), None, Some(c)) => {
                    lemma_text_order_basic(a, c);
                },
                (None, Some(b), Some(c)) => {
                    lemma_text_order_basic(b, c);
                },
                _ => {},
            }
        },
        SortBy::MostUsed => {},
    }
}

/// `shown_before` is a strict total order on the positions of a list.
pub proof fn lemma_shown_before(hosts: Seq<HostView>, s: SortBy, a: int, b: int, c: int)
    requires
        0 <= a < hosts.len(),
        0 <= b < hosts.len(),
        0 <= c < hosts.len(),
    ensures
        !shown_before(hosts, s, a, a),
        a != b ==> (shown_before(hosts, s, a, b) <==> !shown_before(hosts, s, b, a)),
        shown_before(hosts, s, a, b) && shown_before(hosts, s, b, c) ==> shown_before(
            hosts,
            s,
            a,
            c,
        ),
{
    lemma_host_order(s, hosts[a], hosts[b], hosts[c]);
    lemma_host_order(s, hosts[a], hosts[a], hosts[a]);
    lemma_host_order(s, hosts[b], hosts[a], hosts[c]);
}

// ---------------------------------------------------------------------------
// Executable comparisons
// ---------------------------------------------------------------------------

/// Executable [`text_order`].
pub fn text_order_of(a: &[char], b: &[char]) -> (res: i8)
    ensures
        res as int == text_order(a@, b@),
{
    let n = a.len();
    let m = b.len();
    let mut i: usize = 0;
    assert(a@.skip(0) == a@ && b@.skip(0) == b@);
    while i < n && i < m
        invariant
            i <= n == a@.len(),
            i <= m == b@.len(),
            text_order(a@, b@) == text_order(a@.skip(i as int), b@.skip(i as int)),
        decreases n - i,
    {
        let x = a[i];
        let y = b[i];
        assert(a@.skip(i as int)[0] == a@[i as int]);
        assert(b@.skip(i as int)[0] == b@[i as int]);
        if x < y {
            return -1;
        }
        if y < x {
            return 1;
        }
        assert(a@.skip(i as int).drop_first() == a@.skip(i + 1));
        assert(b@.skip(i as int).drop_first() == b@.skip(i + 1));
        i = i + 1;
    }
    if i == n {
        if i == m {
            0
        } else {
            -1
        }
    } else {
        1
    }
}

/// Executable [`opt_text_order`].
fn opt_text_order_of(a: &Option<String>, b: &Option<String>) -> (res: i8)
    ensures
        res as int == opt_text_order(crate::config::model::opt_text(*a), crate::config::model::opt_text(*b)),
{
    match (a, b) {
        (None, None) => 0,
        (None, Some(_)) => -1,
        (Some(_), None) => 1,
        (Some(x), Some(y)) => {
            let xc = chars_of(x.as_str());
            let yc = chars_of(y.as_str());
            text_order_of(&xc, &yc)
        },
    }
}

/// The group of a host as characters, empty for none.
fn group_chars(h: &Host) -> (res: Vec<char>)
    ensures
        res@ == group_text(h@),
{
    match &h.group {
        Some(g) => chars_of(g.as_str()),
        None => Vec::new(),
    }
}

/// Executable [`host_order`].
pub fn host_order_of(s: SortBy, x: &Host, y: &Host) -> (res: i8)
    ensures
        res as int == host_order(s, x@, y@),
{
    match s {
        SortBy::Name => {
            let a = lower_chars(&chars_of(x.name.as_str()));
            let b = lower_chars(&chars_of(y.name.as_str()));
            text_order_of(&a, &b)
        },
        SortBy::Group => {
            let g = text_order_of(&group_chars(x), &group_chars(y));
            if g != 0 {
                g
            } else {
                text_order_of(&chars_of(x.name.as_str()), &chars_of(y.name.as_str()))
            }
        },
        SortBy::Recent => opt_text_order_of(&y.last_used, &x.last_used),
        SortBy::MostUsed => {
            if y.use_count < x.use_count {
                -1
            } else if x.use_count < y.use_count {
                1
            } else {
                0
            }
        },
    }
}

/// `f` lists the hosts that match `q` (as positions in `hosts`), each once,
/// in the order `s` with ties kept in file order.
pub open spec fn filtered_ok(
    hosts: Seq<HostView>,
    q: Seq<char>,
    s: SortBy,
    f: Seq<usize>,
) -> bool {
    &&& forall|k: int|
        0 <= k < f.len() ==> #[trigger] f[k] < hosts.len() && crate::config::model::host_matches(
            hosts[f[k] as int],
            q,
        )
    &&& forall|i: int|
        0 <= i < hosts.len() && crate::config::model::host_matches(#[trigger] hosts[i], q)
            ==> f.contains(i as usize)
    &&& forall|a: int, b: int|
        0 <= a < b < f.len() ==> shown_before(hosts, s, #[trigger] f[a] as int, #[trigger] f[b] as int)
}

/// Inserting position `i` (greater than all listed positions) at the first
/// place where it is shown before the listed entry keeps the list sorted and
/// adds exactly `i`.
proof fn lemma_insert_sorted(
    hv: Seq<HostView>,
    s: SortBy,
    q: Seq<char>,
    old_res: Seq<usize>,
    p: int,
    i: int,
)
    requires
        0 <= p <= old_res.len(),
        0 <= i < hv.len(),
        i <= usize::MAX,
        crate::config::model::host_matches(hv[i], q),
        forall|k: int|
            0 <= k < old_res.len() ==> #[trigger] old_res[k] < i && crate::config::model::host_matches(
                hv[old_res[k] as int],
                q,
            ),
        forall|j: int|
            0 <= j < i && crate::config::model::host_matches(#[trigger] hv[j], q)
                ==> old_res.contains(j as usize),
        forall|a: int, b: int|
            0 <= a < b < old_res.len() ==> shown_before(hv, s, #[trigger] old_res[a] as int, #[trigger] old_res[b] as int),
        forall|k: int| 0 <= k < p ==> !shown_before(hv, s, i, #[trigger] old_res[k] as int),
        p < old_res.len() ==> shown_before(hv, s, i, old_res[p] as int),
    ensures
        ({
            let res = old_res.insert(p, i as usize);
            &&& forall|k: int|
                0 <= k < res.len() ==> #[trigger] res[k] < i + 1 && crate::config::model::host_matches(
                    hv[res[k] as int],
                    q,
                )
            &&& forall|j: int|
                0 <= j < i + 1 && crate::config::model::host_matches(#[trigger] hv[j], q)
                    ==> res.contains(j as usize)
            &&& forall|a: int, b: int|
                0 <= a < b < res.len() ==> shown_before(hv, s, #[trigger] res[a] as int, #[trigger] res[b] as int)
        }),
{
    let res = old_res.insert(p, i as usize);
    old_res.insert_ensures(p, i as usize);
    lemma_insert_members(hv, q, old_res, p, i);
    lemma_insert_order(hv, s, old_res, p, i);
}

proof fn lemma_insert_members(hv: Seq<HostView>, q: Seq<char>, old_res: Seq<usize>, p: int, i: int)
    requires
        0 <= p <= old_res.len(),
        0 <= i < hv.len(),
        i <= usize::MAX,
        crate::config::model::host_matches(hv[i], q),
        forall|k: int|
            0 <= k < old_res.len() ==> #[trigger] old_res[k] < i && crate::config::model::host_matches(
                hv[old_res[k] as int],
                q,
            ),
        forall|j: int|
            0 <= j < i && crate::config::model::host_matches(#[trigger] hv[j], q)
                ==> old_res.contains(j as usize),
    ensures
        ({
            let res = old_res.insert(p, i as usize);
            &&& forall|k: int|
                0 <= k < res.len() ==> #[trigger] res[k] < i + 1 && crate::config::model::host_matches(
                    hv[res[k] as int],
                    q,
                )
            &&& forall|j: int|
                0 <= j < i + 1 && crate::config::model::host_matches(#[trigger] hv[j], q)
                    ==> res.contains(j as usize)
        }),
{
    let res = old_res.insert(p, i as usize);
    old_res.insert_ensures(p, i as usize);
    assert(res[p] == i);
    assert forall|k: int| 0 <= k < res.len() implies #[trigger] res[k] < i + 1
        && crate::config::model::host_matches(hv[res[k] as int], q) by {
        if k < p {
            assert(res[k] == old_res[k]);
        } else if k > p {
            assert(res[k] == old_res[k - 1]);
        }
    }
    assert forall|j: int|
        0 <= j < i + 1 && crate::config::model::host_matches(#[trigger] hv[j], q)
            implies res.contains(j as usize) by {
        if j == i {
            assert(res[p] == i);
        } else {
            assert(old_res.contains(j as usize));
            let k = choose|k: int| 0 <= k < old_res.len() && old_res[k] == j as usize;
            if k < p {
                assert(res[k] == old_res[k]);
            } else {
                assert(res[k + 1] == old_res[k]);
            }
        }
    }
}

proof fn lemma_insert_order(hv: Seq<HostView>, s: SortBy, old_res: Seq<usize>, p: int, i: int)
    requires
        0 <= p <= old_res.len(),
        0 <= i < hv.len(),
        i <= usize::MAX,
        forall|k: int| 0 <= k < old_res.len() ==> #[trigger] old_res[k] < i,
        forall|a: int, b: int|
            0 <= a < b < old_res.len() ==> shown_before(hv, s, #[trigger] old_res[a] as int, #[trigger] old_res[b] as int),
        forall|k: int| 0 <= k < p ==> !shown_before(hv, s, i, #[trigger] old_res[k] as int),
        p < old_res.len() ==> shown_before(hv, s, i, old_res[p] as int),
    ensures
        ({
            let res = old_res.insert(p, i as usize);
            forall|a: int, b: int|
                0 <= a < b < res.len() ==> shown_before(hv, s, #[trigger] res[a] as int, #[trigger] res[b] as int)
        }),
{
    let res = old_res.insert(p, i as usize);
    old_res.insert_ensures(p, i as usize);
    assert(res[p] == i);
    assert forall|a: int, b: int| 0 <= a < b < res.len() implies shown_before(
        hv,
        s,
        #[trigger] res[a] as int,
        #[trigger] res[b] as int,
    ) by {
        if b < p {
            assert(res[a] == old_res[a] && res[b] == old_res[b]);
        } else if b == p {
            assert(res[a] == old_res[a]);
            assert(old_res[a] < i);
            lemma_shown_before(hv, s, i, old_res[a] as int, i);
        } else if a < p {
            assert(res[a] == old_res[a] && res[b] == old_res[b - 1]);
        } else if a == p {
            assert(res[b] == old_res[b - 1]);
            if b - 1 > p {
                assert(shown_before(hv, s, old_res[p] as int, old_res[b - 1] as int));
                assert(old_res[p] < i && old_res[b - 1] < i);
                lemma_shown_before(hv, s, i, old_res[p] as int, old_res[b - 1] as int);
            }
        } else {
            assert(res[a] == old_res[a - 1] && res[b] == old_res[b - 1]);
        }
    }
}

/// The positions of the hosts matching `q`, sorted by `s` (stable).
pub fn sorted_matches(hosts: &Vec<Host>, q: &str, s: SortBy) -> (res: Vec<usize>)
    ensures
        filtered_ok(hosts_view(hosts@), q@, s, res@),
{
    let n = hosts.len();
    let ghost hv = hosts_view(hosts@);
    let mut res: Vec<usize> = Vec::new();
    for i in 0..n
        invariant
            n == hosts@.len() == hv.len(),
            hv == hosts_view(hosts@),
            forall|k: int|
                0 <= k < res@.len() ==> #[trigger] res@[k] < i && crate::config::model::host_matches(
                    hv[res@[k] as int],
                    q@,
                ),
            forall|j: int|
                0 <= j < i && crate::config::model::host_matches(#[trigger] hv[j], q@)
                    ==> res@.contains(j as usize),
            forall|a: int, b: int|
                0 <= a < b < res@.len() ==> shown_before(hv, s, #[trigger] res@[a] as int, #[trigger] res@[b] as int),
    {
        assert(hv[i as int] == hosts@[i as int]@);
        if hosts[i].matches(q) {
            let mut p: usize = 0;
            let len = res.len();
            while p < len && host_order_of(s, &hosts[i], &hosts[res[p]]) >= 0
                invariant
                    p <= len == res@.len(),
                    n == hv.len(),
                    hv == hosts_view(hosts@),
                    i < n,
                    forall|k: int| 0 <= k < res@.len() ==> #[trigger] res@[k] < i,
                    forall|k: int| 0 <= k < p ==> !shown_before(hv, s, i as int, #[trigger] res@[k] as int),
                decreases len - p,
            {
                assert(hv[res@[p as int] as int] == hosts@[res@[p as int] as int]@);
                p = p + 1;
            }
            proof {
                if p < len {
                    assert(hv[res@[p as int] as int] == hosts@[res@[p as int] as int]@);
                    assert(shown_before(hv, s, i as int, res@[p as int] as int));
                }
            }
            let ghost old_res = res@;
            res.insert(p, i);
            proof {
                lemma_insert_sorted(hv, s, q@, old_res, p as int, i as int);
            }
        }
    }
    res
}

/// Two lists that both satisfy [`filtered_ok`] for the same hosts, query and
/// order are equal: the shown list is determined by them.
pub proof fn law_filtered_unique(
    hosts: Seq<HostView>,
    q: Seq<char>,
    s: SortBy,
    f: Seq<usize>,
    g: Seq<usize>,
)
    requires
        filtered_ok(hosts, q, s, f),
        filtered_ok(hosts, q, s, g),
    ensures
        f == g,
{
    assert forall|k: int| 0 <= k < f.len() implies g.contains(#[trigger] f[k]) by {
        assert(crate::config::model::host_matches(hosts[f[k] as int], q));
    }
    assert forall|k: int| 0 <= k < g.len() implies f.contains(#[trigger] g[k]) by {
        assert(crate::config::model::host_matches(hosts[g[k] as int], q));
    }
    lemma_sorted_same_elements(hosts, s, f, g);
}

/// Lists sorted by `shown_before` with the same elements are equal.
proof fn lemma_sorted_same_elements(hosts: Seq<HostView>, s: SortBy, f: Seq<usize>, g: Seq<usize>)
    requires
        forall|k: int| 0 <= k < f.len() ==> #[trigger] f[k] < hosts.len(),
        forall|k: int| 0 <= k < g.len() ==> #[trigger] g[k] < hosts.len(),
        forall|a: int, b: int|
            0 <= a < b < f.len() ==> shown_before(hosts, s, #[trigger] f[a] as int, #[trigger] f[b] as int),
        forall|a: int, b: int|
            0 <= a < b < g.len() ==> shown_before(hosts, s, #[trigger] g[a] as int, #[trigger] g[b] as int),
        forall|k: int| 0 <= k < f.len() ==> g.contains(#[trigger] f[k]),
        forall|k: int| 0 <= k < g.len() ==> f.contains(#[trigger] g[k]),
    ensures
        f == g,
    decreases f.len() + g.len(),
{
    if f.len() == 0 {
        if g.len() > 0 {
            assert(f.contains(g[0]));
        }
        assert(f == g);
    } else if g.len() == 0 {
        assert(g.contains(f[0]));
    } else {
        // the first elements are both the least element
        let m = choose|m: int| 0 <= m < g.len() && g[m] == f[0];
        let p = choose|p: int| 0 <= p < f.len() && f[p] == g[0];
        if m > 0 {
            // g[0] before g[m] == f[0]; f[p] == g[0] with p > 0 means f[0] before g[0]
            assert(shown_before(hosts, s, g[0] as int, g[m] as int));
            if p == 0 {
                lemma_shown_before(hosts, s, g[0] as int, g[0] as int, g[0] as int);
            } else {
                assert(shown_before(hosts, s, f[0] as int, f[p] as int));
                lemma_shown_before(hosts, s, f[0] as int, g[0] as int, f[0] as int);
            }
        }
        assert(g[0] == f[0]);
        let f2 = f.drop_first();
        let g2 = g.drop_first();
        assert forall|k: int| 0 <= k < f2.len() implies g2.contains(#[trigger] f2[k]) by {
            assert(f2[k] == f[k + 1]);
            assert(shown_before(hosts, s, f[0] as int, f[k + 1] as int));
            lemma_shown_before(hosts, s, f[0] as int, f[0] as int, f[0] as int);
            let j = choose|j: int| 0 <= j < g.len() && g[j] == f[k + 1];
            assert(j != 0);
            assert(g2[j - 1] == g[j]);
        }
        assert forall|k: int| 0 <= k < g2.len() implies f2.contains(#[trigger] g2[k]) by {
            assert(g2[k] == g[k + 1]);
            assert(shown_before(hosts, s, g[0] as int, g[k + 1] as int));
            lemma_shown_before(hosts, s, g[0] as int, g[0] as int, g[0] as int);
            let j = choose|j: int| 0 <= j < f.len() && f[j] == g[k + 1];
            assert(j != 0);
            assert(f2[j - 1] == f[j]);
        }
        assert forall|a: int, b: int| 0 <= a < b < f2.len() implies shown_before(
            hosts,
            s,
            #[trigger] f2[a] as int,
            #[trigger] f2[b] as int,
        ) by {
            assert(f2[a] == f[a + 1] && f2[b] == f[b + 1]);
        }
        assert forall|a: int, b: int| 0 <= a < b < g2.len() implies shown_before(
            hosts,
            s,
            #[trigger] g2[a] as int,
            #[trigger] g2[b] as int,
        ) by {
            assert(g2[a] == g[a + 1] && g2[b] == g[b + 1]);
        }
        lemma_sorted_same_elements(hosts, s, f2, g2);
        assert(f == seq![f[0]] + f2);
        assert(g == seq![g[0]] + g2);
    }
}

} // verus!

verus! {

/// Sorted by group, the shown list puts a host with a smaller group first,
/// and of two hosts with the same group the one with the smaller name first,
/// wherever they stand in the file.
pub proof fn law_group_order(hosts: Seq<HostView>, q: Seq<char>, f: Seq<usize>, a: int, b: int)
    requires
        filtered_ok(hosts, q, SortBy::Group, f),
        0 <= a < f.len(),
        0 <= b < f.len(),
        text_order(group_text(hosts[f[a] as int]), group_text(hosts[f[b] as int])) < 0 || (
        group_text(hosts[f[a] as int]) == group_text(hosts[f[b] as int]) && text_order(
            hosts[f[a] as int].name,
            hosts[f[b] as int].name,
        ) < 0),
    ensures
        a < b,
{
    let x = hosts[f[a] as int];
    let y = hosts[f[b] as int];
    lemma_text_order_basic(group_text(x), group_text(y));
    lemma_text_order_basic(x.name, y.name);
    if b < a {
        assert(shown_before(hosts, SortBy::Group, f[b] as int, f[a] as int));
        assert(false);
    }
}

} // verus!
