//! The usage record of a host: reading its last-use stamp, the age shown for
//! it, how recent the use was, and recording a connection.
use vstd::prelude::*;
use crate::config::model::{
    find_host, first_named, has_name, hosts_view, lemma_first_named, Config, Host, HostView,
};
use crate::text::{append_chars, chars_of, decimal, decimal_chars, text_of};

verus! {

// ---------------------------------------------------------------------------
// Reading a stamp
// ---------------------------------------------------------------------------

/// The instant of an RFC 3339 date-time text, as whole Unix seconds and the
/// nanoseconds within that second; `None` when the text is not one.
pub uninterp spec fn rfc3339_instant(s: Seq<char>) -> Option<(i64, u32)>;

/// `time::OffsetDateTime::parse` with the RFC 3339 description, read with
/// `unix_timestamp` and `nanosecond`. Parsing looks at the text alone, so the
/// result is a function of it; which texts parse is not stated.
#[verifier::external_body]
fn instant_of(ts: &str) -> (res: Option<(i64, u32)>)
    ensures
        res == rfc3339_instant(ts@),
{
    match time::OffsetDateTime::parse(ts, &time::format_description::well_known::Rfc3339) {
        Ok(t) => Some((t.unix_timestamp(), t.nanosecond())),
        Err(_) => None,
    }
}

/// The nanoseconds from instant `t` to instant `now` (each as Unix seconds
/// and nanoseconds).
pub open spec fn nanos_between(t: (i64, u32), now: (i64, u32)) -> int {
    (now.0 - t.0) * 1_000_000_000 + (now.1 - t.1)
}

/// The whole `unit`s in `d`, rounded toward zero (how `time`'s durations
/// count whole seconds and hours).
pub open spec fn whole(d: int, unit: int) -> int {
    if d >= 0 {
        d / unit
    } else {
        -((-d) / unit)
    }
}

/// The whole seconds and the whole hours of the time from `t` to `now`.
pub open spec fn whole_seconds_between(t: (i64, u32), now: (i64, u32)) -> int {
    whole(nanos_between(t, now), 1_000_000_000)
}

pub open spec fn whole_hours_between(t: (i64, u32), now: (i64, u32)) -> int {
    whole(whole_seconds_between(t, now), 3600)
}

/// Executable [`whole`] on a duration that is far from the limits of `i128`.
fn whole_exec(d: i128, unit: i128) -> (res: i128)
    requires
        unit > 0,
        -0x1_0000_0000_0000_0000_0000_0000 < d < 0x1_0000_0000_0000_0000_0000_0000,
    ensures
        res == whole(d as int, unit as int),
        -0x1_0000_0000_0000_0000_0000_0000 < res < 0x1_0000_0000_0000_0000_0000_0000,
{
    if d >= 0 {
        assert(d / unit <= d) by (nonlinear_arith)
            requires
                d >= 0,
                unit > 0,
        ;
        d / unit
    } else {
        let m: i128 = -d;
        assert(m / unit <= m) by (nonlinear_arith)
            requires
                m > 0,
                unit > 0,
        ;
        -(m / unit)
    }
}

/// The nanoseconds from `t` to `now`, exactly.
fn nanos_exec(t: (i64, u32), now: (i64, u32)) -> (res: i128)
    ensures
        res == nanos_between(t, now),
        -0x1_0000_0000_0000_0000_0000_0000 < res < 0x1_0000_0000_0000_0000_0000_0000,
{
    let ds: i128 = (now.0 as i128) - (t.0 as i128);
    assert(-0x1_0000_0000_0000_0000 < ds < 0x1_0000_0000_0000_0000);
    assert(-0x1_0000_0000_0000_0000 * 1_000_000_000 < ds * 1_000_000_000 < 0x1_0000_0000_0000_0000
        * 1_000_000_000) by (nonlinear_arith)
        requires
            -0x1_0000_0000_0000_0000 < ds < 0x1_0000_0000_0000_0000,
    ;
    let dn: i128 = (now.1 as i128) - (t.1 as i128);
    ds * 1_000_000_000 + dn
}

// ---------------------------------------------------------------------------
// The age of a use
// ---------------------------------------------------------------------------

/// The age of a use `secs` seconds ago, a negative age counting as none:
/// `just now` under a minute, then whole minutes, hours, days, months of 30
/// days or years of 365 days (`5m ago`, `3h ago`, `2d ago`, `5mo ago`,
/// `1y ago`).
pub open spec fn age_text(secs: int) -> Seq<char> {
    let s = if secs < 0 {
        0
    } else {
        secs
    };
    if s < 60 {
        "just now"@
    } else if s < 3600 {
        decimal((s / 60) as nat) + "m ago"@
    } else if s < 86400 {
        decimal((s / 3600) as nat) + "h ago"@
    } else if s < 2592000 {
        decimal((s / 86400) as nat) + "d ago"@
    } else if s < 31536000 {
        decimal((s / 2592000) as nat) + "mo ago"@
    } else {
        decimal((s / 31536000) as nat) + "y ago"@
    }
}

/// `n` in decimal followed by `unit`.
fn count_with(n: u64, unit: &str) -> (res: String)
    ensures
        res@ == decimal(n as nat) + unit@,
{
    let mut cs = decimal_chars(n);
    let u = chars_of(unit);
    append_chars(&mut cs, &u);
    text_of(&cs)
}

/// The age text of a use `secs` seconds ago (see [`age_text`]).
pub fn age(secs: u64) -> (res: String)
    ensures
        res@ == age_text(secs as int),
{
    age_wide(secs as u128)
}

/// [`age`] for counts of seconds up to about twice the range of `u64`.
fn age_wide(secs: u128) -> (res: String)
    requires
        secs < 0x2_0000_0000_0000_0000,
    ensures
        res@ == age_text(secs as int),
{
    if secs < 60 {
        String::from_str("just now")
    } else if secs < 3600 {
        count_with((secs / 60) as u64, "m ago")
    } else if secs < 86400 {
        count_with((secs / 3600) as u64, "h ago")
    } else if secs < 2592000 {
        count_with((secs / 86400) as u64, "d ago")
    } else if secs < 31536000 {
        count_with((secs / 2592000) as u64, "mo ago")
    } else {
        assert(secs / 31536000 < 0x1_0000_0000_0000_0000) by (nonlinear_arith)
            requires
                secs < 0x2_0000_0000_0000_0000,
        ;
        count_with((secs / 31536000) as u64, "y ago")
    }
}

/// What is shown for a last-use stamp at the instant `now`: the age of the
/// stamp in whole seconds, or the stamp itself when it does not read as an
/// RFC 3339 date-time.
pub open spec fn last_use_text_of(ts: Seq<char>, now: (i64, u32)) -> Seq<char> {
    match rfc3339_instant(ts) {
        Some(t) => age_text(whole_seconds_between(t, now)),
        None => ts,
    }
}

/// The text shown for a last-use stamp at the instant `now` (Unix seconds and
/// nanoseconds; see [`last_use_text_of`]).
pub fn last_use_text(ts: &str, now_secs: i64, now_nanos: u32) -> (res: String)
    ensures
        res@ == last_use_text_of(ts@, (now_secs, now_nanos)),
{
    match instant_of(ts) {
        Some(t) => {
            let d = nanos_exec(t, (now_secs, now_nanos));
            let w = whole_exec(d, 1_000_000_000);
            if w <= 0 {
                age(0)
            } else if w <= 0xffff_ffff_ffff_ffff {
                age(w as u64)
            } else {
                age_wide(w as u128)
            }
        },
        None => String::from_str(ts),
    }
}

// ---------------------------------------------------------------------------
// How recent a host is
// ---------------------------------------------------------------------------

/// How recently a host was used, as marked in front of its row.
#[derive(Clone, Copy, Debug, PartialEq, Eq, Structural)]
pub enum Activity {
    /// Last used less than a day ago.
    Today,
    /// Last used less than a week ago.
    ThisWeek,
    /// Last used earlier or at an unreadable time, or never used and not
    /// behind a jump host.
    Quiet,
    /// Never used, and reached through a jump host.
    Jumps,
}

/// How recently `h` was used at the instant `now`, by the whole hours since
/// its stamp.
pub open spec fn activity_of(h: HostView, now: (i64, u32)) -> Activity {
    match h.last_used {
        Some(lu) => match rfc3339_instant(lu) {
            Some(t) => if whole_hours_between(t, now) < 24 {
                Activity::Today
            } else if whole_hours_between(t, now) < 24 * 7 {
                Activity::ThisWeek
            } else {
                Activity::Quiet
            },
            None => Activity::Quiet,
        },
        None => if h.jump is Some {
            Activity::Jumps
        } else {
            Activity::Quiet
        },
    }
}

/// How recently `h` was used at the instant `now` (Unix seconds and
/// nanoseconds; see [`activity_of`]).
pub fn activity(h: &Host, now_secs: i64, now_nanos: u32) -> (res: Activity)
    ensures
        res == activity_of(h@, (now_secs, now_nanos)),
{
    match &h.last_used {
        Some(lu) => match instant_of(lu.as_str()) {
            Some(t) => {
                let d = nanos_exec(t, (now_secs, now_nanos));
                let secs = whole_exec(d, 1_000_000_000);
                let hours = whole_exec(secs, 3600);
                if hours < 24 {
                    Activity::Today
                } else if hours < 24 * 7 {
                    Activity::ThisWeek
                } else {
                    Activity::Quiet
                }
            },
            None => Activity::Quiet,
        },
        None => match &h.jump {
            Some(_) => Activity::Jumps,
            None => Activity::Quiet,
        },
    }
}

// ---------------------------------------------------------------------------
// Recording a connection
// ---------------------------------------------------------------------------

/// One more use, staying at the largest count.
pub open spec fn one_more(n: u32) -> u32 {
    if n < u32::MAX {
        (n + 1) as u32
    } else {
        n
    }
}

/// The hosts after a connection at `now` to the first host named `name`:
/// its last use becomes `now` and its count goes up by one; without such a
/// host nothing changes.
pub open spec fn used(hosts: Seq<HostView>, name: Seq<char>, now: Seq<char>) -> Seq<HostView> {
    if has_name(hosts, name) {
        let i = first_named(hosts, name);
        hosts.update(
            i,
            HostView { last_used: Some(now), use_count: one_more(hosts[i].use_count), ..hosts[i] },
        )
    } else {
        hosts
    }
}

impl Config {
    /// Records a connection at `now` (an RFC 3339 stamp) to the first host
    /// named `name` (see [`used`]); says whether there was one.
    pub fn record_use(&mut self, name: &str, now: String) -> (found: bool)
        ensures
            found == has_name(old(self)@, name@),
            final(self)@ == used(old(self)@, name@, now@),
    {
        match find_host(self, name) {
            Some(i) => {
                proof {
                    lemma_first_named(self@, name@, i as int);
                }
                let mut h = self.hosts[i].duplicate();
                h.last_used = Some(now);
                h.use_count = if h.use_count < u32::MAX {
                    h.use_count + 1
                } else {
                    h.use_count
                };
                let ghost nv = h@;
                let ghost before = self.hosts@;
                self.hosts.set(i, h);
                assert(self@ =~= hosts_view(before).update(i as int, nv));
                true
            },
            None => false,
        }
    }
}

} // verus!
