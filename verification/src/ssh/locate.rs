//! Where to look for the `ssh` program, in order.
use vstd::prelude::*;
use crate::config::model::opt_text;
use crate::text::{append_chars, chars_of, text_of};

verus! {

/// The usual install places of `ssh` on Windows, under the system folder
/// `root` (`%SystemRoot%`): the OpenSSH client that ships with Windows, then
/// Git for Windows (64- and 32-bit).
pub open spec fn windows_places(root: Seq<char>) -> Seq<Seq<char>> {
    seq![
        root + "\\System32\\OpenSSH\\ssh.exe"@,
        "C:\\Program Files\\Git\\usr\\bin\\ssh.exe"@,
        "C:\\Program Files (x86)\\Git\\usr\\bin\\ssh.exe"@,
    ]
}

/// The usual install places of `ssh` elsewhere: the system, local and
/// Homebrew locations.
pub open spec fn unix_places() -> Seq<Seq<char>> {
    seq!["/usr/bin/ssh"@, "/usr/local/bin/ssh"@, "/opt/homebrew/bin/ssh"@]
}

/// The programs to try, in order: the override (`$SSH_MENU_SSH`) when it is
/// set and not empty, `ssh` from the search path, then the usual install
/// places of the platform (`root` is the Windows system folder, `C:\Windows`
/// when unknown).
pub open spec fn candidates(over: Option<Seq<char>>, windows: bool, root: Option<Seq<char>>) -> Seq<
    Seq<char>,
> {
    let first = match over {
        Some(o) => if o.len() > 0 {
            seq![o]
        } else {
            Seq::empty()
        },
        None => Seq::empty(),
    };
    let places = if windows {
        windows_places(
            match root {
                Some(r) => r,
                None => "C:\\Windows"@,
            },
        )
    } else {
        unix_places()
    };
    first + seq!["ssh"@] + places
}

/// The programs to try for `ssh` (see [`candidates`]).
pub fn ssh_candidates(over: Option<String>, windows: bool, root: Option<String>) -> (res: Vec<
    String,
>)
    ensures
        res@.map_values(|s: String| s@) == candidates(opt_text(over), windows, opt_text(root)),
{
    let mut res: Vec<String> = Vec::new();
    match over {
        Some(o) => {
            let oc = chars_of(o.as_str());
            if oc.len() > 0 {
                res.push(o);
            }
        },
        None => {},
    }
    res.push(String::from_str("ssh"));
    if windows {
        let mut first = match &root {
            Some(r) => chars_of(r.as_str()),
            None => chars_of("C:\\Windows"),
        };
        let tail = chars_of("\\System32\\OpenSSH\\ssh.exe");
        append_chars(&mut first, &tail);
        res.push(text_of(&first));
        res.push(String::from_str("C:\\Program Files\\Git\\usr\\bin\\ssh.exe"));
        res.push(String::from_str("C:\\Program Files (x86)\\Git\\usr\\bin\\ssh.exe"));
    } else {
        res.push(String::from_str("/usr/bin/ssh"));
        res.push(String::from_str("/usr/local/bin/ssh"));
        res.push(String::from_str("/opt/homebrew/bin/ssh"));
    }
    assert(res@.map_values(|s: String| s@) =~= candidates(opt_text(over), windows, opt_text(root)));
    res
}

} // verus!
