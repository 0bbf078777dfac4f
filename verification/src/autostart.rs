//! Start at login: the `Run` registry value must hold the command of the
//! current executable. These are the decisions; the registry is read and
//! written by the application.

use vstd::prelude::*;
use crate::text::{append_chars, chars_of, eq_ignore_case, lower_vec, string_of, vec_eq};

verus! {

/// `"<exe>" --tray`.
pub open spec fn expected_cmd_spec(exe: Seq<char>) -> Seq<char> {
    "\""@ + exe + "\" --tray"@
}

pub fn expected_cmd(exe: &str) -> (r: String)
    ensures
        r@ == expected_cmd_spec(exe@),
{
    let mut v = chars_of("\"");
    let e = chars_of(exe);
    append_chars(&mut v, &e);
    let t = chars_of("\" --tray");
    append_chars(&mut v, &t);
    string_of(v.as_slice())
}

/// Autostart is on when the `Run` value exists and names the current
/// executable (ASCII case ignored); a value left by an old location counts
/// as off, so that it is rewritten.
pub open spec fn enabled_spec(entry: Option<Seq<char>>, exe: Seq<char>) -> bool {
    match entry {
        Some(v) => eq_ignore_case(v, expected_cmd_spec(exe)),
        None => false,
    }
}

fn eq_ignore_case_exec(a: &Vec<char>, b: &Vec<char>) -> (r: bool)
    ensures
        r == eq_ignore_case(a@, b@),
{
    let la = lower_vec(a);
    let lb = lower_vec(b);
    vec_eq(&la, &lb)
}

/// Whether autostart is on, given the registry value (`None` when absent)
/// and the path of the running executable.
pub fn is_enabled(entry: Option<&str>, exe: &str) -> (r: bool)
    ensures
        r == enabled_spec(crate::probe::opt_str_view(entry), exe@),
{
    match entry {
        Some(v) => {
            let vv = chars_of(v);
            let cmd = expected_cmd(exe);
            let cv = chars_of(cmd.as_str());
            eq_ignore_case_exec(&vv, &cv)
        },
        None => false,
    }
}

/// What start-up does to the registry: write the value (`Some(true)`) when
/// autostart is wanted but missing or stale, delete it (`Some(false)`) when
/// unwanted but present, else nothing.
pub open spec fn sync_spec(want: bool, entry: Option<Seq<char>>, exe: Seq<char>) -> Option<bool> {
    if want && !enabled_spec(entry, exe) {
        Some(true)
    } else if !want && entry is Some {
        Some(false)
    } else {
        None
    }
}

pub fn sync(want: bool, entry: Option<&str>, exe: &str) -> (r: Option<bool>)
    ensures
        r == sync_spec(want, crate::probe::opt_str_view(entry), exe@),
{
    if want && !is_enabled(entry, exe) {
        Some(true)
    } else if !want && entry.is_some() {
        Some(false)
    } else {
        None
    }
}

/// The state a toggle asks for: the opposite of the current one.
pub fn toggle(enabled_now: bool) -> (r: bool)
    ensures
        r == !enabled_now,
{
    !enabled_now
}

/// When start-up leaves the registry alone, it already matches the setting.
pub proof fn law_sync_noop_means_in_sync(want: bool, entry: Option<Seq<char>>, exe: Seq<char>)
    ensures
        sync_spec(want, entry, exe) is None ==> enabled_spec(entry, exe) == want,
{
}

} // verus!
