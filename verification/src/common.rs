//! Where the agent keeps its files: the home directory chosen by the
//! `HERMES_HOME` setting, and the desktop directory of a profile under it.
use vstd::prelude::*;
use crate::text::{trim, trim_str};

verus! {

/// The home directory that a `HERMES_HOME` value names, where it names one:
/// the value (trimmed where `trimmed`) unless that is empty. `None` means the
/// default home (`.hermes` in the user's home directory) applies.
pub open spec fn home_override_of(env_value: Option<Seq<char>>, trimmed: bool) -> Option<Seq<char>> {
    match env_value {
        Some(v) => {
            let p = if trimmed {
                trim(v)
            } else {
                v
            };
            if p.len() == 0 {
                None
            } else {
                Some(p)
            }
        },
        None => None,
    }
}

/// The home directory that the value of `HERMES_HOME` names, where it names one.
pub fn home_override(env_value: Option<String>, trimmed: bool) -> (r: Option<String>)
    ensures
        match r {
            Some(p) => home_override_of(
                match env_value {
                    Some(v) => Some(v@),
                    None => None,
                },
                trimmed,
            ) == Some(p@),
            None => home_override_of(
                match env_value {
                    Some(v) => Some(v@),
                    None => None,
                },
                trimmed,
            ) is None,
        },
{
    match env_value {
        Some(v) => {
            let p = if trimmed {
                trim_str(v.as_str())
            } else {
                v
            };
            if p.as_str().is_empty() {
                None
            } else {
                Some(p)
            }
        },
        None => None,
    }
}

/// The path, below the home directory, of the desktop directory of a profile:
/// `profiles/<name>/desktop` for a named profile, `desktop` for the default
/// profile (named `default`, or not named).
pub open spec fn desktop_subpath_of(profile: Option<Seq<char>>) -> Seq<Seq<char>> {
    match profile {
        Some(p) => if p != "default"@ {
            seq!["profiles"@, p, "desktop"@]
        } else {
            seq!["desktop"@]
        },
        None => seq!["desktop"@],
    }
}

/// The path components, below the home directory, of a profile's desktop
/// directory.
pub fn desktop_subpath(profile: Option<String>) -> (r: Vec<String>)
    ensures
        r@.map_values(|s: String| s@) == desktop_subpath_of(
            match profile {
                Some(p) => Some(p@),
                None => None,
            },
        ),
{
    let mut r: Vec<String> = Vec::new();
    let default_name = String::from_str("default");
    match profile {
        Some(p) => {
            if !p.eq(&default_name) {
                let ghost pv = p@;
                r.push(String::from_str("profiles"));
                r.push(p);
                r.push(String::from_str("desktop"));
                assert(r@.map_values(|s: String| s@) =~= seq!["profiles"@, pv, "desktop"@]);
                return r;
            }
        },
        None => {},
    }
    r.push(String::from_str("desktop"));
    assert(r@.map_values(|s: String| s@) =~= seq!["desktop"@]);
    r
}

/// The profile named `default` is the default profile: its desktop directory
/// is the one used when no profile is named.
pub proof fn lemma_default_profile_desktop()
    ensures
        desktop_subpath_of(Some("default"@)) == desktop_subpath_of(None),
{
}

/// A home directory named by `HERMES_HOME` is never empty.
pub proof fn lemma_home_override_nonempty(env_value: Option<Seq<char>>, trimmed: bool)
    ensures
        home_override_of(env_value, trimmed) matches Some(p) ==> p.len() > 0,
{
}

} // verus!
