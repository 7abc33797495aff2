//! Whether the agent's command line is installed, read from the output of
//! `hermes --version` and `which hermes`.
use vstd::prelude::*;
use crate::text::{trim, trim_str};

verus! {

/// Whether the agent is installed, its version and where it lives.
pub struct HermesStatus {
    pub installed: bool,
    pub version: Option<String>,
    pub path: Option<String>,
}

/// The characters of an optional string, trimmed.
pub open spec fn trimmed_opt(o: Option<String>) -> Option<Seq<char>> {
    match o {
        Some(s) => Some(trim(s@)),
        None => None,
    }
}

/// The status read from the output of `hermes --version` (`None` where it did
/// not run or failed) and of `which hermes` (likewise): installed exactly when
/// the version command succeeded; the version and the path are the trimmed
/// outputs, and no path is reported when the agent is not installed.
pub fn installation_status(version_output: Option<String>, which_output: Option<String>) -> (s:
    HermesStatus)
    ensures
        s.installed == version_output is Some,
        match s.version {
            Some(v) => trimmed_opt(version_output) == Some(v@),
            None => version_output is None,
        },
        match s.path {
            Some(p) => version_output is Some && trimmed_opt(which_output) == Some(p@),
            None => version_output is None || which_output is None,
        },
{
    match version_output {
        Some(out) => {
            let version = trim_str(out.as_str());
            let path = match which_output {
                Some(w) => Some(trim_str(w.as_str())),
                None => None,
            };
            HermesStatus { installed: true, version: Some(version), path }
        },
        None => HermesStatus { installed: false, version: None, path: None },
    }
}

} // verus!
