//! Which version a build carries.
use crate::memory::provider;
use crate::text;
use vstd::prelude::*;

verus! {

/// The version: that of the file where there is one, else that of the package.
pub fn chosen_version(file: Option<&str>, package: Option<&str>) -> (r: String)
    ensures
        r@ == match provider::opt_str(file) {
            Some(s) => text::trim(s),
            None => match provider::opt_str(package) {
                Some(p) => p,
                None => "0.0.0-dev"@,
            },
        },
{
    match file {
        Some(s) => text::trim_str(s),
        None => match package {
            Some(p) => p.to_owned(),
            None => "0.0.0-dev".to_owned(),
        },
    }
}

/// The commit of a build, as git names it.
pub fn commit_label(answer: Option<&str>) -> (r: String)
    ensures
        r@ == match provider::opt_str(answer) {
            Some(s) => text::trim(s),
            None => "unknown"@,
        },
{
    match answer {
        Some(s) => text::trim_str(s),
        None => "unknown".to_owned(),
    }
}

} // verus!
