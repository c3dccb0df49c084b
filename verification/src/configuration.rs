//! Settings: the defaults, and the Debian name of the machine's architecture.
use vstd::prelude::*;

use crate::text::{chars_of, option_str_view, range_equals, string_of, trim, trim_range};

verus! {

/// Where downloads go when `CACHE_DIR` is not set.
pub const DEFAULT_CACHE_DIR: &'static str = "/etc/nya";

/// The sources list read when `REPOSITORIES_FILE` is not set.
pub const DEFAULT_REPOSITORIES_FILE: &'static str = "sources";

/// The value of a setting: the environment's value when there is one,
/// otherwise the default with surrounding whitespace removed.
pub fn env_or_default(value: Option<String>, default: &str) -> (res: String)
    ensures
        res@ == match value {
            Some(v) => v@,
            None => trim(default@),
        },
{
    match value {
        Some(v) => v,
        None => {
            let d = chars_of(default);
            let (a, b) = trim_range(&d, 0, d.len());
            assert(d@.subrange(0, d.len() as int) =~= d@);
            string_of(&d, a, b)
        },
    }
}

/// The Debian architecture name of a Rust target architecture.
pub open spec fn spec_debian_architecture(arch: Seq<char>) -> Option<Seq<char>> {
    if arch == "x86_64"@ {
        Some("amd64"@)
    } else if arch == "aarch64"@ {
        Some("arm64"@)
    } else {
        None
    }
}

/// `amd64` for `x86_64`, `arm64` for `aarch64`; `None` for the architectures
/// that are not supported.
pub fn debian_architecture(arch: &str) -> (res: Option<&'static str>)
    ensures
        option_str_view(res) == spec_debian_architecture(arch@),
{
    let a = chars_of(arch);
    assert(a@.subrange(0, a.len() as int) =~= a@);
    if range_equals(&a, 0, a.len(), &chars_of("x86_64")) {
        Some("amd64")
    } else if range_equals(&a, 0, a.len(), &chars_of("aarch64")) {
        Some("arm64")
    } else {
        None
    }
}

} // verus!
