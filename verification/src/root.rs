//! Root-state probes: reading the id report, judging a su-binary probe, and
//! combining both into a root status.

use vstd::prelude::*;

use crate::text::{contains_sub, spec_contains};

verus! {

/// How much root access the device shows.
#[derive(Debug, Clone, PartialEq, Eq, Structural)]
pub enum RootStatus {
    /// The shell itself runs as the superuser.
    Rooted,
    /// A su binary is present but the shell is unprivileged.
    SuBinaryExists,
    /// Neither holds.
    NotRooted,
}

/// Whether an id report shows the superuser.
pub fn output_indicates_root(output: &str) -> (r: bool)
    ensures
        r == spec_contains(output@, "uid=0"@),
{
    proof {
        reveal_strlit("uid=0");
    }
    contains_sub(output, "uid=0")
}

/// Whether a listing probe of one su path found the binary: any answer that
/// is not a missing-file complaint counts as found.
pub fn su_probe_found(output: &str) -> (r: bool)
    ensures
        r == (!spec_contains(output@, "No such file"@) && !spec_contains(output@, "not found"@)),
{
    proof {
        reveal_strlit("No such file");
        reveal_strlit("not found");
    }
    !contains_sub(output, "No such file") && !contains_sub(output, "not found")
}

/// Combines the two probes: a superuser shell outranks a bare su binary,
/// which outranks nothing.
pub fn root_status_from(shell_is_root: bool, su_binary_present: bool) -> (r: RootStatus)
    ensures
        r == (if shell_is_root {
            RootStatus::Rooted
        } else if su_binary_present {
            RootStatus::SuBinaryExists
        } else {
            RootStatus::NotRooted
        }),
{
    if shell_is_root {
        RootStatus::Rooted
    } else if su_binary_present {
        RootStatus::SuBinaryExists
    } else {
        RootStatus::NotRooted
    }
}

} // verus!
