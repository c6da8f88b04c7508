//! Location of the configuration directories of the policy stores.

use vstd::prelude::*;

verus! {

/// Why no configuration directory was found.
#[derive(Clone, Copy, Debug, PartialEq, Eq, Structural)]
pub enum ConfigDirError {
    /// The directory named by the environment is not a directory.
    EnvDirMissing,
    /// Neither default directory exists.
    NotFound,
}

/// A candidate directory and whether it is an existing directory.
#[derive(Debug)]
pub struct DirCandidate {
    pub path: String,
    pub is_dir: bool,
}

/// The configuration directory: the one named by the environment if it names one
/// (an error if it is not a directory), else the first default directory that exists.
pub fn resolve_config_dir(
    from_env: Option<DirCandidate>,
    first: DirCandidate,
    second: DirCandidate,
) -> (r: Result<String, ConfigDirError>)
    ensures
        match from_env {
            Some(e) => if e.is_dir {
                r is Ok && r->Ok_0@ == e.path@
            } else {
                r == Err::<String, ConfigDirError>(ConfigDirError::EnvDirMissing)
            },
            None => if first.is_dir {
                r is Ok && r->Ok_0@ == first.path@
            } else if second.is_dir {
                r is Ok && r->Ok_0@ == second.path@
            } else {
                r == Err::<String, ConfigDirError>(ConfigDirError::NotFound)
            },
        },
{
    match from_env {
        Some(e) => if e.is_dir {
            Ok(e.path)
        } else {
            Err(ConfigDirError::EnvDirMissing)
        },
        None => if first.is_dir {
            Ok(first.path)
        } else if second.is_dir {
            Ok(second.path)
        } else {
            Err(ConfigDirError::NotFound)
        },
    }
}

} // verus!
