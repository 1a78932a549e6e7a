//! Daemon socket and cache paths.

use vstd::prelude::*;

use crate::error::KanbusError;
use crate::paths::{join_path, path_join};

verus! {

/// A file in the project's cache directory.
pub open spec fn cache_file(project_dir: Seq<char>, name: Seq<char>) -> Seq<char> {
    path_join(path_join(project_dir, ".cache"@), name)
}

fn cache_path(project_dir: Result<String, KanbusError>, name: &str) -> (r: Result<String, KanbusError>)
    ensures
        match project_dir {
            Ok(d) => r matches Ok(p) && p@ == cache_file(d@, name@),
            Err(e) => r == Err::<String, KanbusError>(e),
        },
{
    match project_dir {
        Ok(d) => {
            let cache = join_path(&d, ".cache");
            Ok(join_path(&cache, name))
        },
        Err(e) => Err(e),
    }
}

/// Return the daemon socket path for a project directory (or the error
/// that locating the project gave).
pub fn get_daemon_socket_path(project_dir: Result<String, KanbusError>) -> (r: Result<String, KanbusError>)
    ensures
        match project_dir {
            Ok(d) => r matches Ok(p) && p@ == cache_file(d@, "kanbus.sock"@),
            Err(e) => r == Err::<String, KanbusError>(e),
        },
{
    cache_path(project_dir, "kanbus.sock")
}

/// Return the index cache path for a project directory.
pub fn get_index_cache_path(project_dir: Result<String, KanbusError>) -> (r: Result<String, KanbusError>)
    ensures
        match project_dir {
            Ok(d) => r matches Ok(p) && p@ == cache_file(d@, "index.json"@),
            Err(e) => r == Err::<String, KanbusError>(e),
        },
{
    cache_path(project_dir, "index.json")
}

/// Return the console UI state cache path for a project directory.
pub fn get_console_state_path(project_dir: Result<String, KanbusError>) -> (r: Result<String, KanbusError>)
    ensures
        match project_dir {
            Ok(d) => r matches Ok(p) && p@ == cache_file(d@, "console_state.json"@),
            Err(e) => r == Err::<String, KanbusError>(e),
        },
{
    cache_path(project_dir, "console_state.json")
}

} // verus!
