//! Indexed memory: what is indexed, how it is cut, what is recalled.
use crate::paths;
use vstd::prelude::*;

pub mod authority;
pub mod clear;
pub mod distill;
pub mod distill_run;
pub mod embed;
pub mod file_run;
pub mod index;
pub mod init;
pub mod migration;
pub mod open;
pub mod plan2;
pub mod provider;
pub mod resolving;
pub mod run;
pub mod safe_read;
pub mod schema;
pub mod sources;
pub mod stats;

verus! {

/// The database of a workspace.
pub fn db_path(hex_root: &str) -> (r: String)
    ensures
        r@ == paths::joined(hex_root@, ".hex/memory.db"@),
{
    paths::join(hex_root, ".hex/memory.db")
}

} // verus!
