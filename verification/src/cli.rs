//! The subcommand choices of the command line that carry no data.
use vstd::prelude::*;

verus! {

/// What `githops schema` does.
#[derive(Debug, Clone, Copy, PartialEq, Eq, Structural)]
pub enum SchemaAction {
    /// Update `.githops/githops.schema.json` to the version this binary carries.
    Sync,
}

/// What `githops cache` does.
#[derive(Debug, Clone, Copy, PartialEq, Eq, Structural)]
pub enum CacheAction {
    /// Remove all cache entries.
    Clear,
    /// List all cache entries with their key and age.
    List,
}

/// The tool `githops migrate` imports from.
#[derive(Debug, Clone, Copy, PartialEq, Eq, Structural)]
pub enum MigrateSource {
    Husky,
    Lefthook,
}

impl MigrateSource {
    /// The tool's name, as hook files and revert scripts mention it.
    pub fn tool_name(self) -> (s: &'static str)
        ensures
            s@ == match self {
                MigrateSource::Husky => "husky"@,
                MigrateSource::Lefthook => "lefthook"@,
            },
    {
        match self {
            MigrateSource::Husky => "husky",
            MigrateSource::Lefthook => "lefthook",
        }
    }
}

} // verus!
