//! The arguments of the `update` command.
use vstd::prelude::*;

use crate::updater::RunOptions;

verus! {

/// The arguments of `update`.
#[derive(Debug)]
pub struct UpdateArgs {
    /// Path to packages.toml.
    pub config: String,
    /// Update only one package.
    pub package: Option<String>,
    /// Check versions and tools without changing files.
    pub dry_run: bool,
    /// Write changed packages, one per line, to this file.
    pub changed_packages_out: Option<String>,
}

impl UpdateArgs {
    /// The options of the update run that these arguments ask for.
    pub fn into_run_options(self) -> (r: RunOptions)
        ensures
            r.config_path == self.config,
            r.package_filter == self.package,
            r.dry_run == self.dry_run,
            r.changed_packages_out == self.changed_packages_out,
    {
        RunOptions {
            config_path: self.config,
            package_filter: self.package,
            dry_run: self.dry_run,
            changed_packages_out: self.changed_packages_out,
        }
    }
}

} // verus!
