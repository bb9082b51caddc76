//! The actions a user can ask for, and how an inventory command folds its own
//! settings over the file and environment layers.
use vstd::prelude::*;
use crate::config::{merge_spec, ConfigOpts, ConfigOptsInventory};

verus! {

/// What the configuration command does.
pub enum ConfigAction {
    /// Build a configuration file.
    Build,
    /// Show the current configuration.
    Show,
}

/// Configuration controls.
pub struct ConfigCmd {
    pub action: ConfigAction,
}

/// What the inventory command does.
pub enum InventoryAction {
    /// Build an inventory file.
    Build,
    /// Print the inventory.
    Show,
    /// Print erroneous DNS records.
    Check,
    /// Fix erroneous DNS records once.
    Commit,
    /// Fix erroneous DNS records on a loop.
    Watch,
}

/// Builds or manages the DNS record inventory; `cfg` holds the inventory
/// settings given on the command line.
pub struct InventoryCmd {
    pub action: InventoryAction,
    pub cfg: ConfigOptsInventory,
}

/// The command-line layer made of inventory settings alone.
pub open spec fn cli_layer(cfg: ConfigOptsInventory) -> ConfigOpts {
    ConfigOpts { verify: None, list: None, inventory: Some(cfg) }
}

impl InventoryCmd {
    /// Splits the command into its action and the effective configuration:
    /// the file layer, overridden by the environment layer, overridden by the
    /// command's own inventory settings.
    pub fn resolve(self, file: ConfigOpts, env: ConfigOpts) -> (r: (InventoryAction, ConfigOpts))
        ensures
            r.0 == self.action,
            r.1 == merge_spec(merge_spec(file, env), cli_layer(self.cfg)),
    {
        let cli = ConfigOpts { verify: None, list: None, inventory: Some(self.cfg) };
        (self.action, ConfigOpts::layered(file, env, cli))
    }
}

} // verus!
