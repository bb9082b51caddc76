//! Layered configuration: each layer is a partial configuration in which every
//! field may be absent, and the layers are folded in the fixed order
//! file < environment < command line.
use vstd::prelude::*;

verus! {

/// Credential settings.
pub struct ConfigOptsVerify {
    pub token: Option<String>,
}

/// Zone and record filter pattern lists.
pub struct ConfigOptsList {
    pub include_zones: Option<Vec<String>>,
    pub ignore_zones: Option<Vec<String>>,
    pub include_records: Option<Vec<String>>,
    pub ignore_records: Option<Vec<String>>,
}

/// Inventory settings: file path, force flag for commits, watch interval in
/// milliseconds.
pub struct ConfigOptsInventory {
    pub path: Option<String>,
    pub force: Option<bool>,
    pub interval: Option<u64>,
}

/// One layer of configuration; every field is optional.
pub struct ConfigOpts {
    pub verify: Option<ConfigOptsVerify>,
    pub list: Option<ConfigOptsList>,
    pub inventory: Option<ConfigOptsInventory>,
}

/// Errors of the configuration accessors.
pub enum ConfigError {
    /// No token is set in the effective configuration.
    MissingCredential,
}

/// The later value if it is set, the earlier one otherwise.
pub open spec fn pick<T>(base: Option<T>, over: Option<T>) -> Option<T> {
    if over is Some {
        over
    } else {
        base
    }
}

pub open spec fn token_of(c: ConfigOpts) -> Option<String> {
    match c.verify {
        Some(v) => v.token,
        None => None,
    }
}

pub open spec fn include_zones_of(c: ConfigOpts) -> Option<Vec<String>> {
    match c.list {
        Some(l) => l.include_zones,
        None => None,
    }
}

pub open spec fn ignore_zones_of(c: ConfigOpts) -> Option<Vec<String>> {
    match c.list {
        Some(l) => l.ignore_zones,
        None => None,
    }
}

pub open spec fn include_records_of(c: ConfigOpts) -> Option<Vec<String>> {
    match c.list {
        Some(l) => l.include_records,
        None => None,
    }
}

pub open spec fn ignore_records_of(c: ConfigOpts) -> Option<Vec<String>> {
    match c.list {
        Some(l) => l.ignore_records,
        None => None,
    }
}

pub open spec fn path_of(c: ConfigOpts) -> Option<String> {
    match c.inventory {
        Some(i) => i.path,
        None => None,
    }
}

pub open spec fn force_of(c: ConfigOpts) -> Option<bool> {
    match c.inventory {
        Some(i) => i.force,
        None => None,
    }
}

pub open spec fn interval_of(c: ConfigOpts) -> Option<u64> {
    match c.inventory {
        Some(i) => i.interval,
        None => None,
    }
}

/// `base` overridden by `over`, sub-configuration by sub-configuration; inside
/// a sub-configuration present in both, leaf by leaf.
pub open spec fn merge_spec(base: ConfigOpts, over: ConfigOpts) -> ConfigOpts {
    ConfigOpts {
        verify: match (base.verify, over.verify) {
            (Some(a), Some(b)) => Some(ConfigOptsVerify { token: pick(a.token, b.token) }),
            (Some(a), None) => Some(a),
            (None, b) => b,
        },
        list: match (base.list, over.list) {
            (Some(a), Some(b)) => Some(
                ConfigOptsList {
                    include_zones: pick(a.include_zones, b.include_zones),
                    ignore_zones: pick(a.ignore_zones, b.ignore_zones),
                    include_records: pick(a.include_records, b.include_records),
                    ignore_records: pick(a.ignore_records, b.ignore_records),
                },
            ),
            (Some(a), None) => Some(a),
            (None, b) => b,
        },
        inventory: match (base.inventory, over.inventory) {
            (Some(a), Some(b)) => Some(
                ConfigOptsInventory {
                    path: pick(a.path, b.path),
                    force: pick(a.force, b.force),
                    interval: pick(a.interval, b.interval),
                },
            ),
            (Some(a), None) => Some(a),
            (None, b) => b,
        },
    }
}

/// Each leaf of `r` is the leaf of `over` when set there, that of `base`
/// otherwise.
pub open spec fn is_merge_of(r: ConfigOpts, base: ConfigOpts, over: ConfigOpts) -> bool {
    &&& token_of(r) == pick(token_of(base), token_of(over))
    &&& include_zones_of(r) == pick(include_zones_of(base), include_zones_of(over))
    &&& ignore_zones_of(r) == pick(ignore_zones_of(base), ignore_zones_of(over))
    &&& include_records_of(r) == pick(include_records_of(base), include_records_of(over))
    &&& ignore_records_of(r) == pick(ignore_records_of(base), ignore_records_of(over))
    &&& path_of(r) == pick(path_of(base), path_of(over))
    &&& force_of(r) == pick(force_of(base), force_of(over))
    &&& interval_of(r) == pick(interval_of(base), interval_of(over))
}

/// Merging is leaf-local: every leaf of the merge is the later layer's leaf
/// when that layer sets it, the earlier layer's otherwise.
pub proof fn lemma_merge_leafwise(base: ConfigOpts, over: ConfigOpts)
    ensures
        is_merge_of(merge_spec(base, over), base, over),
{
}

/// Precedence of the three layers: for every field, a value set on the command
/// line is the effective value whatever the file and the environment say; one
/// set in the environment and not on the command line is the effective value;
/// and one set only in the file is the effective value.
pub proof fn lemma_merge_precedence(file: ConfigOpts, env: ConfigOpts, cli: ConfigOpts)
    ensures
        ({
            let eff = merge_spec(merge_spec(file, env), cli);
            &&& token_of(cli) is Some ==> token_of(eff) == token_of(cli)
            &&& token_of(cli) is None && token_of(env) is Some ==> token_of(eff) == token_of(env)
            &&& token_of(cli) is None && token_of(env) is None ==> token_of(eff) == token_of(file)
            &&& include_zones_of(cli) is Some ==> include_zones_of(eff) == include_zones_of(cli)
            &&& include_zones_of(cli) is None && include_zones_of(env) is Some ==> include_zones_of(eff) == include_zones_of(env)
            &&& include_zones_of(cli) is None && include_zones_of(env) is None ==> include_zones_of(eff) == include_zones_of(file)
            &&& ignore_zones_of(cli) is Some ==> ignore_zones_of(eff) == ignore_zones_of(cli)
            &&& ignore_zones_of(cli) is None && ignore_zones_of(env) is Some ==> ignore_zones_of(eff) == ignore_zones_of(env)
            &&& ignore_zones_of(cli) is None && ignore_zones_of(env) is None ==> ignore_zones_of(eff) == ignore_zones_of(file)
            &&& include_records_of(cli) is Some ==> include_records_of(eff) == include_records_of(cli)
            &&& include_records_of(cli) is None && include_records_of(env) is Some ==> include_records_of(eff) == include_records_of(env)
            &&& include_records_of(cli) is None && include_records_of(env) is None ==> include_records_of(eff) == include_records_of(file)
            &&& ignore_records_of(cli) is Some ==> ignore_records_of(eff) == ignore_records_of(cli)
            &&& ignore_records_of(cli) is None && ignore_records_of(env) is Some ==> ignore_records_of(eff) == ignore_records_of(env)
            &&& ignore_records_of(cli) is None && ignore_records_of(env) is None ==> ignore_records_of(eff) == ignore_records_of(file)
            &&& path_of(cli) is Some ==> path_of(eff) == path_of(cli)
            &&& path_of(cli) is None && path_of(env) is Some ==> path_of(eff) == path_of(env)
            &&& path_of(cli) is None && path_of(env) is None ==> path_of(eff) == path_of(file)
            &&& force_of(cli) is Some ==> force_of(eff) == force_of(cli)
            &&& force_of(cli) is None && force_of(env) is Some ==> force_of(eff) == force_of(env)
            &&& force_of(cli) is None && force_of(env) is None ==> force_of(eff) == force_of(file)
            &&& interval_of(cli) is Some ==> interval_of(eff) == interval_of(cli)
            &&& interval_of(cli) is None && interval_of(env) is Some ==> interval_of(eff) == interval_of(env)
            &&& interval_of(cli) is None && interval_of(env) is None ==> interval_of(eff) == interval_of(file)
        }),
{
    lemma_merge_leafwise(file, env);
    lemma_merge_leafwise(merge_spec(file, env), cli);
}

fn pick_exec<T>(base: Option<T>, over: Option<T>) -> (r: Option<T>)
    ensures
        r == pick(base, over),
{
    match over {
        Some(v) => Some(v),
        None => base,
    }
}

impl ConfigOptsVerify {
    /// Leaf-wise merge of two credential settings.
    pub fn merge(self, other: ConfigOptsVerify) -> (r: ConfigOptsVerify)
        ensures
            r.token == pick(self.token, other.token),
    {
        ConfigOptsVerify { token: pick_exec(self.token, other.token) }
    }
}

impl ConfigOptsList {
    /// Leaf-wise merge of two sets of filter lists.
    pub fn merge(self, other: ConfigOptsList) -> (r: ConfigOptsList)
        ensures
            r.include_zones == pick(self.include_zones, other.include_zones),
            r.ignore_zones == pick(self.ignore_zones, other.ignore_zones),
            r.include_records == pick(self.include_records, other.include_records),
            r.ignore_records == pick(self.ignore_records, other.ignore_records),
    {
        ConfigOptsList {
            include_zones: pick_exec(self.include_zones, other.include_zones),
            ignore_zones: pick_exec(self.ignore_zones, other.ignore_zones),
            include_records: pick_exec(self.include_records, other.include_records),
            ignore_records: pick_exec(self.ignore_records, other.ignore_records),
        }
    }
}

impl ConfigOptsInventory {
    /// Leaf-wise merge of two inventory settings.
    pub fn merge(self, other: ConfigOptsInventory) -> (r: ConfigOptsInventory)
        ensures
            r.path == pick(self.path, other.path),
            r.force == pick(self.force, other.force),
            r.interval == pick(self.interval, other.interval),
    {
        ConfigOptsInventory {
            path: pick_exec(self.path, other.path),
            force: pick_exec(self.force, other.force),
            interval: pick_exec(self.interval, other.interval),
        }
    }
}

impl ConfigOpts {
    /// A layer that sets nothing.
    pub fn empty() -> (r: ConfigOpts)
        ensures
            r.verify is None,
            r.list is None,
            r.inventory is None,
    {
        ConfigOpts { verify: None, list: None, inventory: None }
    }

    /// Overrides `self` with `other`: every leaf set in `other` wins.
    pub fn merge(self, other: ConfigOpts) -> (r: ConfigOpts)
        ensures
            r == merge_spec(self, other),
    {
        let verify = match (self.verify, other.verify) {
            (Some(a), Some(b)) => Some(a.merge(b)),
            (Some(a), None) => Some(a),
            (None, b) => b,
        };
        let list = match (self.list, other.list) {
            (Some(a), Some(b)) => Some(a.merge(b)),
            (Some(a), None) => Some(a),
            (None, b) => b,
        };
        let inventory = match (self.inventory, other.inventory) {
            (Some(a), Some(b)) => Some(a.merge(b)),
            (Some(a), None) => Some(a),
            (None, b) => b,
        };
        ConfigOpts { verify, list, inventory }
    }

    /// Folds the three layers in precedence order file < environment <
    /// command line.
    pub fn layered(file: ConfigOpts, env: ConfigOpts, cli: ConfigOpts) -> (r: ConfigOpts)
        ensures
            r == merge_spec(merge_spec(file, env), cli),
    {
        file.merge(env).merge(cli)
    }

    /// The inventory path of the effective configuration, if set.
    pub fn inventory_path(&self) -> (r: Option<String>)
        ensures
            r == path_of(*self),
    {
        match &self.inventory {
            Some(i) => match &i.path {
                Some(p) => Some(p.clone()),
                None => None,
            },
            None => None,
        }
    }

    /// The token of the effective configuration, or `MissingCredential`.
    pub fn require_token(&self) -> (r: Result<String, ConfigError>)
        ensures
            match token_of(*self) {
                Some(t) => r == Ok::<String, ConfigError>(t),
                None => r is Err && r->Err_0 is MissingCredential,
            },
    {
        match &self.verify {
            Some(v) => match &v.token {
                Some(t) => Ok(t.clone()),
                None => Err(ConfigError::MissingCredential),
            },
            None => Err(ConfigError::MissingCredential),
        }
    }
}

} // verus!
