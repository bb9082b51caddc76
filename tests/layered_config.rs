use cddns::commands::{InventoryAction, InventoryCmd};
use cddns::config::{ConfigError, ConfigOpts, ConfigOptsInventory, ConfigOptsList, ConfigOptsVerify};

fn s(x: &str) -> String {
    x.to_string()
}

fn with_token(t: Option<&str>) -> ConfigOpts {
    ConfigOpts { verify: Some(ConfigOptsVerify { token: t.map(s) }), list: None, inventory: None }
}

#[test]
fn command_line_token_wins() {
    let eff = ConfigOpts::layered(with_token(Some("x")), ConfigOpts::empty(), with_token(Some("y")));
    assert_eq!(eff.require_token().ok(), Some(s("y")));
}

#[test]
fn file_token_kept_when_no_other_layer_sets_it() {
    let eff = ConfigOpts::layered(with_token(Some("x")), ConfigOpts::empty(), with_token(None));
    assert_eq!(eff.require_token().ok(), Some(s("x")));
}

#[test]
fn environment_overrides_file() {
    let eff = ConfigOpts::layered(with_token(Some("x")), with_token(Some("e")), ConfigOpts::empty());
    assert_eq!(eff.require_token().ok(), Some(s("e")));
}

#[test]
fn missing_token_is_an_error() {
    let eff = ConfigOpts::layered(ConfigOpts::empty(), with_token(None), ConfigOpts::empty());
    assert!(matches!(eff.require_token(), Err(ConfigError::MissingCredential)));
}

#[test]
fn leaves_merge_independently() {
    let file = ConfigOpts {
        verify: None,
        list: Some(ConfigOptsList {
            include_zones: Some(vec![s(".*.com")]),
            ignore_zones: Some(vec![s("a.com")]),
            include_records: None,
            ignore_records: None,
        }),
        inventory: Some(ConfigOptsInventory { path: Some(s("file.yaml")), force: Some(false), interval: Some(10) }),
    };
    let cli = ConfigOpts {
        verify: None,
        list: Some(ConfigOptsList {
            include_zones: None,
            ignore_zones: Some(vec![]),
            include_records: Some(vec![s("shop.a.com")]),
            ignore_records: None,
        }),
        inventory: Some(ConfigOptsInventory { path: None, force: Some(true), interval: None }),
    };
    let eff = ConfigOpts::layered(file, ConfigOpts::empty(), cli);
    let list = eff.list.as_ref().unwrap();
    assert_eq!(list.include_zones, Some(vec![s(".*.com")]));
    assert_eq!(list.ignore_zones, Some(vec![]));
    assert_eq!(list.include_records, Some(vec![s("shop.a.com")]));
    assert_eq!(list.ignore_records, None);
    let inv = eff.inventory.as_ref().unwrap();
    assert_eq!(inv.force, Some(true));
    assert_eq!(inv.interval, Some(10));
    assert_eq!(eff.inventory_path(), Some(s("file.yaml")));
    assert!(eff.verify.is_none());
}

#[test]
fn inventory_command_settings_override_layers() {
    let file = ConfigOpts {
        verify: Some(ConfigOptsVerify { token: Some(s("t")) }),
        list: None,
        inventory: Some(ConfigOptsInventory { path: Some(s("file.yaml")), force: None, interval: Some(5) }),
    };
    let cmd = InventoryCmd {
        action: InventoryAction::Check,
        cfg: ConfigOptsInventory { path: Some(s("cli.yaml")), force: None, interval: None },
    };
    let (action, eff) = cmd.resolve(file, ConfigOpts::empty());
    assert!(matches!(action, InventoryAction::Check));
    assert_eq!(eff.inventory_path(), Some(s("cli.yaml")));
    assert_eq!(eff.inventory.as_ref().unwrap().interval, Some(5));
    assert_eq!(eff.require_token().ok(), Some(s("t")));
}
