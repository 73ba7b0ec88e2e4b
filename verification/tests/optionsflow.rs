use wslscript::config::{ExtConfig, HoldMode};
use wslscript::distro::DistroGUID;
use wslscript::error::Error;
use wslscript::options::{get_wsl_options, WSLOptions};
use wslscript::registry::register_extension;
use wslscript::store::{RegVal, RegistryData};

const EXE: &str = "C:\\Program Files\\wslscript\\wslscript.exe";

fn args(tokens: &[&str]) -> Vec<String> {
    tokens.iter().map(|t| t.to_string()).collect()
}

fn lxss_key(guid: &str) -> Vec<String> {
    vec![
        "Software".to_owned(),
        "Microsoft".to_owned(),
        "Windows".to_owned(),
        "CurrentVersion".to_owned(),
        "Lxss".to_owned(),
        guid.to_owned(),
    ]
}

#[test]
fn from_args_flags() {
    let store = RegistryData::new_empty();
    let o = WSLOptions::from_args(&args(&["-h", "always", "-i", "-d", "Ubuntu"]), &store);
    assert_eq!(o.hold_mode, HoldMode::Always);
    assert!(o.interactive);
    assert_eq!(o.distribution.as_deref(), Some("Ubuntu"));
}

#[test]
fn from_args_defaults_and_unknown_tokens() {
    let store = RegistryData::new_empty();
    let o = WSLOptions::from_args(&args(&["--verbose", "-h", "sometimes"]), &store);
    assert_eq!(o.hold_mode, HoldMode::Error);
    assert!(!o.interactive);
    assert!(o.distribution.is_none());
}

#[test]
fn from_args_ext_short_circuits() {
    let mut store = RegistryData::new_empty();
    let config = ExtConfig {
        extension: "sh".to_owned(),
        icon: None,
        hold_mode: HoldMode::Always,
        interactive: true,
        distro: None,
    };
    register_extension(&mut store, &config, EXE).unwrap();
    // the registered configuration wins over the remaining flags
    let o = WSLOptions::from_args(&args(&["--ext", "sh", "-h", "never"]), &store);
    assert_eq!(o.hold_mode, HoldMode::Always);
    assert!(o.interactive);
    // an unregistered extension falls back to flag parsing
    let o2 = WSLOptions::from_args(&args(&["--ext", "zz", "-h", "never"]), &store);
    assert_eq!(o2.hold_mode, HoldMode::Never);
    assert!(!o2.interactive);
}

#[test]
fn from_ext_resolves_distro_name() {
    let mut store = RegistryData::new_empty();
    let guid = "{12345678-90ab-cdef-1234-567890abcdef}";
    store.set_value(&lxss_key(guid), "DistributionName", RegVal::Str("Ubuntu".to_owned()));
    let config = ExtConfig {
        extension: "sh".to_owned(),
        icon: None,
        hold_mode: HoldMode::Never,
        interactive: false,
        distro: Some(DistroGUID::from_str(guid).unwrap()),
    };
    register_extension(&mut store, &config, EXE).unwrap();
    let o = WSLOptions::from_ext("sh", &store).unwrap();
    assert_eq!(o.hold_mode, HoldMode::Never);
    assert_eq!(o.distribution.as_deref(), Some("Ubuntu"));
    // an installed distro the snapshot does not know stays unresolved
    assert!(WSLOptions::from_ext("zz", &store).is_none());
}

#[test]
fn wsl_options_for_dropped_file() {
    let mut store = RegistryData::new_empty();
    let config = ExtConfig {
        extension: "sh".to_owned(),
        icon: None,
        hold_mode: HoldMode::Error,
        interactive: false,
        distro: None,
    };
    register_extension(&mut store, &config, EXE).unwrap();
    let o = get_wsl_options("C:\\scripts\\run.sh", &store).unwrap();
    assert_eq!(o.hold_mode, HoldMode::Error);
    // no extension, hidden file, or unregistered extension
    assert_eq!(get_wsl_options("C:\\scripts\\run", &store).unwrap_err(), Error::DropHandlerError);
    assert_eq!(get_wsl_options("C:\\scripts\\.sh", &store).unwrap_err(), Error::DropHandlerError);
    assert_eq!(get_wsl_options("C:\\scripts\\run.py", &store).unwrap_err(), Error::DropHandlerError);
}
