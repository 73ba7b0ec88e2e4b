use wslscript::config::{ExtConfig, HoldMode};
use wslscript::distro::DistroGUID;
use wslscript::error::Error;
use wslscript::icon::ShellIcon;
use wslscript::registry::{
    get_extension_config, get_handler_executable_path, is_extension_registered_for_wsl,
    is_registered_for_current_executable, is_registered_for_other, query_registered_extensions,
    register_extension, unregister_extension,
};
use wslscript::store::{RegVal, RegistryData};

const EXE: &str = "C:\\Program Files\\wslscript\\wslscript.exe";

fn plain_config(ext: &str) -> ExtConfig {
    ExtConfig {
        extension: ext.to_owned(),
        icon: None,
        hold_mode: HoldMode::Error,
        interactive: false,
        distro: None,
    }
}

#[test]
fn register_empty_extension_fails() {
    let mut store = RegistryData::new_empty();
    assert_eq!(register_extension(&mut store, &plain_config(""), EXE).unwrap_err(), Error::LogicError);
    assert_eq!(store.keys.len(), 0);
}

#[test]
fn register_and_query() {
    let mut store = RegistryData::new_empty();
    register_extension(&mut store, &plain_config("sh"), EXE).unwrap();
    assert_eq!(query_registered_extensions(&store).unwrap(), vec!["sh"]);
    assert!(is_extension_registered_for_wsl(&store, "sh").unwrap());
    assert!(!is_extension_registered_for_wsl(&store, "py").unwrap());
    assert!(!is_registered_for_other(&store, "sh").unwrap());
}

#[test]
fn config_round_trip_defaults() {
    let mut store = RegistryData::new_empty();
    register_extension(&mut store, &plain_config("sh"), EXE).unwrap();
    let c = get_extension_config(&store, "sh").unwrap();
    assert_eq!(c.extension, "sh");
    assert_eq!(c.hold_mode, HoldMode::Error);
    assert!(!c.interactive);
    assert!(c.icon.is_none());
    assert!(c.distro.is_none());
}

#[test]
fn config_round_trip_full() {
    let mut store = RegistryData::new_empty();
    let distro = DistroGUID::from_str("{12345678-90AB-CDEF-1234-567890ABCDEF}").unwrap();
    let config = ExtConfig {
        extension: "py".to_owned(),
        icon: Some(ShellIcon::new("C:\\icons\\term.dll".to_owned(), 5)),
        hold_mode: HoldMode::Always,
        interactive: true,
        distro: Some(distro),
    };
    register_extension(&mut store, &config, EXE).unwrap();
    let c = get_extension_config(&store, "py").unwrap();
    assert_eq!(c.hold_mode, HoldMode::Always);
    assert!(c.interactive);
    let icon = c.icon.unwrap();
    assert_eq!(icon.path, "C:\\icons\\term.dll");
    assert_eq!(icon.index, 5);
    assert_eq!(c.distro.unwrap().s, "{12345678-90ab-cdef-1234-567890abcdef}");
}

#[test]
fn unknown_extension_config_fails() {
    let store = RegistryData::new_empty();
    assert_eq!(get_extension_config(&store, "sh").unwrap_err(), Error::RegistryError);
}

#[test]
fn registration_idempotence() {
    let mut once = RegistryData::new_empty();
    register_extension(&mut once, &plain_config("sh"), EXE).unwrap();
    let mut twice = RegistryData::new_empty();
    register_extension(&mut twice, &plain_config("sh"), EXE).unwrap();
    register_extension(&mut twice, &plain_config("sh"), EXE).unwrap();
    // the observable state is the same: same key count, same answers
    assert_eq!(once.keys.len(), twice.keys.len());
    assert_eq!(
        query_registered_extensions(&once).unwrap(),
        query_registered_extensions(&twice).unwrap()
    );
    let a = get_extension_config(&once, "sh").unwrap();
    let b = get_extension_config(&twice, "sh").unwrap();
    assert_eq!(a.hold_mode, b.hold_mode);
    assert_eq!(a.interactive, b.interactive);
    assert_eq!(
        get_handler_executable_path(&once, "sh").unwrap(),
        get_handler_executable_path(&twice, "sh").unwrap()
    );
}

#[test]
fn unregister_after_register_leaves_no_record() {
    let mut store = RegistryData::new_empty();
    register_extension(&mut store, &plain_config("sh"), EXE).unwrap();
    unregister_extension(&mut store, "sh").unwrap();
    // only the two ancestor keys that registration created remain
    assert_eq!(store.keys.len(), 2);
    for e in &store.keys {
        assert!(e.path.len() <= 2);
        assert!(e.values.is_empty());
    }
    assert!(query_registered_extensions(&store).unwrap().is_empty());
    assert!(!is_extension_registered_for_wsl(&store, "sh").unwrap());
}

#[test]
fn foreign_association_detected_and_kept() {
    let mut store = RegistryData::new_empty();
    let dot_sh = vec!["Software".to_owned(), "Classes".to_owned(), ".sh".to_owned()];
    store.set_value(&dot_sh, "", RegVal::Str("other.handler".to_owned()));
    assert!(is_registered_for_other(&store, "sh").unwrap());
    assert!(!is_extension_registered_for_wsl(&store, "sh").unwrap());
    // registering takes the association over
    register_extension(&mut store, &plain_config("sh"), EXE).unwrap();
    assert!(!is_registered_for_other(&store, "sh").unwrap());
    assert!(is_extension_registered_for_wsl(&store, "sh").unwrap());
}

#[test]
fn self_detection() {
    let mut store = RegistryData::new_empty();
    register_extension(&mut store, &plain_config("sh"), EXE).unwrap();
    assert_eq!(get_handler_executable_path(&store, "sh").unwrap(), EXE);
    assert!(is_registered_for_current_executable(&store, "sh", EXE).unwrap());
    // a stored path pointing elsewhere is detected
    assert!(!is_registered_for_current_executable(&store, "sh", "C:\\old\\wslscript.exe").unwrap());
    // an unregistered extension reports an error, not a verdict
    assert!(is_registered_for_current_executable(&store, "py", EXE).is_err());
}
