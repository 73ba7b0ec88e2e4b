use wslscript::config::HoldMode;
use wslscript::digits::{parse_u32, u32_to_string};
use wslscript::error::Error;
use wslscript::icon::ShellIcon;
use wslscript::winpath::{extension_of, quoted, split_path, without_extended};

#[test]
fn split_path_cases() {
    assert_eq!(split_path("C:\\scripts\\run.sh").unwrap(), ("C:\\scripts".into(), "run.sh".into()));
    assert_eq!(split_path("C:\\a.sh").unwrap(), ("C:\\".into(), "a.sh".into()));
    assert_eq!(split_path("/usr/bin/a.sh").unwrap(), ("/usr/bin".into(), "a.sh".into()));
    assert_eq!(split_path("/a.sh").unwrap(), ("/".into(), "a.sh".into()));
    assert_eq!(split_path("a.sh").unwrap(), ("".into(), "a.sh".into()));
    assert_eq!(split_path("").unwrap_err(), Error::InvalidPathError);
    assert_eq!(split_path("C:\\dir\\").unwrap_err(), Error::InvalidPathError);
}

#[test]
fn extension_cases() {
    assert_eq!(extension_of("C:\\x\\foo.sh").as_deref(), Some("sh"));
    assert_eq!(extension_of("C:\\x\\foo.tar.gz").as_deref(), Some("gz"));
    assert_eq!(extension_of("C:\\x.d\\foo").as_deref(), None);
    assert_eq!(extension_of("C:\\x\\.bashrc").as_deref(), None);
    assert_eq!(extension_of("C:\\x\\foo.").as_deref(), Some(""));
}

#[test]
fn extended_prefix_stripped() {
    assert_eq!(without_extended("\\\\?\\C:\\Users\\me"), "C:\\Users\\me");
    assert_eq!(without_extended("C:\\Users\\me"), "C:\\Users\\me");
    assert_eq!(without_extended("\\\\server\\share"), "\\\\server\\share");
}

#[test]
fn double_quoting() {
    assert_eq!(quoted("C:\\Program Files\\x.exe"), "\"C:\\Program Files\\x.exe\"");
}

#[test]
fn decimal_formatting() {
    assert_eq!(u32_to_string(0), "0");
    assert_eq!(u32_to_string(42), "42");
    assert_eq!(u32_to_string(4294967295), "4294967295");
}

#[test]
fn decimal_parsing() {
    assert_eq!(parse_u32("0"), Some(0));
    assert_eq!(parse_u32("0030"), Some(30));
    assert_eq!(parse_u32("4294967295"), Some(4294967295));
    assert_eq!(parse_u32("4294967296"), None);
    assert_eq!(parse_u32(""), None);
    assert_eq!(parse_u32("12a"), None);
    assert_eq!(parse_u32("-1"), None);
}

#[test]
fn icon_reference_encoding() {
    let icon = ShellIcon::new("C:\\icons\\term.dll".to_owned(), 3);
    assert_eq!(icon.path(), "C:\\icons\\term.dll");
    assert_eq!(icon.index(), 3);
    assert_eq!(icon.shell_path(), "C:\\icons\\term.dll,3");
}

#[test]
fn icon_reference_decoding() {
    let icon = ShellIcon::from_str("C:\\icons\\term.dll,7");
    assert_eq!(icon.path, "C:\\icons\\term.dll");
    assert_eq!(icon.index, 7);
    // no comma: the whole string is the path, index zero
    let bare = ShellIcon::from_str("C:\\icons\\term.dll");
    assert_eq!(bare.path, "C:\\icons\\term.dll");
    assert_eq!(bare.index, 0);
    // an unparseable index falls back to zero
    let odd = ShellIcon::from_str("C:\\icons\\term.dll,x");
    assert_eq!(odd.path, "C:\\icons\\term.dll");
    assert_eq!(odd.index, 0);
}

#[test]
fn hold_mode_tokens() {
    assert_eq!(HoldMode::from_str("never"), Some(HoldMode::Never));
    assert_eq!(HoldMode::from_str("always"), Some(HoldMode::Always));
    assert_eq!(HoldMode::from_str("error"), Some(HoldMode::Error));
    assert_eq!(HoldMode::from_str("Never"), None);
    assert_eq!(HoldMode::from_str(""), None);
    assert_eq!(HoldMode::Always.as_string(), "always");
    assert_eq!(HoldMode::default(), HoldMode::Error);
}

#[test]
fn error_messages_present() {
    for e in [
        Error::StringToPathUTF8Error,
        Error::WinToUnixPathError,
        Error::WSLNotFound,
        Error::WSLProcessError,
        Error::InvalidPathError,
        Error::CommandTooLong,
        Error::Cancel,
        Error::RegistryError,
        Error::LogicError,
        Error::DropHandlerError,
    ] {
        assert!(!e.message().is_empty());
    }
}
