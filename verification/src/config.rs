//! The persisted configuration record of one extension and the terminal
//! hold-mode enumeration with its store-native tokens.

use vstd::prelude::*;
use crate::distro::DistroGUID;
use crate::icon::ShellIcon;
use crate::strutil::str_eq;

verus! {

/// Terminal window hold mode after the script exits.
#[derive(Clone, Copy, PartialEq, Eq, Structural, Debug)]
pub enum HoldMode {
    /// Always close the terminal window on exit.
    Never,
    /// Always wait for a keypress on exit.
    Always,
    /// Wait for a keypress when the exit code is not zero.
    Error,
}

/// The hold mode that a store-native token denotes: exactly `never`,
/// `always` or `error`, case-sensitively; anything else denotes none.
pub open spec fn spec_hold_mode_from(s: Seq<char>) -> Option<HoldMode> {
    if s == "never"@ {
        Some(HoldMode::Never)
    } else if s == "always"@ {
        Some(HoldMode::Always)
    } else if s == "error"@ {
        Some(HoldMode::Error)
    } else {
        None
    }
}

/// The store-native token of a hold mode.
pub open spec fn spec_hold_mode_token(m: HoldMode) -> Seq<char> {
    match m {
        HoldMode::Never => "never"@,
        HoldMode::Always => "always"@,
        HoldMode::Error => "error"@,
    }
}

impl HoldMode {
    /// Decode a store-native token; `None` for any unrecognized value.
    pub fn from_str(s: &str) -> (r: Option<HoldMode>)
        ensures
            r == spec_hold_mode_from(s@),
    {
        if str_eq(s, "never") {
            Some(HoldMode::Never)
        } else if str_eq(s, "always") {
            Some(HoldMode::Always)
        } else if str_eq(s, "error") {
            Some(HoldMode::Error)
        } else {
            None
        }
    }

    /// The store-native token of this mode.
    pub fn as_string(&self) -> (r: String)
        ensures
            r@ == spec_hold_mode_token(*self),
    {
        match self {
            HoldMode::Never => String::from_str("never"),
            HoldMode::Always => String::from_str("always"),
            HoldMode::Error => String::from_str("error"),
        }
    }
}

impl Default for HoldMode {
    /// The default hold mode: wait for a keypress on a failing exit code.
    fn default() -> (r: Self)
        ensures
            r == HoldMode::Error,
    {
        HoldMode::Error
    }
}

/// One extension's persisted configuration record.
#[derive(Clone, Debug)]
pub struct ExtConfig {
    /// Filetype extension, without a leading dot.
    pub extension: String,
    /// Icon reference for the filetype, if any.
    pub icon: Option<ShellIcon>,
    /// Hold mode.
    pub hold_mode: HoldMode,
    /// Whether to run the foreign shell as an interactive shell.
    pub interactive: bool,
    /// The distribution to run, or `None` for the default one.
    pub distro: Option<DistroGUID>,
}

} // verus!
