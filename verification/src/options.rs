//! Resolved execution parameters for one foreign-subsystem invocation,
//! derived from a registered extension's configuration or from raw
//! command-line flags.

use vstd::prelude::*;
use crate::config::{HoldMode, spec_hold_mode_from};
use crate::error::Error;
use crate::registry;
use crate::store::{RegValV, RegistryData};
use crate::strutil::str_eq;
use crate::winpath;

verus! {

/// Options for one foreign-subsystem invocation.
#[derive(Debug)]
pub struct WSLOptions {
    /// Mode after the command exits.
    pub hold_mode: HoldMode,
    /// Whether to run the foreign shell as an interactive shell.
    pub interactive: bool,
    /// Display name of the distribution to invoke, or `None` for the
    /// default one.
    pub distribution: Option<String>,
}

impl Default for WSLOptions {
    /// Default options: hold on error, non-interactive, default
    /// distribution.
    fn default() -> (r: Self)
        ensures
            r.hold_mode == HoldMode::Error,
            r.interactive == false,
            r.distribution is None,
    {
        WSLOptions { hold_mode: HoldMode::Error, interactive: false, distribution: None }
    }
}

/// The hold mode a registered extension's record denotes, defaulting to
/// `Error`.
pub open spec fn spec_cfg_hold(
    m: Map<Seq<Seq<char>>, Map<Seq<char>, RegValV>>,
    ext: Seq<char>,
) -> HoldMode {
    let ph = registry::cp1(registry::spec_handler_name(ext));
    let hm = if m[ph].contains_key("HoldMode"@) && (m[ph]["HoldMode"@] is S) {
        spec_hold_mode_from(m[ph]["HoldMode"@]->S_0)
    } else {
        None
    };
    match hm {
        Some(h) => h,
        None => HoldMode::Error,
    }
}

/// The interactive flag a registered extension's record denotes,
/// defaulting to `false`.
pub open spec fn spec_cfg_inter(
    m: Map<Seq<Seq<char>>, Map<Seq<char>, RegValV>>,
    ext: Seq<char>,
) -> bool {
    let ph = registry::cp1(registry::spec_handler_name(ext));
    m[ph].contains_key("Interactive"@) && (m[ph]["Interactive"@] is D) && m[ph][
        "Interactive"@
    ]->D_0 != 0
}

/// The canonical distribution identifier a registered extension's record
/// denotes, if a parseable one is stored.
pub open spec fn spec_cfg_distro(
    m: Map<Seq<Seq<char>>, Map<Seq<char>, RegValV>>,
    ext: Seq<char>,
) -> Option<Seq<char>> {
    let ph = registry::cp1(registry::spec_handler_name(ext));
    if m[ph].contains_key("Distribution"@) && (m[ph]["Distribution"@] is S)
        && crate::distro::spec_guid_parseable(m[ph]["Distribution"@]->S_0) {
        Some(crate::distro::spec_guid_canon(m[ph]["Distribution"@]->S_0))
    } else {
        None
    }
}

/// The display name of the extension's stored distribution, when the
/// snapshot key knows one for it.
pub open spec fn spec_resolved_distro(
    m: Map<Seq<Seq<char>>, Map<Seq<char>, RegValV>>,
    ext: Seq<char>,
) -> Option<Seq<char>> {
    match spec_cfg_distro(m, ext) {
        Some(g) => {
            let p = registry::lxss_path().push(g);
            if m.contains_key(p) && m[p].contains_key("DistributionName"@) && (m[p][
                "DistributionName"@
            ] is S) {
                Some(m[p]["DistributionName"@]->S_0)
            } else {
                None
            }
        },
        None => None,
    }
}

/// Whether options can be loaded for the extension: its handler record
/// exists.
pub open spec fn spec_from_ext_ok(
    m: Map<Seq<Seq<char>>, Map<Seq<char>, RegValV>>,
    ext: Seq<char>,
) -> bool {
    m.contains_key(registry::cp1(registry::spec_handler_name(ext)))
}

/// The options a registered extension denotes: its hold mode and
/// interactive flag, and its distribution resolved to a display name.
pub open spec fn spec_from_ext(
    m: Map<Seq<Seq<char>>, Map<Seq<char>, RegValV>>,
    ext: Seq<char>,
) -> (HoldMode, bool, Option<Seq<char>>) {
    (spec_cfg_hold(m, ext), spec_cfg_inter(m, ext), spec_resolved_distro(m, ext))
}

/// Whether an options value denotes the given spec-level triple.
pub open spec fn opts_match(r: WSLOptions, t: (HoldMode, bool, Option<Seq<char>>)) -> bool {
    &&& r.hold_mode == t.0
    &&& r.interactive == t.1
    &&& match r.distribution {
        Some(d) => t.2 == Some(d@),
        None => t.2 is None,
    }
}

/// The options denoted by a flat token list, scanned left to right from
/// `i` with the accumulated flag state: `--ext` with a registered
/// extension short-circuits to that extension's options, `-h` takes a
/// hold-mode token, `-i` sets the interactive flag, `-d` takes a
/// distribution name, and unrecognized tokens are ignored.
pub open spec fn spec_from_args(
    args: Seq<Seq<char>>,
    i: int,
    h: HoldMode,
    inter: bool,
    dist: Option<Seq<char>>,
    m: Map<Seq<Seq<char>>, Map<Seq<char>, RegValV>>,
) -> (HoldMode, bool, Option<Seq<char>>)
    decreases args.len() - i,
        when 0 <= i
{
    if i >= args.len() {
        (h, inter, dist)
    } else if args[i] == "--ext"@ {
        if i + 1 < args.len() {
            if spec_from_ext_ok(m, args[i + 1]) {
                spec_from_ext(m, args[i + 1])
            } else {
                spec_from_args(args, i + 2, h, inter, dist, m)
            }
        } else {
            (h, inter, dist)
        }
    } else if args[i] == "-h"@ {
        if i + 1 < args.len() {
            let h2 = match spec_hold_mode_from(args[i + 1]) {
                Some(x) => x,
                None => h,
            };
            spec_from_args(args, i + 2, h2, inter, dist, m)
        } else {
            (h, inter, dist)
        }
    } else if args[i] == "-i"@ {
        spec_from_args(args, i + 1, h, true, dist, m)
    } else if args[i] == "-d"@ {
        if i + 1 < args.len() {
            spec_from_args(args, i + 2, h, inter, Some(args[i + 1]), m)
        } else {
            (h, inter, None)
        }
    } else {
        spec_from_args(args, i + 1, h, inter, dist, m)
    }
}

impl WSLOptions {
    /// Load the options of a registered extension from the store;
    /// `None` when the extension has no handler record.
    pub fn from_ext(ext: &str, store: &RegistryData) -> (r: Option<WSLOptions>)
        requires
            store.wf(),
        ensures
            match r {
                Some(o) => spec_from_ext_ok(store.map_v(), ext@) && opts_match(
                    o,
                    spec_from_ext(store.map_v(), ext@),
                ),
                None => !spec_from_ext_ok(store.map_v(), ext@),
            },
    {
        let config = match registry::get_extension_config(store, ext) {
            Ok(c) => c,
            Err(_) => {
                return None;
            },
        };
        let distribution = match config.distro {
            Some(g) => registry::distro_guid_to_name(store, g),
            None => None,
        };
        Some(
            WSLOptions {
                hold_mode: config.hold_mode,
                interactive: config.interactive,
                distribution,
            },
        )
    }

    /// Parse a flat token list into options, consulting the store for a
    /// `--ext` flag.
    pub fn from_args(args: &Vec<String>, store: &RegistryData) -> (r: WSLOptions)
        requires
            store.wf(),
        ensures
            opts_match(
                r,
                spec_from_args(
                    args.deep_view(),
                    0,
                    HoldMode::Error,
                    false,
                    None,
                    store.map_v(),
                ),
            ),
    {
        let ghost va = args.deep_view();
        let ghost m = store.map_v();
        let mut hold_mode = HoldMode::Error;
        let mut interactive = false;
        let mut distribution: Option<String> = None;
        let n = args.len();
        let mut i: usize = 0;
        while i < n
            invariant
                i <= n,
                n == va.len(),
                va == args.deep_view(),
                va =~= Seq::new(args@.len() as nat, |k: int| args@[k]@),
                m == store.map_v(),
                store.wf(),
                spec_from_args(va, 0, HoldMode::Error, false, None, m) == spec_from_args(
                    va,
                    i as int,
                    hold_mode,
                    interactive,
                    match distribution {
                        Some(d) => Some(d@),
                        None => None,
                    },
                    m,
                ),
            decreases n - i,
        {
            let tok = &args[i];
            if str_eq(tok.as_str(), "--ext") {
                if i + 1 < n {
                    match Self::from_ext(args[i + 1].as_str(), store) {
                        Some(o) => {
                            return o;
                        },
                        None => {},
                    }
                    i = i + 2;
                } else {
                    i = i + 1;
                    return WSLOptions { hold_mode, interactive, distribution };
                }
            } else if str_eq(tok.as_str(), "-h") {
                if i + 1 < n {
                    match HoldMode::from_str(args[i + 1].as_str()) {
                        Some(x) => {
                            hold_mode = x;
                        },
                        None => {},
                    }
                    i = i + 2;
                } else {
                    return WSLOptions { hold_mode, interactive, distribution };
                }
            } else if str_eq(tok.as_str(), "-i") {
                interactive = true;
                i = i + 1;
            } else if str_eq(tok.as_str(), "-d") {
                if i + 1 < n {
                    distribution = Some(args[i + 1].clone());
                    i = i + 2;
                } else {
                    return WSLOptions { hold_mode, interactive, distribution: None };
                }
            } else {
                i = i + 1;
            }
        }
        WSLOptions { hold_mode, interactive, distribution }
    }
}

/// Resolve the options for a file about to be opened: look up the
/// registered configuration of its filename extension.  Fails with
/// `DropHandlerError` when the file has no extension or the extension is
/// not registered.
pub fn get_wsl_options(path: &str, store: &RegistryData) -> (r: Result<WSLOptions, Error>)
    requires
        store.wf(),
    ensures
        ({
            let m = store.map_v();
            match winpath::spec_extension(path@) {
                Some(e) => {
                    if spec_from_ext_ok(m, e) {
                        r matches Ok(o) && opts_match(o, spec_from_ext(m, e))
                    } else {
                        r matches Err(err) && err == Error::DropHandlerError
                    }
                },
                None => r matches Err(err) && err == Error::DropHandlerError,
            }
        }),
{
    let ext = match winpath::extension_of(path) {
        Some(e) => e,
        None => {
            return Err(Error::DropHandlerError);
        },
    };
    match WSLOptions::from_ext(ext.as_str(), store) {
        Some(o) => Ok(o),
        None => Err(Error::DropHandlerError),
    }
}

} // verus!
