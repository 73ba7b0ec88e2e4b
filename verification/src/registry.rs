//! Registration engine: creates, queries and deletes the multi-key
//! handler records that associate a filename extension with this program,
//! against the store model of `store`.
//!
//! All key paths are relative to the user hive.  The handler record of an
//! extension `ext` lives under `Software\Classes\wslscript.ext`; the
//! extension's own key is `Software\Classes\.ext`.  The installed
//! distributions live under the subsystem's metadata key.

use vstd::prelude::*;
use crate::config::{ExtConfig, HoldMode};
use crate::config::{spec_hold_mode_from, spec_hold_mode_token};
use crate::distro::{DistroGUID, Distros, distro_map};
use crate::error::Error;
use crate::icon::{ShellIcon, spec_icon_from, spec_shell_path};
use crate::store::{RegVal, RegValV, RegistryData};
use crate::store::{path_extends, spec_delete_tree, spec_set_value};
use crate::strutil::{push_char, str_eq, str_starts_with, substring_owned};

verus! {

/// The prefix of every handler record name.
pub open spec fn spec_handler_prefix() -> Seq<char> {
    "wslscript"@
}

/// The handler record name of an extension: `wslscript.<ext>`.
pub open spec fn spec_handler_name(ext: Seq<char>) -> Seq<char> {
    "wslscript."@ + ext
}

/// The extension's own key name: `.<ext>`.
pub open spec fn spec_dot_ext(ext: Seq<char>) -> Seq<char> {
    "."@ + ext
}

/// The description stored with a handler record.
pub open spec fn spec_handler_desc(ext: Seq<char>) -> Seq<char> {
    "WSL Shell Script (."@ + ext + ")"@
}

/// The open-verb command stored with a handler record: the quoted
/// executable followed by the fixed argument text.
pub open spec fn spec_command(ext: Seq<char>, exe: Seq<char>) -> Seq<char> {
    seq!['"'] + exe + "\" --ext \""@ + ext + "\" -E \"%0\" %*"@
}

/// Path of a key one level below `Software\Classes`.
pub open spec fn cp1(a: Seq<char>) -> Seq<Seq<char>> {
    seq!["Software"@, "Classes"@, a]
}

/// Path of a key two levels below `Software\Classes`.
pub open spec fn cp2(a: Seq<char>, b: Seq<char>) -> Seq<Seq<char>> {
    seq!["Software"@, "Classes"@, a, b]
}

/// Path of a key three levels below `Software\Classes`.
pub open spec fn cp3(a: Seq<char>, b: Seq<char>, c: Seq<char>) -> Seq<Seq<char>> {
    seq!["Software"@, "Classes"@, a, b, c]
}

/// Path of a key four levels below `Software\Classes`.
pub open spec fn cp4(a: Seq<char>, b: Seq<char>, c: Seq<char>, d: Seq<char>) -> Seq<Seq<char>> {
    seq!["Software"@, "Classes"@, a, b, c, d]
}

/// Build the handler record name `wslscript.<ext>`.
pub fn handler_name(ext: &str) -> (r: String)
    ensures
        r@ == spec_handler_name(ext@),
{
    let mut r = String::from_str("wslscript.");
    r.append(ext);
    r
}

/// Build the extension key name `.<ext>`.
pub fn dot_ext(ext: &str) -> (r: String)
    ensures
        r@ == spec_dot_ext(ext@),
{
    let mut r = String::from_str(".");
    r.append(ext);
    r
}

/// Build the description text of a handler record.
fn handler_desc(ext: &str) -> (r: String)
    ensures
        r@ == spec_handler_desc(ext@),
{
    let mut r = String::from_str("WSL Shell Script (.");
    r.append(ext);
    r.append(")");
    proof {
        assert(r@ =~= spec_handler_desc(ext@));
    }
    r
}

/// Build the open-verb command for the handler record of `ext`, pointing
/// at the executable at `exe`.
pub fn get_command(ext: &str, exe: &str) -> (r: String)
    ensures
        r@ == spec_command(ext@, exe@),
{
    let mut r = String::new();
    push_char(&mut r, '"');
    r.append(exe);
    r.append("\" --ext \"");
    r.append(ext);
    r.append("\" -E \"%0\" %*");
    proof {
        assert(r@ =~= spec_command(ext@, exe@));
    }
    r
}

fn classes_path1(a: String) -> (r: Vec<String>)
    ensures
        r.deep_view() == cp1(a@),
        r@.len() == 3,
{
    let r = vec![String::from_str("Software"), String::from_str("Classes"), a];
    proof {
        assert(r.deep_view() =~= cp1(r@[2]@));
    }
    r
}

fn classes_path2(a: String, b: String) -> (r: Vec<String>)
    ensures
        r.deep_view() == cp2(a@, b@),
        r@.len() == 4,
{
    let r = vec![String::from_str("Software"), String::from_str("Classes"), a, b];
    proof {
        assert(r.deep_view() =~= cp2(r@[2]@, r@[3]@));
    }
    r
}

fn classes_path3(a: String, b: String, c: String) -> (r: Vec<String>)
    ensures
        r.deep_view() == cp3(a@, b@, c@),
        r@.len() == 5,
{
    let r = vec![String::from_str("Software"), String::from_str("Classes"), a, b, c];
    proof {
        assert(r.deep_view() =~= cp3(r@[2]@, r@[3]@, r@[4]@));
    }
    r
}

fn classes_path4(a: String, b: String, c: String, d: String) -> (r: Vec<String>)
    ensures
        r.deep_view() == cp4(a@, b@, c@, d@),
        r@.len() == 6,
{
    let r = vec![String::from_str("Software"), String::from_str("Classes"), a, b, c, d];
    proof {
        assert(r.deep_view() =~= cp4(r@[2]@, r@[3]@, r@[4]@, r@[5]@));
    }
    r
}

/// The store map after registering `c` with the executable at `exe`: the
/// previous handler record tree is removed wholesale, then the record is
/// written key by key, and the extension key is pointed at it.
pub open spec fn spec_register(
    m: Map<Seq<Seq<char>>, Map<Seq<char>, RegValV>>,
    c: ExtConfig,
    exe: Seq<char>,
) -> Map<Seq<Seq<char>>, Map<Seq<char>, RegValV>> {
    let ext = c.extension@;
    let name = spec_handler_name(ext);
    let desc = spec_handler_desc(ext);
    let cmd = spec_command(ext, exe);
    let m1 = spec_delete_tree(m, cp1(name));
    let m2 = spec_set_value(m1, cp1(name), ""@, RegValV::S(desc));
    let m3 = spec_set_value(m2, cp1(name), "EditFlags"@, RegValV::D(0x30));
    let m4 = spec_set_value(m3, cp1(name), "FriendlyTypeName"@, RegValV::S(desc));
    let m5 = spec_set_value(m4, cp1(name), "HoldMode"@, RegValV::S(spec_hold_mode_token(c.hold_mode)));
    let m6 = spec_set_value(
        m5,
        cp1(name),
        "Interactive"@,
        RegValV::D(
            if c.interactive {
                1
            } else {
                0
            },
        ),
    );
    let m7 = match c.distro {
        Some(d) => spec_set_value(m6, cp1(name), "Distribution"@, RegValV::S(d.s@)),
        None => m6,
    };
    let m8 = match c.icon {
        Some(ic) => spec_set_value(
            m7,
            cp2(name, "DefaultIcon"@),
            ""@,
            RegValV::S(spec_shell_path(ic.path@, ic.index)),
        ),
        None => m7,
    };
    let m9 = spec_set_value(m8, cp2(name, "shell"@), ""@, RegValV::S("open"@));
    let m10 = spec_set_value(m9, cp3(name, "shell"@, "open"@), ""@, RegValV::S("Run in WSL"@));
    let m11 = match c.icon {
        Some(ic) => spec_set_value(
            m10,
            cp3(name, "shell"@, "open"@),
            "Icon"@,
            RegValV::S(spec_shell_path(ic.path@, ic.index)),
        ),
        None => m10,
    };
    let m12 = spec_set_value(
        m11,
        cp4(name, "shell"@, "open"@, "command"@),
        ""@,
        RegValV::S(cmd),
    );
    let m13 = spec_set_value(m12, cp3(name, "shell"@, "runas"@), "Extended"@, RegValV::S(""@));
    let m14 = match c.icon {
        Some(ic) => spec_set_value(
            m13,
            cp3(name, "shell"@, "runas"@),
            "Icon"@,
            RegValV::S(spec_shell_path(ic.path@, ic.index)),
        ),
        None => m13,
    };
    let m15 = spec_set_value(
        m14,
        cp4(name, "shell"@, "runas"@, "command"@),
        ""@,
        RegValV::S(cmd),
    );
    let m16 = spec_set_value(
        m15,
        cp3(name, "shellex"@, "DropHandler"@),
        ""@,
        RegValV::S("{86C86720-42A0-1069-A2E8-08002B30309D}"@),
    );
    let m17 = spec_set_value(m16, cp1(spec_dot_ext(ext)), ""@, RegValV::S(name));
    let m18 = spec_set_value(
        m17,
        cp1(spec_dot_ext(ext)),
        "PerceivedType"@,
        RegValV::S("application"@),
    );
    spec_set_value(m18, cp2(spec_dot_ext(ext), "OpenWithProgIds"@), name, RegValV::S(""@))
}

/// Register this program as the handler for the extension of `config`,
/// with the open-verb command pointing at the executable at `exe_path`
/// (the current executable's canonical path without the extended-length
/// prefix, resolved by the caller).
///
/// Fails with `LogicError` exactly when the extension name is empty; the
/// store is then untouched.
pub fn register_extension(store: &mut RegistryData, config: &ExtConfig, exe_path: &str) -> (r:
    Result<(), Error>)
    requires
        old(store).wf(),
    ensures
        final(store).wf(),
        config.extension@.len() == 0 ==> (r matches Err(e) && e == Error::LogicError
            && *final(store) == *old(store)),
        config.extension@.len() > 0 ==> r is Ok && final(store).map_v() == spec_register(
            old(store).map_v(),
            *config,
            exe_path@,
        ),
{
    let ext = &config.extension;
    if ext.as_str().unicode_len() == 0 {
        return Err(Error::LogicError);
    }
    let name = handler_name(ext.as_str());
    let desc = handler_desc(ext.as_str());
    let cmd = get_command(ext.as_str(), exe_path);
    // delete any previous handler record wholesale
    let p_name = classes_path1(name.clone());
    store.delete_tree(&p_name);
    // Software\Classes\wslscript.ext
    store.set_value(&p_name, "", RegVal::Str(desc.clone()));
    store.set_value(&p_name, "EditFlags", RegVal::Dword(0x30));
    store.set_value(&p_name, "FriendlyTypeName", RegVal::Str(desc));
    store.set_value(&p_name, "HoldMode", RegVal::Str(config.hold_mode.as_string()));
    store.set_value(
        &p_name,
        "Interactive",
        RegVal::Dword(
            if config.interactive {
                1
            } else {
                0
            },
        ),
    );
    match &config.distro {
        Some(d) => {
            store.set_value(&p_name, "Distribution", RegVal::Str(d.to_string()));
        },
        None => {},
    }
    // Software\Classes\wslscript.ext\DefaultIcon
    match &config.icon {
        Some(ic) => {
            let p = classes_path2(name.clone(), String::from_str("DefaultIcon"));
            store.set_value(&p, "", RegVal::Str(ic.shell_path()));
        },
        None => {},
    }
    // Software\Classes\wslscript.ext\shell
    let p_shell = classes_path2(name.clone(), String::from_str("shell"));
    store.set_value(&p_shell, "", RegVal::Str(String::from_str("open")));
    // Software\Classes\wslscript.ext\shell\open
    let p_open = classes_path3(name.clone(), String::from_str("shell"), String::from_str("open"));
    store.set_value(&p_open, "", RegVal::Str(String::from_str("Run in WSL")));
    match &config.icon {
        Some(ic) => {
            store.set_value(&p_open, "Icon", RegVal::Str(ic.shell_path()));
        },
        None => {},
    }
    // Software\Classes\wslscript.ext\shell\open\command
    let p_open_cmd = classes_path4(
        name.clone(),
        String::from_str("shell"),
        String::from_str("open"),
        String::from_str("command"),
    );
    store.set_value(&p_open_cmd, "", RegVal::Str(cmd.clone()));
    // Software\Classes\wslscript.ext\shell\runas
    let p_runas = classes_path3(name.clone(), String::from_str("shell"), String::from_str("runas"));
    store.set_value(&p_runas, "Extended", RegVal::Str(String::from_str("")));
    match &config.icon {
        Some(ic) => {
            store.set_value(&p_runas, "Icon", RegVal::Str(ic.shell_path()));
        },
        None => {},
    }
    // Software\Classes\wslscript.ext\shell\runas\command
    let p_runas_cmd = classes_path4(
        name.clone(),
        String::from_str("shell"),
        String::from_str("runas"),
        String::from_str("command"),
    );
    store.set_value(&p_runas_cmd, "", RegVal::Str(cmd));
    // Software\Classes\wslscript.ext\shellex\DropHandler
    let p_drop = classes_path3(
        name.clone(),
        String::from_str("shellex"),
        String::from_str("DropHandler"),
    );
    store.set_value(
        &p_drop,
        "",
        RegVal::Str(String::from_str("{86C86720-42A0-1069-A2E8-08002B30309D}")),
    );
    // Software\Classes\.ext
    let p_dot = classes_path1(dot_ext(ext.as_str()));
    store.set_value(&p_dot, "", RegVal::Str(name.clone()));
    store.set_value(&p_dot, "PerceivedType", RegVal::Str(String::from_str("application")));
    // Software\Classes\.ext\OpenWithProgIds
    let p_owpi = classes_path2(dot_ext(ext.as_str()), String::from_str("OpenWithProgIds"));
    store.set_value(&p_owpi, name.as_str(), RegVal::Str(String::from_str("")));
    Ok(())
}

/// Whether the key at `p` holds any value in `m`.
pub open spec fn spec_has_any_value(
    m: Map<Seq<Seq<char>>, Map<Seq<char>, RegValV>>,
    p: Seq<Seq<char>>,
) -> bool {
    exists|n: Seq<char>| m[p].contains_key(n)
}

/// Whether any key of `m` lies strictly below `p`.
pub open spec fn spec_has_strict_subkey(
    m: Map<Seq<Seq<char>>, Map<Seq<char>, RegValV>>,
    p: Seq<Seq<char>>,
) -> bool {
    exists|q: Seq<Seq<char>>| #[trigger] m.contains_key(q) && path_extends(q, p) && q.len() > p.len()
}

/// The store map after unregistering `ext`: the handler record tree is
/// removed; the extension key's default is cleared when it pointed at the
/// handler; the handler's open-with entry is removed, its list key
/// deleted when left empty; and the extension key itself is deleted when
/// it has no default and no subkeys left.
pub open spec fn spec_unregister(
    m: Map<Seq<Seq<char>>, Map<Seq<char>, RegValV>>,
    ext: Seq<char>,
) -> Map<Seq<Seq<char>>, Map<Seq<char>, RegValV>> {
    let name = spec_handler_name(ext);
    let pd = cp1(spec_dot_ext(ext));
    let owpi = cp2(spec_dot_ext(ext), "OpenWithProgIds"@);
    let m1 = spec_delete_tree(m, cp1(name));
    if !m1.contains_key(pd) {
        m1
    } else {
        let m2 = if m1[pd].contains_key(""@) && m1[pd][""@] == RegValV::S(name) {
            m1.insert(pd, m1[pd].remove(""@))
        } else {
            m1
        };
        let m3 = if m2.contains_key(owpi) {
            let m3a = if m2[owpi].contains_key(name) {
                m2.insert(owpi, m2[owpi].remove(name))
            } else {
                m2
            };
            if !spec_has_strict_subkey(m3a, owpi) && !spec_has_any_value(m3a, owpi) {
                spec_delete_tree(m3a, owpi)
            } else {
                m3a
            }
        } else {
            m2
        };
        if m3.contains_key(pd) && !m3[pd].contains_key(""@) && !spec_has_strict_subkey(m3, pd) {
            spec_delete_tree(m3, pd)
        } else {
            m3
        }
    }
}

/// Unregister the extension: remove the handler record tree and unwind
/// the extension key's references to it.
pub fn unregister_extension(store: &mut RegistryData, ext: &str) -> (r: Result<(), Error>)
    requires
        old(store).wf(),
    ensures
        final(store).wf(),
        r is Ok,
        final(store).map_v() == spec_unregister(old(store).map_v(), ext@),
{
    let ghost m0 = old(store).map_v();
    let ghost namev = spec_handler_name(ext@);
    let ghost pdv = cp1(spec_dot_ext(ext@));
    let ghost owpiv = cp2(spec_dot_ext(ext@), "OpenWithProgIds"@);
    let ghost m1g = spec_delete_tree(m0, cp1(namev));
    let name = handler_name(ext);
    // delete the handler record tree
    let p_name = classes_path1(name.clone());
    store.delete_tree(&p_name);
    proof {
        assert(store.map_v() == m1g);
    }
    let p_dot = classes_path1(dot_ext(ext));
    if !store.key_exists(&p_dot) {
        return Ok(());
    }
    let ghost m2g = if m1g[pdv].contains_key(""@) && m1g[pdv][""@] == RegValV::S(namev) {
        m1g.insert(pdv, m1g[pdv].remove(""@))
    } else {
        m1g
    };
    // if the extension's default association pointed at the handler,
    // clear it
    match store.get_value(&p_dot, "") {
        Some(RegVal::Str(s)) => {
            if str_eq(s.as_str(), name.as_str()) {
                store.delete_value(&p_dot, "");
            }
        },
        _ => {},
    }
    proof {
        assert(store.map_v() == m2g);
    }
    let ghost m3g = if m2g.contains_key(owpiv) {
        let m3a = if m2g[owpiv].contains_key(namev) {
            m2g.insert(owpiv, m2g[owpiv].remove(namev))
        } else {
            m2g
        };
        if !spec_has_strict_subkey(m3a, owpiv) && !spec_has_any_value(m3a, owpiv) {
            spec_delete_tree(m3a, owpiv)
        } else {
            m3a
        }
    } else {
        m2g
    };
    // remove the handler from the open-with list, deleting the list key
    // when it is left empty
    let p_owpi = classes_path2(dot_ext(ext), String::from_str("OpenWithProgIds"));
    if store.key_exists(&p_owpi) {
        let ghost m3a_g = if m2g[owpiv].contains_key(namev) {
            m2g.insert(owpiv, m2g[owpiv].remove(namev))
        } else {
            m2g
        };
        match store.get_value(&p_owpi, name.as_str()) {
            Some(_) => {
                store.delete_value(&p_owpi, name.as_str());
            },
            None => {},
        }
        proof {
            assert(store.map_v() == m3a_g);
        }
        let no_sub = !store.has_subkeys(&p_owpi);
        let no_vals = !store.has_values(&p_owpi);
        proof {
            assert(no_sub == !spec_has_strict_subkey(m3a_g, owpiv));
            assert(m3a_g.contains_key(owpiv));
            assert(no_vals == !spec_has_any_value(m3a_g, owpiv));
        }
        if no_sub && no_vals {
            store.delete_tree(&p_owpi);
        }
        proof {
            if no_sub && no_vals {
                assert(m3g == spec_delete_tree(m3a_g, owpiv));
            } else {
                assert(m3g == m3a_g);
            }
        }
    }
    proof {
        assert(store.map_v() == m3g);
    }
    // delete the extension key itself when nothing of it is left
    if store.key_exists(&p_dot) {
        let dflt = store.get_value(&p_dot, "");
        if dflt.is_none() && !store.has_subkeys(&p_dot) {
            store.delete_tree(&p_dot);
        }
    }
    proof {
        assert(store.map_v() == spec_unregister(m0, ext@));
    }
    Ok(())
}

/// Whether the extension's default association points at the handler
/// record of this program.
pub open spec fn spec_is_ext_registered(
    m: Map<Seq<Seq<char>>, Map<Seq<char>, RegValV>>,
    ext: Seq<char>,
) -> bool {
    let pd = cp1(spec_dot_ext(ext));
    m.contains_key(pd) && m[pd].contains_key(""@) && m[pd][""@] == RegValV::S(
        spec_handler_name(ext),
    )
}

/// Whether the extension is registered for this program: its default
/// association names the handler record.
pub fn is_extension_registered_for_wsl(store: &RegistryData, ext: &str) -> (r: Result<bool, Error>)
    requires
        store.wf(),
    ensures
        r matches Ok(b) && b == spec_is_ext_registered(store.map_v(), ext@),
{
    let name = handler_name(ext);
    let p_dot = classes_path1(dot_ext(ext));
    match store.get_value(&p_dot, "") {
        Some(RegVal::Str(s)) => Ok(str_eq(s.as_str(), name.as_str())),
        _ => Ok(false),
    }
}

/// Whether the extension's default association names another
/// application.
pub open spec fn spec_is_registered_for_other(
    m: Map<Seq<Seq<char>>, Map<Seq<char>, RegValV>>,
    ext: Seq<char>,
) -> bool {
    let pd = cp1(spec_dot_ext(ext));
    m.contains_key(pd) && m[pd].contains_key(""@) && (m[pd][""@] is S) && m[pd][""@]
        != RegValV::S(spec_handler_name(ext))
}

/// Whether the extension is associated with an application other than
/// this program.
pub fn is_registered_for_other(store: &RegistryData, ext: &str) -> (r: Result<bool, Error>)
    requires
        store.wf(),
    ensures
        r matches Ok(b) && b == spec_is_registered_for_other(store.map_v(), ext@),
{
    let name = handler_name(ext);
    let p_dot = classes_path1(dot_ext(ext));
    match store.get_value(&p_dot, "") {
        Some(RegVal::Str(s)) => Ok(!str_eq(s.as_str(), name.as_str())),
        _ => Ok(false),
    }
}

/// Read back the configuration of a registered extension, defaulting the
/// hold mode to `Error` and the interactive flag to `false` where the
/// stored values are absent or unreadable.  Fails with `RegistryError`
/// exactly when the handler record is absent.
pub fn get_extension_config(store: &RegistryData, ext: &str) -> (r: Result<ExtConfig, Error>)
    requires
        store.wf(),
    ensures
        ({
            let m = store.map_v();
            let name = spec_handler_name(ext@);
            let ph = cp1(name);
            let pi = cp2(name, "DefaultIcon"@);
            &&& (r is Ok <==> m.contains_key(ph))
            &&& r matches Err(e) ==> e == Error::RegistryError
            &&& r matches Ok(c) ==> ({
                &&& c.extension@ == ext@
                &&& c.hold_mode == ({
                    let hm = if m[ph].contains_key("HoldMode"@) && (m[ph]["HoldMode"@] is S) {
                        spec_hold_mode_from(m[ph]["HoldMode"@]->S_0)
                    } else {
                        None
                    };
                    match hm {
                        Some(h) => h,
                        None => HoldMode::Error,
                    }
                })
                &&& c.interactive == (m[ph].contains_key("Interactive"@) && (m[ph]["Interactive"@]
                    is D) && m[ph]["Interactive"@]->D_0 != 0)
                &&& (if m.contains_key(pi) && m[pi].contains_key(""@) && (m[pi][""@] is S) {
                    c.icon is Some && c.icon->Some_0.view_parts() == spec_icon_from(
                        m[pi][""@]->S_0,
                    )
                } else {
                    c.icon is None
                })
                &&& (if m[ph].contains_key("Distribution"@) && (m[ph]["Distribution"@] is S)
                    && crate::distro::spec_guid_parseable(m[ph]["Distribution"@]->S_0) {
                    c.distro is Some && c.distro->Some_0.s@ == crate::distro::spec_guid_canon(
                        m[ph]["Distribution"@]->S_0,
                    ) && c.distro->Some_0.wf()
                } else {
                    c.distro is None
                })
            })
        }),
{
    let name = handler_name(ext);
    let p_name = classes_path1(name.clone());
    if !store.key_exists(&p_name) {
        return Err(Error::RegistryError);
    }
    let p_icon = classes_path2(name.clone(), String::from_str("DefaultIcon"));
    let icon = match store.get_value(&p_icon, "") {
        Some(RegVal::Str(s)) => Some(ShellIcon::from_str(s.as_str())),
        _ => None,
    };
    let hold_mode = match store.get_value(&p_name, "HoldMode") {
        Some(RegVal::Str(s)) => match HoldMode::from_str(s.as_str()) {
            Some(h) => h,
            None => HoldMode::Error,
        },
        _ => HoldMode::Error,
    };
    let interactive = match store.get_value(&p_name, "Interactive") {
        Some(RegVal::Dword(d)) => d != 0,
        _ => false,
    };
    let distro = match store.get_value(&p_name, "Distribution") {
        Some(RegVal::Str(s)) => DistroGUID::from_str(s.as_str()),
        _ => None,
    };
    Ok(
        ExtConfig {
            extension: String::from_str(ext),
            icon,
            hold_mode,
            interactive,
            distro,
        },
    )
}

/// First index of a double quote in `s`, or `-1` if there is none.
pub open spec fn first_quote(s: Seq<char>) -> int
    decreases s.len(),
{
    if s.len() == 0 {
        -1
    } else if s[0] == '"' {
        0
    } else if first_quote(s.drop_first()) < 0 {
        -1
    } else {
        first_quote(s.drop_first()) + 1
    }
}

proof fn lemma_first_quote_at(s: Seq<char>, i: int)
    requires
        0 <= i < s.len(),
        forall|k: int| 0 <= k < i ==> s[k] != '"',
        s[i] == '"',
    ensures
        first_quote(s) == i,
    decreases i,
{
    if i > 0 {
        assert(forall|k: int| 0 <= k < i - 1 ==> s.drop_first()[k] != '"');
        lemma_first_quote_at(s.drop_first(), i - 1);
    }
}

proof fn lemma_first_quote_none(s: Seq<char>)
    requires
        forall|k: int| 0 <= k < s.len() ==> s[k] != '"',
    ensures
        first_quote(s) == -1,
    decreases s.len(),
{
    if s.len() > 0 {
        assert(forall|k: int| 0 <= k < s.drop_first().len() ==> s.drop_first()[k] != '"');
        lemma_first_quote_none(s.drop_first());
    }
}

/// Leading double quotes removed.
pub open spec fn strip_quotes(s: Seq<char>) -> Seq<char>
    decreases s.len(),
{
    if s.len() > 0 && s[0] == '"' {
        strip_quotes(s.drop_first())
    } else {
        s
    }
}

/// The executable path denoted by a stored open-verb command: the text
/// after any leading double quotes, up to the next double quote or the
/// end; `None` when nothing remains after the leading quotes.
pub open spec fn spec_extract_exe(s: Seq<char>) -> Option<Seq<char>> {
    let t = strip_quotes(s);
    if t.len() == 0 {
        None
    } else {
        let i = first_quote(t);
        if i < 0 {
            Some(t)
        } else {
            Some(t.take(i))
        }
    }
}

/// Extract the executable path from a stored open-verb command text.
fn extract_exe(s: &str) -> (r: Option<String>)
    ensures
        match r {
            Some(t) => spec_extract_exe(s@) == Some(t@),
            None => spec_extract_exe(s@) is None,
        },
{
    let len = s.unicode_len();
    let mut lo: usize = 0;
    proof {
        assert(s@.skip(0) =~= s@);
    }
    while lo < len && s.get_char(lo) == '"'
        invariant
            lo <= len,
            len == s@.len(),
            strip_quotes(s@) == strip_quotes(s@.skip(lo as int)),
        decreases len - lo,
    {
        proof {
            assert(s@.skip(lo as int).drop_first() =~= s@.skip(lo + 1));
        }
        lo = lo + 1;
    }
    let ghost t = strip_quotes(s@);
    proof {
        if lo < len {
            assert(strip_quotes(s@.skip(lo as int)) =~= s@.skip(lo as int));
        } else {
            assert(s@.skip(lo as int) =~= Seq::<char>::empty());
            assert(strip_quotes(s@.skip(lo as int)) =~= Seq::<char>::empty());
        }
        assert(t =~= s@.skip(lo as int));
    }
    if lo == len {
        return None;
    }
    // scan for the closing quote
    let mut j = lo;
    while j < len && s.get_char(j) != '"'
        invariant
            lo <= j <= len,
            len == s@.len(),
            t == s@.skip(lo as int),
            forall|k: int| lo <= k < j ==> s@[k] != '"',
        decreases len - j,
    {
        j = j + 1;
    }
    let r = substring_owned(s, lo, j);
    proof {
        assert(forall|k: int| 0 <= k < j - lo ==> t[k] == s@[k + lo] && t[k] != '"');
        if j < len {
            assert(t[j - lo] == s@[j as int]);
            lemma_first_quote_at(t, j - lo);
            assert(r@ =~= t.take(j - lo));
        } else {
            lemma_first_quote_none(t);
            assert(r@ =~= t);
        }
    }
    Some(r)
}

/// What the handler record stores as the extension's open-verb command,
/// when it stores one as a string.
pub open spec fn spec_handler_cmd(
    m: Map<Seq<Seq<char>>, Map<Seq<char>, RegValV>>,
    ext: Seq<char>,
) -> Option<Seq<char>> {
    let pc = cp4(spec_handler_name(ext), "shell"@, "open"@, "command"@);
    if m.contains_key(pc) && m[pc].contains_key(""@) && (m[pc][""@] is S) {
        Some(m[pc][""@]->S_0)
    } else {
        None
    }
}

/// Read the executable path stored in the extension's open-verb command.
/// Fails with `RegistryError` when no command is stored, and with
/// `InvalidPathError` when no path can be extracted from it.
pub fn get_handler_executable_path(store: &RegistryData, ext: &str) -> (r: Result<String, Error>)
    requires
        store.wf(),
    ensures
        ({
            let cmd = spec_handler_cmd(store.map_v(), ext@);
            match r {
                Ok(p) => cmd is Some && spec_extract_exe(cmd->Some_0) == Some(p@),
                Err(e) => (cmd is None && e == Error::RegistryError) || (cmd is Some
                    && spec_extract_exe(cmd->Some_0) is None && e == Error::InvalidPathError),
            }
        }),
{
    let p_cmd = classes_path4(
        handler_name(ext),
        String::from_str("shell"),
        String::from_str("open"),
        String::from_str("command"),
    );
    match store.get_value(&p_cmd, "") {
        Some(RegVal::Str(s)) => match extract_exe(s.as_str()) {
            Some(p) => Ok(p),
            None => Err(Error::InvalidPathError),
        },
        _ => Err(Error::RegistryError),
    }
}

/// Whether the extension's stored handler command points at the
/// executable at `current_exe`.
pub open spec fn spec_is_registered_for_current(
    m: Map<Seq<Seq<char>>, Map<Seq<char>, RegValV>>,
    ext: Seq<char>,
    current_exe: Seq<char>,
) -> bool {
    match spec_handler_cmd(m, ext) {
        Some(cmd) => spec_extract_exe(cmd) == Some(current_exe),
        None => false,
    }
}

/// Whether the extension is registered for the executable at
/// `current_exe` (the running executable's canonical path, resolved by
/// the caller).  Fails when the extension has no stored handler command
/// or no path can be extracted from it.
pub fn is_registered_for_current_executable(
    store: &RegistryData,
    ext: &str,
    current_exe: &str,
) -> (r: Result<bool, Error>)
    requires
        store.wf(),
    ensures
        r matches Ok(b) ==> b == spec_is_registered_for_current(store.map_v(), ext@, current_exe@),
        r is Err ==> !spec_is_registered_for_current(store.map_v(), ext@, current_exe@),
{
    let registered = match get_handler_executable_path(store, ext) {
        Ok(p) => p,
        Err(e) => {
            return Err(e);
        },
    };
    Ok(str_eq(registered.as_str(), current_exe))
}

/// `s` with every leading repetition of `p` removed.
pub open spec fn strip_prefix_rep(s: Seq<char>, p: Seq<char>) -> Seq<char>
    decreases s.len(),
{
    if p.len() > 0 && s.len() >= p.len() && s.take(p.len() as int) == p {
        strip_prefix_rep(s.skip(p.len() as int), p)
    } else {
        s
    }
}

/// `s` with every leading dot removed.
pub open spec fn strip_dots(s: Seq<char>) -> Seq<char>
    decreases s.len(),
{
    if s.len() > 0 && s[0] == '.' {
        strip_dots(s.drop_first())
    } else {
        s
    }
}

/// The extension denoted by a handler record name: the name with the
/// handler prefix and the following dots removed.
pub open spec fn spec_trim_handler(s: Seq<char>) -> Seq<char> {
    strip_dots(strip_prefix_rep(s, spec_handler_prefix()))
}

/// Remove the handler prefix and the following dots from a handler
/// record name.
fn trim_handler_name(s: &str) -> (r: String)
    ensures
        r@ == spec_trim_handler(s@),
{
    let len = s.unicode_len();
    proof {
        reveal_strlit("wslscript");
        assert(spec_handler_prefix().len() == 9);
        assert(s@.skip(0) =~= s@);
    }
    let mut pos: usize = 0;
    loop
        invariant
            pos <= len,
            len == s@.len(),
            spec_handler_prefix().len() == 9,
            strip_prefix_rep(s@, spec_handler_prefix()) == strip_prefix_rep(
                s@.skip(pos as int),
                spec_handler_prefix(),
            ),
        ensures
            pos <= len,
            strip_prefix_rep(s@, spec_handler_prefix()) == s@.skip(pos as int),
        decreases len - pos,
    {
        let ghost w = spec_handler_prefix();
        let ghost rest = s@.skip(pos as int);
        if len - pos < 9 {
            proof {
                assert(rest.len() < 9);
            }
            break ;
        }
        let seg = substring_owned(s, pos, pos + 9);
        if !str_eq(seg.as_str(), "wslscript") {
            proof {
                assert(rest.take(9) =~= seg@);
            }
            break ;
        }
        proof {
            assert(rest.take(9) =~= seg@);
            assert(rest.skip(9) =~= s@.skip(pos + 9));
        }
        pos = pos + 9;
    }
    let mut dpos = pos;
    proof {
        assert(strip_dots(s@.skip(pos as int)) == strip_dots(s@.skip(dpos as int)));
    }
    while dpos < len && s.get_char(dpos) == '.'
        invariant
            pos <= dpos <= len,
            len == s@.len(),
            strip_dots(s@.skip(pos as int)) == strip_dots(s@.skip(dpos as int)),
        decreases len - dpos,
    {
        proof {
            assert(s@.skip(dpos as int).drop_first() =~= s@.skip(dpos + 1));
        }
        dpos = dpos + 1;
    }
    proof {
        if dpos < len {
            assert(strip_dots(s@.skip(dpos as int)) =~= s@.skip(dpos as int));
        } else {
            assert(s@.skip(dpos as int) =~= Seq::<char>::empty());
            assert(strip_dots(s@.skip(dpos as int)) =~= Seq::<char>::empty());
        }
    }
    let r = substring_owned(s, dpos, len);
    proof {
        assert(r@ =~= s@.skip(dpos as int));
    }
    r
}

/// Whether a store entry names a handler record of this program whose
/// extension still points back at it: a key directly below the classes
/// key, named with the handler prefix, whose trimmed extension is
/// registered.
pub open spec fn spec_query_keep(
    e: crate::store::RegKeyEntry,
    m: Map<Seq<Seq<char>>, Map<Seq<char>, RegValV>>,
) -> bool {
    &&& e.path@.len() == 3
    &&& e.path.deep_view()[0] == "Software"@
    &&& e.path.deep_view()[1] == "Classes"@
    &&& e.path.deep_view()[2].len() >= 9
    &&& e.path.deep_view()[2].take(9) == spec_handler_prefix()
    &&& spec_is_ext_registered(m, spec_trim_handler(e.path.deep_view()[2]))
}

/// The registered extensions that a key list yields, in key order.
pub open spec fn spec_query_exts(
    ks: Seq<crate::store::RegKeyEntry>,
    m: Map<Seq<Seq<char>>, Map<Seq<char>, RegValV>>,
) -> Seq<Seq<char>>
    decreases ks.len(),
{
    if ks.len() == 0 {
        Seq::empty()
    } else {
        spec_query_exts(ks.drop_last(), m) + (if spec_query_keep(ks.last(), m) {
            seq![spec_trim_handler(ks.last().path.deep_view()[2])]
        } else {
            Seq::empty()
        })
    }
}

/// List the extensions whose handler records belong to this program and
/// whose default association still points back at it.
pub fn query_registered_extensions(store: &RegistryData) -> (r: Result<Vec<String>, Error>)
    requires
        store.wf(),
    ensures
        r matches Ok(v) && v.deep_view() == spec_query_exts(store.keys@, store.map_v()),
{
    let ghost m = store.map_v();
    let mut out: Vec<String> = Vec::new();
    let n = store.keys.len();
    let mut i: usize = 0;
    proof {
        assert(store.keys@.take(0) =~= Seq::<crate::store::RegKeyEntry>::empty());
        assert(out.deep_view() =~= Seq::<Seq<char>>::empty());
        reveal_strlit("wslscript");
    }
    while i < n
        invariant
            i <= n,
            n == store.keys@.len(),
            store.wf(),
            m == store.map_v(),
            spec_handler_prefix().len() == 9,
            out.deep_view() == spec_query_exts(store.keys@.take(i as int), m),
        decreases n - i,
    {
        let e = &store.keys[i];
        let ghost before = out.deep_view();
        let mut keep = false;
        if e.path.len() == 3 {
            let seg0_ok = str_eq(e.path[0].as_str(), "Software");
            let seg1_ok = str_eq(e.path[1].as_str(), "Classes");
            if seg0_ok && seg1_ok {
                if str_starts_with(e.path[2].as_str(), "wslscript") {
                    let trimmed = trim_handler_name(e.path[2].as_str());
                    let reg = match is_extension_registered_for_wsl(store, trimmed.as_str()) {
                        Ok(b) => b,
                        Err(_) => false,
                    };
                    if reg {
                        out.push(trimmed);
                        keep = true;
                    }
                }
            }
        }
        proof {
            assert(store.keys@.take(i + 1).drop_last() =~= store.keys@.take(i as int));
            assert(store.keys@.take(i + 1).last() == store.keys@[i as int]);
            if e.path@.len() == 3 {
                assert(e.path.deep_view()[0] == e.path@[0]@);
                assert(e.path.deep_view()[1] == e.path@[1]@);
                assert(e.path.deep_view()[2] == e.path@[2]@);
            }
            if keep {
                assert(spec_query_keep(store.keys@[i as int], m));
                assert(out.deep_view() =~= before.push(spec_trim_handler(e.path.deep_view()[2])));
                assert(out.deep_view() =~= spec_query_exts(store.keys@.take(i + 1), m));
            } else {
                assert(!spec_query_keep(store.keys@[i as int], m));
                assert(out.deep_view() =~= spec_query_exts(store.keys@.take(i + 1), m));
            }
        }
        i = i + 1;
    }
    proof {
        assert(store.keys@.take(n as int) =~= store.keys@);
    }
    Ok(out)
}

/// Path of the subsystem metadata key that lists the installed
/// distributions.
pub open spec fn lxss_path() -> Seq<Seq<char>> {
    seq!["Software"@, "Microsoft"@, "Windows"@, "CurrentVersion"@, "Lxss"@]
}

fn lxss_path_vec() -> (r: Vec<String>)
    ensures
        r.deep_view() == lxss_path(),
        r@.len() == 5,
{
    let r = vec![
        String::from_str("Software"),
        String::from_str("Microsoft"),
        String::from_str("Windows"),
        String::from_str("CurrentVersion"),
        String::from_str("Lxss"),
    ];
    proof {
        assert(r.deep_view() =~= lxss_path());
    }
    r
}

fn lxss_child(g: String) -> (r: Vec<String>)
    ensures
        r.deep_view() == lxss_path().push(g@),
        r@.len() == 6,
{
    let r = vec![
        String::from_str("Software"),
        String::from_str("Microsoft"),
        String::from_str("Windows"),
        String::from_str("CurrentVersion"),
        String::from_str("Lxss"),
        g,
    ];
    proof {
        assert(r.deep_view() =~= lxss_path().push(r@[5]@));
    }
    r
}

/// Whether a store entry describes an installed distribution: a child of
/// the subsystem metadata key with a parseable identifier and a string
/// display name.
pub open spec fn spec_distro_keep(
    e: crate::store::RegKeyEntry,
    m: Map<Seq<Seq<char>>, Map<Seq<char>, RegValV>>,
) -> bool {
    &&& e.path@.len() == 6
    &&& e.path.deep_view().take(5) == lxss_path()
    &&& m.contains_key(e.path.deep_view())
    &&& m[e.path.deep_view()].contains_key("DistributionName"@)
    &&& m[e.path.deep_view()]["DistributionName"@] is S
    &&& crate::distro::spec_guid_parseable(e.path.deep_view()[5])
}

/// The identifier-to-name map that a key list yields.
pub open spec fn spec_distro_fold(
    ks: Seq<crate::store::RegKeyEntry>,
    m: Map<Seq<Seq<char>>, Map<Seq<char>, RegValV>>,
) -> Map<Seq<char>, Seq<char>>
    decreases ks.len(),
{
    if ks.len() == 0 {
        Map::empty()
    } else {
        let rest = spec_distro_fold(ks.drop_last(), m);
        let e = ks.last();
        if spec_distro_keep(e, m) {
            rest.insert(
                crate::distro::spec_guid_canon(e.path.deep_view()[5]),
                m[e.path.deep_view()]["DistributionName"@]->S_0,
            )
        } else {
            rest
        }
    }
}

/// The marked default distribution, when the metadata key names one with
/// a parseable identifier.
pub open spec fn spec_default_distro(
    m: Map<Seq<Seq<char>>, Map<Seq<char>, RegValV>>,
) -> Option<Seq<char>> {
    let lp = lxss_path();
    if m.contains_key(lp) && m[lp].contains_key("DefaultDistribution"@) && (m[lp][
        "DefaultDistribution"@
    ] is S) && crate::distro::spec_guid_parseable(m[lp]["DefaultDistribution"@]->S_0) {
        Some(crate::distro::spec_guid_canon(m[lp]["DefaultDistribution"@]->S_0))
    } else {
        None
    }
}

/// Query the installed distributions and the marked default.
pub fn query_distros(store: &RegistryData) -> (r: Result<Distros, Error>)
    requires
        store.wf(),
    ensures
        r matches Ok(d) && d.wf() && distro_map(d.list@) == spec_distro_fold(
            store.keys@,
            store.map_v(),
        ) && (match d.default {
            Some(g) => spec_default_distro(store.map_v()) == Some(g.s@),
            None => spec_default_distro(store.map_v()) is None,
        }),
{
    let ghost m = store.map_v();
    let mut distros = Distros::new_empty();
    let n = store.keys.len();
    let mut i: usize = 0;
    proof {
        assert(store.keys@.take(0) =~= Seq::<crate::store::RegKeyEntry>::empty());
    }
    while i < n
        invariant
            i <= n,
            n == store.keys@.len(),
            store.wf(),
            m == store.map_v(),
            distros.wf(),
            distros.default is None,
            distro_map(distros.list@) == spec_distro_fold(store.keys@.take(i as int), m),
        decreases n - i,
    {
        let e = &store.keys[i];
        let ghost before = distro_map(distros.list@);
        let mut kept = false;
        if e.path.len() == 6 {
            let p5 = lxss_path_vec();
            let prefix_ok = crate::store::path_extends_exec(&e.path, &p5);
            if prefix_ok {
                match store.get_value(&e.path, "DistributionName") {
                    Some(RegVal::Str(nm)) => {
                        match DistroGUID::from_str(e.path[5].as_str()) {
                            Some(g) => {
                                proof {
                                    assert(e.path.deep_view()[5] == e.path@[5]@);
                                    crate::store::lemma_store_map_index(store.keys@, i as int);
                                }
                                distros.insert(g, nm);
                                kept = true;
                            },
                            None => {},
                        }
                    },
                    _ => {},
                }
            }
        }
        proof {
            assert(store.keys@.take(i + 1).drop_last() =~= store.keys@.take(i as int));
            assert(store.keys@.take(i + 1).last() == store.keys@[i as int]);
            if kept {
                assert(spec_distro_keep(store.keys@[i as int], m));
                assert(distro_map(distros.list@) == spec_distro_fold(store.keys@.take(i + 1), m));
            } else {
                assert(!spec_distro_keep(store.keys@[i as int], m)) by {
                    if store.keys@[i as int].path@.len() == 6 && store.keys@[
                        i as int
                    ].path.deep_view().take(5) == lxss_path() {
                        crate::store::lemma_store_map_index(store.keys@, i as int);
                    }
                }
                assert(distro_map(distros.list@) == spec_distro_fold(store.keys@.take(i + 1), m));
            }
        }
        i = i + 1;
    }
    proof {
        assert(store.keys@.take(n as int) =~= store.keys@);
    }
    // the marked default distribution
    let p_lxss = lxss_path_vec();
    match store.get_value(&p_lxss, "DefaultDistribution") {
        Some(RegVal::Str(s)) => {
            match DistroGUID::from_str(s.as_str()) {
                Some(g) => {
                    distros.default = Some(g);
                },
                None => {},
            }
        },
        _ => {},
    }
    Ok(distros)
}

/// The icon value stored with a handler record.
pub open spec fn spec_icon_val(ic: ShellIcon) -> RegValV {
    RegValV::S(spec_shell_path(ic.path@, ic.index))
}

/// The values of the handler record's root key.
pub open spec fn handler_root_vals(c: ExtConfig) -> Map<Seq<char>, RegValV> {
    let desc = spec_handler_desc(c.extension@);
    let base = Map::<Seq<char>, RegValV>::empty().insert(""@, RegValV::S(desc)).insert(
        "EditFlags"@,
        RegValV::D(0x30),
    ).insert("FriendlyTypeName"@, RegValV::S(desc)).insert(
        "HoldMode"@,
        RegValV::S(spec_hold_mode_token(c.hold_mode)),
    ).insert(
        "Interactive"@,
        RegValV::D(
            if c.interactive {
                1
            } else {
                0
            },
        ),
    );
    match c.distro {
        Some(d) => base.insert("Distribution"@, RegValV::S(d.s@)),
        None => base,
    }
}

/// The values of the handler record's open-verb key.
pub open spec fn open_verb_vals(c: ExtConfig) -> Map<Seq<char>, RegValV> {
    let base = Map::<Seq<char>, RegValV>::empty().insert(""@, RegValV::S("Run in WSL"@));
    match c.icon {
        Some(ic) => base.insert("Icon"@, spec_icon_val(ic)),
        None => base,
    }
}

/// The values of the handler record's run-as key.
pub open spec fn runas_vals(c: ExtConfig) -> Map<Seq<char>, RegValV> {
    let base = Map::<Seq<char>, RegValV>::empty().insert("Extended"@, RegValV::S(""@));
    match c.icon {
        Some(ic) => base.insert("Icon"@, spec_icon_val(ic)),
        None => base,
    }
}

/// The values of a key holding one command as its default value.
pub open spec fn cmd_vals(c: ExtConfig, exe: Seq<char>) -> Map<Seq<char>, RegValV> {
    Map::<Seq<char>, RegValV>::empty().insert(""@, RegValV::S(spec_command(c.extension@, exe)))
}

/// Whether `q` is one of the handler record paths that registering `c`
/// writes below its record root.
pub open spec fn is_handler_record_path(q: Seq<Seq<char>>, c: ExtConfig) -> bool {
    let name = spec_handler_name(c.extension@);
    ||| q == cp1(name)
    ||| (c.icon is Some && q == cp2(name, "DefaultIcon"@))
    ||| q == cp2(name, "shell"@)
    ||| q == cp3(name, "shell"@, "open"@)
    ||| q == cp4(name, "shell"@, "open"@, "command"@)
    ||| q == cp3(name, "shell"@, "runas"@)
    ||| q == cp4(name, "shell"@, "runas"@, "command"@)
    ||| q == cp2(name, "shellex"@)
    ||| q == cp3(name, "shellex"@, "DropHandler"@)
}

/// What registering holds at each path `q`: the handler record is fresh
/// below its root, the extension key and open-with list have their
/// entries inserted over what was there, the two ancestor keys exist,
/// and every other key of the store is untouched — except those below
/// the old record root, which are gone.
pub proof fn lemma_register_at(
    m: Map<Seq<Seq<char>>, Map<Seq<char>, RegValV>>,
    c: ExtConfig,
    exe: Seq<char>,
    q: Seq<Seq<char>>,
)
    requires
        c.extension@.len() > 0,
    ensures
        ({
            let ext = c.extension@;
            let name = spec_handler_name(ext);
            let dotx = spec_dot_ext(ext);
            let pdot = cp1(dotx);
            let owpi = cp2(dotx, "OpenWithProgIds"@);
            let r = spec_register(m, c, exe);
            &&& (r.contains_key(q) <==> (is_handler_record_path(q, c) || q == pdot || q == owpi
                || q == seq!["Software"@] || q == seq!["Software"@, "Classes"@] || (
            m.contains_key(q) && !path_extends(q, cp1(name)))))
            &&& q == cp1(name) ==> r[q] == handler_root_vals(c)
            &&& (c.icon is Some && q == cp2(name, "DefaultIcon"@)) ==> r[q] == Map::<
                Seq<char>,
                RegValV,
            >::empty().insert(""@, spec_icon_val(c.icon->Some_0))
            &&& q == cp2(name, "shell"@) ==> r[q] == Map::<Seq<char>, RegValV>::empty().insert(
                ""@,
                RegValV::S("open"@),
            )
            &&& q == cp3(name, "shell"@, "open"@) ==> r[q] == open_verb_vals(c)
            &&& q == cp4(name, "shell"@, "open"@, "command"@) ==> r[q] == cmd_vals(c, exe)
            &&& q == cp3(name, "shell"@, "runas"@) ==> r[q] == runas_vals(c)
            &&& q == cp4(name, "shell"@, "runas"@, "command"@) ==> r[q] == cmd_vals(c, exe)
            &&& q == cp2(name, "shellex"@) ==> r[q] == Map::<Seq<char>, RegValV>::empty()
            &&& q == cp3(name, "shellex"@, "DropHandler"@) ==> r[q] == Map::<
                Seq<char>,
                RegValV,
            >::empty().insert(""@, RegValV::S("{86C86720-42A0-1069-A2E8-08002B30309D}"@))
            &&& q == pdot ==> r[q] == (if m.contains_key(pdot) {
                m[pdot]
            } else {
                Map::<Seq<char>, RegValV>::empty()
            }).insert(""@, RegValV::S(name)).insert("PerceivedType"@, RegValV::S("application"@))
            &&& q == owpi ==> r[q] == (if m.contains_key(owpi) {
                m[owpi]
            } else {
                Map::<Seq<char>, RegValV>::empty()
            }).insert(name, RegValV::S(""@))
            &&& (q == seq!["Software"@] || q == seq!["Software"@, "Classes"@]) ==> r[q] == (
            if m.contains_key(q) {
                m[q]
            } else {
                Map::<Seq<char>, RegValV>::empty()
            })
            &&& (!is_handler_record_path(q, c) && q != pdot && q != owpi && q != seq!["Software"@]
                && q != seq!["Software"@, "Classes"@] && m.contains_key(q) && !path_extends(
                q,
                cp1(name),
            )) ==> r[q] == m[q]
        }),
{
    lemma_register_at_body(m, c, exe, q);
}

/// The literal key and value names of the record, revealed, with the
/// facts that tell them apart.
proof fn register_literal_facts(ext: Seq<char>)
    requires
        ext.len() > 0,
    ensures
        spec_handler_name(ext).len() >= 10,
        spec_handler_name(ext)[0] == 'w',
        spec_dot_ext(ext)[0] == '.',
        spec_dot_ext(ext).len() >= 2,
        spec_handler_name(ext) != spec_dot_ext(ext),
        "Software"@.len() == 8,
        "Classes"@.len() == 7,
        "shell"@.len() == 5,
        "shellex"@.len() == 7,
        "open"@.len() == 4,
        "runas"@.len() == 5,
        "command"@.len() == 7,
        "DefaultIcon"@.len() == 11,
        "DropHandler"@.len() == 11,
        "OpenWithProgIds"@.len() == 15,
        ""@.len() == 0,
        "EditFlags"@.len() == 9,
        "FriendlyTypeName"@.len() == 16,
        "HoldMode"@.len() == 8,
        "Interactive"@.len() == 11,
        "Distribution"@.len() == 12,
        "PerceivedType"@.len() == 13,
        "Icon"@.len() == 4,
        "Extended"@.len() == 8,
        "shell"@ != "shellex"@,
        "shell"@ != "runas"@,
        "open"@ != "runas"@,
        spec_handler_name(ext)[0] != spec_dot_ext(ext)[0],
{
    reveal_strlit("wslscript.");
    reveal_strlit(".");
    reveal_strlit("Software");
    reveal_strlit("Classes");
    reveal_strlit("shell");
    reveal_strlit("shellex");
    reveal_strlit("open");
    reveal_strlit("runas");
    reveal_strlit("command");
    reveal_strlit("DefaultIcon");
    reveal_strlit("DropHandler");
    reveal_strlit("OpenWithProgIds");
    reveal_strlit("");
    reveal_strlit("EditFlags");
    reveal_strlit("FriendlyTypeName");
    reveal_strlit("HoldMode");
    reveal_strlit("Interactive");
    reveal_strlit("Distribution");
    reveal_strlit("PerceivedType");
    reveal_strlit("Icon");
    reveal_strlit("Extended");
    assert(spec_handler_name(ext)[0] == "wslscript."@[0]);
    assert(spec_dot_ext(ext)[0] == "."@[0]);
    assert("shell"@ != "shellex"@) by {
        assert("shell"@.len() == 5);
        assert("shellex"@.len() == 7);
    }
    assert("shell"@ != "runas"@) by {
        assert("shell"@[0] == 's' && "runas"@[0] == 'r');
    }
    assert("open"@ != "runas"@) by {
        assert("open"@.len() == 4);
        assert("runas"@.len() == 5);
    }
}

proof fn lemma_cp1_prefixes(a: Seq<char>)
    ensures
        cp1(a).take(1) == seq!["Software"@],
        cp1(a).take(2) == seq!["Software"@, "Classes"@],
        cp1(a).take(3) == cp1(a),
{
    assert(cp1(a).take(1) =~= seq!["Software"@]);
    assert(cp1(a).take(2) =~= seq!["Software"@, "Classes"@]);
    assert(cp1(a).take(3) =~= cp1(a));
}

proof fn lemma_cp2_prefixes(a: Seq<char>, b: Seq<char>)
    ensures
        cp2(a, b).take(1) == seq!["Software"@],
        cp2(a, b).take(2) == seq!["Software"@, "Classes"@],
        cp2(a, b).take(3) == cp1(a),
        cp2(a, b).take(4) == cp2(a, b),
{
    assert(cp2(a, b).take(1) =~= seq!["Software"@]);
    assert(cp2(a, b).take(2) =~= seq!["Software"@, "Classes"@]);
    assert(cp2(a, b).take(3) =~= cp1(a));
    assert(cp2(a, b).take(4) =~= cp2(a, b));
}

proof fn lemma_cp3_prefixes(a: Seq<char>, b: Seq<char>, c: Seq<char>)
    ensures
        cp3(a, b, c).take(1) == seq!["Software"@],
        cp3(a, b, c).take(2) == seq!["Software"@, "Classes"@],
        cp3(a, b, c).take(3) == cp1(a),
        cp3(a, b, c).take(4) == cp2(a, b),
        cp3(a, b, c).take(5) == cp3(a, b, c),
{
    assert(cp3(a, b, c).take(1) =~= seq!["Software"@]);
    assert(cp3(a, b, c).take(2) =~= seq!["Software"@, "Classes"@]);
    assert(cp3(a, b, c).take(3) =~= cp1(a));
    assert(cp3(a, b, c).take(4) =~= cp2(a, b));
    assert(cp3(a, b, c).take(5) =~= cp3(a, b, c));
}

proof fn lemma_cp4_prefixes(a: Seq<char>, b: Seq<char>, c: Seq<char>, d: Seq<char>)
    ensures
        cp4(a, b, c, d).take(1) == seq!["Software"@],
        cp4(a, b, c, d).take(2) == seq!["Software"@, "Classes"@],
        cp4(a, b, c, d).take(3) == cp1(a),
        cp4(a, b, c, d).take(4) == cp2(a, b),
        cp4(a, b, c, d).take(5) == cp3(a, b, c),
        cp4(a, b, c, d).take(6) == cp4(a, b, c, d),
{
    assert(cp4(a, b, c, d).take(1) =~= seq!["Software"@]);
    assert(cp4(a, b, c, d).take(2) =~= seq!["Software"@, "Classes"@]);
    assert(cp4(a, b, c, d).take(3) =~= cp1(a));
    assert(cp4(a, b, c, d).take(4) =~= cp2(a, b));
    assert(cp4(a, b, c, d).take(5) =~= cp3(a, b, c));
    assert(cp4(a, b, c, d).take(6) =~= cp4(a, b, c, d));
}

#[verifier::rlimit(100)]
proof fn lemma_register_at_body(
    m: Map<Seq<Seq<char>>, Map<Seq<char>, RegValV>>,
    c: ExtConfig,
    exe: Seq<char>,
    q: Seq<Seq<char>>,
)
    requires
        c.extension@.len() > 0,
    ensures
        ({
            let ext = c.extension@;
            let name = spec_handler_name(ext);
            let dotx = spec_dot_ext(ext);
            let pdot = cp1(dotx);
            let owpi = cp2(dotx, "OpenWithProgIds"@);
            let r = spec_register(m, c, exe);
            &&& (r.contains_key(q) <==> (is_handler_record_path(q, c) || q == pdot || q == owpi
                || q == seq!["Software"@] || q == seq!["Software"@, "Classes"@] || (
            m.contains_key(q) && !path_extends(q, cp1(name)))))
            &&& q == cp1(name) ==> r[q] == handler_root_vals(c)
            &&& (c.icon is Some && q == cp2(name, "DefaultIcon"@)) ==> r[q] == Map::<
                Seq<char>,
                RegValV,
            >::empty().insert(""@, spec_icon_val(c.icon->Some_0))
            &&& q == cp2(name, "shell"@) ==> r[q] == Map::<Seq<char>, RegValV>::empty().insert(
                ""@,
                RegValV::S("open"@),
            )
            &&& q == cp3(name, "shell"@, "open"@) ==> r[q] == open_verb_vals(c)
            &&& q == cp4(name, "shell"@, "open"@, "command"@) ==> r[q] == cmd_vals(c, exe)
            &&& q == cp3(name, "shell"@, "runas"@) ==> r[q] == runas_vals(c)
            &&& q == cp4(name, "shell"@, "runas"@, "command"@) ==> r[q] == cmd_vals(c, exe)
            &&& q == cp2(name, "shellex"@) ==> r[q] == Map::<Seq<char>, RegValV>::empty()
            &&& q == cp3(name, "shellex"@, "DropHandler"@) ==> r[q] == Map::<
                Seq<char>,
                RegValV,
            >::empty().insert(""@, RegValV::S("{86C86720-42A0-1069-A2E8-08002B30309D}"@))
            &&& q == pdot ==> r[q] == (if m.contains_key(pdot) {
                m[pdot]
            } else {
                Map::<Seq<char>, RegValV>::empty()
            }).insert(""@, RegValV::S(name)).insert("PerceivedType"@, RegValV::S("application"@))
            &&& q == owpi ==> r[q] == (if m.contains_key(owpi) {
                m[owpi]
            } else {
                Map::<Seq<char>, RegValV>::empty()
            }).insert(name, RegValV::S(""@))
            &&& (q == seq!["Software"@] || q == seq!["Software"@, "Classes"@]) ==> r[q] == (
            if m.contains_key(q) {
                m[q]
            } else {
                Map::<Seq<char>, RegValV>::empty()
            })
            &&& (!is_handler_record_path(q, c) && q != pdot && q != owpi && q != seq!["Software"@]
                && q != seq!["Software"@, "Classes"@] && m.contains_key(q) && !path_extends(
                q,
                cp1(name),
            )) ==> r[q] == m[q]
        }),
{
    let ext = c.extension@;
    let name = spec_handler_name(ext);
    let dotx = spec_dot_ext(ext);
    let pdot = cp1(dotx);
    let owpi = cp2(dotx, "OpenWithProgIds"@);
    register_literal_facts(ext);
    // how each written path and its prefixes relate
    lemma_cp1_prefixes(name);
    lemma_cp1_prefixes(dotx);
    lemma_cp2_prefixes(name, "DefaultIcon"@);
    lemma_cp2_prefixes(name, "shell"@);
    lemma_cp2_prefixes(name, "shellex"@);
    lemma_cp2_prefixes(dotx, "OpenWithProgIds"@);
    lemma_cp3_prefixes(name, "shell"@, "open"@);
    lemma_cp3_prefixes(name, "shell"@, "runas"@);
    lemma_cp3_prefixes(name, "shellex"@, "DropHandler"@);
    lemma_cp4_prefixes(name, "shell"@, "open"@, "command"@);
    lemma_cp4_prefixes(name, "shell"@, "runas"@, "command"@);
    let m1 = spec_delete_tree(m, cp1(name));
    crate::store::lemma_set_value_pointwise(m1, cp1(name), ""@, RegValV::S(spec_handler_desc(ext)), q);
    let m2 = spec_set_value(m1, cp1(name), ""@, RegValV::S(spec_handler_desc(ext)));
    crate::store::lemma_set_value_pointwise(m2, cp1(name), "EditFlags"@, RegValV::D(0x30), q);
    let m3 = spec_set_value(m2, cp1(name), "EditFlags"@, RegValV::D(0x30));
    crate::store::lemma_set_value_pointwise(
        m3,
        cp1(name),
        "FriendlyTypeName"@,
        RegValV::S(spec_handler_desc(ext)),
        q,
    );
    let m4 = spec_set_value(m3, cp1(name), "FriendlyTypeName"@, RegValV::S(spec_handler_desc(ext)));
    crate::store::lemma_set_value_pointwise(
        m4,
        cp1(name),
        "HoldMode"@,
        RegValV::S(spec_hold_mode_token(c.hold_mode)),
        q,
    );
    let m5 = spec_set_value(m4, cp1(name), "HoldMode"@, RegValV::S(spec_hold_mode_token(c.hold_mode)));
    let iv = RegValV::D(
        if c.interactive {
            1
        } else {
            0
        },
    );
    crate::store::lemma_set_value_pointwise(m5, cp1(name), "Interactive"@, iv, q);
    let m6 = spec_set_value(m5, cp1(name), "Interactive"@, iv);
    let m7 = match c.distro {
        Some(d) => spec_set_value(m6, cp1(name), "Distribution"@, RegValV::S(d.s@)),
        None => m6,
    };
    match c.distro {
        Some(d) => {
            crate::store::lemma_set_value_pointwise(m6, cp1(name), "Distribution"@, RegValV::S(d.s@), q);
        },
        None => {},
    }
    let m8 = match c.icon {
        Some(ic) => spec_set_value(m7, cp2(name, "DefaultIcon"@), ""@, spec_icon_val(ic)),
        None => m7,
    };
    match c.icon {
        Some(ic) => {
            crate::store::lemma_set_value_pointwise(m7, cp2(name, "DefaultIcon"@), ""@, spec_icon_val(ic), q);
            crate::store::lemma_set_value_pointwise(
                m7,
                cp2(name, "DefaultIcon"@),
                ""@,
                spec_icon_val(ic),
                cp2(name, "DefaultIcon"@),
            );
        },
        None => {},
    }
    crate::store::lemma_set_value_pointwise(m8, cp2(name, "shell"@), ""@, RegValV::S("open"@), q);
    let m9 = spec_set_value(m8, cp2(name, "shell"@), ""@, RegValV::S("open"@));
    crate::store::lemma_set_value_pointwise(
        m9,
        cp3(name, "shell"@, "open"@),
        ""@,
        RegValV::S("Run in WSL"@),
        q,
    );
    let m10 = spec_set_value(m9, cp3(name, "shell"@, "open"@), ""@, RegValV::S("Run in WSL"@));
    let m11 = match c.icon {
        Some(ic) => spec_set_value(m10, cp3(name, "shell"@, "open"@), "Icon"@, spec_icon_val(ic)),
        None => m10,
    };
    match c.icon {
        Some(ic) => {
            crate::store::lemma_set_value_pointwise(
                m10,
                cp3(name, "shell"@, "open"@),
                "Icon"@,
                spec_icon_val(ic),
                q,
            );
        },
        None => {},
    }
    let cmdv = RegValV::S(spec_command(ext, exe));
    crate::store::lemma_set_value_pointwise(m11, cp4(name, "shell"@, "open"@, "command"@), ""@, cmdv, q);
    let m12 = spec_set_value(m11, cp4(name, "shell"@, "open"@, "command"@), ""@, cmdv);
    crate::store::lemma_set_value_pointwise(
        m12,
        cp3(name, "shell"@, "runas"@),
        "Extended"@,
        RegValV::S(""@),
        q,
    );
    let m13 = spec_set_value(m12, cp3(name, "shell"@, "runas"@), "Extended"@, RegValV::S(""@));
    let m14 = match c.icon {
        Some(ic) => spec_set_value(m13, cp3(name, "shell"@, "runas"@), "Icon"@, spec_icon_val(ic)),
        None => m13,
    };
    match c.icon {
        Some(ic) => {
            crate::store::lemma_set_value_pointwise(
                m13,
                cp3(name, "shell"@, "runas"@),
                "Icon"@,
                spec_icon_val(ic),
                q,
            );
        },
        None => {},
    }
    crate::store::lemma_set_value_pointwise(m14, cp4(name, "shell"@, "runas"@, "command"@), ""@, cmdv, q);
    let m15 = spec_set_value(m14, cp4(name, "shell"@, "runas"@, "command"@), ""@, cmdv);
    crate::store::lemma_set_value_pointwise(
        m15,
        cp3(name, "shellex"@, "DropHandler"@),
        ""@,
        RegValV::S("{86C86720-42A0-1069-A2E8-08002B30309D}"@),
        q,
    );
    let m16 = spec_set_value(
        m15,
        cp3(name, "shellex"@, "DropHandler"@),
        ""@,
        RegValV::S("{86C86720-42A0-1069-A2E8-08002B30309D}"@),
    );
    crate::store::lemma_set_value_pointwise(m16, pdot, ""@, RegValV::S(name), q);
    let m17 = spec_set_value(m16, pdot, ""@, RegValV::S(name));
    crate::store::lemma_set_value_pointwise(m17, pdot, "PerceivedType"@, RegValV::S("application"@), q);
    let m18 = spec_set_value(m17, pdot, "PerceivedType"@, RegValV::S("application"@));
    crate::store::lemma_set_value_pointwise(m18, owpi, name, RegValV::S(""@), q);
    let m19 = spec_set_value(m18, owpi, name, RegValV::S(""@));
    let r = spec_register(m, c, exe);
    assert(r == m19);
    // the handler record paths never collide with the extension key paths
    assert(name != dotx);
    assert(cp1(name) != pdot);
    if q == cp1(name) {
        assert(r[q] == handler_root_vals(c));
    }
    if c.icon is Some && q == cp2(name, "DefaultIcon"@) {
        assert(r[q] == Map::<Seq<char>, RegValV>::empty().insert(""@, spec_icon_val(c.icon->Some_0)));
    }
    if q == cp2(name, "shell"@) {
        assert(r[q] == Map::<Seq<char>, RegValV>::empty().insert(""@, RegValV::S("open"@)));
    }
    if q == cp3(name, "shell"@, "open"@) {
        assert(r[q] == open_verb_vals(c));
    }
    if q == cp4(name, "shell"@, "open"@, "command"@) {
        assert(r[q] == cmd_vals(c, exe));
    }
    if q == cp3(name, "shell"@, "runas"@) {
        assert(r[q] == runas_vals(c));
    }
    if q == cp4(name, "shell"@, "runas"@, "command"@) {
        assert(r[q] == cmd_vals(c, exe));
    }
    if q == cp2(name, "shellex"@) {
        assert(r[q] == Map::<Seq<char>, RegValV>::empty());
    }
    if q == cp3(name, "shellex"@, "DropHandler"@) {
        assert(r[q] == Map::<Seq<char>, RegValV>::empty().insert(
            ""@,
            RegValV::S("{86C86720-42A0-1069-A2E8-08002B30309D}"@),
        ));
    }
    if q == pdot {
        crate::store::lemma_set_value_pointwise(m16, pdot, ""@, RegValV::S(name), pdot);
        crate::store::lemma_set_value_pointwise(m17, pdot, "PerceivedType"@, RegValV::S("application"@), pdot);
        assert(!path_extends(pdot, cp1(name)));
        assert(r[q] == (if m.contains_key(pdot) {
            m[pdot]
        } else {
            Map::<Seq<char>, RegValV>::empty()
        }).insert(""@, RegValV::S(name)).insert("PerceivedType"@, RegValV::S("application"@)));
    }
    if q == owpi {
        assert(!path_extends(owpi, cp1(name)));
        assert(r[q] == (if m.contains_key(owpi) {
            m[owpi]
        } else {
            Map::<Seq<char>, RegValV>::empty()
        }).insert(name, RegValV::S(""@)));
    }
    if q == seq!["Software"@] || q == seq!["Software"@, "Classes"@] {
        assert(r.contains_key(q));
        assert(r[q] == (if m.contains_key(q) {
            m[q]
        } else {
            Map::<Seq<char>, RegValV>::empty()
        }));
    }
    if !is_handler_record_path(q, c) && q != pdot && q != owpi && q != seq!["Software"@] && q
        != seq!["Software"@, "Classes"@] {
        if m.contains_key(q) && !path_extends(q, cp1(name)) {
            assert(r.contains_key(q) && r[q] == m[q]);
        } else {
            assert(!r.contains_key(q));
        }
    }
    assert(r.contains_key(q) <==> (is_handler_record_path(q, c) || q == pdot || q == owpi || q
        == seq!["Software"@] || q == seq!["Software"@, "Classes"@] || (m.contains_key(q)
        && !path_extends(q, cp1(name)))));
}

/// Registration idempotence law: registering the same configuration
/// twice leaves the store in the same observable state — the same key
/// set with the same values — as registering it once.
pub proof fn lemma_register_idempotent(
    m: Map<Seq<Seq<char>>, Map<Seq<char>, RegValV>>,
    c: ExtConfig,
    exe: Seq<char>,
)
    requires
        c.extension@.len() > 0,
    ensures
        spec_register(spec_register(m, c, exe), c, exe) == spec_register(m, c, exe),
{
    let ext = c.extension@;
    let name = spec_handler_name(ext);
    let dotx = spec_dot_ext(ext);
    let pdot = cp1(dotx);
    let owpi = cp2(dotx, "OpenWithProgIds"@);
    let r1 = spec_register(m, c, exe);
    let r2 = spec_register(r1, c, exe);
    register_literal_facts(ext);
    assert forall|q: Seq<Seq<char>>| #[trigger] r2.contains_key(q) <==> r1.contains_key(q) by {
        lemma_register_at(m, c, exe, q);
        lemma_register_at(r1, c, exe, q);
    }
    assert forall|q: Seq<Seq<char>>| r1.contains_key(q) implies #[trigger] r2[q] == r1[q] by {
        lemma_register_at(m, c, exe, q);
        lemma_register_at(r1, c, exe, q);
        if q == pdot {
            assert(r2[q] == r1[pdot].insert(""@, RegValV::S(name)).insert(
                "PerceivedType"@,
                RegValV::S("application"@),
            ));
            assert(r1[pdot].insert(""@, RegValV::S(name)).insert(
                "PerceivedType"@,
                RegValV::S("application"@),
            ) =~= r1[pdot]);
        }
        if q == owpi {
            assert(r2[q] == r1[owpi].insert(name, RegValV::S(""@)));
            assert(r1[owpi].insert(name, RegValV::S(""@)) =~= r1[owpi]);
        }
    }
    assert(r2 =~~= r1);
}

/// Register-then-unregister law: when nothing in the store touches the
/// extension — no key at or below the handler record root nor the
/// extension key, with the two ancestor keys present — unregistering
/// after registering returns the store to its prior observable state,
/// with no leftover keys.
pub proof fn lemma_register_unregister(
    m: Map<Seq<Seq<char>>, Map<Seq<char>, RegValV>>,
    c: ExtConfig,
    exe: Seq<char>,
)
    requires
        c.extension@.len() > 0,
        m.contains_key(seq!["Software"@]),
        m.contains_key(seq!["Software"@, "Classes"@]),
        forall|q: Seq<Seq<char>>| #[trigger]
            m.contains_key(q) ==> !path_extends(q, cp1(spec_handler_name(c.extension@)))
                && !path_extends(q, cp1(spec_dot_ext(c.extension@))),
    ensures
        spec_unregister(spec_register(m, c, exe), c.extension@) == m,
{
    let ext = c.extension@;
    let name = spec_handler_name(ext);
    let dotx = spec_dot_ext(ext);
    let pdot = cp1(dotx);
    let owpi = cp2(dotx, "OpenWithProgIds"@);
    let r1 = spec_register(m, c, exe);
    register_literal_facts(ext);
    lemma_cp1_prefixes(name);
    lemma_cp1_prefixes(dotx);
    lemma_cp2_prefixes(dotx, "OpenWithProgIds"@);
    assert(!path_extends(pdot, cp1(name)));
    assert(!path_extends(owpi, cp1(name)));
    assert(path_extends(pdot, pdot));
    assert(path_extends(owpi, pdot));
    assert(!m.contains_key(pdot));
    assert(!m.contains_key(owpi));
    lemma_register_at(m, c, exe, pdot);
    lemma_register_at(m, c, exe, owpi);
    let u1 = spec_delete_tree(r1, cp1(name));
    assert(u1.contains_key(pdot));
    assert(u1[pdot] == Map::<Seq<char>, RegValV>::empty().insert(""@, RegValV::S(name)).insert(
        "PerceivedType"@,
        RegValV::S("application"@),
    ));
    assert(u1[pdot].contains_key(""@) && u1[pdot][""@] == RegValV::S(name));
    let m2u = u1.insert(pdot, u1[pdot].remove(""@));
    assert(m2u.contains_key(owpi));
    assert(m2u[owpi] == Map::<Seq<char>, RegValV>::empty().insert(name, RegValV::S(""@)));
    assert(m2u[owpi].contains_key(name));
    let m3a = m2u.insert(owpi, m2u[owpi].remove(name));
    assert forall|q: Seq<Seq<char>>| #[trigger]
        m3a.contains_key(q) implies !(path_extends(q, owpi) && q.len() > owpi.len()) by {
        lemma_register_at(m, c, exe, q);
        if path_extends(q, owpi) && q.len() > owpi.len() {
            assert(q.take(4) == owpi);
            assert(q.take(3) =~= pdot);
            assert(path_extends(q, pdot));
            assert(q.len() >= 5);
            assert(q != pdot && q != owpi);
            assert(!(q == seq!["Software"@] || q == seq!["Software"@, "Classes"@]));
            if is_handler_record_path(q, c) {
                assert(q[2] == name || q[2] == dotx);
                assert(q[2] == owpi[2]);
                assert(owpi[2] == dotx);
                assert(name != dotx);
                assert(false);
            }
            assert(m.contains_key(q));
            assert(false);
        }
    }
    assert(!spec_has_strict_subkey(m3a, owpi));
    assert(!spec_has_any_value(m3a, owpi)) by {
        assert(m3a[owpi] == Map::<Seq<char>, RegValV>::empty().insert(name, RegValV::S(""@)).remove(
            name,
        ));
        assert forall|n: Seq<char>| !(#[trigger] m3a[owpi].contains_key(n)) by {}
    }
    let m3b = spec_delete_tree(m3a, owpi);
    assert(!path_extends(pdot, owpi));
    assert(m3b.contains_key(pdot));
    assert(m3b[pdot] == u1[pdot].remove(""@));
    assert(!m3b[pdot].contains_key(""@));
    assert forall|q: Seq<Seq<char>>| #[trigger]
        m3b.contains_key(q) implies !(path_extends(q, pdot) && q.len() > pdot.len()) by {
        lemma_register_at(m, c, exe, q);
        if path_extends(q, pdot) && q.len() > pdot.len() {
            assert(q.take(3) == pdot);
            assert(q.len() >= 4);
            assert(q != pdot);
            if q == owpi {
                assert(path_extends(owpi, owpi));
                assert(!m3b.contains_key(q));
            } else {
                assert(!(q == seq!["Software"@] || q == seq!["Software"@, "Classes"@]));
                if is_handler_record_path(q, c) {
                    assert(q[2] == name || q[2] == dotx);
                    assert(q[2] == pdot[2]);
                    assert(name != dotx);
                    assert(false);
                }
                assert(m.contains_key(q));
                assert(false);
            }
        }
    }
    assert(!spec_has_strict_subkey(m3b, pdot));
    let fin = spec_delete_tree(m3b, pdot);
    assert(spec_unregister(r1, ext) == fin);
    assert forall|q: Seq<Seq<char>>| #[trigger] fin.contains_key(q) <==> m.contains_key(q) by {
        lemma_register_at(m, c, exe, q);
        if fin.contains_key(q) {
            assert(r1.contains_key(q) && !path_extends(q, cp1(name)) && !path_extends(q, owpi)
                && !path_extends(q, pdot));
            if is_handler_record_path(q, c) {
                assert(q.take(3) == cp1(name)) by {
                    lemma_cp2_prefixes(name, "DefaultIcon"@);
                    lemma_cp2_prefixes(name, "shell"@);
                    lemma_cp2_prefixes(name, "shellex"@);
                    lemma_cp3_prefixes(name, "shell"@, "open"@);
                    lemma_cp3_prefixes(name, "shell"@, "runas"@);
                    lemma_cp3_prefixes(name, "shellex"@, "DropHandler"@);
                    lemma_cp4_prefixes(name, "shell"@, "open"@, "command"@);
                    lemma_cp4_prefixes(name, "shell"@, "runas"@, "command"@);
                }
                assert(false);
            }
        }
        if m.contains_key(q) {
            assert(!path_extends(q, cp1(name)) && !path_extends(q, pdot));
            assert(!path_extends(q, owpi)) by {
                if path_extends(q, owpi) {
                    assert(q.take(4) == owpi);
                    assert(q.take(3) =~= pdot);
                }
            }
            assert(r1.contains_key(q));
        }
    }
    assert forall|q: Seq<Seq<char>>| m.contains_key(q) implies #[trigger] fin[q] == m[q] by {
        lemma_register_at(m, c, exe, q);
        assert(!path_extends(q, cp1(name)) && !path_extends(q, pdot));
        assert(!path_extends(q, owpi)) by {
            if path_extends(q, owpi) {
                assert(q.take(4) == owpi);
                assert(q.take(3) =~= pdot);
            }
        }
        if q == seq!["Software"@] || q == seq!["Software"@, "Classes"@] {
            assert(r1[q] == m[q]);
        } else {
            assert(q != pdot && q != owpi);
            assert(!is_handler_record_path(q, c)) by {
                if is_handler_record_path(q, c) {
                    lemma_cp2_prefixes(name, "DefaultIcon"@);
                    lemma_cp2_prefixes(name, "shell"@);
                    lemma_cp2_prefixes(name, "shellex"@);
                    lemma_cp3_prefixes(name, "shell"@, "open"@);
                    lemma_cp3_prefixes(name, "shell"@, "runas"@);
                    lemma_cp3_prefixes(name, "shellex"@, "DropHandler"@);
                    lemma_cp4_prefixes(name, "shell"@, "open"@, "command"@);
                    lemma_cp4_prefixes(name, "shell"@, "runas"@, "command"@);
                    assert(path_extends(q, cp1(name)));
                }
            }
            assert(r1[q] == m[q]);
        }
        assert(q != pdot && q != owpi);
        assert(u1.contains_key(q) && u1[q] == r1[q]);
        assert(m2u.contains_key(q) && m2u[q] == u1[q]);
        assert(m3a.contains_key(q) && m3a[q] == m2u[q]);
        assert(m3b.contains_key(q) && m3b[q] == m3a[q]);
        assert(fin.contains_key(q) && fin[q] == m3b[q]);
    }
    assert(fin =~~= m);
}

proof fn lemma_extract_quoted(ext: Seq<char>, exe: Seq<char>)
    requires
        exe.len() > 0,
        forall|k: int| 0 <= k < exe.len() ==> exe[k] != '"',
    ensures
        spec_extract_exe(spec_command(ext, exe)) == Some(exe),
{
    let s = spec_command(ext, exe);
    reveal_strlit("\" --ext \"");
    assert(s[0] == '"');
    let s1 = s.drop_first();
    assert(s1 =~= exe + "\" --ext \""@ + ext + "\" -E \"%0\" %*"@);
    assert(s1[0] == exe[0]);
    assert(s1[0] != '"');
    assert(strip_quotes(s) == strip_quotes(s1));
    assert(strip_quotes(s1) == s1);
    assert(s1.len() > 0);
    assert(forall|k: int| 0 <= k < exe.len() ==> s1[k] == exe[k] && s1[k] != '"');
    assert(s1[exe.len() as int] == "\" --ext \""@[0]);
    assert(s1[exe.len() as int] == '"');
    lemma_first_quote_at(s1, exe.len() as int);
    assert(s1.take(exe.len() as int) =~= exe);
}

/// Self-detection law: after registering with the current executable's
/// own path, the stored open-verb command names exactly that path, so
/// the self-detection check holds.  A host path holds no double quote.
pub proof fn lemma_self_detection(
    m: Map<Seq<Seq<char>>, Map<Seq<char>, RegValV>>,
    c: ExtConfig,
    exe: Seq<char>,
)
    requires
        c.extension@.len() > 0,
        exe.len() > 0,
        forall|k: int| 0 <= k < exe.len() ==> exe[k] != '"',
    ensures
        spec_is_registered_for_current(spec_register(m, c, exe), c.extension@, exe),
{
    let ext = c.extension@;
    let name = spec_handler_name(ext);
    let pc = cp4(name, "shell"@, "open"@, "command"@);
    lemma_register_at(m, c, exe, pc);
    let r = spec_register(m, c, exe);
    assert(r[pc] == cmd_vals(c, exe));
    assert(r[pc].contains_key(""@) && r[pc][""@] == RegValV::S(spec_command(ext, exe)));
    assert(spec_handler_cmd(r, ext) == Some(spec_command(ext, exe)));
    lemma_extract_quoted(ext, exe);
}

/// Look up a distribution's display name by its identifier.
pub fn distro_guid_to_name(store: &RegistryData, guid: DistroGUID) -> (r: Option<String>)
    requires
        store.wf(),
    ensures
        ({
            let p = lxss_path().push(guid.s@);
            let m = store.map_v();
            match r {
                Some(nm) => m.contains_key(p) && m[p].contains_key("DistributionName"@) && m[p][
                    "DistributionName"@
                ] == RegValV::S(nm@),
                None => !m.contains_key(p) || !m[p].contains_key("DistributionName"@) || !(m[p][
                    "DistributionName"@
                ] is S),
            }
        }),
{
    let p = lxss_child(guid.to_string());
    match store.get_value(&p, "DistributionName") {
        Some(RegVal::Str(s)) => Some(s),
        _ => None,
    }
}

} // verus!
