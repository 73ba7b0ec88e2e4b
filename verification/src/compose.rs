//! Command composer: builds the foreign-shell command that changes to the
//! script's directory, invokes the script, passes the arguments — inline
//! or through a spilled argument file — and appends the exit-hold
//! behavior.

use vstd::prelude::*;
use crate::config::HoldMode;
use crate::error::Error;
use crate::options::WSLOptions;
use crate::quote::{single_quote_escape, spec_escape};
use crate::strutil::push_char;
use crate::winpath::{path_splittable, spec_file_name, spec_parent, split_path};

verus! {

/// Hard upper bound on a host command line, in characters.
pub const MAX_CMD_LEN: usize = 8191;

/// Worst-case length of one host path, in characters.
pub const MAX_PATH_LEN: usize = 260;

/// Upper bound on the composed foreign-shell command: the command-line
/// ceiling minus headroom for two maximum-length paths and fixed overhead.
pub const MAX_BASH_LEN: usize = MAX_CMD_LEN - MAX_PATH_LEN - MAX_PATH_LEN - 20;

/// A composed foreign-shell command.
#[derive(Debug)]
pub struct ComposedCommand {
    /// The command text.
    pub text: String,
    /// Host path of the spilled argument file, when one is used, so the
    /// caller can delete it once the spawned process no longer needs it.
    pub spill_file: Option<String>,
}

/// A spilled-argument file prepared by the caller: its host path, and its
/// path as seen from inside the foreign subsystem.
pub struct Spill {
    pub host_path: String,
    pub wsl_path: String,
}

/// The exact text appended after the invocation for each hold mode.
pub open spec fn spec_hold_suffix(m: HoldMode) -> Seq<char> {
    match m {
        HoldMode::Never => Seq::empty(),
        HoldMode::Always => ";"@ + (
        r#" { printf >&2 '\n[Process exited - exit code %d] ' "$?"; read -n 1 -s; }"#)@,
        HoldMode::Error => " ||"@ + (
        r#" { printf >&2 '\n[Process exited - exit code %d] ' "$?"; read -n 1 -s; }"#)@,
    }
}

/// The `cd` plus invocation part of the command.
pub open spec fn spec_command_core(dir: Seq<char>, file: Seq<char>) -> Seq<char> {
    "cd '"@ + spec_escape(dir) + "' && './"@ + spec_escape(file) + "'"@
}

/// The inline argument list: each argument singly quoted and appended.
pub open spec fn spec_inline_args(args: Seq<Seq<char>>) -> Seq<char>
    decreases args.len(),
{
    if args.len() == 0 {
        Seq::empty()
    } else {
        spec_inline_args(args.drop_last()) + " '"@ + spec_escape(args.last()) + "'"@
    }
}

/// The preamble that reads NUL-separated entries from the spilled
/// argument file into an array.
pub open spec fn spec_spill_preamble(spill_wsl: Seq<char>) -> Seq<char> {
    "mapfile -d '' -t args < '"@ + spec_escape(spill_wsl) + "' && "@
}

/// The whole composed command for a directory, filename, argument list,
/// hold mode, and optional spilled-argument file.
pub open spec fn spec_compose(
    dir: Seq<char>,
    file: Seq<char>,
    args: Seq<Seq<char>>,
    m: HoldMode,
    spill_wsl: Option<Seq<char>>,
) -> Seq<char> {
    match spill_wsl {
        Some(w) => spec_spill_preamble(w) + spec_command_core(dir, file) + (" \"${args[@]}\"")@
            + spec_hold_suffix(m),
        None => spec_command_core(dir, file) + spec_inline_args(args) + spec_hold_suffix(m),
    }
}

/// Total character count of an argument list.
pub open spec fn args_total_len(args: Seq<Seq<char>>) -> int
    decreases args.len(),
{
    if args.len() == 0 {
        0
    } else {
        args_total_len(args.drop_last()) + args.last().len()
    }
}

/// The heuristic pre-check for spilling: the raw argument characters
/// alone exceed half the command-line ceiling.
pub open spec fn spec_needs_spill_heuristic(args: Seq<Seq<char>>) -> bool {
    args_total_len(args) > MAX_CMD_LEN as int / 2
}

proof fn lemma_args_total_len_take(args: Seq<Seq<char>>, i: int)
    requires
        0 <= i < args.len(),
    ensures
        args_total_len(args.take(i + 1)) == args_total_len(args.take(i)) + args[i].len(),
{
    assert(args.take(i + 1).drop_last() =~= args.take(i));
    assert(args.take(i + 1).last() == args[i]);
}

proof fn lemma_args_total_len_monotonic(args: Seq<Seq<char>>, i: int)
    requires
        0 <= i <= args.len(),
    ensures
        args_total_len(args) >= args_total_len(args.take(i)),
    decreases args.len() - i,
{
    if i < args.len() {
        lemma_args_total_len_take(args, i);
        lemma_args_total_len_monotonic(args, i + 1);
    } else {
        assert(args.take(i) =~= args);
    }
}

/// Whether the argument list triggers the spill heuristic.
pub fn needs_spill_heuristic(args: &Vec<String>) -> (r: bool)
    ensures
        r == spec_needs_spill_heuristic(args.deep_view()),
{
    let threshold = MAX_CMD_LEN / 2;
    let ghost va = args.deep_view();
    let mut acc: usize = 0;
    let n = args.len();
    let mut i: usize = 0;
    proof {
        assert(va.take(0) =~= Seq::<Seq<char>>::empty());
    }
    while i < n
        invariant
            i <= n,
            n == va.len(),
            va == args.deep_view(),
            va =~= Seq::new(args@.len() as nat, |k: int| args@[k]@),
            acc == args_total_len(va.take(i as int)),
            acc <= threshold,
            threshold == MAX_CMD_LEN / 2,
        decreases n - i,
    {
        let l = args[i].as_str().unicode_len();
        assert(l == va[i as int].len());
        proof {
            lemma_args_total_len_take(va, i as int);
        }
        if l > threshold - acc {
            proof {
                lemma_args_total_len_monotonic(va, i + 1);
            }
            return true;
        }
        acc = acc + l;
        i = i + 1;
    }
    proof {
        assert(va.take(n as int) =~= va);
    }
    false
}

/// Append each argument of `args`, singly quoted, to `text`.
fn append_inline_args(text: &mut String, args: &Vec<String>)
    ensures
        final(text)@ == old(text)@ + spec_inline_args(args.deep_view()),
{
    let ghost va = args.deep_view();
    let n = args.len();
    let mut i: usize = 0;
    proof {
        assert(va.take(0) =~= Seq::<Seq<char>>::empty());
        assert(old(text)@ + spec_inline_args(va.take(0)) =~= old(text)@);
    }
    while i < n
        invariant
            i <= n,
            n == va.len(),
            va == args.deep_view(),
            va =~= Seq::new(args@.len() as nat, |k: int| args@[k]@),
            text@ == old(text)@ + spec_inline_args(va.take(i as int)),
        decreases n - i,
    {
        text.append(" '");
        let esc = single_quote_escape(args[i].as_str());
        text.append(esc.as_str());
        text.append("'");
        proof {
            assert(va.take(i + 1).drop_last() =~= va.take(i as int));
            assert(va.take(i + 1).last() == va[i as int]);
            assert(text@ =~= old(text)@ + spec_inline_args(va.take(i + 1)));
        }
        i = i + 1;
    }
    proof {
        assert(va.take(n as int) =~= va);
    }
}

/// Append the exit-hold suffix for `m` to `text`.
fn append_hold_suffix(text: &mut String, m: HoldMode)
    ensures
        final(text)@ == old(text)@ + spec_hold_suffix(m),
{
    match m {
        HoldMode::Never => {
            proof {
                assert(old(text)@ + spec_hold_suffix(m) =~= old(text)@);
            }
        },
        HoldMode::Always => {
            text.append(";");
            text.append(r#" { printf >&2 '\n[Process exited - exit code %d] ' "$?"; read -n 1 -s; }"#);
            proof {
                assert(text@ =~= old(text)@ + spec_hold_suffix(m));
            }
        },
        HoldMode::Error => {
            text.append(" ||");
            text.append(r#" { printf >&2 '\n[Process exited - exit code %d] ' "$?"; read -n 1 -s; }"#);
            proof {
                assert(text@ =~= old(text)@ + spec_hold_suffix(m));
            }
        },
    }
}

/// Build the foreign-shell command to execute a script with the given
/// arguments.
///
/// The arguments are passed inline unless `force_args_in_file` is set or
/// the heuristic pre-check triggers; then they are fetched on the foreign
/// side from the caller-prepared spilled-argument file, whose paths the
/// caller hands in through `spill`.
pub fn compose_bash_command(
    script_path: &str,
    args: &Vec<String>,
    opts: &WSLOptions,
    force_args_in_file: bool,
    spill: Option<&Spill>,
) -> (r: Result<ComposedCommand, Error>)
    requires
        path_splittable(script_path@) && (force_args_in_file || spec_needs_spill_heuristic(
            args.deep_view(),
        )) ==> spill is Some,
    ensures
        r is Ok <==> path_splittable(script_path@),
        r matches Err(e) ==> e == Error::InvalidPathError,
        r matches Ok(c) ==> ({
            let use_spill = force_args_in_file || spec_needs_spill_heuristic(args.deep_view());
            let dir = spec_parent(script_path@);
            let file = spec_file_name(script_path@);
            &&& use_spill ==> (spill is Some && c.spill_file is Some && c.text@ == spec_compose(
                dir,
                file,
                args.deep_view(),
                opts.hold_mode,
                Some(spill->Some_0.wsl_path@),
            ) && c.spill_file->Some_0@ == spill->Some_0.host_path@)
            &&& !use_spill ==> c.text@ == spec_compose(
                dir,
                file,
                args.deep_view(),
                opts.hold_mode,
                None,
            ) && c.spill_file is None
        }),
{
    let (dir, file) = match split_path(script_path) {
        Ok(p) => p,
        Err(e) => {
            return Err(e);
        },
    };
    let use_spill = force_args_in_file || needs_spill_heuristic(args);
    let mut text = String::new();
    let mut spill_file: Option<String> = None;
    if use_spill {
        let sp = match spill {
            Some(sp) => sp,
            None => {
                // unreachable: the caller hands in a spilled-argument
                // file whenever one is chosen
                proof {
                    assert(false);
                }
                return Err(Error::LogicError);
            },
        };
        text.append("mapfile -d '' -t args < '");
        let esc = single_quote_escape(sp.wsl_path.as_str());
        text.append(esc.as_str());
        text.append("' && ");
        proof {
            assert(text@ =~= spec_spill_preamble(sp.wsl_path@));
        }
        spill_file = Some(sp.host_path.clone());
    }
    let ghost pre = text@;
    // cd 'dir' && './file'
    text.append("cd '");
    let esc_dir = single_quote_escape(dir.as_str());
    text.append(esc_dir.as_str());
    text.append("' && './");
    let esc_file = single_quote_escape(file.as_str());
    text.append(esc_file.as_str());
    text.append("'");
    proof {
        assert(text@ =~= pre + spec_command_core(spec_parent(script_path@), spec_file_name(
            script_path@,
        )));
    }
    if use_spill {
        // fetch the spilled arguments into the invocation
        text.append(" \"${args[@]}\"");
    } else {
        append_inline_args(&mut text, args);
    }
    append_hold_suffix(&mut text, opts.hold_mode);
    proof {
        let dirv = spec_parent(script_path@);
        let filev = spec_file_name(script_path@);
        let va = args.deep_view();
        if use_spill {
            assert(text@ =~= spec_compose(
                dirv,
                filev,
                va,
                opts.hold_mode,
                Some(spill->Some_0.wsl_path@),
            ));
        } else {
            assert(text@ =~= spec_compose(dirv, filev, va, opts.hold_mode, None));
        }
    }
    Ok(ComposedCommand { text, spill_file })
}

/// Length of the non-spill composed command for the given inputs.
pub open spec fn spec_nonspill_len(p: Seq<char>, args: Seq<Seq<char>>, m: HoldMode) -> int {
    spec_compose(spec_parent(p), spec_file_name(p), args, m, None).len() as int
}

/// Whether composing for these inputs needs a spilled-argument file: the
/// heuristic pre-check triggers, or the inline form exceeds the command
/// ceiling and the composer must retry with the spill form.
pub open spec fn spec_spill_needed(p: Seq<char>, args: Seq<Seq<char>>, m: HoldMode) -> bool {
    path_splittable(p) && (spec_needs_spill_heuristic(args) || spec_nonspill_len(p, args, m)
        > MAX_BASH_LEN as int)
}

/// Decide, before preparing any spilled-argument file, whether one will
/// be needed to run the given script with the given arguments.
pub fn spill_required(script_path: &str, args: &Vec<String>, opts: &WSLOptions) -> (r: Result<
    bool,
    Error,
>)
    ensures
        r is Ok <==> path_splittable(script_path@),
        r matches Err(e) ==> e == Error::InvalidPathError,
        r matches Ok(b) ==> b == spec_spill_needed(script_path@, args.deep_view(), opts.hold_mode),
{
    if needs_spill_heuristic(args) {
        match split_path(script_path) {
            Ok(_) => Ok(true),
            Err(e) => Err(e),
        }
    } else {
        let c = match compose_bash_command(script_path, args, opts, false, None) {
            Ok(c) => c,
            Err(e) => {
                return Err(e);
            },
        };
        Ok(c.text.as_str().unicode_len() > MAX_BASH_LEN)
    }
}

/// Compose the command to run a script, spilling the arguments to the
/// caller-prepared file when they do not fit on the command line.
///
/// The caller must hand in a spilled-argument file exactly when
/// `spill_required` says one is needed.  Fails with `InvalidPathError`
/// when the script path has no directory or filename component, and with
/// `CommandTooLong` when even the spill form exceeds the command ceiling.
pub fn run_wsl(script_path: &str, args: &Vec<String>, opts: &WSLOptions, spill: Option<&Spill>) -> (r:
    Result<ComposedCommand, Error>)
    requires
        spec_spill_needed(script_path@, args.deep_view(), opts.hold_mode) ==> spill is Some,
    ensures
        ({
            let p = script_path@;
            let va = args.deep_view();
            let m = opts.hold_mode;
            let dir = spec_parent(p);
            let file = spec_file_name(p);
            &&& (r matches Err(e) && e == Error::InvalidPathError <==> !path_splittable(p))
            &&& path_splittable(p) && !spec_spill_needed(p, va, m) ==> (r matches Ok(c)
                && c.text@ == spec_compose(dir, file, va, m, None) && c.spill_file is None
                && c.text@.len() <= MAX_BASH_LEN)
            &&& path_splittable(p) && spec_spill_needed(p, va, m) ==> (spill matches Some(sp) && ({
                let spill_text = spec_compose(dir, file, va, m, Some(sp.wsl_path@));
                if spill_text.len() > MAX_BASH_LEN {
                    r matches Err(e) && e == Error::CommandTooLong
                } else {
                    r is Ok && r->Ok_0.text@ == spill_text && r->Ok_0.spill_file is Some
                        && r->Ok_0.spill_file->Some_0@ == sp.host_path@
                }
            }))
        }),
{
    let first = match compose_bash_command(script_path, args, opts, false, spill) {
        Ok(c) => c,
        Err(e) => {
            return Err(e);
        },
    };
    if first.text.as_str().unicode_len() <= MAX_BASH_LEN {
        return Ok(first);
    }
    // retry, forcing the arguments into the spilled file
    let second = match compose_bash_command(script_path, args, opts, true, spill) {
        Ok(c) => c,
        Err(e) => {
            return Err(e);
        },
    };
    if second.text.as_str().unicode_len() > MAX_BASH_LEN {
        return Err(Error::CommandTooLong);
    }
    Ok(second)
}

/// Hold-mode suffix exactness law: for every input, the composed command
/// ends byte-for-byte with the exact hold suffix of its mode — nothing
/// for `Never`, `; { printf ... }` for `Always`, and ` || { printf ... }`
/// for `Error`.
pub proof fn lemma_hold_suffix_exact(
    dir: Seq<char>,
    file: Seq<char>,
    args: Seq<Seq<char>>,
    m: HoldMode,
    spill_wsl: Option<Seq<char>>,
)
    ensures
        ({
            let t = spec_compose(dir, file, args, m, spill_wsl);
            let suf = spec_hold_suffix(m);
            t.len() >= suf.len() && t.skip(t.len() - suf.len()) == suf
        }),
{
    let t = spec_compose(dir, file, args, m, spill_wsl);
    let suf = spec_hold_suffix(m);
    match spill_wsl {
        Some(w) => {
            let head = spec_spill_preamble(w) + spec_command_core(dir, file) + (" \"${args[@]}\"")@;
            assert(t =~= head + suf);
            assert((head + suf).skip(head.len() as int) =~= suf);
        },
        None => {
            let head = spec_command_core(dir, file) + spec_inline_args(args);
            assert(t =~= head + suf);
            assert((head + suf).skip(head.len() as int) =~= suf);
        },
    }
}

/// The NUL-separated content of a spilled-argument file.
pub open spec fn spec_nul_join(args: Seq<Seq<char>>) -> Seq<char>
    decreases args.len(),
{
    if args.len() == 0 {
        Seq::empty()
    } else if args.len() == 1 {
        args[0]
    } else {
        spec_nul_join(args.drop_last()) + seq!['\0'] + args.last()
    }
}

/// Join the arguments into the NUL-separated list that is written to the
/// spilled-argument file.
pub fn spill_file_content(args: &Vec<String>) -> (r: String)
    ensures
        r@ == spec_nul_join(args.deep_view()),
{
    let ghost va = args.deep_view();
    let mut r = String::new();
    let n = args.len();
    let mut i: usize = 0;
    while i < n
        invariant
            i <= n,
            n == va.len(),
            va == args.deep_view(),
            va =~= Seq::new(args@.len() as nat, |k: int| args@[k]@),
            r@ == spec_nul_join(va.take(i as int)),
        decreases n - i,
    {
        if i > 0 {
            push_char(&mut r, '\0');
        }
        r.append(args[i].as_str());
        proof {
            assert(va.take(i + 1).drop_last() =~= va.take(i as int));
            assert(va.take(i + 1).last() == va[i as int]);
            if i == 0 {
                assert(va.take(1)[0] == va[0]);
                assert(r@ =~= spec_nul_join(va.take(1)));
            } else {
                assert(r@ =~= spec_nul_join(va.take(i + 1)));
            }
        }
        i = i + 1;
    }
    proof {
        assert(va.take(n as int) =~= va);
    }
    r
}

/// The argument vector handed to the foreign-subsystem host binary:
/// optional distribution selection, the shell invocation, optional
/// interactive flag, and the composed command.
pub open spec fn spec_wsl_args(
    text: Seq<char>,
    interactive: bool,
    distribution: Option<Seq<char>>,
) -> Seq<Seq<char>> {
    (match distribution {
        Some(d) => seq!["-d"@, d],
        None => Seq::empty(),
    }) + seq!["-e"@, "bash"@] + (if interactive {
        seq!["-i"@]
    } else {
        Seq::empty()
    }) + seq!["-c"@, text]
}

/// Build the argument vector for the foreign-subsystem host binary.
pub fn wsl_command_args(composed: &ComposedCommand, opts: &WSLOptions) -> (r: Vec<String>)
    ensures
        r.deep_view() == spec_wsl_args(
            composed.text@,
            opts.interactive,
            match opts.distribution {
                Some(d) => Some(d@),
                None => None,
            },
        ),
{
    let mut r: Vec<String> = Vec::new();
    match &opts.distribution {
        Some(d) => {
            r.push(String::from_str("-d"));
            r.push(d.clone());
        },
        None => {},
    }
    r.push(String::from_str("-e"));
    r.push(String::from_str("bash"));
    if opts.interactive {
        r.push(String::from_str("-i"));
    }
    r.push(String::from_str("-c"));
    r.push(composed.text.clone());
    proof {
        assert(r.deep_view() =~= spec_wsl_args(
            composed.text@,
            opts.interactive,
            match opts.distribution {
                Some(d) => Some(d@),
                None => None::<Seq<char>>,
            },
        ));
    }
    r
}

} // verus!
