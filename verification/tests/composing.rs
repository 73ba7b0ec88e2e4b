use wslscript::compose::{run_wsl, spill_file_content, spill_required, wsl_command_args, Spill};
use wslscript::config::HoldMode;
use wslscript::error::Error;
use wslscript::options::WSLOptions;

fn opts(hold_mode: HoldMode, interactive: bool, distribution: Option<&str>) -> WSLOptions {
    WSLOptions { hold_mode, interactive, distribution: distribution.map(str::to_owned) }
}

const HOLD_TEXT: &str =
    " { printf >&2 '\\n[Process exited - exit code %d] ' \"$?\"; read -n 1 -s; }";

#[test]
fn compose_end_to_end_example() {
    let args = vec!["C:\\data\\a b.txt".to_owned()];
    let o = opts(HoldMode::Error, false, None);
    let c = run_wsl("C:\\scripts\\run.sh", &args, &o, None).unwrap();
    assert_eq!(
        c.text,
        "cd 'C:\\scripts' && './run.sh' 'C:\\data\\a b.txt' || { printf >&2 \
         '\\n[Process exited - exit code %d] ' \"$?\"; read -n 1 -s; }"
    );
    assert!(c.spill_file.is_none());
}

#[test]
fn hold_mode_suffix_never() {
    let args: Vec<String> = vec![];
    let o = opts(HoldMode::Never, false, None);
    let c = run_wsl("C:\\s\\r.sh", &args, &o, None).unwrap();
    assert_eq!(c.text, "cd 'C:\\s' && './r.sh'");
}

#[test]
fn hold_mode_suffix_always() {
    let args: Vec<String> = vec![];
    let o = opts(HoldMode::Always, false, None);
    let c = run_wsl("C:\\s\\r.sh", &args, &o, None).unwrap();
    assert!(c.text.ends_with(&format!(";{}", HOLD_TEXT)));
    assert_eq!(c.text, format!("cd 'C:\\s' && './r.sh';{}", HOLD_TEXT));
}

#[test]
fn hold_mode_suffix_error() {
    let args: Vec<String> = vec![];
    let o = opts(HoldMode::Error, false, None);
    let c = run_wsl("C:\\s\\r.sh", &args, &o, None).unwrap();
    assert!(c.text.ends_with(&format!(" ||{}", HOLD_TEXT)));
}

#[test]
fn invalid_path_rejected() {
    let args: Vec<String> = vec![];
    let o = opts(HoldMode::Never, false, None);
    assert_eq!(run_wsl("", &args, &o, None).unwrap_err(), Error::InvalidPathError);
    assert_eq!(run_wsl("C:\\dir\\", &args, &o, None).unwrap_err(), Error::InvalidPathError);
}

#[test]
fn spill_threshold_just_under() {
    // 1271 three-character arguments: the composed line is 21 + 6*1271 =
    // 7647 characters, just under the ceiling of 7651
    let args: Vec<String> = (0..1271).map(|_| "abc".to_owned()).collect();
    let o = opts(HoldMode::Never, false, None);
    assert_eq!(spill_required("C:\\s\\r.sh", &args, &o).unwrap(), false);
    let c = run_wsl("C:\\s\\r.sh", &args, &o, None).unwrap();
    assert_eq!(c.text.chars().count(), 7647);
    assert!(c.spill_file.is_none());
    assert!(!c.text.contains("mapfile"));
}

#[test]
fn spill_threshold_just_over() {
    // one more argument pushes the inline form to 7653, past the
    // ceiling: the composer must retry with the spill form
    let args: Vec<String> = (0..1272).map(|_| "abc".to_owned()).collect();
    let o = opts(HoldMode::Never, false, None);
    assert_eq!(spill_required("C:\\s\\r.sh", &args, &o).unwrap(), true);
    let spill = Spill {
        host_path: "C:\\Temp\\wsl01.tmp".to_owned(),
        wsl_path: "/mnt/c/Temp/wsl01.tmp".to_owned(),
    };
    let c = run_wsl("C:\\s\\r.sh", &args, &o, Some(&spill)).unwrap();
    assert_eq!(
        c.text,
        "mapfile -d '' -t args < '/mnt/c/Temp/wsl01.tmp' && cd 'C:\\s' && './r.sh' \
         \"${args[@]}\""
    );
    assert_eq!(c.spill_file.as_deref(), Some("C:\\Temp\\wsl01.tmp"));
}

#[test]
fn spill_heuristic_pre_check() {
    // a single argument above half the command ceiling triggers the
    // heuristic even though the inline form would still fit
    let args = vec!["x".repeat(5000)];
    let o = opts(HoldMode::Never, false, None);
    assert_eq!(spill_required("C:\\s\\r.sh", &args, &o).unwrap(), true);
    let spill = Spill {
        host_path: "C:\\Temp\\wsl02.tmp".to_owned(),
        wsl_path: "/mnt/c/Temp/wsl02.tmp".to_owned(),
    };
    let c = run_wsl("C:\\s\\r.sh", &args, &o, Some(&spill)).unwrap();
    assert!(c.text.starts_with("mapfile -d '' -t args < '"));
    assert!(c.text.ends_with("\"${args[@]}\""));
}

#[test]
fn spill_form_too_long() {
    // even the spill form exceeds the ceiling: the operation fails
    let args: Vec<String> = (0..1272).map(|_| "abc".to_owned()).collect();
    let o = opts(HoldMode::Never, false, None);
    let spill = Spill {
        host_path: "C:\\Temp\\wsl03.tmp".to_owned(),
        wsl_path: format!("/mnt/c/{}", "x".repeat(7600)),
    };
    assert_eq!(
        run_wsl("C:\\s\\r.sh", &args, &o, Some(&spill)).unwrap_err(),
        Error::CommandTooLong
    );
}

#[test]
fn spill_file_content_nul_separated() {
    let args = vec!["a".to_owned(), "b c".to_owned(), "d".to_owned()];
    assert_eq!(spill_file_content(&args), "a\0b c\0d");
    assert_eq!(spill_file_content(&vec![]), "");
}

#[test]
fn wsl_invocation_arguments() {
    let args: Vec<String> = vec![];
    let o = opts(HoldMode::Never, true, Some("Ubuntu"));
    let c = run_wsl("C:\\s\\r.sh", &args, &o, None).unwrap();
    let argv = wsl_command_args(&c, &o);
    assert_eq!(
        argv,
        vec!["-d", "Ubuntu", "-e", "bash", "-i", "-c", "cd 'C:\\s' && './r.sh'"]
    );
    let o2 = opts(HoldMode::Never, false, None);
    let argv2 = wsl_command_args(&c, &o2);
    assert_eq!(argv2, vec!["-e", "bash", "-c", "cd 'C:\\s' && './r.sh'"]);
}
