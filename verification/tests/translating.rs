use wslscript::error::Error;
use wslscript::translate::{parse_wsl_output, PathTranslation};

/// Batch boundaries of a path list, probed on a scout session.
fn batch_bounds(paths: &[String]) -> Vec<(usize, usize)> {
    let mut scout = PathTranslation::new(paths.to_vec());
    let mut bounds = Vec::new();
    while scout.next_command().is_some() {
        let lo = scout.next;
        scout.feed_output("");
        bounds.push((lo, scout.next));
    }
    bounds
}

/// The output of a subsystem invocation that echoes its paths back, each
/// NUL-terminated.
fn echo_output(paths: &[String]) -> String {
    let mut out = String::new();
    for p in paths {
        out.push_str(p);
        out.push('\0');
    }
    out
}

#[test]
fn batch_completeness() {
    let paths: Vec<String> =
        (0..500).map(|i| format!("C:\\data\\input folder\\file{:04}.txt", i)).collect();
    let bounds = batch_bounds(&paths);
    assert!(bounds.len() > 1, "the list should need more than one batch");
    // every path is covered exactly once, in order
    let covered: Vec<usize> = bounds.iter().flat_map(|&(lo, hi)| lo..hi).collect();
    assert_eq!(covered, (0..paths.len()).collect::<Vec<_>>());
    // a subsystem that echoes its input back yields the whole list
    let mut session = PathTranslation::new(paths.clone());
    let mut invocations = 0;
    while let Some(cmd) = session.next_command() {
        assert!(cmd.starts_with("printf '%s\\0'"));
        assert!(cmd.chars().count() < 8191 - 260 - 100 + 260 + 100);
        let (lo, hi) = bounds[invocations];
        session.feed_output(&echo_output(&paths[lo..hi]));
        invocations += 1;
    }
    assert_eq!(invocations, bounds.len());
    let converted = session.finish().unwrap();
    assert_eq!(converted, paths);
}

#[test]
fn batch_command_shape() {
    let paths = vec!["C:\\a'b.txt".to_owned()];
    let session = PathTranslation::new(paths);
    let cmd = session.next_command().unwrap();
    assert_eq!(cmd, "printf '%s\\0' \"$(wslpath -u 'C:\\a'\\''b.txt')\"");
}

#[test]
fn cancellation_containment() {
    let paths: Vec<String> =
        (0..500).map(|i| format!("C:\\data\\input folder\\file{:04}.txt", i)).collect();
    let bounds = batch_bounds(&paths);
    assert!(bounds.len() >= 3);
    let mut session = PathTranslation::new(paths.clone());
    let mut invocations = 0;
    while let Some(_cmd) = session.next_command() {
        let (lo, hi) = bounds[invocations];
        session.feed_output(&echo_output(&paths[lo..hi]));
        invocations += 1;
        // the progress callback asks to stop after the first batch
        if invocations == 1 {
            session.cancel();
        }
    }
    // no further invocation was issued after the cancellation
    assert_eq!(invocations, 1);
    assert_eq!(session.progress(), bounds[0].1);
    // the outcome is the distinct cancelled result, never a partial list
    assert_eq!(session.finish().unwrap_err(), Error::Cancel);
}

#[test]
fn parse_output_splits_on_nul() {
    let r = parse_wsl_output("/mnt/c/a\0/mnt/c/b\0");
    assert_eq!(r, vec!["/mnt/c/a", "/mnt/c/b"]);
}

#[test]
fn parse_output_empty() {
    assert_eq!(parse_wsl_output(""), Vec::<String>::new());
}

#[test]
fn parse_output_keeps_inner_empty_fields() {
    assert_eq!(parse_wsl_output("a\0\0b\0"), vec!["a", "", "b"]);
    assert_eq!(parse_wsl_output("a\0\0"), vec!["a", ""]);
}

#[test]
fn parse_output_without_trailing_nul() {
    assert_eq!(parse_wsl_output("a\0b"), vec!["a", "b"]);
}
