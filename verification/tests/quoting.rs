use wslscript::quote::single_quote_escape;

#[test]
fn escape_empty() {
    assert_eq!(single_quote_escape(""), "");
}

#[test]
fn escape_plain() {
    assert_eq!(single_quote_escape("C:\\data\\a b.txt"), "C:\\data\\a b.txt");
}

#[test]
fn escape_single_quote() {
    assert_eq!(single_quote_escape("a'b"), "a'\\''b");
}

#[test]
fn escape_consecutive_quotes() {
    assert_eq!(single_quote_escape("''"), "'\\'''\\''");
}

#[test]
fn escape_backslashes_kept() {
    assert_eq!(single_quote_escape("\\\\server\\share"), "\\\\server\\share");
}

/// A tiny POSIX-style evaluator for a word made of single-quoted spans
/// and backslash escapes, mirroring the foreign shell's reading of the
/// composed command; used to check the quoting round trip on real
/// values.
fn shell_eval(word: &str) -> Option<String> {
    let mut out = String::new();
    let mut chars = word.chars();
    loop {
        match chars.next() {
            None => return Some(out),
            Some('\'') => loop {
                match chars.next() {
                    None => return None,
                    Some('\'') => break,
                    Some(c) => out.push(c),
                }
            },
            Some('\\') => match chars.next() {
                None => return None,
                Some(c) => out.push(c),
            },
            Some(c) => out.push(c),
        }
    }
}

#[test]
fn quote_round_trip_samples() {
    let samples = [
        "",
        "plain",
        "with space",
        "it's",
        "''",
        "'''",
        "a\\b",
        "'\\'",
        "tab\there",
        "C:\\Users\\o'hara\\file's.txt",
    ];
    for s in samples {
        let quoted = format!("'{}'", single_quote_escape(s));
        assert_eq!(shell_eval(&quoted).as_deref(), Some(s), "round trip failed for {:?}", s);
    }
}
