use win_terminal_commands::open::{build_parameters, has_path_separator, parse_args, quote_arg};

fn args(list: &[&str]) -> Vec<String> {
    list.iter().map(|s| s.to_string()).collect()
}

#[test]
fn quote_plain_argument() {
    assert_eq!(quote_arg("abc"), "abc");
}

#[test]
fn quote_argument_with_space() {
    assert_eq!(quote_arg("a b"), "\"a b\"");
}

#[test]
fn quote_empty_argument() {
    assert_eq!(quote_arg(""), "\"\"");
}

#[test]
fn quote_argument_with_embedded_quote() {
    assert_eq!(quote_arg("a\"b"), "\"a\\\"b\"");
}

#[test]
fn quote_argument_without_spaces_is_untouched() {
    // No spaces, so no quoting is needed even with a trailing backslash.
    assert_eq!(quote_arg("C:\\dir\\"), "C:\\dir\\");
}

#[test]
fn quote_argument_doubles_trailing_backslash() {
    assert_eq!(quote_arg("C:\\my dir\\"), "\"C:\\my dir\\\\\"");
}

#[test]
fn parse_app_option_takes_next_argument() {
    let opts = parse_args(&args(&["-a", "notepad", "a.txt"])).unwrap();
    assert_eq!(opts.app.as_deref(), Some("notepad"));
    assert_eq!(opts.targets, vec!["a.txt".to_string()]);
}

#[test]
fn parse_app_equals_form() {
    let opts = parse_args(&args(&["--app=notepad", "a.txt"])).unwrap();
    assert_eq!(opts.app.as_deref(), Some("notepad"));
}

#[test]
fn parse_missing_app_value_errors() {
    assert!(parse_args(&args(&["-a"])).is_err());
}

#[test]
fn parse_double_dash_treats_rest_as_targets() {
    let opts = parse_args(&args(&["--", "-a"])).unwrap();
    assert!(opts.app.is_none());
    assert_eq!(opts.targets, vec!["-a".to_string()]);
}

// ---- additional cases -------------------------------------------------

#[test]
fn quote_backslashes_before_quote_are_doubled() {
    // Two backslashes before a quote become four plus the quote's escape.
    assert_eq!(quote_arg("a\\\\\"b"), "\"a\\\\\\\\\\\"b\"");
    // Backslashes not before a quote stay as they are.
    assert_eq!(quote_arg("a\\b c"), "\"a\\b c\"");
    // Tabs and newlines also force quoting.
    assert_eq!(quote_arg("a\tb"), "\"a\tb\"");
    assert_eq!(quote_arg("a\nb"), "\"a\nb\"");
}

#[test]
fn parameters_are_quoted_and_joined() {
    let targets = args(&["a.txt", "my file.txt", ""]);
    assert_eq!(build_parameters(&targets), "a.txt \"my file.txt\" \"\"");
    assert_eq!(build_parameters(&Vec::new()), "");
}

#[test]
fn open_option_errors() {
    assert_eq!(parse_args(&args(&["-a"])).err().unwrap(), "option -a requires an argument");
    assert_eq!(parse_args(&args(&["-x"])).err().unwrap(), "unknown option: -x");
    assert_eq!(parse_args(&args(&["--help"])).err().unwrap(), "help requested");
    let opts = parse_args(&args(&["-"])).unwrap();
    assert_eq!(opts.targets, vec!["-".to_string()]);
}

#[test]
fn path_separator_detection() {
    assert!(has_path_separator("bin/tool"));
    assert!(has_path_separator("C:\\tool"));
    assert!(!has_path_separator("notepad"));
}

/// Splits a command line by the C runtime's rules ("Parsing C Command-Line
/// Arguments").
fn msdn_split(line: &str) -> Vec<String> {
    let mut out = Vec::new();
    let mut cur = String::new();
    let mut started = false;
    let mut quoted = false;
    let mut pending = 0usize;
    for c in line.chars() {
        if c == '\\' {
            pending += 1;
            started = true;
            continue;
        }
        if c == '"' {
            cur.extend(std::iter::repeat('\\').take(pending / 2));
            if pending % 2 == 1 {
                cur.push('"');
            } else {
                quoted = !quoted;
            }
            pending = 0;
            started = true;
            continue;
        }
        cur.extend(std::iter::repeat('\\').take(pending));
        pending = 0;
        if (c == ' ' || c == '\t') && !quoted {
            if started {
                out.push(std::mem::take(&mut cur));
            }
            started = false;
        } else {
            cur.push(c);
            started = true;
        }
    }
    cur.extend(std::iter::repeat('\\').take(pending));
    if started {
        out.push(cur);
    }
    out
}

#[test]
fn quoted_argument_is_read_back_as_one_argument() {
    for s in ["", "plain", "with space", "tab\there", "a\"b", "trail\\", "x \\\" y\\\\", "\\\\server\\share dir\\"] {
        assert_eq!(msdn_split(&quote_arg(s)), vec![s.to_string()], "argument {s:?}");
    }
}

#[test]
fn parameter_string_splits_back_into_the_targets() {
    let targets = args(&["a b", "", "c\\", "d\"e", "plain"]);
    assert_eq!(msdn_split(&build_parameters(&targets)), targets);
}
