use rs_cat::options::{format_help_line, get_options, help_text, set_options, Opt};

fn flags_of(opts: &[Opt]) -> Vec<bool> {
    opts.iter().map(|o| o.value).collect()
}

#[test]
fn catalog_has_ten_switches_all_off() {
    let opts = get_options();
    assert_eq!(opts.len(), 10);
    assert!(opts.iter().all(|o| !o.value));
    assert_eq!(opts[0].short, 'A');
    assert_eq!(opts[0].long, "--show-all");
    assert_eq!(opts[9].short, 'h');
    assert_eq!(opts[9].long, "--help");
}

#[test]
fn resolve_single_short_flag() {
    let args = vec!["-n".to_string()];
    let opts = set_options(&args).unwrap();
    assert_eq!(
        flags_of(&opts),
        vec![false, false, false, false, false, false, true, false, false, false]
    );
}

#[test]
fn resolve_long_flag() {
    let args = vec!["--show-all".to_string()];
    let opts = set_options(&args).unwrap();
    assert!(opts[0].value);
    assert!(!opts[3].value);
}

#[test]
fn resolve_short_cluster() {
    let args = vec!["-nE".to_string()];
    let opts = set_options(&args).unwrap();
    assert!(opts[6].value);
    assert!(opts[4].value);
    assert!(!opts[8].value);
}

#[test]
fn resolve_skips_data_tokens() {
    let args = vec!["file.txt".to_string(), "-".to_string(), "-s".to_string()];
    let opts = set_options(&args).unwrap();
    assert!(opts[8].value);
    assert_eq!(flags_of(&opts).iter().filter(|v| **v).count(), 1);
}

#[test]
fn resolve_tolerates_dash_inside_cluster() {
    let args = vec!["-n-b".to_string()];
    let opts = set_options(&args).unwrap();
    assert!(opts[6].value);
    assert!(opts[7].value);
}

#[test]
fn unknown_long_flag_is_an_error() {
    let args = vec!["--nope".to_string()];
    let err = set_options(&args).unwrap_err();
    assert_eq!(err, "--nope doesn't exist");
}

#[test]
fn unknown_short_flag_is_an_error() {
    let args = vec!["-x".to_string()];
    let err = set_options(&args).unwrap_err();
    assert_eq!(err, "-x doesn't exist");
}

#[test]
fn first_unknown_short_char_is_named() {
    let args = vec!["-nxy".to_string()];
    let err = set_options(&args).unwrap_err();
    assert_eq!(err, "-x doesn't exist");
}

#[test]
fn earlier_tokens_resolve_before_the_error() {
    let args = vec!["-n".to_string(), "--bad".to_string()];
    let err = set_options(&args).unwrap_err();
    assert_eq!(err, "--bad doesn't exist");
}

#[test]
fn help_line_for_show_all() {
    let opts = get_options();
    let line = format_help_line(opts[0]);
    assert_eq!(line, "  -A, --show-all\t\tequivalent to -vET");
}

#[test]
fn help_line_for_short_only_switch() {
    let opts = get_options();
    let line = format_help_line(opts[1]);
    assert_eq!(line, "  -e, \t\t\t\tequivalent to -vE");
}

#[test]
fn help_text_lists_every_switch() {
    let text = help_text();
    assert!(text.starts_with("Usage: rs-cat [OPTION]... [FILE]...\n"));
    let mut expected = String::from(
        "Usage: rs-cat [OPTION]... [FILE]...\nConcatenate FILE(s) to standard output.\n\nWith no FILE, or when FILE is -, read standard input.\n\n",
    );
    for opt in get_options() {
        expected.push_str(&format_help_line(opt));
        expected.push('\n');
    }
    assert_eq!(text, expected);
}
