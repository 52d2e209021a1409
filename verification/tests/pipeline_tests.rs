use rs_cat::options::{set_options, Opt};
use rs_cat::pipeline::{format_lines, use_standard_input};

fn resolve(tokens: &[&str]) -> Vec<Opt> {
    let args: Vec<String> = tokens.iter().map(|t| t.to_string()).collect();
    set_options(&args).unwrap()
}

fn lines_of(items: &[&str]) -> Vec<String> {
    items.iter().map(|s| s.to_string()).collect()
}

fn run(tokens: &[&str], items: &[&str]) -> String {
    let opts = resolve(tokens);
    let lines = lines_of(items);
    format_lines(&opts, &lines, String::new(), 0, 0).0
}

#[test]
fn no_flags_reproduce_the_input() {
    assert_eq!(run(&[], &["hello", "world", ""]), "hello\nworld\n\n");
}

#[test]
fn without_squeeze_every_line_is_emitted() {
    let out = run(&["-nE"], &["a", "", "", "b"]);
    assert_eq!(out.matches('\n').count(), 4);
}

#[test]
fn numbering_counts_from_one() {
    assert_eq!(run(&["-n"], &["alpha", "beta"]), "     1\talpha\n     2\tbeta\n");
}

#[test]
fn numbering_counts_blank_lines_too() {
    assert_eq!(run(&["-n"], &["a", "", "b"]), "     1\ta\n     2\t\n     3\tb\n");
}

#[test]
fn nonblank_numbering_emits_blanks_bare_and_does_not_count_them() {
    assert_eq!(run(&["-b"], &["a", "", "b"]), "     1\ta\n\n     2\tb\n");
}

#[test]
fn nonblank_numbering_overrides_plain_numbering() {
    assert_eq!(run(&["-nb"], &["a", "", "b"]), "     1\ta\n\n     2\tb\n");
}

#[test]
fn squeeze_collapses_blank_runs() {
    assert_eq!(run(&["-s"], &["a", "", "", "", "b"]), "a\n\nb\n");
}

#[test]
fn squeeze_leaves_single_blanks_alone() {
    assert_eq!(run(&["-s"], &["a", "", "b", "", "c"]), "a\n\nb\n\nc\n");
}

#[test]
fn end_marks_close_every_emitted_line() {
    assert_eq!(run(&["-E"], &["x", ""]), "x$\n$\n");
}

#[test]
fn show_all_combines_every_transformation() {
    assert_eq!(run(&["-A"], &["a\tb\u{1}"]), "a^Ib^A$\n");
}

#[test]
fn the_run_is_deterministic() {
    let first = run(&["-A", "-n", "-s"], &["a", "", "", "\u{7f}", "b\tc"]);
    let second = run(&["-A", "-n", "-s"], &["a", "", "", "\u{7f}", "b\tc"]);
    assert_eq!(first, second);
}

#[test]
fn the_state_carries_across_file_boundaries() {
    let opts = resolve(&["-n"]);
    let first = lines_of(&["one"]);
    let second = lines_of(&["two"]);
    let (out, num, blanks) = format_lines(&opts, &first, String::new(), 0, 0);
    let (out, num, blanks) = format_lines(&opts, &second, out, num, blanks);
    assert_eq!(out, "     1\tone\n     2\ttwo\n");
    assert_eq!(num, 2);
    assert_eq!(blanks, 0);
}

#[test]
fn squeeze_skips_the_counter_from_the_third_blank_on() {
    let opts = resolve(&["-ns"]);
    let lines = lines_of(&["", "", ""]);
    let (out, num, blanks) = format_lines(&opts, &lines, String::new(), 0, 0);
    assert_eq!(out, "     1\t\n");
    assert_eq!(num, 2);
    assert_eq!(blanks, 3);
}

#[test]
fn a_lone_dash_selects_standard_input() {
    let args = vec!["file".to_string(), "-".to_string()];
    assert!(use_standard_input(&args));
}

#[test]
fn no_file_arguments_select_standard_input() {
    let args = vec!["-n".to_string(), "-E".to_string()];
    assert!(use_standard_input(&args));
    let empty: Vec<String> = Vec::new();
    assert!(use_standard_input(&empty));
}

#[test]
fn a_file_argument_selects_file_mode() {
    let args = vec!["-n".to_string(), "notes.txt".to_string()];
    assert!(!use_standard_input(&args));
}
