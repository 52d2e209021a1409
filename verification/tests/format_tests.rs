use rs_cat::format::{fmt_line_number, format_line, is_blank_line, replace_nonprinting, replace_tabs};
use rs_cat::options::{set_options, Opt};

fn resolve(tokens: &[&str]) -> Vec<Opt> {
    let args: Vec<String> = tokens.iter().map(|t| t.to_string()).collect();
    set_options(&args).unwrap()
}

#[test]
fn line_numbers_are_right_justified_in_six_columns() {
    assert_eq!(fmt_line_number(1), "     1");
    assert_eq!(fmt_line_number(42), "    42");
    assert_eq!(fmt_line_number(999999), "999999");
}

#[test]
fn wide_line_numbers_keep_all_digits() {
    assert_eq!(fmt_line_number(1234567), "1234567");
}

#[test]
fn tabs_become_caret_i() {
    assert_eq!(replace_tabs("a\tb"), "a^Ib");
    assert_eq!(replace_tabs("\t\t"), "^I^I");
    assert_eq!(replace_tabs("plain"), "plain");
}

#[test]
fn control_characters_get_caret_notation() {
    assert_eq!(replace_nonprinting("\u{1}"), "^A");
    assert_eq!(replace_nonprinting("\u{0}"), "^@");
    assert_eq!(replace_nonprinting("\u{1f}"), "^_");
}

#[test]
fn tab_and_line_feed_pass_through_the_encoder() {
    assert_eq!(replace_nonprinting("a\tb\nc"), "a\tb\nc");
}

#[test]
fn delete_is_the_caret_exception() {
    assert_eq!(replace_nonprinting("\u{7f}"), "^?");
}

#[test]
fn extended_control_range_gets_meta_caret_notation() {
    assert_eq!(replace_nonprinting("\u{80}"), "M-^@");
    assert_eq!(replace_nonprinting("\u{9f}"), "M-^_");
}

#[test]
fn high_range_gets_meta_notation() {
    assert_eq!(replace_nonprinting("\u{a0}"), "M- ");
    assert_eq!(replace_nonprinting("\u{fe}"), "M-~");
}

#[test]
fn code_point_255_is_the_meta_caret_exception() {
    assert_eq!(replace_nonprinting("\u{ff}"), "M-^?");
}

#[test]
fn characters_beyond_one_byte_pass_through() {
    assert_eq!(replace_nonprinting("€"), "€");
}

#[test]
fn blankness_is_emptiness_after_terminator_stripping() {
    assert!(is_blank_line(""));
    assert!(is_blank_line("\n"));
    assert!(is_blank_line("\n\n"));
    assert!(!is_blank_line(" "));
    assert!(!is_blank_line("a\n"));
}

#[test]
fn plain_line_passes_unchanged() {
    let opts = resolve(&[]);
    let (out, num, blanks) = format_line(&opts, "hello".to_string(), String::new(), 0, 0);
    assert_eq!(out, "hello\n");
    assert_eq!(num, 1);
    assert_eq!(blanks, 0);
}

#[test]
fn numbering_prefixes_the_advanced_counter() {
    let opts = resolve(&["-n"]);
    let (out, num, _) = format_line(&opts, "x".to_string(), String::new(), 4, 0);
    assert_eq!(out, "     5\tx\n");
    assert_eq!(num, 5);
}

#[test]
fn nonblank_numbering_skips_blank_lines() {
    let opts = resolve(&["-b"]);
    let (out, num, blanks) = format_line(&opts, "".to_string(), "before\n".to_string(), 1, 0);
    assert_eq!(out, "before\n\n");
    assert_eq!(num, 1);
    assert_eq!(blanks, 1);
}

#[test]
fn whitespace_only_lines_are_not_blank() {
    let opts = resolve(&["-b"]);
    let (out, num, blanks) = format_line(&opts, " ".to_string(), String::new(), 0, 0);
    assert_eq!(out, "     1\t \n");
    assert_eq!(num, 1);
    assert_eq!(blanks, 0);
}

#[test]
fn squeeze_drops_the_second_blank_of_a_run() {
    let opts = resolve(&["-s"]);
    let (out, _, blanks) = format_line(&opts, "".to_string(), String::new(), 1, 1);
    assert_eq!(out, "");
    assert_eq!(blanks, 2);
}

#[test]
fn squeeze_keeps_the_first_blank_of_a_run() {
    let opts = resolve(&["-s"]);
    let (out, _, blanks) = format_line(&opts, "".to_string(), String::new(), 1, 0);
    assert_eq!(out, "\n");
    assert_eq!(blanks, 1);
}

#[test]
fn end_mark_comes_after_every_other_transformation() {
    let opts = resolve(&["-A"]);
    let (out, _, _) = format_line(&opts, "a\tb\u{1}".to_string(), String::new(), 0, 0);
    assert_eq!(out, "a^Ib^A$\n");
}

#[test]
fn convenience_switch_e_implies_escaping_and_end_marks() {
    let opts = resolve(&["-e"]);
    let (out, _, _) = format_line(&opts, "a\u{2}\t".to_string(), String::new(), 0, 0);
    assert_eq!(out, "a^B\t$\n");
}

#[test]
fn convenience_switch_t_implies_escaping_and_tabs() {
    let opts = resolve(&["-t"]);
    let (out, _, _) = format_line(&opts, "a\u{2}\t".to_string(), String::new(), 0, 0);
    assert_eq!(out, "a^B^I\n");
}

#[test]
fn state_threads_across_calls() {
    let opts = resolve(&["-n"]);
    let (out, num, blanks) = format_line(&opts, "one".to_string(), String::new(), 0, 0);
    let (out, num, blanks) = format_line(&opts, "two".to_string(), out, num, blanks);
    assert_eq!(out, "     1\tone\n     2\ttwo\n");
    assert_eq!(num, 2);
    assert_eq!(blanks, 0);
}
