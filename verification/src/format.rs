//! The non-printing encoder and the per-line formatter.
//!
//! A line is modelled as its sequence of characters. Every transformation
//! (tab visualization, caret/meta escaping, numbering, end marking) is a
//! spec function over such sequences, and each executable function is
//! proved to produce exactly the sequence its spec function describes.

use crate::options::{flag_set_of, FlagSet, Opt};
use vstd::prelude::*;
use vstd::string::StrSliceExecFns;
use vstd::string::StringExecFns;

verus! {

/// Relies on `String::push`: appends exactly the one given character.
pub assume_specification [ String::push ](s: &mut String, c: char)
    ensures
        final(s)@ == old(s)@.push(c),
;

/// The width of the column that line numbers are right-justified in.
pub const LINE_NUMBER_FIELD_WIDTH: usize = 6;

// ---------------------------------------------------------------------------
// Blank lines
// ---------------------------------------------------------------------------
/// `s` with every trailing line feed removed.
pub open spec fn trim_newlines(s: Seq<char>) -> Seq<char>
    decreases s.len(),
{
    if s.len() > 0 && s.last() == '\n' {
        trim_newlines(s.drop_last())
    } else {
        s
    }
}

/// A line is blank when nothing is left of it once its trailing
/// terminators are stripped.
pub open spec fn line_is_blank(s: Seq<char>) -> bool {
    trim_newlines(s).len() == 0
}

/// A line is blank exactly when it consists of line feeds alone.
pub proof fn lemma_blank_chars(s: Seq<char>)
    ensures
        line_is_blank(s) <==> (forall|i: int| 0 <= i < s.len() ==> s[i] == '\n'),
    decreases s.len(),
{
    if s.len() > 0 && s.last() == '\n' {
        lemma_blank_chars(s.drop_last());
        assert(forall|i: int| 0 <= i < s.len() - 1 ==> s.drop_last()[i] == s[i]);
    }
}

/// Whether `line` is blank: empty once trailing line feeds are stripped.
pub fn is_blank_line(line: &str) -> (r: bool)
    ensures
        r == line_is_blank(line@),
{
    let n: usize = line.unicode_len();
    let mut i: usize = 0;
    let mut blank: bool = true;
    while i < n
        invariant
            i <= n,
            n == line@.len(),
            blank == (forall|j: int| 0 <= j < i ==> line@[j] == '\n'),
        decreases n - i,
    {
        if line.get_char(i) != '\n' {
            blank = false;
        }
        i = i + 1;
    }
    proof {
        lemma_blank_chars(line@);
    }
    blank
}

// ---------------------------------------------------------------------------
// Tab visualization
// ---------------------------------------------------------------------------
/// What one character becomes under tab visualization.
pub open spec fn tab_expansion(c: char) -> Seq<char> {
    if c == '\t' {
        seq!['^', 'I']
    } else {
        seq![c]
    }
}

/// A whole line under tab visualization.
pub open spec fn expand_tabs(s: Seq<char>) -> Seq<char>
    decreases s.len(),
{
    if s.len() == 0 {
        Seq::empty()
    } else {
        expand_tabs(s.drop_last()) + tab_expansion(s.last())
    }
}

/// Replaces every tab character with the two-character sequence `^I`.
pub fn replace_tabs(line: &str) -> (r: String)
    ensures
        r@ == expand_tabs(line@),
{
    let n: usize = line.unicode_len();
    let mut out = String::new();
    let mut i: usize = 0;
    while i < n
        invariant
            i <= n,
            n == line@.len(),
            out@ == expand_tabs(line@.take(i as int)),
        decreases n - i,
    {
        let ghost prev = out@;
        let c = line.get_char(i);
        if c == '\t' {
            out.push('^');
            out.push('I');
        } else {
            out.push(c);
        }
        i = i + 1;
        proof {
            let t = line@.take(i as int);
            assert(t.drop_last() =~= line@.take(i - 1));
            assert(out@ =~= prev + tab_expansion(c));
        }
    }
    proof {
        assert(line@.take(n as int) =~= line@);
    }
    out
}

// ---------------------------------------------------------------------------
// Caret/meta escaping of non-printing characters
// ---------------------------------------------------------------------------
/// What one character becomes under caret/meta escaping. Tab and line
/// feed pass through untouched; control codes become `^X`; delete becomes
/// `^?`; the extended range gets an `M-` prefix, with `M-^` for its
/// control half and for the final code point 255.
pub open spec fn np_expansion(c: char) -> Seq<char> {
    let u = c as u32;
    if u == 9 || u == 10 {
        seq![c]
    } else if u < 32 {
        seq!['^', ((u + 64) as u8) as char]
    } else if u == 127 {
        seq!['^', '?']
    } else if 128 <= u && u < 160 {
        seq!['M', '-', '^', ((u - 64) as u8) as char]
    } else if 160 <= u && u < 255 {
        seq!['M', '-', ((u - 128) as u8) as char]
    } else if u == 255 {
        seq!['M', '-', '^', '?']
    } else {
        seq![c]
    }
}

/// A whole line under caret/meta escaping.
pub open spec fn encode_nonprinting(s: Seq<char>) -> Seq<char>
    decreases s.len(),
{
    if s.len() == 0 {
        Seq::empty()
    } else {
        encode_nonprinting(s.drop_last()) + np_expansion(s.last())
    }
}

/// Rewrites every non-printing character of `line` into caret/meta
/// notation, scanning the original line once from left to right.
pub fn replace_nonprinting(line: &str) -> (r: String)
    ensures
        r@ == encode_nonprinting(line@),
{
    let n: usize = line.unicode_len();
    let mut out = String::new();
    let mut i: usize = 0;
    while i < n
        invariant
            i <= n,
            n == line@.len(),
            out@ == encode_nonprinting(line@.take(i as int)),
        decreases n - i,
    {
        let ghost prev = out@;
        let c = line.get_char(i);
        let u: u32 = c as u32;
        if u == 9 || u == 10 {
            out.push(c);
        } else if u < 32 {
            out.push('^');
            out.push(((u + 64) as u8) as char);
        } else if u == 127 {
            out.push('^');
            out.push('?');
        } else if 128 <= u && u < 160 {
            out.push('M');
            out.push('-');
            out.push('^');
            out.push(((u - 64) as u8) as char);
        } else if 160 <= u && u < 255 {
            out.push('M');
            out.push('-');
            out.push(((u - 128) as u8) as char);
        } else if u == 255 {
            out.push('M');
            out.push('-');
            out.push('^');
            out.push('?');
        } else {
            out.push(c);
        }
        i = i + 1;
        proof {
            let t = line@.take(i as int);
            assert(t.drop_last() =~= line@.take(i - 1));
            assert(out@ =~= prev + np_expansion(c));
        }
    }
    proof {
        assert(line@.take(n as int) =~= line@);
    }
    out
}

// ---------------------------------------------------------------------------
// Line numbers
// ---------------------------------------------------------------------------
/// The decimal digit character for a value below ten.
pub open spec fn digit_char(d: int) -> char {
    ((48 + d) as u8) as char
}

/// The decimal digit sequence of `n`, most significant digit first.
pub open spec fn decimal_digits(n: nat) -> Seq<char>
    decreases n,
{
    if n < 10 {
        seq![digit_char(n as int)]
    } else {
        decimal_digits(n / 10).push(digit_char((n % 10) as int))
    }
}

/// A run of `k` space characters.
pub open spec fn spaces(k: nat) -> Seq<char>
    decreases k,
{
    if k == 0 {
        Seq::empty()
    } else {
        spaces((k - 1) as nat).push(' ')
    }
}

/// The decimal value of `n`, right-justified with spaces in a column of
/// [`LINE_NUMBER_FIELD_WIDTH`] characters; wider values keep all their
/// digits and get no padding.
pub open spec fn justified_number(n: nat) -> Seq<char> {
    let ds = decimal_digits(n);
    if ds.len() >= LINE_NUMBER_FIELD_WIDTH {
        ds
    } else {
        spaces((LINE_NUMBER_FIELD_WIDTH - ds.len()) as nat) + ds
    }
}

// ---------------------------------------------------------------------------
// The per-line transformation
// ---------------------------------------------------------------------------
/// The body of a formatted line before numbering and end marking: the
/// line with tabs visualized and non-printing characters escaped, as far
/// as the option set asks for either.
pub open spec fn transformed_content(f: FlagSet, line: Seq<char>) -> Seq<char> {
    let tabbed = if crate::options::tabs_active(f) {
        expand_tabs(line)
    } else {
        line
    };
    if crate::options::nonprinting_active(f) {
        encode_nonprinting(tabbed)
    } else {
        tabbed
    }
}

/// A formatted line before the end mark: the transformed content, with
/// the line-number column in front when numbering asks for it. A blank
/// line under nonblank numbering becomes empty, with no number and no
/// tab.
pub open spec fn rendered_before_ends(f: FlagSet, line: Seq<char>, num: nat) -> Seq<char> {
    let content = transformed_content(f, line);
    if f.number || f.number_nonblank {
        if f.number_nonblank && line_is_blank(line) {
            Seq::empty()
        } else {
            justified_number(num) + seq!['\t'] + content
        }
    } else {
        content
    }
}

/// A fully formatted line: the end mark `$` is appended last, after
/// every other transformation, so an emitted line carries exactly the
/// one mark this step adds.
pub open spec fn rendered_line(f: FlagSet, line: Seq<char>, num: nat) -> Seq<char> {
    if crate::options::ends_active(f) {
        rendered_before_ends(f, line, num).push('$')
    } else {
        rendered_before_ends(f, line, num)
    }
}

/// The line number after one line is processed. The counter stands
/// still for a blank line under nonblank numbering, and for a line that
/// blank squeezing is about to drop from the third blank of a run on.
pub open spec fn next_line_number(f: FlagSet, line: Seq<char>, num: nat, brun: nat) -> nat {
    if (f.number_nonblank && line_is_blank(line)) || (!f.number_nonblank && f.squeeze_blank && brun
        > 1) {
        num
    } else {
        num + 1
    }
}

/// The blank-run length after one line is processed: it grows through a
/// run of blank lines and resets on any other line.
pub open spec fn next_blank_run(line: Seq<char>, brun: nat) -> nat {
    if line_is_blank(line) {
        brun + 1
    } else {
        0
    }
}

/// Whether a line reaches the output: blank squeezing drops exactly the
/// second and later lines of each blank run.
pub open spec fn line_emitted(f: FlagSet, line: Seq<char>, brun: nat) -> bool {
    !f.squeeze_blank || next_blank_run(line, brun) <= 1
}

fn digit_char_exec(d: usize) -> (c: char)
    requires
        d < 10,
    ensures
        c == digit_char(d as int),
{
    ((48 + d as u8)) as char
}

/// The decimal digit string of `n`.
fn decimal_string(n: usize) -> (s: String)
    ensures
        s@ == decimal_digits(n as nat),
    decreases n,
{
    if n < 10 {
        let mut s = String::new();
        s.push(digit_char_exec(n));
        proof {
            assert(s@ =~= decimal_digits(n as nat));
        }
        s
    } else {
        let mut s = decimal_string(n / 10);
        s.push(digit_char_exec(n % 10));
        s
    }
}

/// Formats `number` right-justified with spaces in the fixed-width
/// line-number column.
pub fn fmt_line_number(number: usize) -> (r: String)
    ensures
        r@ == justified_number(number as nat),
{
    let digits = decimal_string(number);
    let len: usize = digits.as_str().unicode_len();
    let mut out = String::new();
    let mut i: usize = len;
    while i < LINE_NUMBER_FIELD_WIDTH
        invariant
            len <= i <= LINE_NUMBER_FIELD_WIDTH || i == len,
            out@ == spaces((i - len) as nat),
        decreases LINE_NUMBER_FIELD_WIDTH - i,
    {
        out.push(' ');
        i = i + 1;
    }
    out.append(digits.as_str());
    proof {
        assert(out@ =~= justified_number(number as nat));
    }
    out
}

/// Formats one raw line under the resolved option set and appends the
/// result, when the line is emitted at all, to `output`, followed by one
/// line terminator. Returns the grown output together with the line
/// number and blank-run length to hand to the next call; the state is
/// threaded across every line of a run, file boundaries included.
pub fn format_line(
    options: &Vec<Opt>,
    line: String,
    output: String,
    line_number: usize,
    blank_line_counter: usize,
) -> (r: (String, usize, usize))
    requires
        options@.len() >= 9,
        line_number < usize::MAX,
        blank_line_counter < usize::MAX,
    ensures
        ({
            let f = flag_set_of(options@);
            let l = line@;
            &&& r.1 == next_line_number(f, l, line_number as nat, blank_line_counter as nat)
            &&& r.2 == next_blank_run(l, blank_line_counter as nat)
            &&& r.0@ == output@ + (if line_emitted(f, l, blank_line_counter as nat) {
                rendered_line(f, l, r.1 as nat).push('\n')
            } else {
                Seq::<char>::empty()
            })
        }),
{
    let ghost l = line@;
    let ghost f = flag_set_of(options@);
    let show_all = options[0].value;
    let e = options[1].value;
    let t = options[2].value;
    let show_nonprinting = options[3].value;
    let show_ends = options[4].value;
    let show_tabs = options[5].value;
    let number = options[6].value;
    let number_nonblank = options[7].value;
    let squeeze_blank = options[8].value;

    let empty_line = is_blank_line(line.as_str());

    let b_decrement = number_nonblank && empty_line;
    let s_decrement = !number_nonblank && squeeze_blank && blank_line_counter > 1;

    let new_line_number: usize = if b_decrement || s_decrement {
        line_number
    } else {
        line_number + 1
    };
    let new_blank_counter: usize = if empty_line {
        blank_line_counter + 1
    } else {
        0
    };

    let mut current = line;
    if show_tabs || show_all || t {
        current = replace_tabs(current.as_str());
    }
    if show_nonprinting || show_all || e || t {
        current = replace_nonprinting(current.as_str());
    }
    assert(current@ == transformed_content(f, l));

    if number || number_nonblank {
        if number_nonblank && empty_line {
            current = String::new();
        } else {
            let mut prefixed = fmt_line_number(new_line_number);
            prefixed.push('\t');
            prefixed.append(current.as_str());
            proof {
                assert(prefixed@ =~= justified_number(new_line_number as nat) + seq!['\t']
                    + transformed_content(f, l));
            }
            current = prefixed;
        }
    }
    assert(current@ == rendered_before_ends(f, l, new_line_number as nat));

    if show_ends || show_all || e {
        current.push('$');
    }
    assert(current@ == rendered_line(f, l, new_line_number as nat));

    let ghost out0 = output@;
    let mut new_output = output;
    if !squeeze_blank || new_blank_counter <= 1 {
        new_output.append(current.as_str());
        new_output.push('\n');
        proof {
            assert(new_output@ =~= out0 + rendered_line(f, l, new_line_number as nat).push('\n'));
        }
    } else {
        proof {
            assert(new_output@ =~= out0 + Seq::<char>::empty());
        }
    }
    (new_output, new_line_number, new_blank_counter)
}

} // verus!

