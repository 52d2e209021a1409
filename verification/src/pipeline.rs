//! The whole-run model: folding the per-line formatter over a sequence
//! of input lines, and the laws the fold obeys.

use crate::format::{
    format_line, justified_number, line_emitted, line_is_blank, next_blank_run, next_line_number,
    rendered_before_ends, rendered_line, transformed_content,
};
use crate::options::{ends_active, flag_set_of, str_eq, FlagSet, Opt};
use vstd::prelude::*;

verus! {

/// The character sequences held by a sequence of strings.
pub open spec fn line_views(ls: Seq<String>) -> Seq<Seq<char>> {
    Seq::new(ls.len(), |i: int| ls[i]@)
}

/// The formatted lines a run emits, processing `ls` from the state
/// (`num`, `brun`).
pub open spec fn emitted_lines(f: FlagSet, ls: Seq<Seq<char>>, num: nat, brun: nat) -> Seq<
    Seq<char>,
>
    decreases ls.len(),
{
    if ls.len() == 0 {
        Seq::empty()
    } else {
        let l = ls[0];
        let num2 = next_line_number(f, l, num, brun);
        let rest = emitted_lines(f, ls.drop_first(), num2, next_blank_run(l, brun));
        if line_emitted(f, l, brun) {
            seq![rendered_line(f, l, num2)] + rest
        } else {
            rest
        }
    }
}

/// The line number after a run over `ls` from the state (`num`, `brun`).
pub open spec fn number_after(f: FlagSet, ls: Seq<Seq<char>>, num: nat, brun: nat) -> nat
    decreases ls.len(),
{
    if ls.len() == 0 {
        num
    } else {
        number_after(
            f,
            ls.drop_first(),
            next_line_number(f, ls[0], num, brun),
            next_blank_run(ls[0], brun),
        )
    }
}

/// The blank-run length after a run over `ls` from blank-run state `brun`.
pub open spec fn blank_run_after(ls: Seq<Seq<char>>, brun: nat) -> nat
    decreases ls.len(),
{
    if ls.len() == 0 {
        brun
    } else {
        blank_run_after(ls.drop_first(), next_blank_run(ls[0], brun))
    }
}

/// The emitted lines flattened into one character stream, each line
/// closed by its terminator.
pub open spec fn joined(ls: Seq<Seq<char>>) -> Seq<char>
    decreases ls.len(),
{
    if ls.len() == 0 {
        Seq::empty()
    } else {
        ls[0].push('\n') + joined(ls.drop_first())
    }
}

/// Processing one more line at the end of a run extends the emitted
/// lines by that line's rendering, when it is emitted, and advances the
/// state by one step.
proof fn lemma_run_snoc(f: FlagSet, ls: Seq<Seq<char>>, x: Seq<char>, num: nat, brun: nat)
    ensures
        number_after(f, ls.push(x), num, brun) == next_line_number(
            f,
            x,
            number_after(f, ls, num, brun),
            blank_run_after(ls, brun),
        ),
        blank_run_after(ls.push(x), brun) == next_blank_run(x, blank_run_after(ls, brun)),
        emitted_lines(f, ls.push(x), num, brun) == emitted_lines(f, ls, num, brun) + (if line_emitted(
            f,
            x,
            blank_run_after(ls, brun),
        ) {
            seq![
                rendered_line(
                    f,
                    x,
                    next_line_number(f, x, number_after(f, ls, num, brun), blank_run_after(ls, brun)),
                ),
            ]
        } else {
            Seq::<Seq<char>>::empty()
        }),
    decreases ls.len(),
{
    reveal_with_fuel(emitted_lines, 2);
    reveal_with_fuel(number_after, 2);
    reveal_with_fuel(blank_run_after, 2);
    if ls.len() == 0 {
        assert(ls.push(x)[0] == x);
        assert(ls.push(x).drop_first() =~= Seq::<Seq<char>>::empty());
        assert(emitted_lines(f, ls.push(x), num, brun) =~= emitted_lines(f, ls, num, brun) + (
        if line_emitted(f, x, blank_run_after(ls, brun)) {
            seq![
                rendered_line(
                    f,
                    x,
                    next_line_number(f, x, number_after(f, ls, num, brun), blank_run_after(ls, brun)),
                ),
            ]
        } else {
            Seq::<Seq<char>>::empty()
        }));
    } else {
        assert(ls.push(x)[0] == ls[0]);
        assert(ls.push(x).drop_first() =~= ls.drop_first().push(x));
        lemma_run_snoc(
            f,
            ls.drop_first(),
            x,
            next_line_number(f, ls[0], num, brun),
            next_blank_run(ls[0], brun),
        );
        assert(emitted_lines(f, ls.push(x), num, brun) =~= emitted_lines(f, ls, num, brun) + (
        if line_emitted(f, x, blank_run_after(ls, brun)) {
            seq![
                rendered_line(
                    f,
                    x,
                    next_line_number(f, x, number_after(f, ls, num, brun), blank_run_after(ls, brun)),
                ),
            ]
        } else {
            Seq::<Seq<char>>::empty()
        }));
    }
}

/// Flattening distributes over adding one line at the end.
proof fn lemma_joined_snoc(ls: Seq<Seq<char>>, x: Seq<char>)
    ensures
        joined(ls.push(x)) == joined(ls) + x.push('\n'),
    decreases ls.len(),
{
    reveal_with_fuel(joined, 2);
    if ls.len() == 0 {
        assert(ls.push(x).drop_first() =~= Seq::<Seq<char>>::empty());
        assert(joined(ls.push(x)) =~= joined(ls) + x.push('\n'));
    } else {
        assert(ls.push(x)[0] == ls[0]);
        assert(ls.push(x).drop_first() =~= ls.drop_first().push(x));
        lemma_joined_snoc(ls.drop_first(), x);
        assert(joined(ls.push(x)) =~= joined(ls) + x.push('\n'));
    }
}

/// Formats every line of `lines` in order, threading the numbering
/// state from call to call, and appends each emitted line with its
/// terminator to `output`.
pub fn format_lines(
    options: &Vec<Opt>,
    lines: &Vec<String>,
    output: String,
    line_number: usize,
    blank_line_counter: usize,
) -> (r: (String, usize, usize))
    requires
        options@.len() >= 9,
        line_number + lines@.len() < usize::MAX,
        blank_line_counter + lines@.len() < usize::MAX,
    ensures
        ({
            let f = flag_set_of(options@);
            let lv = line_views(lines@);
            &&& r.0@ == output@ + joined(
                emitted_lines(f, lv, line_number as nat, blank_line_counter as nat),
            )
            &&& r.1 == number_after(f, lv, line_number as nat, blank_line_counter as nat)
            &&& r.2 == blank_run_after(lv, blank_line_counter as nat)
        }),
{
    let ghost f = flag_set_of(options@);
    let ghost lv = line_views(lines@);
    let ghost out0 = output@;
    let n: usize = lines.len();
    let mut out = output;
    let mut num: usize = line_number;
    let mut brun: usize = blank_line_counter;
    let mut i: usize = 0;
    while i < n
        invariant
            i <= n,
            n == lines@.len(),
            options@.len() >= 9,
            f == flag_set_of(options@),
            lv == line_views(lines@),
            lv.len() == n,
            line_number + n < usize::MAX,
            blank_line_counter + n < usize::MAX,
            num <= line_number + i,
            brun <= blank_line_counter + i,
            out@ == out0 + joined(
                emitted_lines(f, lv.take(i as int), line_number as nat, blank_line_counter as nat),
            ),
            num == number_after(
                f,
                lv.take(i as int),
                line_number as nat,
                blank_line_counter as nat,
            ),
            brun == blank_run_after(lv.take(i as int), blank_line_counter as nat),
        decreases n - i,
    {
        let ghost prefix = lv.take(i as int);
        let line = lines[i].clone();
        let step = format_line(options, line, out, num, brun);
        out = step.0;
        num = step.1;
        brun = step.2;
        i = i + 1;
        proof {
            assert(lv.take(i as int) =~= prefix.push(lv[i - 1]));
            assert(lv[i - 1] == lines@[i - 1]@);
            lemma_run_snoc(f, prefix, lv[i - 1], line_number as nat, blank_line_counter as nat);
            if line_emitted(f, lv[i - 1], blank_run_after(prefix, blank_line_counter as nat)) {
                let em = emitted_lines(f, prefix, line_number as nat, blank_line_counter as nat);
                let rendered = rendered_line(f, lv[i - 1], num as nat);
                assert(em + seq![rendered] =~= em.push(rendered));
                lemma_joined_snoc(em, rendered);
            } else {
                assert(emitted_lines(f, lv.take(i as int), line_number as nat,
                    blank_line_counter as nat) =~= emitted_lines(f, prefix, line_number as nat,
                    blank_line_counter as nat));
            }
        }
    }
    proof {
        assert(lv.take(n as int) =~= lv);
    }
    (out, num, brun)
}

// ---------------------------------------------------------------------------
// The driver's input choice
// ---------------------------------------------------------------------------
/// A token names a file when it does not start with a dash.
pub open spec fn is_file_token(a: Seq<char>) -> bool {
    a.len() > 0 && a[0] != '-'
}

/// The driver reads standard input when some token is the lone dash, or
/// when no token names a file.
pub open spec fn wants_standard_input(argsv: Seq<Seq<char>>) -> bool {
    (exists|j: int| 0 <= j < argsv.len() && #[trigger] argsv[j] == seq!['-']) || !(exists|j: int|
        0 <= j < argsv.len() && is_file_token(#[trigger] argsv[j]))
}

/// Decides between standard input and file mode from the argument
/// tokens.
pub fn use_standard_input(args: &[String]) -> (r: bool)
    requires
        forall|j: int| 0 <= j < args@.len() ==> (#[trigger] args@[j])@.len() > 0,
    ensures
        r == wants_standard_input(args.deep_view()),
{
    let ghost argv = args.deep_view();
    let n: usize = args.len();
    let mut has_dash = false;
    let mut has_file = false;
    let mut j: usize = 0;
    while j < n
        invariant
            j <= n,
            n == args@.len(),
            argv == args.deep_view(),
            argv.len() == n,
            forall|j2: int| 0 <= j2 < n ==> (#[trigger] args@[j2])@.len() > 0,
            forall|j2: int| 0 <= j2 < n ==> #[trigger] argv[j2] == args@[j2]@,
            has_dash <==> (exists|j2: int| 0 <= j2 < j && #[trigger] argv[j2] == seq!['-']),
            has_file <==> (exists|j2: int| 0 <= j2 < j && is_file_token(#[trigger] argv[j2])),
        decreases n - j,
    {
        let arg: &String = &args[j];
        proof {
            reveal_strlit("-");
            assert("-"@ =~= seq!['-']);
        }
        if str_eq(arg.as_str(), "-") {
            has_dash = true;
        }
        if arg.as_str().get_char(0) != '-' {
            has_file = true;
        }
        j = j + 1;
        proof {
            assert(argv[j - 1] == arg@);
            assert((exists|j2: int| 0 <= j2 < j && #[trigger] argv[j2] == seq!['-']) <==> ((exists|
                j2: int,
            | 0 <= j2 < j - 1 && #[trigger] argv[j2] == seq!['-']) || argv[j - 1] == seq!['-']));
            assert((exists|j2: int| 0 <= j2 < j && is_file_token(#[trigger] argv[j2])) <==> ((exists|
                j2: int,
            | 0 <= j2 < j - 1 && is_file_token(#[trigger] argv[j2])) || is_file_token(
                argv[j - 1],
            )));
        }
    }
    has_dash || !has_file
}

// ---------------------------------------------------------------------------
// Laws of the run
// ---------------------------------------------------------------------------
/// The end mark that formatting appends to a line when it is active.
pub open spec fn end_mark(f: FlagSet) -> Seq<char> {
    if ends_active(f) {
        seq!['$']
    } else {
        Seq::empty()
    }
}

/// With blank squeezing off, every input line is emitted: the run
/// produces exactly one output line per input line.
pub proof fn lemma_squeeze_off_keeps_count(f: FlagSet, ls: Seq<Seq<char>>, num: nat, brun: nat)
    requires
        !f.squeeze_blank,
    ensures
        emitted_lines(f, ls, num, brun).len() == ls.len(),
    decreases ls.len(),
{
    if ls.len() > 0 {
        lemma_squeeze_off_keeps_count(
            f,
            ls.drop_first(),
            next_line_number(f, ls[0], num, brun),
            next_blank_run(ls[0], brun),
        );
    }
}

/// A run is a function of the option set, the input lines and the
/// starting state alone: two runs over equal inputs emit equal output.
pub proof fn lemma_run_deterministic(
    f1: FlagSet,
    f2: FlagSet,
    ls1: Seq<Seq<char>>,
    ls2: Seq<Seq<char>>,
    num: nat,
    brun: nat,
)
    requires
        f1 == f2,
        ls1 == ls2,
    ensures
        emitted_lines(f1, ls1, num, brun) == emitted_lines(f2, ls2, num, brun),
{
}

/// With plain numbering on, and nonblank numbering and blank squeezing
/// off, the output holds one line per input line, and the line at
/// position `k` carries the number `num + k + 1` right-justified in the
/// number column, a tab, the transformed content, and the end mark when
/// that is active.
pub proof fn lemma_numbering_all_lines(f: FlagSet, ls: Seq<Seq<char>>, num: nat, brun: nat)
    requires
        f.number,
        !f.number_nonblank,
        !f.squeeze_blank,
    ensures
        emitted_lines(f, ls, num, brun).len() == ls.len(),
        forall|k: int|
            0 <= k < ls.len() ==> #[trigger] emitted_lines(f, ls, num, brun)[k] == justified_number(
                (num + k + 1) as nat,
            ) + seq!['\t'] + transformed_content(f, ls[k]) + end_mark(f),
    decreases ls.len(),
{
    lemma_squeeze_off_keeps_count(f, ls, num, brun);
    if ls.len() > 0 {
        let l = ls[0];
        let num2 = next_line_number(f, l, num, brun);
        let brun2 = next_blank_run(l, brun);
        let rest = emitted_lines(f, ls.drop_first(), num2, brun2);
        let em = emitted_lines(f, ls, num, brun);
        assert(num2 == num + 1);
        assert(rendered_line(f, l, num2) =~= justified_number((num + 1) as nat) + seq!['\t']
            + transformed_content(f, l) + end_mark(f));
        lemma_numbering_all_lines(f, ls.drop_first(), num2, brun2);
        assert forall|k: int|
            0 <= k < ls.len() implies #[trigger] em[k] == justified_number((num + k + 1) as nat)
            + seq!['\t'] + transformed_content(f, ls[k]) + end_mark(f) by {
            if k > 0 {
                assert(em[k] == rest[k - 1]);
                assert(rest[k - 1] == justified_number((num2 + (k - 1) + 1) as nat) + seq!['\t']
                    + transformed_content(f, ls.drop_first()[k - 1]) + end_mark(f));
                assert(ls.drop_first()[k - 1] == ls[k]);
            }
        }
    }
}

/// How many of the lines are not blank.
pub open spec fn nonblank_count(ls: Seq<Seq<char>>) -> nat
    decreases ls.len(),
{
    if ls.len() == 0 {
        0
    } else {
        (if line_is_blank(ls[0]) {
            0nat
        } else {
            1nat
        }) + nonblank_count(ls.drop_first())
    }
}

proof fn lemma_nonblank_count_unfold(ls: Seq<Seq<char>>, k: int)
    requires
        0 <= k < ls.len(),
    ensures
        nonblank_count(ls.take(k + 1)) == (if line_is_blank(ls[0]) {
            0nat
        } else {
            1nat
        }) + nonblank_count(ls.drop_first().take(k)),
{
    assert(ls.take(k + 1)[0] == ls[0]);
    assert(ls.take(k + 1).drop_first() =~= ls.drop_first().take(k));
}

/// With nonblank numbering on and blank squeezing off: a blank input
/// line is emitted with no number and no tab (only the end mark when
/// that is active) and leaves the counter alone, while the line at
/// position `k`, when not blank, carries the count of nonblank lines up
/// to and including it.
pub proof fn lemma_numbering_nonblank(f: FlagSet, ls: Seq<Seq<char>>, num: nat, brun: nat)
    requires
        f.number_nonblank,
        !f.squeeze_blank,
    ensures
        emitted_lines(f, ls, num, brun).len() == ls.len(),
        forall|k: int|
            0 <= k < ls.len() && line_is_blank(ls[k]) ==> #[trigger] emitted_lines(
                f,
                ls,
                num,
                brun,
            )[k] == end_mark(f),
        forall|k: int|
            0 <= k < ls.len() && !line_is_blank(ls[k]) ==> #[trigger] emitted_lines(
                f,
                ls,
                num,
                brun,
            )[k] == justified_number((num + nonblank_count(ls.take(k + 1))) as nat) + seq!['\t']
                + transformed_content(f, ls[k]) + end_mark(f),
    decreases ls.len(),
{
    lemma_squeeze_off_keeps_count(f, ls, num, brun);
    if ls.len() > 0 {
        let l = ls[0];
        let num2 = next_line_number(f, l, num, brun);
        let brun2 = next_blank_run(l, brun);
        let rest = emitted_lines(f, ls.drop_first(), num2, brun2);
        let em = emitted_lines(f, ls, num, brun);
        lemma_numbering_nonblank(f, ls.drop_first(), num2, brun2);
        if line_is_blank(l) {
            assert(num2 == num);
            assert(rendered_before_ends(f, l, num2) =~= Seq::<char>::empty());
            assert(rendered_line(f, l, num2) =~= end_mark(f));
        } else {
            assert(num2 == num + 1);
            lemma_nonblank_count_unfold(ls, 0);
            assert(ls.drop_first().take(0) =~= Seq::<Seq<char>>::empty());
            assert(nonblank_count(ls.take(1)) == 1);
            assert(rendered_line(f, l, num2) =~= justified_number((num + 1) as nat) + seq!['\t']
                + transformed_content(f, l) + end_mark(f));
        }
        assert forall|k: int|
            0 <= k < ls.len() && line_is_blank(ls[k]) implies #[trigger] em[k] == end_mark(f) by {
            if k > 0 {
                assert(em[k] == rest[k - 1]);
                assert(ls.drop_first()[k - 1] == ls[k]);
            }
        }
        assert forall|k: int|
            0 <= k < ls.len() && !line_is_blank(ls[k]) implies #[trigger] em[k] == justified_number(
            (num + nonblank_count(ls.take(k + 1))) as nat,
        ) + seq!['\t'] + transformed_content(f, ls[k]) + end_mark(f) by {
            if k > 0 {
                assert(em[k] == rest[k - 1]);
                assert(ls.drop_first()[k - 1] == ls[k]);
                assert(rest[k - 1] == justified_number(
                    (num2 + nonblank_count(ls.drop_first().take(k))) as nat,
                ) + seq!['\t'] + transformed_content(f, ls.drop_first()[k - 1]) + end_mark(f));
                lemma_nonblank_count_unfold(ls, k);
            }
        }
    }
}

/// With blank squeezing on and every other switch off, no two adjacent
/// output lines are both blank; and a run that starts inside a blank
/// run cannot begin its output with a blank line.
pub proof fn lemma_squeeze_no_adjacent_blanks(f: FlagSet, ls: Seq<Seq<char>>, num: nat, brun: nat)
    requires
        f.squeeze_blank,
        !f.show_all,
        !f.e,
        !f.t,
        !f.show_nonprinting,
        !f.show_ends,
        !f.show_tabs,
        !f.number,
        !f.number_nonblank,
    ensures
        forall|k: int|
            0 <= k && k + 1 < emitted_lines(f, ls, num, brun).len() ==> !(line_is_blank(
                #[trigger] emitted_lines(f, ls, num, brun)[k],
            ) && line_is_blank(emitted_lines(f, ls, num, brun)[k + 1])),
        brun >= 1 && emitted_lines(f, ls, num, brun).len() > 0 ==> !line_is_blank(
            emitted_lines(f, ls, num, brun)[0],
        ),
    decreases ls.len(),
{
    if ls.len() > 0 {
        let l = ls[0];
        let num2 = next_line_number(f, l, num, brun);
        let brun2 = next_blank_run(l, brun);
        let rest = emitted_lines(f, ls.drop_first(), num2, brun2);
        let em = emitted_lines(f, ls, num, brun);
        lemma_squeeze_no_adjacent_blanks(f, ls.drop_first(), num2, brun2);
        assert(rendered_line(f, l, num2) == l);
        if line_is_blank(l) && brun >= 1 {
            assert(!line_emitted(f, l, brun));
            assert(em == rest);
        } else {
            assert(line_emitted(f, l, brun));
            assert(em == seq![l] + rest);
            assert(em[0] == l);
            assert forall|k: int|
                0 <= k && k + 1 < em.len() implies !(line_is_blank(#[trigger] em[k])
                && line_is_blank(em[k + 1])) by {
                if k == 0 {
                    if rest.len() > 0 && line_is_blank(l) {
                        assert(brun2 >= 1);
                        assert(em[1] == rest[0]);
                        assert(!line_is_blank(rest[0]));
                    }
                } else {
                    assert(em[k] == rest[k - 1]);
                    assert(em[k + 1] == rest[k]);
                }
            }
        }
    }
}

/// With end marking on, every emitted line is some line body with
/// exactly the one `$` the formatter appends at its very end.
pub proof fn lemma_end_marks(f: FlagSet, ls: Seq<Seq<char>>, num: nat, brun: nat)
    requires
        ends_active(f),
    ensures
        forall|k: int|
            0 <= k < emitted_lines(f, ls, num, brun).len() ==> (#[trigger] emitted_lines(
                f,
                ls,
                num,
                brun,
            )[k]).len() >= 1 && emitted_lines(f, ls, num, brun)[k].last() == '$',
        forall|k: int|
            0 <= k < emitted_lines(f, ls, num, brun).len() ==> exists|l: Seq<char>, m: nat|
                #[trigger] emitted_lines(f, ls, num, brun)[k] == rendered_before_ends(
                    f,
                    l,
                    m,
                ).push('$'),
    decreases ls.len(),
{
    if ls.len() > 0 {
        let l = ls[0];
        let num2 = next_line_number(f, l, num, brun);
        let brun2 = next_blank_run(l, brun);
        let rest = emitted_lines(f, ls.drop_first(), num2, brun2);
        let em = emitted_lines(f, ls, num, brun);
        lemma_end_marks(f, ls.drop_first(), num2, brun2);
        if line_emitted(f, l, brun) {
            assert(em == seq![rendered_line(f, l, num2)] + rest);
            assert(em[0] == rendered_before_ends(f, l, num2).push('$'));
            assert forall|k: int| 0 < k < em.len() implies #[trigger] em[k] == rest[k - 1] by {}
        } else {
            assert(em == rest);
        }
    }
}

/// With no switch set at all, a run changes nothing: the emitted lines
/// are the input lines.
pub proof fn lemma_no_flags_identity(f: FlagSet, ls: Seq<Seq<char>>, num: nat, brun: nat)
    requires
        !f.show_all,
        !f.e,
        !f.t,
        !f.show_nonprinting,
        !f.show_ends,
        !f.show_tabs,
        !f.number,
        !f.number_nonblank,
        !f.squeeze_blank,
    ensures
        emitted_lines(f, ls, num, brun) == ls,
    decreases ls.len(),
{
    if ls.len() > 0 {
        let l = ls[0];
        let num2 = next_line_number(f, l, num, brun);
        assert(rendered_line(f, l, num2) == l);
        lemma_no_flags_identity(f, ls.drop_first(), num2, next_blank_run(l, brun));
        assert(emitted_lines(f, ls, num, brun) =~= ls);
    } else {
        assert(emitted_lines(f, ls, num, brun) =~= ls);
    }
}

} // verus!
