//! The option model: the fixed catalog of recognized switches and the
//! resolution of argument tokens into a set of boolean flag values.

use vstd::prelude::*;

verus! {

/// One recognized switch: its current value, its one-letter short form,
/// its `--` long form (empty when the switch has none), and its help text.
#[derive(Clone, Copy, Debug)]
pub struct Opt {
    pub value: bool,
    pub short: char,
    pub long: &'static str,
    pub help: &'static str,
}

/// How many switches the catalog holds.
pub const NUM_OPTIONS: usize = 10;

/// The resolved option set: one boolean per catalog switch, read by the
/// formatter. The three convenience switches keep their own fields; what
/// they imply is resolved by [`tabs_active`], [`nonprinting_active`] and
/// [`ends_active`].
pub struct FlagSet {
    pub show_all: bool,
    pub e: bool,
    pub t: bool,
    pub show_nonprinting: bool,
    pub show_ends: bool,
    pub show_tabs: bool,
    pub number: bool,
    pub number_nonblank: bool,
    pub squeeze_blank: bool,
}

/// The flag values held by a catalog vector, in catalog order.
pub open spec fn flag_set_of(opts: Seq<Opt>) -> FlagSet {
    FlagSet {
        show_all: opts[0].value,
        e: opts[1].value,
        t: opts[2].value,
        show_nonprinting: opts[3].value,
        show_ends: opts[4].value,
        show_tabs: opts[5].value,
        number: opts[6].value,
        number_nonblank: opts[7].value,
        squeeze_blank: opts[8].value,
    }
}

/// Tabs are visualized when asked for directly or implied by a
/// convenience switch.
pub open spec fn tabs_active(f: FlagSet) -> bool {
    f.show_tabs || f.show_all || f.t
}

/// Non-printing characters are escaped when asked for directly or
/// implied by a convenience switch.
pub open spec fn nonprinting_active(f: FlagSet) -> bool {
    f.show_nonprinting || f.show_all || f.e || f.t
}

/// Line ends are marked when asked for directly or implied by a
/// convenience switch.
pub open spec fn ends_active(f: FlagSet) -> bool {
    f.show_ends || f.show_all || f.e
}

/// The short form of the catalog entry at index `i`.
pub open spec fn short_name(i: int) -> char {
    if i == 0 {
        'A'
    } else if i == 1 {
        'e'
    } else if i == 2 {
        't'
    } else if i == 3 {
        'v'
    } else if i == 4 {
        'E'
    } else if i == 5 {
        'T'
    } else if i == 6 {
        'n'
    } else if i == 7 {
        'b'
    } else if i == 8 {
        's'
    } else {
        'h'
    }
}

/// The long form of the catalog entry at index `i`; empty for the two
/// convenience switches that have none.
pub open spec fn long_name(i: int) -> Seq<char> {
    if i == 0 {
        "--show-all"@
    } else if i == 1 {
        ""@
    } else if i == 2 {
        ""@
    } else if i == 3 {
        "--show-nonprinting"@
    } else if i == 4 {
        "--show-ends"@
    } else if i == 5 {
        "--show-tabs"@
    } else if i == 6 {
        "--number"@
    } else if i == 7 {
        "--number-nonblank"@
    } else if i == 8 {
        "--squeeze-blank"@
    } else {
        "--help"@
    }
}

/// The help text of the catalog entry at index `i`.
pub open spec fn help_of(i: int) -> Seq<char> {
    if i == 0 {
        "equivalent to -vET"@
    } else if i == 1 {
        "equivalent to -vE"@
    } else if i == 2 {
        "equivalent to -vT"@
    } else if i == 3 {
        "use ^ and M- notation, except for LFD and TAB"@
    } else if i == 4 {
        "display $ at end of each line"@
    } else if i == 5 {
        "display TAB characters as ^I"@
    } else if i == 6 {
        "number all output lines"@
    } else if i == 7 {
        "number nonempty output lines, overrides -n"@
    } else if i == 8 {
        "suppress repeated empty output lines"@
    } else {
        "display this help and exit"@
    }
}

/// A catalog vector is well formed when it has one entry per recognized
/// switch, in catalog order.
pub open spec fn catalog_shaped(opts: Seq<Opt>) -> bool {
    &&& opts.len() == NUM_OPTIONS
    &&& forall|i: int|
        0 <= i < opts.len() ==> (#[trigger] opts[i]).short == short_name(i) && opts[i].long@
            == long_name(i) && opts[i].help@ == help_of(i)
}

// ---------------------------------------------------------------------------
// Token classification
// ---------------------------------------------------------------------------
/// A token is consulted by option resolution when it starts with a dash
/// and is not the lone dash that stands for standard input; everything
/// else is data for the driver.
pub open spec fn is_option_token(a: Seq<char>) -> bool {
    a.len() >= 2 && a[0] == '-'
}

/// An option token whose second character is a dash names one long form.
pub open spec fn is_long_token(a: Seq<char>) -> bool {
    is_option_token(a) && a[1] == '-'
}

/// A long token is recognized when it equals some catalog long form.
pub open spec fn long_token_ok(a: Seq<char>) -> bool {
    exists|i: int| 0 <= i < NUM_OPTIONS && a == long_name(i)
}

/// A character of a short cluster is accepted when it is some catalog
/// short form, or the tolerated literal dash.
pub open spec fn short_char_ok(c: char) -> bool {
    c == '-' || exists|i: int| 0 <= i < NUM_OPTIONS && short_name(i) == c
}

/// Whether resolution accepts the token: data tokens always, long
/// tokens when recognized, short clusters when every character is.
pub open spec fn token_ok(a: Seq<char>) -> bool {
    if !is_option_token(a) {
        true
    } else if is_long_token(a) {
        long_token_ok(a)
    } else {
        forall|k: int| 0 <= k < a.len() ==> short_char_ok(a[k])
    }
}

/// Whether the token turns the catalog switch at index `i` on.
pub open spec fn token_sets(a: Seq<char>, i: int) -> bool {
    if !is_option_token(a) {
        false
    } else if is_long_token(a) {
        a == long_name(i)
    } else {
        exists|k: int| 0 <= k < a.len() && a[k] == short_name(i)
    }
}

/// The diagnostic for an unrecognized thing.
pub open spec fn unknown_msg(bad: Seq<char>) -> Seq<char> {
    bad + " doesn't exist"@
}

/// The first character of a short cluster that no catalog short form
/// matches and that is not a dash.
pub open spec fn first_bad_char(a: Seq<char>) -> char
    decreases a.len(),
{
    if a.len() == 0 {
        ' '
    } else if !short_char_ok(a[0]) {
        a[0]
    } else {
        first_bad_char(a.drop_first())
    }
}

/// The diagnostic that a rejected token produces: the whole token for a
/// long form, a dash plus the offending character for a short cluster.
pub open spec fn token_error(a: Seq<char>) -> Seq<char> {
    if is_long_token(a) {
        unknown_msg(a)
    } else {
        unknown_msg(seq!['-', first_bad_char(a)])
    }
}

proof fn lemma_first_bad_char_at(a: Seq<char>, k: int)
    requires
        0 <= k < a.len(),
        !short_char_ok(a[k]),
        forall|k2: int| 0 <= k2 < k ==> short_char_ok(a[k2]),
    ensures
        first_bad_char(a) == a[k],
    decreases k,
{
    if k > 0 {
        lemma_first_bad_char_at(a.drop_first(), k - 1);
        assert(forall|k2: int| 0 <= k2 < k - 1 ==> a.drop_first()[k2] == a[k2 + 1]);
    }
}

/// Character-by-character string comparison.
pub fn str_eq(a: &str, b: &str) -> (r: bool)
    ensures
        r == (a@ == b@),
{
    let na: usize = a.unicode_len();
    let nb: usize = b.unicode_len();
    if na != nb {
        return false;
    }
    let mut i: usize = 0;
    while i < na
        invariant
            i <= na,
            na == a@.len(),
            na == b@.len(),
            forall|j: int| 0 <= j < i ==> a@[j] == b@[j],
        decreases na - i,
    {
        if a.get_char(i) != b.get_char(i) {
            return false;
        }
        i = i + 1;
    }
    proof {
        assert(a@ =~= b@);
    }
    true
}

/// The full catalog of recognized switches, every value off.
pub fn get_options() -> (r: Vec<Opt>)
    ensures
        catalog_shaped(r@),
        forall|i: int| 0 <= i < r@.len() ==> (#[trigger] r@[i]).value == false,
{
    let mut options: Vec<Opt> = Vec::new();
    options.push(Opt { value: false, short: 'A', long: "--show-all", help: "equivalent to -vET" });
    options.push(Opt { value: false, short: 'e', long: "", help: "equivalent to -vE" });
    options.push(Opt { value: false, short: 't', long: "", help: "equivalent to -vT" });
    options.push(
        Opt {
            value: false,
            short: 'v',
            long: "--show-nonprinting",
            help: "use ^ and M- notation, except for LFD and TAB",
        },
    );
    options.push(
        Opt { value: false, short: 'E', long: "--show-ends", help: "display $ at end of each line" },
    );
    options.push(
        Opt { value: false, short: 'T', long: "--show-tabs", help: "display TAB characters as ^I" },
    );
    options.push(
        Opt { value: false, short: 'n', long: "--number", help: "number all output lines" },
    );
    options.push(
        Opt {
            value: false,
            short: 'b',
            long: "--number-nonblank",
            help: "number nonempty output lines, overrides -n",
        },
    );
    options.push(
        Opt {
            value: false,
            short: 's',
            long: "--squeeze-blank",
            help: "suppress repeated empty output lines",
        },
    );
    options.push(
        Opt { value: false, short: 'h', long: "--help", help: "display this help and exit" },
    );
    options
}

/// Resolves argument tokens into the catalog with its values set.
///
/// Data tokens (paths and the lone dash) are passed over. A recognized
/// long token or short cluster turns its switches on; the first
/// unrecognized token ends resolution with a diagnostic naming it.
pub fn set_options(args: &[String]) -> (r: Result<Vec<Opt>, String>)
    requires
        forall|j: int| 0 <= j < args@.len() ==> (#[trigger] args@[j])@.len() > 0,
    ensures
        ({
            let argv = args.deep_view();
            match r {
                Ok(opts) => {
                    &&& forall|j: int| 0 <= j < argv.len() ==> token_ok(#[trigger] argv[j])
                    &&& catalog_shaped(opts@)
                    &&& forall|i: int|
                        0 <= i < opts@.len() ==> ((#[trigger] opts@[i]).value <==> exists|j: int|
                            0 <= j < argv.len() && token_sets(#[trigger] argv[j], i))
                },
                Err(msg) => exists|j: int|
                    {
                        &&& 0 <= j < argv.len()
                        &&& !token_ok(#[trigger] argv[j])
                        &&& forall|j2: int| 0 <= j2 < j ==> token_ok(#[trigger] argv[j2])
                        &&& msg@ == token_error(argv[j])
                    },
            }
        }),
{
    let ghost argv = args.deep_view();
    proof {
        reveal_strlit("-");
    }
    let mut options = get_options();
    let n: usize = args.len();
    let mut j: usize = 0;
    while j < n
        invariant
            j <= n,
            n == args@.len(),
            argv == args.deep_view(),
            argv.len() == n,
            forall|j2: int| 0 <= j2 < n ==> (#[trigger] args@[j2])@.len() > 0,
            forall|j2: int| 0 <= j2 < n ==> #[trigger] argv[j2] == args@[j2]@,
            catalog_shaped(options@),
            forall|j2: int| 0 <= j2 < j ==> token_ok(#[trigger] argv[j2]),
            forall|i: int|
                0 <= i < options@.len() ==> ((#[trigger] options@[i]).value <==> exists|j2: int|
                    0 <= j2 < j && token_sets(#[trigger] argv[j2], i)),
        decreases n - j,
    {
        let ghost opts_before = options@;
        let arg: &String = &args[j];
        let ghost a = arg@;
        let is_file = arg.as_str().get_char(0) != '-';
        let is_standard_input = str_eq(arg.as_str(), "-");

        if is_file || is_standard_input {
            proof {
                reveal_strlit("-");
                if is_standard_input {
                    assert(a.len() == 1);
                }
                assert(!is_option_token(a));
            }
        } else {
            proof {
                reveal_strlit("-");
                if a.len() == 1 {
                    assert(a =~= "-"@);
                }
                assert(is_option_token(a));
            }
            let is_long = arg.as_str().get_char(1) == '-';

            if is_long {
                let mut long_not_matching = true;
                let mut i: usize = 0;
                while i < NUM_OPTIONS
                    invariant
                        i <= NUM_OPTIONS,
                        options@.len() == NUM_OPTIONS,
                        catalog_shaped(options@),
                        arg@ == a,
                        a == argv[j as int],
                        long_not_matching <==> (forall|i2: int|
                            0 <= i2 < i ==> a != long_name(i2)),
                        forall|i2: int|
                            0 <= i2 < options@.len() ==> ((#[trigger] options@[i2]).value <==> (
                            opts_before[i2].value || (i2 < i && a == long_name(i2)))),
                    decreases NUM_OPTIONS - i,
                {
                    if str_eq(arg.as_str(), options[i].long) {
                        options[i].value = true;
                        long_not_matching = false;
                    }
                    i = i + 1;
                }

                if long_not_matching {
                    let mut msg = arg.clone();
                    msg.append(" doesn't exist");
                    proof {
                        assert(!long_token_ok(a));
                        assert(!token_ok(argv[j as int]));
                        assert(msg@ == token_error(argv[j as int]));
                    }
                    return Err(msg);
                }
                proof {
                    assert(forall|i2: int|
                        0 <= i2 < NUM_OPTIONS ==> ((a == long_name(i2)) == token_sets(a, i2)));
                    assert(token_ok(argv[j as int]));
                }
            } else {
                let m: usize = arg.as_str().unicode_len();
                let mut k: usize = 0;
                while k < m
                    invariant
                        k <= m,
                        m == a.len(),
                        arg@ == a,
                        a == argv[j as int],
                        j < n,
                        n == argv.len(),
                        argv == args.deep_view(),
                        forall|j2: int| 0 <= j2 < j ==> token_ok(#[trigger] argv[j2]),
                        a.len() >= 2,
                        a[0] == '-',
                        a[1] != '-',
                        options@.len() == NUM_OPTIONS,
                        catalog_shaped(options@),
                        forall|k2: int| 0 <= k2 < k ==> short_char_ok(#[trigger] a[k2]),
                        forall|i2: int|
                            0 <= i2 < options@.len() ==> ((#[trigger] options@[i2]).value <==> (
                            opts_before[i2].value || (exists|k2: int|
                                0 <= k2 < k && a[k2] == short_name(i2)))),
                    decreases m - k,
                {
                    let c = arg.as_str().get_char(k);
                    let ghost opts_before_char = options@;
                    let mut short_not_matching = true;
                    let mut i: usize = 0;
                    while i < NUM_OPTIONS
                        invariant
                            i <= NUM_OPTIONS,
                            options@.len() == NUM_OPTIONS,
                            catalog_shaped(options@),
                            short_not_matching <==> (forall|i2: int|
                                0 <= i2 < i ==> short_name(i2) != c),
                            forall|i2: int|
                                0 <= i2 < options@.len() ==> ((#[trigger] options@[i2]).value
                                    <==> (opts_before_char[i2].value || (i2 < i && short_name(i2)
                                    == c))),
                        decreases NUM_OPTIONS - i,
                    {
                        if options[i].short == c {
                            options[i].value = true;
                            short_not_matching = false;
                        }
                        i = i + 1;
                    }

                    if short_not_matching && c != '-' {
                        let mut msg = String::new();
                        msg.push('-');
                        msg.push(c);
                        msg.append(" doesn't exist");
                        proof {
                            assert(!short_char_ok(c));
                            lemma_first_bad_char_at(a, k as int);
                            assert(!token_ok(argv[j as int]));
                            assert(msg@ =~= token_error(argv[j as int]));
                        }
                        return Err(msg);
                    }
                    k = k + 1;
                    proof {
                        assert(short_char_ok(a[k - 1]));
                        assert(forall|i2: int|
                            0 <= i2 < NUM_OPTIONS ==> ((exists|k2: int|
                                0 <= k2 < k && a[k2] == short_name(i2)) <==> ((exists|k2: int|
                                0 <= k2 < k - 1 && a[k2] == short_name(i2)) || a[k - 1]
                                == short_name(i2))));
                    }
                }
                proof {
                    assert(token_ok(argv[j as int]));
                    assert(forall|i2: int|
                        0 <= i2 < NUM_OPTIONS ==> ((exists|k2: int|
                            0 <= k2 < a.len() && a[k2] == short_name(i2)) == token_sets(a, i2)));
                }
            }
        }
        j = j + 1;
        proof {
            assert(forall|i: int|
                0 <= i < options@.len() ==> ((#[trigger] options@[i]).value <==> (
                opts_before[i].value || token_sets(argv[j - 1], i))));
            assert(forall|i: int|
                0 <= i < options@.len() ==> ((exists|j2: int|
                    0 <= j2 < j && token_sets(#[trigger] argv[j2], i)) <==> ((exists|j2: int|
                    0 <= j2 < j - 1 && token_sets(#[trigger] argv[j2], i)) || #[trigger] token_sets(
                    argv[j - 1],
                    i,
                ))));
        }
    }
    Ok(options)
}

// ---------------------------------------------------------------------------
// Help rendering
// ---------------------------------------------------------------------------
/// One help line: the short and long forms, tab stops that align the
/// description, then the description itself.
pub open spec fn help_line_spec(short: char, long: Seq<char>, help: Seq<char>) -> Seq<char> {
    let forms = "  -"@.push(short) + ", "@ + long + seq!['\t'];
    let pad8 = if forms.len() <= 8 {
        forms.push('\t')
    } else {
        forms
    };
    let pad16 = if pad8.len() <= 16 {
        pad8.push('\t')
    } else {
        pad8
    };
    let pad24 = if pad16.len() <= 24 {
        pad16.push('\t')
    } else {
        pad16
    };
    pad24 + help
}

/// Renders the help line of one catalog switch.
pub fn format_help_line(option: Opt) -> (r: String)
    ensures
        r@ == help_line_spec(option.short, option.long@, option.help@),
{
    let mut line = String::from_str("  -");
    line.push(option.short);
    line.append(", ");
    line.append(option.long);
    line.push('\t');
    proof {
        assert(line@ =~= "  -"@.push(option.short) + ", "@ + option.long@ + seq!['\t']);
    }
    if line.as_str().unicode_len() <= 8 {
        line.push('\t');
    }
    if line.as_str().unicode_len() <= 16 {
        line.push('\t');
    }
    if line.as_str().unicode_len() <= 24 {
        line.push('\t');
    }
    line.append(option.help);
    line
}

/// The usage banner that precedes the catalog's help lines.
pub open spec fn help_header() -> Seq<char> {
    "Usage: rs-cat [OPTION]... [FILE]...\nConcatenate FILE(s) to standard output.\n\nWith no FILE, or when FILE is -, read standard input.\n\n"@
}

/// The first `i` help lines of the catalog, each with its terminator.
pub open spec fn help_lines_upto(i: int) -> Seq<char>
    decreases i,
{
    if i <= 0 {
        Seq::empty()
    } else {
        help_lines_upto(i - 1) + help_line_spec(
            short_name(i - 1),
            long_name(i - 1),
            help_of(i - 1),
        ).push('\n')
    }
}

/// The whole help text: the usage banner, then one line per catalog
/// switch.
pub fn help_text() -> (r: String)
    ensures
        r@ == help_header() + help_lines_upto(NUM_OPTIONS as int),
{
    let options = get_options();
    let mut help = String::from_str(
        "Usage: rs-cat [OPTION]... [FILE]...\nConcatenate FILE(s) to standard output.\n\nWith no FILE, or when FILE is -, read standard input.\n\n",
    );
    let mut i: usize = 0;
    while i < NUM_OPTIONS
        invariant
            i <= NUM_OPTIONS,
            options@.len() == NUM_OPTIONS,
            catalog_shaped(options@),
            help@ == help_header() + help_lines_upto(i as int),
        decreases NUM_OPTIONS - i,
    {
        let line = format_help_line(options[i]);
        help.append(line.as_str());
        help.push('\n');
        i = i + 1;
    }
    help
}

} // verus!
