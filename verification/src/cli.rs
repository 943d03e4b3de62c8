//! The argument grammar of the `anchor-motion-dataset` command line. Values
//! that need a float or socket-address parser (tau lists, `--bind`) are
//! handed back as deferred checks, in the order they were met, so that the
//! caller runs them before reporting any later grammar error.

use vstd::prelude::*;
use crate::dataset::{parse_scenario, scenario_of_name, unknown_scenario_text, RecordingScenario};
use crate::selection::{has_prefix, strings_view, PhysicalDatasetSelectionInput};
use crate::text::{push_char, push_str, str_eq, str_starts_with, string_of};
use vstd::string::StrSliceExecFns;

verus! {

pub open spec fn usage_text() -> Seq<char> {
    "Usage:\n  anchor-motion-dataset record --scenario <name> --duration-seconds <seconds> [--output <path>] [--bind <host:port>] [--notes <text>]\n  anchor-motion-dataset analyze <file.ndjson> [--json]\n  anchor-motion-dataset calibrate <file.ndjson> [--output <profile.json>] [--json]\n  anchor-motion-dataset evaluate (--synthetic | --dataset <file.ndjson> --profile <profile.json>) [--low-pass-tau-ms <csv>] [--complementary-tau-ms <csv>] [--json]\n  anchor-motion-dataset select --profile <profile.json> --dataset <scenario=file.ndjson>... [--low-pass-tau-ms <csv>] [--complementary-tau-ms <csv>] [--json]"@
}

/// The usage text of the command line.
pub fn usage() -> (r: String)
    ensures
        r@ == usage_text(),
{
    string_of(
        "Usage:\n  anchor-motion-dataset record --scenario <name> --duration-seconds <seconds> [--output <path>] [--bind <host:port>] [--notes <text>]\n  anchor-motion-dataset analyze <file.ndjson> [--json]\n  anchor-motion-dataset calibrate <file.ndjson> [--output <profile.json>] [--json]\n  anchor-motion-dataset evaluate (--synthetic | --dataset <file.ndjson> --profile <profile.json>) [--low-pass-tau-ms <csv>] [--complementary-tau-ms <csv>] [--json]\n  anchor-motion-dataset select --profile <profile.json> --dataset <scenario=file.ndjson>... [--low-pass-tau-ms <csv>] [--complementary-tau-ms <csv>] [--json]",
    )
}

// ---------------------------------------------------------------------------
// Unsigned decimal numbers
// ---------------------------------------------------------------------------

pub open spec fn is_digit(c: char) -> bool {
    48 <= (c as u32) && (c as u32) <= 57
}

pub open spec fn all_digits(s: Seq<char>) -> bool {
    forall|i: int| 0 <= i < s.len() ==> is_digit(#[trigger] s[i])
}

/// The value of a string of decimal digits.
pub open spec fn digits_value(s: Seq<char>) -> nat
    decreases s.len(),
{
    if s.len() == 0 {
        0
    } else {
        digits_value(s.drop_last()) * 10 + ((s.last() as u32) - 48) as nat
    }
}

/// The `u64` a text denotes as `str::parse::<u64>` reads it: an optional
/// '+', then one or more decimal digits, with a value that fits.
pub open spec fn u64_text_value(s: Seq<char>) -> Option<u64> {
    let d = if s.len() > 0 && s[0] == '+' {
        s.drop_first()
    } else {
        s
    };
    if d.len() > 0 && all_digits(d) && digits_value(d) <= u64::MAX {
        Some(digits_value(d) as u64)
    } else {
        None
    }
}

proof fn lemma_digits_value_grows(s: Seq<char>, k: int)
    requires
        0 <= k <= s.len(),
        all_digits(s),
    ensures
        digits_value(s.take(k)) <= digits_value(s),
    decreases s.len() - k,
{
    if k < s.len() {
        lemma_digits_value_grows(s, k + 1);
        assert(s.take(k + 1).drop_last() =~= s.take(k));
    } else {
        assert(s.take(k) =~= s);
    }
}

/// Reads an unsigned decimal number as `str::parse::<u64>` does.
pub fn parse_u64_text(value: &str) -> (r: Option<u64>)
    ensures
        r == u64_text_value(value@),
{
    let n = value.unicode_len();
    let ghost s = value@;
    let start: usize = if n > 0 && value.get_char(0) == '+' {
        1
    } else {
        0
    };
    let ghost d = s.subrange(start as int, n as int);
    proof {
        if start == 1 {
            assert(d =~= s.drop_first());
        } else {
            assert(d =~= s);
        }
    }
    if start == n {
        return None;
    }
    let mut acc: u64 = 0;
    let mut i: usize = start;
    while i < n
        invariant
            n == s.len(),
            s == value@,
            start <= i <= n,
            d == s.subrange(start as int, n as int),
            d == (if s.len() > 0 && s[0] == '+' {
                s.drop_first()
            } else {
                s
            }),
            d.len() > 0,
            all_digits(d.take(i - start)),
            acc as nat == digits_value(d.take(i - start)),
        decreases n - i,
    {
        let c = value.get_char(i);
        proof {
            assert(d[i - start] == c);
            assert(d.take(i - start + 1).drop_last() =~= d.take(i - start));
            assert(d.take(i - start + 1).last() == c);
        }
        let v = c as u32;
        if v < 48 || v > 57 {
            proof {
                assert(!is_digit(d[i - start]));
            }
            return None;
        }
        let digit = (v - 48) as u64;
        let next = match acc.checked_mul(10) {
            None => None,
            Some(t) => t.checked_add(digit),
        };
        match next {
            None => {
                proof {
                    if all_digits(d) {
                        lemma_digits_value_grows(d, i - start + 1);
                    }
                }
                return None;
            },
            Some(t) => {
                acc = t;
            },
        }
        proof {
            assert forall|k: int| 0 <= k < d.take(i - start + 1).len() implies is_digit(
                #[trigger] d.take(i - start + 1)[k],
            ) by {
                if k < i - start {
                    assert(d.take(i - start + 1)[k] == d.take(i - start)[k]);
                }
            }
        }
        i = i + 1;
    }
    proof {
        assert(d.take(n - start) =~= d);
    }
    Some(acc)
}

pub open spec fn positive_integer_error(name: Seq<char>) -> Seq<char> {
    name + " must be a positive integer"@
}

/// A positive whole number given for the option `name`.
pub fn parse_positive_u64(value: &str, name: &str) -> (r: Result<u64, String>)
    ensures
        match u64_text_value(value@) {
            Some(v) => if v > 0 {
                r == Ok::<u64, String>(v)
            } else {
                r matches Err(m) && m@ == positive_integer_error(name@)
            },
            None => r matches Err(m) && m@ == positive_integer_error(name@),
        },
{
    match parse_u64_text(value) {
        Some(v) => {
            if v == 0 {
                let mut m = string_of(name);
                push_str(&mut m, " must be a positive integer");
                Err(m)
            } else {
                Ok(v)
            }
        },
        None => {
            let mut m = string_of(name);
            push_str(&mut m, " must be a positive integer");
            Err(m)
        },
    }
}

// ---------------------------------------------------------------------------
// scenario=path
// ---------------------------------------------------------------------------

/// The index of the first '=' of `s`, or -1.
pub open spec fn first_equals(s: Seq<char>) -> int
    decreases s.len(),
{
    if s.len() == 0 {
        -1
    } else if s[0] == '=' {
        0
    } else if first_equals(s.drop_first()) < 0 {
        -1
    } else {
        first_equals(s.drop_first()) + 1
    }
}

/// A `--dataset` value of the selection split into its scenario name and
/// its path: the text before and after the first '=', the path not empty.
pub open spec fn scenario_dataset_parts(s: Seq<char>) -> Result<(Seq<char>, Seq<char>), Seq<char>> {
    let k = first_equals(s);
    if k < 0 {
        Err("--dataset must use scenario=path"@)
    } else if k + 1 == s.len() {
        Err("--dataset path must not be empty"@)
    } else {
        Ok((s.subrange(0, k), s.subrange(k + 1, s.len() as int)))
    }
}

proof fn lemma_first_equals(s: Seq<char>, k: int)
    requires
        0 <= k <= s.len(),
        forall|j: int| 0 <= j < k ==> s[j] != '=',
    ensures
        k < s.len() && s[k] == '=' ==> first_equals(s) == k,
        k == s.len() ==> first_equals(s) == -1,
    decreases k,
{
    if k > 0 {
        let t = s.drop_first();
        assert forall|j: int| 0 <= j < k - 1 implies t[j] != '=' by {
            assert(t[j] == s[j + 1]);
        }
        lemma_first_equals(t, k - 1);
    } else if s.len() > 0 {
    }
}

/// Reads a `--dataset scenario=path` value of the selection.
pub fn parse_scenario_dataset(value: &str) -> (r: Result<(RecordingScenario, String), String>)
    ensures
        match scenario_dataset_parts(value@) {
            Ok((name, path)) => match scenario_of_name(name) {
                Some(sc) => r matches Ok(p) && p.0 == sc && p.1@ == path,
                None => r matches Err(x) && x@ == unknown_scenario_text(),
            },
            Err(m) => r matches Err(x) && x@ == m,
        },
{
    let n = value.unicode_len();
    let ghost s = value@;
    let mut k: usize = 0;
    while k < n && value.get_char(k) != '='
        invariant
            n == s.len(),
            s == value@,
            k <= n,
            forall|j: int| 0 <= j < k ==> s[j] != '=',
        decreases n - k,
    {
        k = k + 1;
    }
    proof {
        lemma_first_equals(s, k as int);
    }
    if k == n {
        return Err(string_of("--dataset must use scenario=path"));
    }
    if k + 1 == n {
        return Err(string_of("--dataset path must not be empty"));
    }
    let name = value.substring_char(0, k);
    let path = value.substring_char(k + 1, n);
    match parse_scenario(name) {
        Err(m) => Err(m),
        Ok(sc) => Ok((sc, path.to_owned())),
    }
}

// ---------------------------------------------------------------------------
// Commands
// ---------------------------------------------------------------------------

/// A value whose check needs a parser the grammar does not carry.
#[derive(Debug, Clone, Copy, PartialEq, Eq, Structural)]
pub enum DeferredCheckKind {
    /// A `--bind` socket address.
    BindAddress,
    /// A `--low-pass-tau-ms` list of milliseconds.
    LowPassTau,
    /// A `--complementary-tau-ms` list of milliseconds.
    ComplementaryTau,
}

#[derive(Debug, Clone)]
pub struct DeferredCheck {
    pub kind: DeferredCheckKind,
    pub value: String,
}

pub open spec fn checks_view(v: Seq<DeferredCheck>) -> Seq<(DeferredCheckKind, Seq<char>)> {
    v.map_values(|c: DeferredCheck| (c.kind, c.value@))
}

/// A command line that the grammar accepted.
#[derive(Debug, Clone)]
pub enum CommandArgs {
    Record {
        scenario: RecordingScenario,
        duration_seconds: u64,
        output_path: Option<String>,
        bind_addr: String,
        notes: Option<String>,
    },
    Analyze { path: String, json: bool },
    Calibrate { path: String, output_path: Option<String>, json: bool },
    Evaluate {
        synthetic: bool,
        dataset_path: Option<String>,
        profile_path: Option<String>,
        low_pass_tau_ms: Option<String>,
        complementary_tau_ms: Option<String>,
        json: bool,
    },
    Select {
        profile_path: String,
        datasets: Vec<PhysicalDatasetSelectionInput>,
        low_pass_tau_ms: Option<String>,
        complementary_tau_ms: Option<String>,
        json: bool,
    },
}

/// The outcome of the grammar: the command, or the first grammar error;
/// with the deferred checks met before it, in order.
#[derive(Debug)]
pub struct CommandParse {
    pub result: Result<CommandArgs, String>,
    pub checks: Vec<DeferredCheck>,
}

pub open spec fn opt_view(o: Option<String>) -> Option<Seq<char>> {
    match o {
        Some(s) => Some(s@),
        None => None,
    }
}

fn push_check(checks: &mut Vec<DeferredCheck>, kind: DeferredCheckKind, value: &String)
    ensures
        checks_view(final(checks)@) == checks_view(old(checks)@).push((kind, value@)),
{
    let ghost before = checks@;
    checks.push(DeferredCheck { kind, value: value.clone() });
    assert(checks_view(checks@) =~= checks_view(before).push((kind, value@)));
}

fn concat3(a: &str, b: &str, c: &str) -> (r: String)
    ensures
        r@ == a@ + b@ + c@,
{
    let mut m = string_of(a);
    push_str(&mut m, b);
    push_str(&mut m, c);
    m
}

fn unsupported_option(command: &str, flag: &str) -> (r: String)
    ensures
        r@ == "unsupported option for "@ + command@ + ": "@ + flag@ + "\n\n"@ + usage_text(),
{
    let mut m = string_of("unsupported option for ");
    push_str(&mut m, command);
    push_str(&mut m, ": ");
    push_str(&mut m, flag);
    push_str(&mut m, "\n\n");
    let u = usage();
    push_str(&mut m, u.as_str());
    m
}

// ----- analyze -----

/// The options and the dataset path of `analyze` read from position `i` on.
pub open spec fn analyze_scan(args: Seq<Seq<char>>, i: int, path: Option<Seq<char>>, json: bool) -> Result<
    (Option<Seq<char>>, bool),
    Seq<char>,
>
    decreases args.len() - i,
{
    if i < 0 || i >= args.len() {
        Ok((path, json))
    } else {
        let a = args[i];
        if a == "--"@ {
            analyze_scan(args, i + 1, path, json)
        } else if a == "--json"@ {
            analyze_scan(args, i + 1, path, true)
        } else if has_prefix(a, "--"@) {
            Err("unsupported option for "@ + "analyze"@ + ": "@ + a + "\n\n"@ + usage_text())
        } else if path is Some {
            Err("analyze accepts exactly one dataset path"@)
        } else {
            analyze_scan(args, i + 1, Some(a), json)
        }
    }
}

/// `analyze <file.ndjson> [--json]`.
pub open spec fn analyze_args(args: Seq<Seq<char>>) -> Result<(Seq<char>, bool), Seq<char>> {
    if args.len() == 0 {
        Err("analyze requires a dataset path\n\n"@ + usage_text())
    } else {
        match analyze_scan(args, 0, None, false) {
            Err(e) => Err(e),
            Ok((path, json)) => match path {
                None => Err("analyze requires a dataset path"@),
                Some(p) => Ok((p, json)),
            },
        }
    }
}

/// `r` is what `analyze_args` says of `args`.
pub open spec fn analyze_parsed(args: Seq<Seq<char>>, r: Result<CommandArgs, String>) -> bool {
    match analyze_args(args) {
        Ok((path, json)) => r matches Ok(CommandArgs::Analyze { path: p, json: j }) && p@ == path && j
            == json,
        Err(m) => r matches Err(x) && x@ == m,
    }
}

pub fn parse_analyze_command(args: &[String]) -> (r: Result<CommandArgs, String>)
    ensures
        analyze_parsed(strings_view(args@), r),
{
    let ghost a = strings_view(args@);
    if args.len() == 0 {
        let u = usage();
        let mut m = string_of("analyze requires a dataset path\n\n");
        push_str(&mut m, u.as_str());
        return Err(m);
    }
    let mut path: Option<String> = None;
    let mut json = false;
    let mut index: usize = 0;
    while index < args.len()
        invariant
            a == strings_view(args@),
            index <= args@.len(),
            analyze_scan(a, 0, None, false) == analyze_scan(a, index as int, opt_view(path), json),
        decreases args@.len() - index,
    {
        let arg = args[index].as_str();
        proof {
            assert(a[index as int] == arg@);
        }
        if str_eq(arg, "--") {
            index = index + 1;
        } else if str_eq(arg, "--json") {
            json = true;
            index = index + 1;
        } else if str_starts_with(arg, "--") {
            return Err(unsupported_option("analyze", arg));
        } else {
            if path.is_some() {
                return Err(string_of("analyze accepts exactly one dataset path"));
            }
            path = Some(args[index].clone());
            index = index + 1;
        }
    }
    match path {
        None => Err(string_of("analyze requires a dataset path")),
        Some(p) => Ok(CommandArgs::Analyze { path: p, json }),
    }
}

// ----- calibrate -----

/// The options and the dataset path of `calibrate` read from position `i` on.
pub open spec fn calibrate_scan(
    args: Seq<Seq<char>>,
    i: int,
    path: Option<Seq<char>>,
    output: Option<Seq<char>>,
    json: bool,
) -> Result<(Option<Seq<char>>, Option<Seq<char>>, bool), Seq<char>>
    decreases args.len() - i,
{
    if i < 0 || i >= args.len() {
        Ok((path, output, json))
    } else {
        let a = args[i];
        if a == "--"@ {
            calibrate_scan(args, i + 1, path, output, json)
        } else if a == "--json"@ {
            calibrate_scan(args, i + 1, path, output, true)
        } else if a == "--output"@ {
            if i + 1 >= args.len() {
                Err("missing value for --output"@)
            } else {
                calibrate_scan(args, i + 2, path, Some(args[i + 1]), json)
            }
        } else if has_prefix(a, "--"@) {
            Err("unsupported option for "@ + "calibrate"@ + ": "@ + a + "\n\n"@ + usage_text())
        } else if path is Some {
            Err("calibrate accepts exactly one dataset path"@)
        } else {
            calibrate_scan(args, i + 1, Some(a), output, json)
        }
    }
}

/// `calibrate <file.ndjson> [--output <profile.json>] [--json]`.
pub open spec fn calibrate_args(args: Seq<Seq<char>>) -> Result<(Seq<char>, Option<Seq<char>>, bool), Seq<char>> {
    if args.len() == 0 {
        Err("calibrate requires a dataset path\n\n"@ + usage_text())
    } else {
        match calibrate_scan(args, 0, None, None, false) {
            Err(e) => Err(e),
            Ok((path, output, json)) => match path {
                None => Err("calibrate requires a dataset path"@),
                Some(p) => Ok((p, output, json)),
            },
        }
    }
}

proof fn lemma_json_literals_distinct()
    ensures
        "--json"@ != "--"@,
        "--json"@ != "--output"@,
{
    reveal_strlit("--json");
    reveal_strlit("--");
    reveal_strlit("--output");
    assert("--json"@.len() == 6);
    assert("--"@.len() == 2);
    assert("--output"@.len() == 8);
}

/// Scanning with the flag already set gives the same outcome as scanning
/// without it, but with the flag set.
proof fn lemma_calibrate_scan_json_set(
    args: Seq<Seq<char>>,
    i: int,
    path: Option<Seq<char>>,
    output: Option<Seq<char>>,
)
    ensures
        match calibrate_scan(args, i, path, output, false) {
            Err(e) => calibrate_scan(args, i, path, output, true) == Err::<
                (Option<Seq<char>>, Option<Seq<char>>, bool),
                Seq<char>,
            >(e),
            Ok((p, o, _)) => calibrate_scan(args, i, path, output, true) == Ok::<
                (Option<Seq<char>>, Option<Seq<char>>, bool),
                Seq<char>,
            >((p, o, true)),
        },
    decreases args.len() - i,
{
    if 0 <= i < args.len() {
        let a = args[i];
        if a == "--"@ || a == "--json"@ {
            lemma_calibrate_scan_json_set(args, i + 1, path, output);
        } else if a == "--output"@ {
            if i + 1 < args.len() {
                lemma_calibrate_scan_json_set(args, i + 2, path, Some(args[i + 1]));
            }
        } else if !has_prefix(a, "--"@) && path is None {
            lemma_calibrate_scan_json_set(args, i + 1, Some(a), output);
        }
    }
}

/// Scanning after a leading argument `x` is scanning the rest.
proof fn lemma_calibrate_scan_shift(
    x: Seq<char>,
    args: Seq<Seq<char>>,
    i: int,
    path: Option<Seq<char>>,
    output: Option<Seq<char>>,
    json: bool,
)
    requires
        0 <= i,
    ensures
        calibrate_scan(seq![x] + args, i + 1, path, output, json) == calibrate_scan(
            args,
            i,
            path,
            output,
            json,
        ),
    decreases args.len() - i,
{
    let all = seq![x] + args;
    if i < args.len() {
        assert(all[i + 1] == args[i]);
        let a = args[i];
        if a == "--"@ {
            lemma_calibrate_scan_shift(x, args, i + 1, path, output, json);
        } else if a == "--json"@ {
            lemma_calibrate_scan_shift(x, args, i + 1, path, output, true);
        } else if a == "--output"@ {
            if i + 1 < args.len() {
                assert(all[i + 2] == args[i + 1]);
                lemma_calibrate_scan_shift(x, args, i + 2, path, Some(args[i + 1]), json);
            }
        } else if !has_prefix(a, "--"@) && path is None {
            lemma_calibrate_scan_shift(x, args, i + 1, Some(a), output, json);
        }
    }
}

/// A scan that succeeds on `args` ends exactly at its end, so on
/// `args.push(x)` it reaches `x` in the state it ended in.
proof fn lemma_calibrate_scan_push(
    args: Seq<Seq<char>>,
    x: Seq<char>,
    i: int,
    path: Option<Seq<char>>,
    output: Option<Seq<char>>,
    json: bool,
)
    requires
        0 <= i <= args.len(),
        calibrate_scan(args, i, path, output, json) is Ok,
    ensures
        ({
            let (p, o, j) = calibrate_scan(args, i, path, output, json)->Ok_0;
            calibrate_scan(args.push(x), i, path, output, json) == calibrate_scan(
                args.push(x),
                args.len() as int,
                p,
                o,
                j,
            )
        }),
    decreases args.len() - i,
{
    let all = args.push(x);
    if i < args.len() {
        assert(all[i] == args[i]);
        let a = args[i];
        if a == "--"@ {
            lemma_calibrate_scan_push(args, x, i + 1, path, output, json);
        } else if a == "--json"@ {
            lemma_calibrate_scan_push(args, x, i + 1, path, output, true);
        } else if a == "--output"@ {
            assert(all[i + 1] == args[i + 1]);
            lemma_calibrate_scan_push(args, x, i + 2, path, Some(args[i + 1]), json);
        } else {
            lemma_calibrate_scan_push(args, x, i + 1, Some(a), output, json);
        }
    }
}

/// A scan that turns the flag on passed a `--json` argument.
proof fn lemma_calibrate_scan_json_seen(
    args: Seq<Seq<char>>,
    i: int,
    path: Option<Seq<char>>,
    output: Option<Seq<char>>,
)
    requires
        0 <= i,
        calibrate_scan(args, i, path, output, false) matches Ok((_, _, j)) && j,
    ensures
        args.contains("--json"@),
    decreases args.len() - i,
{
    if i < args.len() {
        let a = args[i];
        if a == "--"@ {
            lemma_calibrate_scan_json_seen(args, i + 1, path, output);
        } else if a == "--json"@ {
            assert(args[i] == "--json"@);
        } else if a == "--output"@ {
            lemma_calibrate_scan_json_seen(args, i + 2, path, Some(args[i + 1]));
        } else {
            lemma_calibrate_scan_json_seen(args, i + 1, Some(a), output);
        }
    }
}

/// `--json` is an option of `calibrate` wherever it stands among the
/// arguments: a command line that parses keeps its dataset path and output
/// and asks for JSON when `--json` is added after it or before it; and a
/// command line asks for JSON only if it holds `--json`.
pub proof fn lemma_calibrate_json_anywhere(args: Seq<Seq<char>>)
    ensures
        calibrate_args(args) matches Ok((_, _, json)) && json ==> args.contains("--json"@),
        calibrate_args(args) matches Ok((path, output, _)) ==> calibrate_args(args.push("--json"@))
            == Ok::<(Seq<char>, Option<Seq<char>>, bool), Seq<char>>((path, output, true)),
        calibrate_args(args) matches Ok((path, output, _)) ==> calibrate_args(
            seq!["--json"@] + args,
        ) == Ok::<(Seq<char>, Option<Seq<char>>, bool), Seq<char>>((path, output, true)),
{
    lemma_json_literals_distinct();
    if calibrate_args(args) is Ok {
        let j = "--json"@;
        let (p, o, flag) = calibrate_scan(args, 0, None, None, false)->Ok_0;
        if flag {
            lemma_calibrate_scan_json_seen(args, 0, None, None);
        }
        // appended
        lemma_calibrate_scan_push(args, j, 0, None, None, false);
        assert(args.push(j)[args.len() as int] == j);
        assert(calibrate_scan(args.push(j), args.len() + 1int, p, o, true) == Ok::<
            (Option<Seq<char>>, Option<Seq<char>>, bool),
            Seq<char>,
        >((p, o, true)));
        // prepended
        let front = seq![j] + args;
        assert(front[0] == j);
        lemma_calibrate_scan_shift(j, args, 0, None, None, true);
        lemma_calibrate_scan_json_set(args, 0, None, None);
        assert(calibrate_scan(front, 0, None, None, false) == calibrate_scan(front, 1, None, None, true));
    }
}

/// `r` is what `calibrate_args` says of `args`.
pub open spec fn calibrate_parsed(args: Seq<Seq<char>>, r: Result<CommandArgs, String>) -> bool {
    match calibrate_args(args) {
        Ok((path, output, json)) => r matches Ok(
            CommandArgs::Calibrate { path: p, output_path: o, json: j },
        ) && p@ == path && opt_view(o) == output && j == json,
        Err(m) => r matches Err(x) && x@ == m,
    }
}

pub fn parse_calibrate_command(args: &[String]) -> (r: Result<CommandArgs, String>)
    ensures
        calibrate_parsed(strings_view(args@), r),
{
    let ghost a = strings_view(args@);
    if args.len() == 0 {
        let u = usage();
        let mut m = string_of("calibrate requires a dataset path\n\n");
        push_str(&mut m, u.as_str());
        return Err(m);
    }
    let mut path: Option<String> = None;
    let mut output: Option<String> = None;
    let mut json = false;
    let mut index: usize = 0;
    while index < args.len()
        invariant
            a == strings_view(args@),
            index <= args@.len(),
            calibrate_scan(a, 0, None, None, false) == calibrate_scan(
                a,
                index as int,
                opt_view(path),
                opt_view(output),
                json,
            ),
        decreases args@.len() - index,
    {
        let arg = args[index].as_str();
        proof {
            assert(a[index as int] == arg@);
        }
        if str_eq(arg, "--") {
            index = index + 1;
        } else if str_eq(arg, "--json") {
            json = true;
            index = index + 1;
        } else if str_eq(arg, "--output") {
            if index + 1 >= args.len() {
                return Err(string_of("missing value for --output"));
            }
            output = Some(args[index + 1].clone());
            proof {
                assert(a[index + 1] == args@[index + 1]@);
            }
            index = index + 2;
        } else if str_starts_with(arg, "--") {
            return Err(unsupported_option("calibrate", arg));
        } else {
            if path.is_some() {
                return Err(string_of("calibrate accepts exactly one dataset path"));
            }
            path = Some(args[index].clone());
            index = index + 1;
        }
    }
    match path {
        None => Err(string_of("calibrate requires a dataset path")),
        Some(p) => Ok(CommandArgs::Calibrate { path: p, output_path: output, json }),
    }
}

// ----- record -----

/// What `record` has read so far.
pub struct RecordScan {
    pub scenario: Option<RecordingScenario>,
    pub duration_seconds: Option<u64>,
    pub output_path: Option<Seq<char>>,
    pub bind_addr: Seq<char>,
    pub notes: Option<Seq<char>>,
    pub checks: Seq<(DeferredCheckKind, Seq<char>)>,
}

pub open spec fn default_bind_text() -> Seq<char> {
    "0.0.0.0:57421"@
}

/// `record` options read from position `i` on: each flag takes the next
/// argument as its value.
pub open spec fn record_scan(args: Seq<Seq<char>>, i: int, st: RecordScan) -> Result<
    RecordScan,
    (Seq<(DeferredCheckKind, Seq<char>)>, Seq<char>),
>
    decreases args.len() - i,
{
    if i < 0 || i >= args.len() {
        Ok(st)
    } else {
        let flag = args[i];
        if flag == "--"@ {
            record_scan(args, i + 1, st)
        } else if i + 1 >= args.len() {
            Err((st.checks, "missing value for "@ + flag))
        } else {
            let value = args[i + 1];
            if flag == "--scenario"@ {
                match scenario_of_name(value) {
                    Some(sc) => record_scan(args, i + 2, RecordScan { scenario: Some(sc), ..st }),
                    None => Err((st.checks, unknown_scenario_text())),
                }
            } else if flag == "--duration-seconds"@ {
                match u64_text_value(value) {
                    Some(v) => if v > 0 {
                        record_scan(args, i + 2, RecordScan { duration_seconds: Some(v), ..st })
                    } else {
                        Err((st.checks, positive_integer_error("duration-seconds"@)))
                    },
                    None => Err((st.checks, positive_integer_error("duration-seconds"@))),
                }
            } else if flag == "--output"@ {
                record_scan(args, i + 2, RecordScan { output_path: Some(value), ..st })
            } else if flag == "--bind"@ {
                record_scan(
                    args,
                    i + 2,
                    RecordScan {
                        bind_addr: value,
                        checks: st.checks.push((DeferredCheckKind::BindAddress, value)),
                        ..st
                    },
                )
            } else if flag == "--notes"@ {
                record_scan(args, i + 2, RecordScan { notes: Some(value), ..st })
            } else {
                Err((st.checks, "unsupported option for "@ + "record"@ + ": "@ + flag + "\n\n"@ + usage_text()))
            }
        }
    }
}

/// `record --scenario <name> --duration-seconds <seconds> [--output <path>]
/// [--bind <host:port>] [--notes <text>]`: the deferred checks and the
/// outcome.
pub open spec fn record_args(args: Seq<Seq<char>>) -> (Seq<(DeferredCheckKind, Seq<char>)>, Result<RecordScan, Seq<char>>) {
    let init = RecordScan {
        scenario: None,
        duration_seconds: None,
        output_path: None,
        bind_addr: default_bind_text(),
        notes: None,
        checks: Seq::empty(),
    };
    match record_scan(args, 0, init) {
        Err((checks, m)) => (checks, Err(m)),
        Ok(st) => if st.scenario is None {
            (st.checks, Err("--scenario is required"@))
        } else if st.duration_seconds is None {
            (st.checks, Err("--duration-seconds is required"@))
        } else {
            (st.checks, Ok(st))
        },
    }
}

/// `r` is what `record_args` says of `args`.
pub open spec fn record_parsed(args: Seq<Seq<char>>, r: CommandParse) -> bool {
    &&& checks_view(r.checks@) == record_args(args).0
    &&& match record_args(args).1 {
        Ok(st) => r.result matches Ok(
            CommandArgs::Record { scenario, duration_seconds, output_path, bind_addr, notes },
        ) && st.scenario == Some(scenario) && st.duration_seconds == Some(duration_seconds)
            && st.output_path == opt_view(output_path) && st.bind_addr == bind_addr@ && st.notes
            == opt_view(notes),
        Err(m) => r.result matches Err(x) && x@ == m,
    }
}

#[verifier::loop_isolation(false)]
pub fn parse_record_command(args: &[String]) -> (r: CommandParse)
    ensures
        record_parsed(strings_view(args@), r),
{
    let ghost a = strings_view(args@);
    let mut scenario: Option<RecordingScenario> = None;
    let mut duration_seconds: Option<u64> = None;
    let mut output_path: Option<String> = None;
    let mut bind_addr = string_of("0.0.0.0:57421");
    let mut notes: Option<String> = None;
    let mut checks: Vec<DeferredCheck> = Vec::new();
    let ghost init = RecordScan {
        scenario: None,
        duration_seconds: None,
        output_path: None,
        bind_addr: default_bind_text(),
        notes: None,
        checks: Seq::empty(),
    };
    proof {
        assert(checks_view(checks@) =~= Seq::<(DeferredCheckKind, Seq<char>)>::empty());
    }
    let mut index: usize = 0;
    while index < args.len()
        invariant
            a == strings_view(args@),
            index <= args@.len(),
            record_scan(a, 0, init) == record_scan(
                a,
                index as int,
                RecordScan {
                    scenario,
                    duration_seconds,
                    output_path: opt_view(output_path),
                    bind_addr: bind_addr@,
                    notes: opt_view(notes),
                    checks: checks_view(checks@),
                },
            ),
        decreases args@.len() - index,
    {
        let flag = args[index].as_str();
        proof {
            assert(a[index as int] == flag@);
        }
        if str_eq(flag, "--") {
            index = index + 1;
        } else {
            if index + 1 >= args.len() {
                let mut m = string_of("missing value for ");
                push_str(&mut m, flag);
                return CommandParse { result: Err(m), checks };
            }
            let value = &args[index + 1];
            proof {
                assert(a[index + 1] == value@);
            }
            if str_eq(flag, "--scenario") {
                match parse_scenario(value.as_str()) {
                    Ok(sc) => {
                        scenario = Some(sc);
                    },
                    Err(m) => {
                        return CommandParse { result: Err(m), checks };
                    },
                }
            } else if str_eq(flag, "--duration-seconds") {
                match parse_positive_u64(value.as_str(), "duration-seconds") {
                    Ok(v) => {
                        duration_seconds = Some(v);
                    },
                    Err(m) => {
                        return CommandParse { result: Err(m), checks };
                    },
                }
            } else if str_eq(flag, "--output") {
                output_path = Some(value.clone());
            } else if str_eq(flag, "--bind") {
                push_check(&mut checks, DeferredCheckKind::BindAddress, value);
                bind_addr = value.clone();
            } else if str_eq(flag, "--notes") {
                notes = Some(value.clone());
            } else {
                return CommandParse { result: Err(unsupported_option("record", flag)), checks };
            }
            index = index + 2;
        }
    }
    let sc = match scenario {
        None => {
            return CommandParse { result: Err(string_of("--scenario is required")), checks };
        },
        Some(sc) => sc,
    };
    let d = match duration_seconds {
        None => {
            return CommandParse { result: Err(string_of("--duration-seconds is required")), checks };
        },
        Some(d) => d,
    };
    CommandParse {
        result: Ok(
            CommandArgs::Record { scenario: sc, duration_seconds: d, output_path, bind_addr, notes },
        ),
        checks,
    }
}

// ----- evaluate -----

/// What `evaluate` has read so far.
pub struct EvaluateScan {
    pub synthetic: bool,
    pub dataset_path: Option<Seq<char>>,
    pub profile_path: Option<Seq<char>>,
    pub low_pass_tau_ms: Option<Seq<char>>,
    pub complementary_tau_ms: Option<Seq<char>>,
    pub json: bool,
    pub checks: Seq<(DeferredCheckKind, Seq<char>)>,
}

pub open spec fn once_error(flag: Seq<char>) -> Seq<char> {
    flag + " may only be provided once"@
}

/// `evaluate` options read from position `i` on.
pub open spec fn evaluate_scan(args: Seq<Seq<char>>, i: int, st: EvaluateScan) -> Result<
    EvaluateScan,
    (Seq<(DeferredCheckKind, Seq<char>)>, Seq<char>),
>
    decreases args.len() - i,
{
    if i < 0 || i >= args.len() {
        Ok(st)
    } else {
        let flag = args[i];
        if flag == "--"@ {
            evaluate_scan(args, i + 1, st)
        } else if flag == "--synthetic"@ {
            if st.synthetic {
                Err((st.checks, once_error(flag)))
            } else {
                evaluate_scan(args, i + 1, EvaluateScan { synthetic: true, ..st })
            }
        } else if flag == "--json"@ {
            if st.json {
                Err((st.checks, once_error(flag)))
            } else {
                evaluate_scan(args, i + 1, EvaluateScan { json: true, ..st })
            }
        } else if flag == "--dataset"@ {
            if st.dataset_path is Some {
                Err((st.checks, once_error(flag)))
            } else if i + 1 >= args.len() {
                Err((st.checks, "missing value for "@ + flag))
            } else {
                evaluate_scan(args, i + 2, EvaluateScan { dataset_path: Some(args[i + 1]), ..st })
            }
        } else if flag == "--profile"@ {
            if st.profile_path is Some {
                Err((st.checks, once_error(flag)))
            } else if i + 1 >= args.len() {
                Err((st.checks, "missing value for "@ + flag))
            } else {
                evaluate_scan(args, i + 2, EvaluateScan { profile_path: Some(args[i + 1]), ..st })
            }
        } else if flag == "--low-pass-tau-ms"@ {
            if st.low_pass_tau_ms is Some {
                Err((st.checks, once_error(flag)))
            } else if i + 1 >= args.len() {
                Err((st.checks, "missing value for "@ + flag))
            } else {
                evaluate_scan(
                    args,
                    i + 2,
                    EvaluateScan {
                        low_pass_tau_ms: Some(args[i + 1]),
                        checks: st.checks.push((DeferredCheckKind::LowPassTau, args[i + 1])),
                        ..st
                    },
                )
            }
        } else if flag == "--complementary-tau-ms"@ {
            if st.complementary_tau_ms is Some {
                Err((st.checks, once_error(flag)))
            } else if i + 1 >= args.len() {
                Err((st.checks, "missing value for "@ + flag))
            } else {
                evaluate_scan(
                    args,
                    i + 2,
                    EvaluateScan {
                        complementary_tau_ms: Some(args[i + 1]),
                        checks: st.checks.push((DeferredCheckKind::ComplementaryTau, args[i + 1])),
                        ..st
                    },
                )
            }
        } else if has_prefix(flag, "--"@) {
            Err((st.checks, "unsupported option for "@ + "evaluate"@ + ": "@ + flag + "\n\n"@ + usage_text()))
        } else {
            Err((st.checks, "unexpected positional argument for evaluate: "@ + flag))
        }
    }
}

/// `evaluate (--synthetic | --dataset <file> --profile <profile>)
/// [--low-pass-tau-ms <csv>] [--complementary-tau-ms <csv>] [--json]`.
pub open spec fn evaluate_args(args: Seq<Seq<char>>) -> (Seq<(DeferredCheckKind, Seq<char>)>, Result<EvaluateScan, Seq<char>>) {
    let init = EvaluateScan {
        synthetic: false,
        dataset_path: None,
        profile_path: None,
        low_pass_tau_ms: None,
        complementary_tau_ms: None,
        json: false,
        checks: Seq::empty(),
    };
    match evaluate_scan(args, 0, init) {
        Err((checks, m)) => (checks, Err(m)),
        Ok(st) => if st.synthetic && st.dataset_path is Some {
            (st.checks, Err("--synthetic is mutually exclusive with --dataset"@))
        } else if !st.synthetic && st.dataset_path is None {
            (st.checks, Err("evaluate requires either --synthetic or --dataset"@))
        } else if st.dataset_path is Some && st.profile_path is None {
            (st.checks, Err("--dataset requires --profile"@))
        } else if st.profile_path is Some && st.dataset_path is None {
            (st.checks, Err("--profile requires --dataset"@))
        } else {
            (st.checks, Ok(st))
        },
    }
}

fn once(flag: &str) -> (r: String)
    ensures
        r@ == once_error(flag@),
{
    let mut m = string_of(flag);
    push_str(&mut m, " may only be provided once");
    m
}

fn missing_value(flag: &str) -> (r: String)
    ensures
        r@ == "missing value for "@ + flag@,
{
    let mut m = string_of("missing value for ");
    push_str(&mut m, flag);
    m
}

/// `r` is what `evaluate_args` says of `args`.
pub open spec fn evaluate_parsed(args: Seq<Seq<char>>, r: CommandParse) -> bool {
    &&& checks_view(r.checks@) == evaluate_args(args).0
    &&& match evaluate_args(args).1 {
            Ok(st) => r.result matches Ok(
                CommandArgs::Evaluate {
                    synthetic,
                    dataset_path,
                    profile_path,
                    low_pass_tau_ms,
                    complementary_tau_ms,
                    json,
                },
            ) && st.synthetic == synthetic && st.dataset_path == opt_view(dataset_path)
                && st.profile_path == opt_view(profile_path) && st.low_pass_tau_ms == opt_view(
                low_pass_tau_ms,
            ) && st.complementary_tau_ms == opt_view(complementary_tau_ms) && st.json == json,
            Err(m) => r.result matches Err(x) && x@ == m,
        }
}

#[verifier::loop_isolation(false)]
pub fn parse_evaluate_command(args: &[String]) -> (r: CommandParse)
    ensures
        evaluate_parsed(strings_view(args@), r),
{
    let ghost a = strings_view(args@);
    let mut synthetic = false;
    let mut dataset_path: Option<String> = None;
    let mut profile_path: Option<String> = None;
    let mut low_pass_tau_ms: Option<String> = None;
    let mut complementary_tau_ms: Option<String> = None;
    let mut json = false;
    let mut checks: Vec<DeferredCheck> = Vec::new();
    let ghost init = EvaluateScan {
        synthetic: false,
        dataset_path: None,
        profile_path: None,
        low_pass_tau_ms: None,
        complementary_tau_ms: None,
        json: false,
        checks: Seq::empty(),
    };
    proof {
        assert(checks_view(checks@) =~= Seq::<(DeferredCheckKind, Seq<char>)>::empty());
    }
    let mut index: usize = 0;
    while index < args.len()
        invariant
            a == strings_view(args@),
            index <= args@.len(),
            evaluate_scan(a, 0, init) == evaluate_scan(
                a,
                index as int,
                EvaluateScan {
                    synthetic,
                    dataset_path: opt_view(dataset_path),
                    profile_path: opt_view(profile_path),
                    low_pass_tau_ms: opt_view(low_pass_tau_ms),
                    complementary_tau_ms: opt_view(complementary_tau_ms),
                    json,
                    checks: checks_view(checks@),
                },
            ),
        decreases args@.len() - index,
    {
        let flag = args[index].as_str();
        proof {
            assert(a[index as int] == flag@);
            if index + 1 < args@.len() {
                assert(a[index + 1] == args@[index + 1]@);
            }
        }
        if str_eq(flag, "--") {
            index = index + 1;
        } else if str_eq(flag, "--synthetic") {
            if synthetic {
                return CommandParse { result: Err(once(flag)), checks };
            }
            synthetic = true;
            index = index + 1;
        } else if str_eq(flag, "--json") {
            if json {
                return CommandParse { result: Err(once(flag)), checks };
            }
            json = true;
            index = index + 1;
        } else if str_eq(flag, "--dataset") {
            if dataset_path.is_some() {
                return CommandParse { result: Err(once(flag)), checks };
            }
            if index + 1 >= args.len() {
                return CommandParse { result: Err(missing_value(flag)), checks };
            }
            dataset_path = Some(args[index + 1].clone());
            index = index + 2;
        } else if str_eq(flag, "--profile") {
            if profile_path.is_some() {
                return CommandParse { result: Err(once(flag)), checks };
            }
            if index + 1 >= args.len() {
                return CommandParse { result: Err(missing_value(flag)), checks };
            }
            profile_path = Some(args[index + 1].clone());
            index = index + 2;
        } else if str_eq(flag, "--low-pass-tau-ms") {
            if low_pass_tau_ms.is_some() {
                return CommandParse { result: Err(once(flag)), checks };
            }
            if index + 1 >= args.len() {
                return CommandParse { result: Err(missing_value(flag)), checks };
            }
            push_check(&mut checks, DeferredCheckKind::LowPassTau, &args[index + 1]);
            low_pass_tau_ms = Some(args[index + 1].clone());
            index = index + 2;
        } else if str_eq(flag, "--complementary-tau-ms") {
            if complementary_tau_ms.is_some() {
                return CommandParse { result: Err(once(flag)), checks };
            }
            if index + 1 >= args.len() {
                return CommandParse { result: Err(missing_value(flag)), checks };
            }
            push_check(&mut checks, DeferredCheckKind::ComplementaryTau, &args[index + 1]);
            complementary_tau_ms = Some(args[index + 1].clone());
            index = index + 2;
        } else if str_starts_with(flag, "--") {
            return CommandParse { result: Err(unsupported_option("evaluate", flag)), checks };
        } else {
            let mut m = string_of("unexpected positional argument for evaluate: ");
            push_str(&mut m, flag);
            return CommandParse { result: Err(m), checks };
        }
    }
    if synthetic && dataset_path.is_some() {
        return CommandParse {
            result: Err(string_of("--synthetic is mutually exclusive with --dataset")),
            checks,
        };
    }
    if !synthetic && dataset_path.is_none() {
        return CommandParse {
            result: Err(string_of("evaluate requires either --synthetic or --dataset")),
            checks,
        };
    }
    if dataset_path.is_some() && profile_path.is_none() {
        return CommandParse { result: Err(string_of("--dataset requires --profile")), checks };
    }
    if profile_path.is_some() && dataset_path.is_none() {
        return CommandParse { result: Err(string_of("--profile requires --dataset")), checks };
    }
    CommandParse {
        result: Ok(
            CommandArgs::Evaluate {
                synthetic,
                dataset_path,
                profile_path,
                low_pass_tau_ms,
                complementary_tau_ms,
                json,
            },
        ),
        checks,
    }
}

// ----- select -----

/// What `select` has read so far; the datasets as (scenario, path).
pub struct SelectScan {
    pub profile_path: Option<Seq<char>>,
    pub datasets: Seq<(RecordingScenario, Seq<char>)>,
    pub low_pass_tau_ms: Option<Seq<char>>,
    pub complementary_tau_ms: Option<Seq<char>>,
    pub json: bool,
    pub checks: Seq<(DeferredCheckKind, Seq<char>)>,
}

/// `select` options read from position `i` on.
pub open spec fn select_scan(args: Seq<Seq<char>>, i: int, st: SelectScan) -> Result<
    SelectScan,
    (Seq<(DeferredCheckKind, Seq<char>)>, Seq<char>),
>
    decreases args.len() - i,
{
    if i < 0 || i >= args.len() {
        Ok(st)
    } else {
        let flag = args[i];
        if flag == "--"@ {
            select_scan(args, i + 1, st)
        } else if flag == "--json"@ {
            if st.json {
                Err((st.checks, once_error(flag)))
            } else {
                select_scan(args, i + 1, SelectScan { json: true, ..st })
            }
        } else if flag == "--profile"@ {
            if st.profile_path is Some {
                Err((st.checks, once_error(flag)))
            } else if i + 1 >= args.len() {
                Err((st.checks, "missing value for "@ + flag))
            } else {
                select_scan(args, i + 2, SelectScan { profile_path: Some(args[i + 1]), ..st })
            }
        } else if flag == "--dataset"@ {
            if i + 1 >= args.len() {
                Err((st.checks, "missing value for "@ + flag))
            } else {
                match scenario_dataset_parts(args[i + 1]) {
                    Err(m) => Err((st.checks, m)),
                    Ok((name, path)) => match scenario_of_name(name) {
                        None => Err((st.checks, unknown_scenario_text())),
                        Some(sc) => select_scan(
                            args,
                            i + 2,
                            SelectScan { datasets: st.datasets.push((sc, path)), ..st },
                        ),
                    },
                }
            }
        } else if flag == "--low-pass-tau-ms"@ {
            if st.low_pass_tau_ms is Some {
                Err((st.checks, once_error(flag)))
            } else if i + 1 >= args.len() {
                Err((st.checks, "missing value for "@ + flag))
            } else {
                select_scan(
                    args,
                    i + 2,
                    SelectScan {
                        low_pass_tau_ms: Some(args[i + 1]),
                        checks: st.checks.push((DeferredCheckKind::LowPassTau, args[i + 1])),
                        ..st
                    },
                )
            }
        } else if flag == "--complementary-tau-ms"@ {
            if st.complementary_tau_ms is Some {
                Err((st.checks, once_error(flag)))
            } else if i + 1 >= args.len() {
                Err((st.checks, "missing value for "@ + flag))
            } else {
                select_scan(
                    args,
                    i + 2,
                    SelectScan {
                        complementary_tau_ms: Some(args[i + 1]),
                        checks: st.checks.push((DeferredCheckKind::ComplementaryTau, args[i + 1])),
                        ..st
                    },
                )
            }
        } else if has_prefix(flag, "--"@) {
            Err((st.checks, "unsupported option for "@ + "select"@ + ": "@ + flag + "\n\n"@ + usage_text()))
        } else {
            Err((st.checks, "unexpected positional argument for select: "@ + flag))
        }
    }
}

/// `select --profile <profile.json> --dataset <scenario=file.ndjson>...
/// [--low-pass-tau-ms <csv>] [--complementary-tau-ms <csv>] [--json]`.
pub open spec fn select_args(args: Seq<Seq<char>>) -> (Seq<(DeferredCheckKind, Seq<char>)>, Result<SelectScan, Seq<char>>) {
    let init = SelectScan {
        profile_path: None,
        datasets: Seq::empty(),
        low_pass_tau_ms: None,
        complementary_tau_ms: None,
        json: false,
        checks: Seq::empty(),
    };
    match select_scan(args, 0, init) {
        Err((checks, m)) => (checks, Err(m)),
        Ok(st) => if st.profile_path is None {
            (st.checks, Err("select requires --profile"@))
        } else {
            (st.checks, Ok(st))
        },
    }
}

pub open spec fn datasets_view(v: Seq<PhysicalDatasetSelectionInput>) -> Seq<(RecordingScenario, Seq<char>)> {
    v.map_values(|d: PhysicalDatasetSelectionInput| (d.scenario, d.path@))
}

/// `r` is what `select_args` says of `args`.
pub open spec fn select_parsed(args: Seq<Seq<char>>, r: CommandParse) -> bool {
    &&& checks_view(r.checks@) == select_args(args).0
    &&& match select_args(args).1 {
            Ok(st) => r.result matches Ok(
                CommandArgs::Select {
                    profile_path,
                    datasets,
                    low_pass_tau_ms,
                    complementary_tau_ms,
                    json,
                },
            ) && st.profile_path == Some(profile_path@) && st.datasets == datasets_view(datasets@)
                && st.low_pass_tau_ms == opt_view(low_pass_tau_ms) && st.complementary_tau_ms
                == opt_view(complementary_tau_ms) && st.json == json,
            Err(m) => r.result matches Err(x) && x@ == m,
        }
}

#[verifier::loop_isolation(false)]
pub fn parse_select_command(args: &[String]) -> (r: CommandParse)
    ensures
        select_parsed(strings_view(args@), r),
{
    let ghost a = strings_view(args@);
    let mut profile_path: Option<String> = None;
    let mut datasets: Vec<PhysicalDatasetSelectionInput> = Vec::new();
    let mut low_pass_tau_ms: Option<String> = None;
    let mut complementary_tau_ms: Option<String> = None;
    let mut json = false;
    let mut checks: Vec<DeferredCheck> = Vec::new();
    let ghost init = SelectScan {
        profile_path: None,
        datasets: Seq::empty(),
        low_pass_tau_ms: None,
        complementary_tau_ms: None,
        json: false,
        checks: Seq::empty(),
    };
    proof {
        assert(checks_view(checks@) =~= Seq::<(DeferredCheckKind, Seq<char>)>::empty());
        assert(datasets_view(datasets@) =~= Seq::<(RecordingScenario, Seq<char>)>::empty());
    }
    let mut index: usize = 0;
    while index < args.len()
        invariant
            a == strings_view(args@),
            index <= args@.len(),
            select_scan(a, 0, init) == select_scan(
                a,
                index as int,
                SelectScan {
                    profile_path: opt_view(profile_path),
                    datasets: datasets_view(datasets@),
                    low_pass_tau_ms: opt_view(low_pass_tau_ms),
                    complementary_tau_ms: opt_view(complementary_tau_ms),
                    json,
                    checks: checks_view(checks@),
                },
            ),
        decreases args@.len() - index,
    {
        let flag = args[index].as_str();
        proof {
            assert(a[index as int] == flag@);
            if index + 1 < args@.len() {
                assert(a[index + 1] == args@[index + 1]@);
            }
        }
        if str_eq(flag, "--") {
            index = index + 1;
        } else if str_eq(flag, "--json") {
            if json {
                return CommandParse { result: Err(once(flag)), checks };
            }
            json = true;
            index = index + 1;
        } else if str_eq(flag, "--profile") {
            if profile_path.is_some() {
                return CommandParse { result: Err(once(flag)), checks };
            }
            if index + 1 >= args.len() {
                return CommandParse { result: Err(missing_value(flag)), checks };
            }
            profile_path = Some(args[index + 1].clone());
            index = index + 2;
        } else if str_eq(flag, "--dataset") {
            if index + 1 >= args.len() {
                return CommandParse { result: Err(missing_value(flag)), checks };
            }
            match parse_scenario_dataset(args[index + 1].as_str()) {
                Err(m) => {
                    return CommandParse { result: Err(m), checks };
                },
                Ok((scenario, path)) => {
                    let ghost before = datasets@;
                    datasets.push(PhysicalDatasetSelectionInput { scenario, path });
                    proof {
                        assert(datasets_view(datasets@) =~= datasets_view(before).push(
                            (scenario, path@),
                        ));
                    }
                },
            }
            index = index + 2;
        } else if str_eq(flag, "--low-pass-tau-ms") {
            if low_pass_tau_ms.is_some() {
                return CommandParse { result: Err(once(flag)), checks };
            }
            if index + 1 >= args.len() {
                return CommandParse { result: Err(missing_value(flag)), checks };
            }
            push_check(&mut checks, DeferredCheckKind::LowPassTau, &args[index + 1]);
            low_pass_tau_ms = Some(args[index + 1].clone());
            index = index + 2;
        } else if str_eq(flag, "--complementary-tau-ms") {
            if complementary_tau_ms.is_some() {
                return CommandParse { result: Err(once(flag)), checks };
            }
            if index + 1 >= args.len() {
                return CommandParse { result: Err(missing_value(flag)), checks };
            }
            push_check(&mut checks, DeferredCheckKind::ComplementaryTau, &args[index + 1]);
            complementary_tau_ms = Some(args[index + 1].clone());
            index = index + 2;
        } else if str_starts_with(flag, "--") {
            return CommandParse { result: Err(unsupported_option("select", flag)), checks };
        } else {
            let mut m = string_of("unexpected positional argument for select: ");
            push_str(&mut m, flag);
            return CommandParse { result: Err(m), checks };
        }
    }
    let profile = match profile_path {
        None => {
            return CommandParse { result: Err(string_of("select requires --profile")), checks };
        },
        Some(p) => p,
    };
    CommandParse {
        result: Ok(
            CommandArgs::Select {
                profile_path: profile,
                datasets,
                low_pass_tau_ms,
                complementary_tau_ms,
                json,
            },
        ),
        checks,
    }
}

// ----- dispatch -----

/// The whole command line: the subcommand word, then its own grammar.
pub open spec fn command_parsed(args: Seq<Seq<char>>, r: CommandParse) -> bool {
    if args.len() == 0 {
        r.checks@.len() == 0 && (r.result matches Err(m) && m@ == usage_text())
    } else {
        let word = args[0];
        let rest = args.drop_first();
        if word == "record"@ {
            record_parsed(rest, r)
        } else if word == "analyze"@ {
            r.checks@.len() == 0 && analyze_parsed(rest, r.result)
        } else if word == "calibrate"@ {
            r.checks@.len() == 0 && calibrate_parsed(rest, r.result)
        } else if word == "evaluate"@ {
            evaluate_parsed(rest, r)
        } else if word == "select"@ {
            select_parsed(rest, r)
        } else if word == "--help"@ || word == "-h"@ {
            r.checks@.len() == 0 && (r.result matches Err(m) && m@ == usage_text())
        } else {
            r.checks@.len() == 0 && (r.result matches Err(m) && m@ == "unsupported subcommand: "@
                + word + "\n\n"@ + usage_text())
        }
    }
}

/// Reads a command line (without the program name).
pub fn parse_command(args: &[String]) -> (r: CommandParse)
    ensures
        command_parsed(strings_view(args@), r),
{
    if args.len() == 0 {
        return CommandParse { result: Err(usage()), checks: Vec::new() };
    }
    let rest = vstd::slice::slice_subrange(args, 1, args.len());
    proof {
        assert(strings_view(rest@) =~= strings_view(args@).drop_first());
        assert(strings_view(args@)[0] == args@[0]@);
    }
    let word = args[0].as_str();
    if str_eq(word, "record") {
        parse_record_command(rest)
    } else if str_eq(word, "analyze") {
        CommandParse { result: parse_analyze_command(rest), checks: Vec::new() }
    } else if str_eq(word, "calibrate") {
        CommandParse { result: parse_calibrate_command(rest), checks: Vec::new() }
    } else if str_eq(word, "evaluate") {
        parse_evaluate_command(rest)
    } else if str_eq(word, "select") {
        parse_select_command(rest)
    } else if str_eq(word, "--help") || str_eq(word, "-h") {
        CommandParse { result: Err(usage()), checks: Vec::new() }
    } else {
        let mut m = string_of("unsupported subcommand: ");
        push_str(&mut m, word);
        push_str(&mut m, "\n\n");
        let u = usage();
        push_str(&mut m, u.as_str());
        CommandParse { result: Err(m), checks: Vec::new() }
    }
}

} // verus!
