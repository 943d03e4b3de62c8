//! The integer part of the stationary calibration quality gate, the checks
//! of a profile's identifiers, and the file names derived from a dataset path.

use vstd::prelude::*;
use crate::dataset::{scenario_name, RecordingScenario, DATASET_FORMAT_VERSION};
use crate::protocol::PROTOCOL_VERSION;
use crate::timefmt::{parse_rfc3339, rfc3339_parse_result};
use crate::text::{decimal, push_char, push_decimal, push_str, str_eq, string_of};
use vstd::string::StrSliceExecFns;

verus! {

pub const CALIBRATION_PROFILE_VERSION: u8 = 1;
pub const CALIBRATION_METHOD: &'static str = "stationary_level_and_bias_v1";
pub const DEFAULT_CALIBRATION_DIRECTORY: &'static str = "artifacts/motion-calibrations";
pub const LEVELED_MOUNTING_CONVENTION: &'static str =
    "leveled_mounting_frame_screen_up_portrait_top_toward_vehicle_front_yaw_unconstrained_v1";
pub const CALIBRATION_QUALITY_CRITERIA: &'static str =
    "stationary_calibration_v1_initial_diagnostic_thresholds";
pub const MIN_CALIBRATION_SAMPLE_COUNT: usize = 180;
pub const MIN_CALIBRATION_DURATION_US: u64 = 3_000_000;
pub const MAX_RECORDER_DROPPED_SAMPLES: u64 = 0;

/// One failed criterion of the calibration quality gate.
#[derive(Debug, Clone)]
pub struct CalibrationViolation {
    pub code: String,
    pub message: String,
}

pub fn violation(code: &str, message: String) -> (v: CalibrationViolation)
    ensures
        v.code@ == code@,
        v.message@ == message@,
{
    CalibrationViolation { code: string_of(code), message }
}

/// The integer measurements of a dataset that the quality gate checks.
#[derive(Debug, Clone, Copy)]
pub struct CalibrationCounts {
    pub scenario: RecordingScenario,
    pub dataset_complete: bool,
    pub session_count: usize,
    pub sample_count: usize,
    pub observed_duration_us: u64,
    pub recorder_dropped_samples: u64,
}

/// The violations of the integer criteria, as (code, message), in this
/// order: scenario, completeness, number of sessions, number of samples,
/// observed duration, recorder drops.
pub open spec fn count_violations(c: CalibrationCounts) -> Seq<(Seq<char>, Seq<char>)> {
    let v0: Seq<(Seq<char>, Seq<char>)> = Seq::empty();
    let v1 = if c.scenario != RecordingScenario::Stationary {
        v0.push(
            (
                "scenario_not_stationary"@,
                "scenario must be stationary for calibration, got "@ + scenario_name(c.scenario),
            ),
        )
    } else {
        v0
    };
    let v2 = if !c.dataset_complete {
        v1.push(
            (
                "dataset_incomplete"@,
                "dataset must be complete with a summary record and completed=true"@,
            ),
        )
    } else {
        v1
    };
    let v3 = if c.session_count != 1 {
        v2.push(
            (
                "session_count"@,
                "dataset must contain exactly one session, got "@ + decimal(c.session_count as nat),
            ),
        )
    } else {
        v2
    };
    let v4 = if c.sample_count < MIN_CALIBRATION_SAMPLE_COUNT {
        v3.push(
            (
                "sample_count"@,
                "sample count must be at least "@ + decimal(MIN_CALIBRATION_SAMPLE_COUNT as nat)
                    + ", got "@ + decimal(c.sample_count as nat),
            ),
        )
    } else {
        v3
    };
    let v5 = if c.observed_duration_us < MIN_CALIBRATION_DURATION_US {
        v4.push(
            (
                "observed_duration_us"@,
                "observed duration must be at least "@ + decimal(MIN_CALIBRATION_DURATION_US as nat)
                    + " us, got "@ + decimal(c.observed_duration_us as nat) + " us"@,
            ),
        )
    } else {
        v4
    };
    if c.recorder_dropped_samples > MAX_RECORDER_DROPPED_SAMPLES {
        v5.push(
            (
                "recorder_dropped_samples"@,
                "recorderDroppedSamples must be "@ + decimal(MAX_RECORDER_DROPPED_SAMPLES as nat)
                    + ", got "@ + decimal(c.recorder_dropped_samples as nat),
            ),
        )
    } else {
        v5
    }
}

pub open spec fn violation_view(v: CalibrationViolation) -> (Seq<char>, Seq<char>) {
    (v.code@, v.message@)
}

fn push_violation(out: &mut Vec<CalibrationViolation>, code: &str, message: String)
    ensures
        final(out)@.map_values(|v: CalibrationViolation| violation_view(v)) == old(out)@.map_values(
            |v: CalibrationViolation| violation_view(v),
        ).push((code@, message@)),
{
    let ghost before = out@;
    out.push(violation(code, message));
    assert(out@.map_values(|v: CalibrationViolation| violation_view(v)) =~= before.map_values(
        |v: CalibrationViolation| violation_view(v),
    ).push((code@, message@)));
}

/// The violations of the integer criteria of the quality gate; the float
/// criteria (rates, gravity, motion, tilt) follow them in the full report.
pub fn count_quality_violations(c: &CalibrationCounts) -> (r: Vec<CalibrationViolation>)
    ensures
        r@.map_values(|v: CalibrationViolation| violation_view(v)) == count_violations(*c),
{
    let mut out: Vec<CalibrationViolation> = Vec::new();
    proof {
        assert(out@.map_values(|v: CalibrationViolation| violation_view(v)) =~= Seq::<
            (Seq<char>, Seq<char>),
        >::empty());
    }
    if c.scenario != RecordingScenario::Stationary {
        let mut m = string_of("scenario must be stationary for calibration, got ");
        push_str(&mut m, c.scenario.as_str());
        push_violation(&mut out, "scenario_not_stationary", m);
    }
    if !c.dataset_complete {
        push_violation(
            &mut out,
            "dataset_incomplete",
            string_of("dataset must be complete with a summary record and completed=true"),
        );
    }
    if c.session_count != 1 {
        let mut m = string_of("dataset must contain exactly one session, got ");
        push_decimal(&mut m, c.session_count as u64);
        push_violation(&mut out, "session_count", m);
    }
    if c.sample_count < MIN_CALIBRATION_SAMPLE_COUNT {
        let mut m = string_of("sample count must be at least ");
        push_decimal(&mut m, MIN_CALIBRATION_SAMPLE_COUNT as u64);
        push_str(&mut m, ", got ");
        push_decimal(&mut m, c.sample_count as u64);
        push_violation(&mut out, "sample_count", m);
    }
    if c.observed_duration_us < MIN_CALIBRATION_DURATION_US {
        let mut m = string_of("observed duration must be at least ");
        push_decimal(&mut m, MIN_CALIBRATION_DURATION_US);
        push_str(&mut m, " us, got ");
        push_decimal(&mut m, c.observed_duration_us);
        push_str(&mut m, " us");
        push_violation(&mut out, "observed_duration_us", m);
    }
    if c.recorder_dropped_samples > MAX_RECORDER_DROPPED_SAMPLES {
        let mut m = string_of("recorderDroppedSamples must be ");
        push_decimal(&mut m, MAX_RECORDER_DROPPED_SAMPLES);
        push_str(&mut m, ", got ");
        push_decimal(&mut m, c.recorder_dropped_samples);
        push_violation(&mut out, "recorder_dropped_samples", m);
    }
    out
}

// ---------------------------------------------------------------------------
// Paths and identifiers
// ---------------------------------------------------------------------------

/// The pieces of `s` between occurrences of `sep` (one more piece than separators).
pub open spec fn split_char(s: Seq<char>, sep: char) -> Seq<Seq<char>>
    decreases s.len(),
{
    if s.len() == 0 {
        seq![Seq::empty()]
    } else {
        let prev = split_char(s.drop_last(), sep);
        if s.last() == sep {
            prev.push(Seq::empty())
        } else {
            prev.update(prev.len() - 1, prev.last().push(s.last()))
        }
    }
}

proof fn lemma_split_char_nonempty(s: Seq<char>, sep: char)
    ensures
        split_char(s, sep).len() >= 1,
    decreases s.len(),
{
    if s.len() > 0 {
        lemma_split_char_nonempty(s.drop_last(), sep);
    }
}

/// Splits a path at '/' into its pieces, empty ones included.
fn split_path(path: &str) -> (r: Vec<Vec<char>>)
    ensures
        r@.map_values(|v: Vec<char>| v@) == split_char(path@, '/'),
{
    broadcast use vstd::string::axiom_spec_iter;

    let mut done: Vec<Vec<char>> = Vec::new();
    let mut current: Vec<char> = Vec::new();
    for c in it: path.chars()
        invariant
            it.seq() == path@,
            done@.map_values(|v: Vec<char>| v@).push(current@) == split_char(
                path@.take(it.index() as int),
                '/',
            ),
    {
        let ghost i = it.index() as int;
        proof {
            assert(path@.take(i + 1).drop_last() =~= path@.take(i));
            assert(path@.take(i + 1).last() == c);
            lemma_split_char_nonempty(path@.take(i), '/');
        }
        let ghost before = done@.map_values(|v: Vec<char>| v@);
        if c == '/' {
            let finished = current;
            current = Vec::new();
            done.push(finished);
            proof {
                assert(done@.map_values(|v: Vec<char>| v@) =~= before.push(finished@));
                assert(done@.map_values(|v: Vec<char>| v@).push(current@) =~= before.push(finished@).push(
                    Seq::<char>::empty(),
                ));
            }
        } else {
            let ghost cur = current@;
            current.push(c);
            proof {
                assert(before.push(current@) =~= before.push(cur).update(
                    before.push(cur).len() - 1,
                    before.push(cur).last().push(c),
                ));
            }
        }
    }
    done.push(current);
    proof {
        assert(path@.take(path@.len() as int) =~= path@);
    }
    done
}

/// The last piece that names something (not empty, not "."), if any.
pub open spec fn last_named_piece(pieces: Seq<Seq<char>>) -> Option<Seq<char>>
    decreases pieces.len(),
{
    if pieces.len() == 0 {
        None
    } else if pieces.last().len() == 0 || pieces.last() == seq!['.'] {
        last_named_piece(pieces.drop_last())
    } else {
        Some(pieces.last())
    }
}

/// The final component of a path, as `Path::file_name` gives it on Unix:
/// trailing separators and "." components are skipped, and a final ".."
/// names nothing.
pub open spec fn path_file_name(p: Seq<char>) -> Option<Seq<char>> {
    match last_named_piece(split_char(p, '/')) {
        Some(n) => if n == seq!['.', '.'] {
            None
        } else {
            Some(n)
        },
        None => None,
    }
}

/// The index of the last '.' of `s`, or -1.
pub open spec fn last_dot(s: Seq<char>) -> int
    decreases s.len(),
{
    if s.len() == 0 {
        -1
    } else if s.last() == '.' {
        s.len() - 1
    } else {
        last_dot(s.drop_last())
    }
}

/// The stem of a file name, as `Path::file_stem` gives it: the part before
/// the last '.', unless that '.' is the first character or there is none.
pub open spec fn name_stem(name: Seq<char>) -> Seq<char> {
    if last_dot(name) <= 0 {
        name
    } else {
        name.subrange(0, last_dot(name))
    }
}

fn vec_is(v: &Vec<char>, text: &str) -> (r: bool)
    ensures
        r == (v@ == text@),
{
    let n = text.unicode_len();
    if v.len() != n {
        return false;
    }
    let mut i: usize = 0;
    while i < n
        invariant
            n == text@.len(),
            n == v@.len(),
            i <= n,
            forall|k: int| 0 <= k < i ==> v@[k] == text@[k],
        decreases n - i,
    {
        if v[i] != text.get_char(i) {
            return false;
        }
        i = i + 1;
    }
    assert(v@ =~= text@);
    true
}

/// The file name of a path, as characters, when it has one.
pub fn file_name_chars(path: &str) -> (r: Option<Vec<char>>)
    ensures
        match path_file_name(path@) {
            Some(n) => r matches Some(v) && v@ == n,
            None => r is None,
        },
{
    let pieces = split_path(path);
    let ghost ps = pieces@.map_values(|v: Vec<char>| v@);
    let mut k: usize = pieces.len();
    assert(ps.take(k as int) =~= ps);
    while k > 0 && (pieces[k - 1].len() == 0 || vec_is(&pieces[k - 1], "."))
        invariant
            k <= pieces@.len(),
            ps == pieces@.map_values(|v: Vec<char>| v@),
            last_named_piece(ps) == last_named_piece(ps.take(k as int)),
        decreases k,
    {
        proof {
            reveal_strlit(".");
            assert(ps.take(k as int).drop_last() =~= ps.take(k - 1));
            assert(ps.take(k as int).last() == pieces@[k - 1]@);
            assert(pieces@[k - 1]@.len() == 0 || pieces@[k - 1]@ =~= seq!['.']);
        }
        k = k - 1;
    }
    proof {
        reveal_strlit(".");
        reveal_strlit("..");
        if k > 0 {
            assert(ps.take(k as int).last() == pieces@[k - 1]@);
            assert(pieces@[k - 1]@ != seq!['.']) by {
                if pieces@[k - 1]@ == seq!['.'] {
                    assert(pieces@[k - 1]@ =~= "."@);
                }
            }
            assert((pieces@[k - 1]@ == seq!['.', '.']) == (pieces@[k - 1]@ == ".."@)) by {
                if pieces@[k - 1]@ == seq!['.', '.'] {
                    assert(pieces@[k - 1]@ =~= ".."@);
                }
                if pieces@[k - 1]@ == ".."@ {
                    assert(pieces@[k - 1]@ =~= seq!['.', '.']);
                }
            }
        } else {
            assert(ps.take(0) =~= Seq::<Seq<char>>::empty());
        }
    }
    if k == 0 {
        return None;
    }
    if vec_is(&pieces[k - 1], "..") {
        return None;
    }
    let mut out: Vec<char> = Vec::new();
    let mut i: usize = 0;
    let n = pieces[k - 1].len();
    while i < n
        invariant
            k >= 1,
            k <= pieces@.len(),
            n == pieces@[k - 1]@.len(),
            i <= n,
            out@ == pieces@[k - 1]@.take(i as int),
        decreases n - i,
    {
        out.push(pieces[k - 1][i]);
        proof {
            assert(pieces@[k - 1]@.take(i + 1) =~= pieces@[k - 1]@.take(i as int).push(
                pieces@[k - 1]@[i as int],
            ));
        }
        i = i + 1;
    }
    proof {
        assert(pieces@[k - 1]@.take(n as int) =~= pieces@[k - 1]@);
    }
    Some(out)
}

fn stem_chars(name: &Vec<char>) -> (r: Vec<char>)
    ensures
        r@ == name_stem(name@),
{
    let n = name.len();
    let mut k: usize = n;
    assert(name@.take(n as int) =~= name@);
    while k > 0 && name[k - 1] != '.'
        invariant
            k <= n,
            n == name@.len(),
            last_dot(name@) == last_dot(name@.take(k as int)),
        decreases k,
    {
        proof {
            assert(name@.take(k as int).drop_last() =~= name@.take(k - 1));
        }
        k = k - 1;
    }
    proof {
        if k == 0 {
            assert(name@.take(0) =~= Seq::<char>::empty());
        } else {
            assert(name@.take(k as int).last() == '.');
        }
    }
    let end = if k <= 1 {
        n
    } else {
        k - 1
    };
    let mut out: Vec<char> = Vec::new();
    let mut i: usize = 0;
    while i < end
        invariant
            end <= n,
            n == name@.len(),
            i <= end,
            out@ == name@.take(i as int),
        decreases end - i,
    {
        out.push(name[i]);
        proof {
            assert(name@.take(i + 1) =~= name@.take(i as int).push(name@[i as int]));
        }
        i = i + 1;
    }
    proof {
        assert(name@.take(n as int) =~= name@);
        assert(name@.subrange(0, end as int) =~= name@.take(end as int));
    }
    out
}

pub open spec fn is_ascii_alphanumeric(c: char) -> bool {
    let v = c as u32;
    (48 <= v && v <= 57) || (65 <= v && v <= 90) || (97 <= v && v <= 122)
}

/// The ASCII lower-case form of a character (other characters unchanged).
pub open spec fn ascii_lower(c: char) -> char {
    let v = c as u32;
    if 65 <= v && v <= 90 {
        ((v + 32) as u8) as char
    } else {
        c
    }
}

/// Letters and digits kept (lower-cased), '.' kept, every run of other
/// characters replaced by one '-'; with whether the output ends in such a '-'.
pub open spec fn sanitize_scan(s: Seq<char>) -> (Seq<char>, bool)
    decreases s.len(),
{
    if s.len() == 0 {
        (Seq::empty(), false)
    } else {
        let prev = sanitize_scan(s.drop_last());
        let c = s.last();
        if is_ascii_alphanumeric(c) {
            (prev.0.push(ascii_lower(c)), false)
        } else if c == '.' {
            (prev.0.push('.'), false)
        } else if prev.1 {
            prev
        } else {
            (prev.0.push('-'), true)
        }
    }
}

pub open spec fn strip_front(s: Seq<char>, c: char) -> Seq<char>
    decreases s.len(),
{
    if s.len() > 0 && s[0] == c {
        strip_front(s.drop_first(), c)
    } else {
        s
    }
}

pub open spec fn strip_back(s: Seq<char>, c: char) -> Seq<char>
    decreases s.len(),
{
    if s.len() > 0 && s.last() == c {
        strip_back(s.drop_last(), c)
    } else {
        s
    }
}

/// `s` without leading and trailing copies of `c` (`str::trim_matches`).
pub open spec fn strip_char(s: Seq<char>, c: char) -> Seq<char> {
    strip_back(strip_front(s, c), c)
}

/// A file-name-safe form of `s`: see `sanitize_scan`, then leading and
/// trailing '-' and then '.' removed; "dataset" when nothing is left.
pub open spec fn sanitized_component(s: Seq<char>) -> Seq<char> {
    let t = strip_char(strip_char(sanitize_scan(s).0, '-'), '.');
    if t.len() == 0 {
        "dataset"@
    } else {
        t
    }
}

fn strip_chars(chars: &Vec<char>, c: char) -> (r: Vec<char>)
    ensures
        r@ == strip_char(chars@, c),
{
    let n = chars.len();
    let mut a: usize = 0;
    assert(chars@.subrange(0, n as int) =~= chars@);
    while a < n && chars[a] == c
        invariant
            n == chars@.len(),
            a <= n,
            strip_front(chars@, c) == strip_front(chars@.subrange(a as int, n as int), c),
        decreases n - a,
    {
        proof {
            assert(chars@.subrange(a as int, n as int).drop_first() =~= chars@.subrange(
                a + 1,
                n as int,
            ));
        }
        a = a + 1;
    }
    proof {
        if a == n {
            assert(chars@.subrange(a as int, n as int) =~= Seq::<char>::empty());
        } else {
            assert(chars@.subrange(a as int, n as int)[0] == chars@[a as int]);
        }
        assert(strip_front(chars@, c) == chars@.subrange(a as int, n as int));
    }
    let mut b: usize = n;
    while b > a && chars[b - 1] == c
        invariant
            n == chars@.len(),
            a <= b <= n,
            strip_front(chars@, c) == chars@.subrange(a as int, n as int),
            strip_char(chars@, c) == strip_back(chars@.subrange(a as int, b as int), c),
        decreases b - a,
    {
        proof {
            assert(chars@.subrange(a as int, b as int).drop_last() =~= chars@.subrange(
                a as int,
                b - 1,
            ));
        }
        b = b - 1;
    }
    let mut out: Vec<char> = Vec::new();
    let mut i: usize = a;
    while i < b
        invariant
            n == chars@.len(),
            a <= i <= b <= n,
            out@ == chars@.subrange(a as int, i as int),
        decreases b - i,
    {
        out.push(chars[i]);
        proof {
            assert(chars@.subrange(a as int, i + 1) =~= chars@.subrange(a as int, i as int).push(
                chars@[i as int],
            ));
        }
        i = i + 1;
    }
    out
}

fn sanitize_chars(value: &Vec<char>) -> (r: String)
    ensures
        r@ == sanitized_component(value@),
{
    let mut out: Vec<char> = Vec::new();
    let mut previous_dash = false;
    let mut i: usize = 0;
    while i < value.len()
        invariant
            i <= value@.len(),
            (out@, previous_dash) == sanitize_scan(value@.take(i as int)),
        decreases value@.len() - i,
    {
        let c = value[i];
        proof {
            assert(value@.take(i + 1).drop_last() =~= value@.take(i as int));
            assert(value@.take(i + 1).last() == c);
        }
        let v = c as u32;
        if (48 <= v && v <= 57) || (65 <= v && v <= 90) || (97 <= v && v <= 122) {
            let lower = if 65 <= v && v <= 90 {
                ((v + 32) as u8) as char
            } else {
                c
            };
            out.push(lower);
            previous_dash = false;
        } else if c == '.' {
            out.push('.');
            previous_dash = false;
        } else if !previous_dash {
            out.push('-');
            previous_dash = true;
        }
        i = i + 1;
    }
    proof {
        assert(value@.take(value@.len() as int) =~= value@);
    }
    let dashless = strip_chars(&out, '-');
    let stripped = strip_chars(&dashless, '.');
    if stripped.len() == 0 {
        return string_of("dataset");
    }
    let mut text = String::new();
    let mut k: usize = 0;
    while k < stripped.len()
        invariant
            k <= stripped@.len(),
            text@ == stripped@.take(k as int),
        decreases stripped@.len() - k,
    {
        push_char(&mut text, stripped[k]);
        proof {
            assert(stripped@.take(k + 1) =~= stripped@.take(k as int).push(stripped@[k as int]));
        }
        k = k + 1;
    }
    proof {
        assert(stripped@.take(stripped@.len() as int) =~= stripped@);
    }
    text
}

fn chars_of(text: &str) -> (r: Vec<char>)
    ensures
        r@ == text@,
{
    broadcast use vstd::string::axiom_spec_iter;

    let mut out: Vec<char> = Vec::new();
    for c in it: text.chars()
        invariant
            it.seq() == text@,
            out@ == text@.take(it.index() as int),
    {
        proof {
            assert(text@.take(it.index() + 1) =~= text@.take(it.index() as int).push(c));
        }
        out.push(c);
    }
    proof {
        assert(text@.take(text@.len() as int) =~= text@);
    }
    out
}

/// A file-name-safe form of a path component.
pub fn sanitize_path_component(value: &str) -> (r: String)
    ensures
        r@ == sanitized_component(value@),
{
    let chars = chars_of(value);
    sanitize_chars(&chars)
}

/// The default profile file of a dataset:
/// `artifacts/motion-calibrations/<sanitized stem>-calibration-v1.json`.
pub fn default_profile_output_path_for_dataset(dataset_path: &str) -> (r: String)
    ensures
        r@ == DEFAULT_CALIBRATION_DIRECTORY@ + "/"@ + sanitized_component(
            match path_file_name(dataset_path@) {
                Some(n) => name_stem(n),
                None => "dataset"@,
            },
        ) + "-calibration-v1.json"@,
{
    let stem = match file_name_chars(dataset_path) {
        Some(name) => stem_chars(&name),
        None => chars_of("dataset"),
    };
    let safe = sanitize_chars(&stem);
    let mut path = string_of(DEFAULT_CALIBRATION_DIRECTORY);
    push_str(&mut path, "/");
    push_str(&mut path, safe.as_str());
    push_str(&mut path, "-calibration-v1.json");
    path
}

/// The sanitized file name of a source dataset identifier
/// ("dataset.ndjson" when it names no file).
pub fn sanitize_source_dataset_identifier(source_dataset: &str) -> (r: String)
    ensures
        r@ == sanitized_component(
            match path_file_name(source_dataset@) {
                Some(n) => n,
                None => "dataset.ndjson"@,
            },
        ),
{
    let name = match file_name_chars(source_dataset) {
        Some(name) => name,
        None => chars_of("dataset.ndjson"),
    };
    sanitize_chars(&name)
}

/// The identifier recorded for the dataset a profile was made from: its
/// sanitized file name; an error when the path names no file.
pub fn safe_source_dataset_identifier(path: &str) -> (r: Result<String, String>)
    ensures
        match path_file_name(path@) {
            Some(n) => r matches Ok(id) && id@ == sanitized_component(
                match path_file_name(n) {
                    Some(m) => m,
                    None => "dataset.ndjson"@,
                },
            ),
            None => r matches Err(m) && m@ == "dataset path must end with a valid UTF-8 file name: "@
                + path@,
        },
{
    match file_name_chars(path) {
        None => {
            let mut m = string_of("dataset path must end with a valid UTF-8 file name: ");
            push_str(&mut m, path);
            Err(m)
        },
        Some(name) => {
            let mut text = String::new();
            let mut k: usize = 0;
            while k < name.len()
                invariant
                    k <= name@.len(),
                    text@ == name@.take(k as int),
                decreases name@.len() - k,
            {
                push_char(&mut text, name[k]);
                proof {
                    assert(name@.take(k + 1) =~= name@.take(k as int).push(name@[k as int]));
                }
                k = k + 1;
            }
            proof {
                assert(name@.take(name@.len() as int) =~= name@);
            }
            Ok(sanitize_source_dataset_identifier(text.as_str()))
        },
    }
}

/// The checks of a profile's `sourceDataset`: not empty, not absolute, and
/// only ordinary components (no leading "." component, no "..").
pub open spec fn source_identifier_check(s: Seq<char>) -> Result<(), Seq<char>> {
    if s.len() == 0 {
        Err("sourceDataset must not be empty"@)
    } else if s[0] == '/' {
        Err("sourceDataset must not be an absolute path"@)
    } else {
        let ps = split_char(s, '/');
        if ps[0] == seq!['.'] || exists|i: int| 0 <= i < ps.len() && ps[i] == seq!['.', '.'] {
            Err("sourceDataset must be a safe relative identifier"@)
        } else {
            Ok(())
        }
    }
}

pub fn validate_source_dataset_identifier(source_dataset: &str) -> (r: Result<(), String>)
    ensures
        match source_identifier_check(source_dataset@) {
            Ok(_) => r is Ok,
            Err(m) => r matches Err(x) && x@ == m,
        },
{
    if source_dataset.is_empty() {
        return Err(string_of("sourceDataset must not be empty"));
    }
    if source_dataset.get_char(0) == '/' {
        return Err(string_of("sourceDataset must not be an absolute path"));
    }
    let pieces = split_path(source_dataset);
    let ghost ps = pieces@.map_values(|v: Vec<char>| v@);
    proof {
        lemma_split_char_nonempty(source_dataset@, '/');
        reveal_strlit(".");
        reveal_strlit("..");
    }
    let mut bad = vec_is(&pieces[0], ".");
    proof {
        assert(bad == (ps[0] == seq!['.'])) by {
            if ps[0] == seq!['.'] {
                assert(ps[0] =~= "."@);
            }
            if pieces@[0]@ == "."@ {
                assert(ps[0] =~= seq!['.']);
            }
        }
    }
    let mut i: usize = 0;
    while i < pieces.len() && !bad
        invariant
            i <= pieces@.len(),
            ps == pieces@.map_values(|v: Vec<char>| v@),
            ".."@ == seq!['.', '.'],
            !bad ==> ps[0] != seq!['.'] && forall|j: int| 0 <= j < i ==> ps[j] != seq!['.', '.'],
            bad ==> ps[0] == seq!['.'] || exists|j: int| 0 <= j < ps.len() && ps[j] == seq!['.', '.'],
        decreases pieces@.len() - i,
    {
        if vec_is(&pieces[i], "..") {
            bad = true;
            proof {
                assert(ps[i as int] == seq!['.', '.']);
            }
        }
        i = i + 1;
    }
    if bad {
        Err(string_of("sourceDataset must be a safe relative identifier"))
    } else {
        Ok(())
    }
}

/// A profile's `sourceSessionId` has between 1 and 64 characters.
pub fn validate_session_id(session_id: &str) -> (r: Result<(), String>)
    ensures
        if 1 <= session_id@.len() <= 64 {
            r is Ok
        } else {
            r matches Err(m) && m@ == "sourceSessionId must be 1..=64 characters"@
        },
{
    let len = session_id.unicode_len();
    if 1 <= len && len <= 64 {
        Ok(())
    } else {
        Err(string_of("sourceSessionId must be 1..=64 characters"))
    }
}

/// The characters a sanitized component is made of: lower-case ASCII
/// letters, digits, '.' and '-'.
pub open spec fn is_safe_component_char(c: char) -> bool {
    let v = c as u32;
    (48 <= v && v <= 57) || (97 <= v && v <= 122) || c == '.' || c == '-'
}

pub open spec fn all_safe(s: Seq<char>) -> bool {
    forall|i: int| 0 <= i < s.len() ==> is_safe_component_char(#[trigger] s[i])
}

proof fn lemma_scan_safe(s: Seq<char>)
    ensures
        all_safe(sanitize_scan(s).0),
    decreases s.len(),
{
    if s.len() > 0 {
        lemma_scan_safe(s.drop_last());
        let prev = sanitize_scan(s.drop_last());
        let c = s.last();
        if is_ascii_alphanumeric(c) {
            let v = c as u32;
            if 65 <= v && v <= 90 {
                assert((((v + 32) as u8) as char) as u32 == v + 32);
            }
            assert(is_safe_component_char(ascii_lower(c)));
        }
        let r = sanitize_scan(s).0;
        assert forall|i: int| 0 <= i < r.len() implies is_safe_component_char(#[trigger] r[i]) by {
            if i < prev.0.len() {
                assert(r[i] == prev.0[i]);
            }
        }
    }
}

proof fn lemma_strip_front_facts(s: Seq<char>, c: char)
    requires
        all_safe(s),
    ensures
        all_safe(strip_front(s, c)),
        strip_front(s, c).len() > 0 ==> strip_front(s, c)[0] != c,
    decreases s.len(),
{
    if s.len() > 0 && s[0] == c {
        let t = s.drop_first();
        assert forall|i: int| 0 <= i < t.len() implies is_safe_component_char(#[trigger] t[i]) by {
            assert(t[i] == s[i + 1]);
        }
        lemma_strip_front_facts(t, c);
    }
}

proof fn lemma_strip_back_facts(s: Seq<char>, c: char)
    requires
        all_safe(s),
    ensures
        all_safe(strip_back(s, c)),
        strip_back(s, c).len() > 0 ==> strip_back(s, c)[0] == s[0],
    decreases s.len(),
{
    if s.len() > 0 && s.last() == c {
        let t = s.drop_last();
        assert forall|i: int| 0 <= i < t.len() implies is_safe_component_char(#[trigger] t[i]) by {
            assert(t[i] == s[i]);
        }
        lemma_strip_back_facts(t, c);
        if strip_back(t, c).len() > 0 {
            assert(t[0] == s[0]);
        }
    }
}

/// A sanitized component is a safe file name: it is not empty, it is made
/// of lower-case ASCII letters, digits, '.' and '-' only (so it holds no
/// separator), and it does not start with '.', so it is never "." or "..".
pub proof fn lemma_sanitized_component_is_safe(s: Seq<char>)
    ensures
        sanitized_component(s).len() > 0,
        all_safe(sanitized_component(s)),
        sanitized_component(s)[0] != '.',
{
    reveal_strlit("dataset");
    let scanned = sanitize_scan(s).0;
    lemma_scan_safe(s);
    lemma_strip_front_facts(scanned, '-');
    lemma_strip_back_facts(strip_front(scanned, '-'), '-');
    let u = strip_char(scanned, '-');
    lemma_strip_front_facts(u, '.');
    lemma_strip_back_facts(strip_front(u, '.'), '.');
    let t = strip_char(u, '.');
    if t.len() == 0 {
        let d = "dataset"@;
        assert forall|i: int| 0 <= i < d.len() implies is_safe_component_char(#[trigger] d[i]) by {
        }
    }
}

// ---------------------------------------------------------------------------
// Profile checks that involve no measured value
// ---------------------------------------------------------------------------

/// The fields of a calibration profile that identify it and its source.
#[derive(Debug, Clone)]
pub struct ProfileIdentity {
    pub calibration_profile_version: u8,
    pub method: String,
    pub created_at_utc: String,
    pub source_dataset: String,
    pub source_started_at_utc: String,
    pub source_dataset_format_version: u8,
    pub source_protocol_version: u8,
    pub source_session_id: String,
    pub source_sample_count: usize,
    pub source_observed_duration_us: u64,
    pub mounting_convention: String,
    pub yaw_calibrated: bool,
}

/// The first checks of a loaded profile, in order: version, method, yaw,
/// mounting convention, source identifier, the two RFC 3339 instants and
/// their order, the source format and protocol versions, the session id,
/// and the minimum sample count and duration.
pub open spec fn profile_identity_check(p: ProfileIdentity) -> Result<(), Seq<char>> {
    if p.calibration_profile_version != CALIBRATION_PROFILE_VERSION {
        Err("unsupported calibrationProfileVersion: "@ + decimal(p.calibration_profile_version as nat))
    } else if p.method@ != CALIBRATION_METHOD@ {
        Err("unsupported calibration method: "@ + p.method@)
    } else if p.yaw_calibrated {
        Err("yawCalibrated must remain false for stationary_level_and_bias_v1"@)
    } else if p.mounting_convention@ != LEVELED_MOUNTING_CONVENTION@ {
        Err("mountingConvention must be "@ + LEVELED_MOUNTING_CONVENTION@)
    } else if source_identifier_check(p.source_dataset@) is Err {
        source_identifier_check(p.source_dataset@)
    } else {
        match rfc3339_parse_result(p.created_at_utc@) {
            Err(e) => Err("createdAtUtc must be RFC 3339: "@ + e),
            Ok(created) => match rfc3339_parse_result(p.source_started_at_utc@) {
                Err(e) => Err("sourceStartedAtUtc must be RFC 3339: "@ + e),
                Ok(started) => if created < started {
                    Err("createdAtUtc must be greater than or equal to sourceStartedAtUtc"@)
                } else if p.source_dataset_format_version != DATASET_FORMAT_VERSION {
                    Err(
                        "sourceDatasetFormatVersion must be 1, got "@ + decimal(
                            p.source_dataset_format_version as nat,
                        ),
                    )
                } else if p.source_protocol_version != PROTOCOL_VERSION {
                    Err("sourceProtocolVersion must be 1, got "@ + decimal(p.source_protocol_version as nat))
                } else if !(1 <= p.source_session_id@.len() <= 64) {
                    Err("sourceSessionId must be 1..=64 characters"@)
                } else if p.source_sample_count < MIN_CALIBRATION_SAMPLE_COUNT {
                    Err(
                        "sourceSampleCount must be at least 180, got "@ + decimal(
                            p.source_sample_count as nat,
                        ),
                    )
                } else if p.source_observed_duration_us < MIN_CALIBRATION_DURATION_US {
                    Err(
                        "sourceObservedDurationUs must be at least 3000000, got "@ + decimal(
                            p.source_observed_duration_us as nat,
                        ),
                    )
                } else {
                    Ok(())
                },
            },
        }
    }
}

/// Some violation in `vs` has the code `code`.
pub open spec fn has_violation(vs: Seq<(Seq<char>, Seq<char>)>, code: Seq<char>) -> bool {
    exists|i: int| 0 <= i < vs.len() && #[trigger] vs[i].0 == code
}

proof fn lemma_violation_codes_distinct()
    ensures
        "scenario_not_stationary"@ != "dataset_incomplete"@,
        "scenario_not_stationary"@ != "session_count"@,
        "scenario_not_stationary"@ != "sample_count"@,
        "scenario_not_stationary"@ != "observed_duration_us"@,
        "scenario_not_stationary"@ != "recorder_dropped_samples"@,
        "dataset_incomplete"@ != "session_count"@,
        "dataset_incomplete"@ != "sample_count"@,
        "dataset_incomplete"@ != "observed_duration_us"@,
        "dataset_incomplete"@ != "recorder_dropped_samples"@,
        "session_count"@ != "sample_count"@,
        "session_count"@ != "observed_duration_us"@,
        "session_count"@ != "recorder_dropped_samples"@,
        "sample_count"@ != "observed_duration_us"@,
        "sample_count"@ != "recorder_dropped_samples"@,
        "observed_duration_us"@ != "recorder_dropped_samples"@,
{
    reveal_strlit("scenario_not_stationary");
    reveal_strlit("dataset_incomplete");
    reveal_strlit("session_count");
    reveal_strlit("sample_count");
    reveal_strlit("observed_duration_us");
    reveal_strlit("recorder_dropped_samples");
    assert("scenario_not_stationary"@.len() == 23);
    assert("dataset_incomplete"@.len() == 18);
    assert("session_count"@.len() == 13);
    assert("sample_count"@.len() == 12);
    assert("observed_duration_us"@.len() == 20);
    assert("recorder_dropped_samples"@.len() == 24);
}

/// The quality gate's integer criteria, each on its own: a capture is
/// flagged with a criterion's code exactly when it fails that criterion,
/// whatever its other measurements: `scenario_not_stationary` when it is not
/// the stationary scenario, `dataset_incomplete` when the dataset is not
/// complete, `session_count` when it holds other than one session,
/// `sample_count` when it has fewer than 180 samples,
/// `observed_duration_us` when it lasts less than 3 s, and
/// `recorder_dropped_samples` when the recorder lost samples.
/// No violation is reported exactly when every criterion holds, and a
/// capture with too few samples is told how many it had.
pub proof fn lemma_quality_gate_criteria(c: CalibrationCounts)
    ensures
        has_violation(count_violations(c), "scenario_not_stationary"@) <==> c.scenario
            != RecordingScenario::Stationary,
        has_violation(count_violations(c), "dataset_incomplete"@) <==> !c.dataset_complete,
        has_violation(count_violations(c), "session_count"@) <==> c.session_count != 1,
        has_violation(count_violations(c), "sample_count"@) <==> c.sample_count < 180,
        has_violation(count_violations(c), "observed_duration_us"@) <==> c.observed_duration_us
            < 3_000_000,
        has_violation(count_violations(c), "recorder_dropped_samples"@) <==> c.recorder_dropped_samples
            > 0,
        count_violations(c).len() == 0 <==> (c.scenario == RecordingScenario::Stationary
            && c.dataset_complete && c.session_count == 1 && c.sample_count >= 180
            && c.observed_duration_us >= 3_000_000 && c.recorder_dropped_samples == 0),
        c.sample_count < 180 ==> count_violations(c).contains(
            (
                "sample_count"@,
                "sample count must be at least "@ + decimal(180) + ", got "@ + decimal(
                    c.sample_count as nat,
                ),
            ),
        ),
{
    lemma_violation_codes_distinct();
    let vs = count_violations(c);
    let codes = vs.map_values(|v: (Seq<char>, Seq<char>)| v.0);
    let expected = {
        let e0: Seq<Seq<char>> = Seq::empty();
        let e1 = if c.scenario != RecordingScenario::Stationary {
            e0.push("scenario_not_stationary"@)
        } else {
            e0
        };
        let e2 = if !c.dataset_complete {
            e1.push("dataset_incomplete"@)
        } else {
            e1
        };
        let e3 = if c.session_count != 1 {
            e2.push("session_count"@)
        } else {
            e2
        };
        let e4 = if c.sample_count < 180 {
            e3.push("sample_count"@)
        } else {
            e3
        };
        let e5 = if c.observed_duration_us < 3_000_000 {
            e4.push("observed_duration_us"@)
        } else {
            e4
        };
        if c.recorder_dropped_samples > 0 {
            e5.push("recorder_dropped_samples"@)
        } else {
            e5
        }
    };
    assert(codes =~= expected);
    assert forall|code: Seq<char>| has_violation(vs, code) <==> expected.contains(code) by {
        if has_violation(vs, code) {
            let i = choose|i: int| 0 <= i < vs.len() && #[trigger] vs[i].0 == code;
            assert(codes[i] == code);
        }
        if expected.contains(code) {
            let i = choose|i: int| 0 <= i < expected.len() && expected[i] == code;
            assert(vs[i].0 == codes[i]);
        }
    }
    broadcast use vstd::seq_lib::lemma_seq_contains_after_push, vstd::seq_lib::lemma_seq_empty_contains_nothing;
    assert(expected.contains("scenario_not_stationary"@) == (c.scenario != RecordingScenario::Stationary));
    assert(expected.contains("dataset_incomplete"@) == !c.dataset_complete);
    assert(expected.contains("session_count"@) == (c.session_count != 1));
    assert(expected.contains("sample_count"@) == (c.sample_count < 180));
    assert(expected.contains("observed_duration_us"@) == (c.observed_duration_us < 3_000_000));
    assert(expected.contains("recorder_dropped_samples"@) == (c.recorder_dropped_samples > 0));
    assert(has_violation(vs, "sample_count"@) == expected.contains("sample_count"@));
    if c.sample_count < 180 {
        let k = choose|k: int| 0 <= k < vs.len() && #[trigger] vs[k].0 == "sample_count"@;
        assert(vs[k] == (
            "sample_count"@,
            "sample count must be at least "@ + decimal(180) + ", got "@ + decimal(c.sample_count as nat),
        ));
    }
}

/// A profile passes the identity check only if it was calibrated from a
/// capture of at least 180 samples lasting at least 3 s (3_000_000 us), the
/// minimums of the quality gate; a profile from a shorter or smaller capture
/// is refused.
pub proof fn lemma_accepted_profile_meets_capture_minimums(p: ProfileIdentity)
    ensures
        MIN_CALIBRATION_SAMPLE_COUNT == 180,
        MIN_CALIBRATION_DURATION_US == 3_000_000,
        profile_identity_check(p) is Ok ==> p.source_sample_count >= 180
            && p.source_observed_duration_us >= 3_000_000,
{
}

fn text_then_decimal(text: &str, n: u64) -> (r: String)
    ensures
        r@ == text@ + decimal(n as nat),
{
    let mut m = string_of(text);
    push_decimal(&mut m, n);
    m
}

/// The checks of a loaded profile that involve no measured value.
pub fn validate_profile_identity(p: &ProfileIdentity) -> (r: Result<(), String>)
    ensures
        match profile_identity_check(*p) {
            Ok(_) => r is Ok,
            Err(m) => r matches Err(x) && x@ == m,
        },
{
    if p.calibration_profile_version != CALIBRATION_PROFILE_VERSION {
        return Err(
            text_then_decimal(
                "unsupported calibrationProfileVersion: ",
                p.calibration_profile_version as u64,
            ),
        );
    }
    if !str_eq(p.method.as_str(), CALIBRATION_METHOD) {
        let mut m = string_of("unsupported calibration method: ");
        push_str(&mut m, p.method.as_str());
        return Err(m);
    }
    if p.yaw_calibrated {
        return Err(string_of("yawCalibrated must remain false for stationary_level_and_bias_v1"));
    }
    if !str_eq(p.mounting_convention.as_str(), LEVELED_MOUNTING_CONVENTION) {
        let mut m = string_of("mountingConvention must be ");
        push_str(&mut m, LEVELED_MOUNTING_CONVENTION);
        return Err(m);
    }
    match validate_source_dataset_identifier(p.source_dataset.as_str()) {
        Err(m) => {
            return Err(m);
        },
        Ok(()) => {},
    }
    let created = match parse_rfc3339(p.created_at_utc.as_str()) {
        Err(e) => {
            let mut m = string_of("createdAtUtc must be RFC 3339: ");
            push_str(&mut m, e.as_str());
            return Err(m);
        },
        Ok(t) => t,
    };
    let started = match parse_rfc3339(p.source_started_at_utc.as_str()) {
        Err(e) => {
            let mut m = string_of("sourceStartedAtUtc must be RFC 3339: ");
            push_str(&mut m, e.as_str());
            return Err(m);
        },
        Ok(t) => t,
    };
    if created < started {
        return Err(string_of("createdAtUtc must be greater than or equal to sourceStartedAtUtc"));
    }
    if p.source_dataset_format_version != DATASET_FORMAT_VERSION {
        return Err(
            text_then_decimal(
                "sourceDatasetFormatVersion must be 1, got ",
                p.source_dataset_format_version as u64,
            ),
        );
    }
    if p.source_protocol_version != PROTOCOL_VERSION {
        return Err(
            text_then_decimal("sourceProtocolVersion must be 1, got ", p.source_protocol_version as u64),
        );
    }
    match validate_session_id(p.source_session_id.as_str()) {
        Err(m) => {
            return Err(m);
        },
        Ok(()) => {},
    }
    if p.source_sample_count < MIN_CALIBRATION_SAMPLE_COUNT {
        return Err(
            text_then_decimal("sourceSampleCount must be at least 180, got ", p.source_sample_count as u64),
        );
    }
    if p.source_observed_duration_us < MIN_CALIBRATION_DURATION_US {
        return Err(
            text_then_decimal(
                "sourceObservedDurationUs must be at least 3000000, got ",
                p.source_observed_duration_us,
            ),
        );
    }
    Ok(())
}

/// The fields of a profile's quality report that involve no measured value.
#[derive(Debug, Clone)]
pub struct QualityCounts {
    pub criteria: String,
    pub passed: bool,
    pub violation_count: usize,
    pub diagnostics_sample_count: usize,
    pub dataset_complete: bool,
    pub session_count: usize,
    pub recorder_dropped_samples: u64,
}

/// The first checks of a profile's quality report, in order.
pub open spec fn quality_counts_check(q: QualityCounts, source_sample_count: usize) -> Result<(), Seq<char>> {
    if q.criteria@ != CALIBRATION_QUALITY_CRITERIA@ {
        Err("quality.criteria must be "@ + CALIBRATION_QUALITY_CRITERIA@)
    } else if !q.passed {
        Err("quality.passed must be true"@)
    } else if q.violation_count != 0 {
        Err("quality.violations must be empty for a usable profile"@)
    } else if q.diagnostics_sample_count != source_sample_count {
        Err("sourceSampleCount must match quality.diagnostics.sampleCount"@)
    } else if !q.dataset_complete {
        Err("quality.diagnostics.datasetComplete must be true"@)
    } else if q.session_count != 1 {
        Err("quality.diagnostics.sessionCount must be 1"@)
    } else if q.recorder_dropped_samples != MAX_RECORDER_DROPPED_SAMPLES {
        Err("quality.diagnostics.recorderDroppedSamples must be 0"@)
    } else {
        Ok(())
    }
}

pub fn validate_quality_counts(q: &QualityCounts, source_sample_count: usize) -> (r: Result<(), String>)
    ensures
        match quality_counts_check(*q, source_sample_count) {
            Ok(_) => r is Ok,
            Err(m) => r matches Err(x) && x@ == m,
        },
{
    if !str_eq(q.criteria.as_str(), CALIBRATION_QUALITY_CRITERIA) {
        let mut m = string_of("quality.criteria must be ");
        push_str(&mut m, CALIBRATION_QUALITY_CRITERIA);
        return Err(m);
    }
    if !q.passed {
        return Err(string_of("quality.passed must be true"));
    }
    if q.violation_count != 0 {
        return Err(string_of("quality.violations must be empty for a usable profile"));
    }
    if q.diagnostics_sample_count != source_sample_count {
        return Err(string_of("sourceSampleCount must match quality.diagnostics.sampleCount"));
    }
    if !q.dataset_complete {
        return Err(string_of("quality.diagnostics.datasetComplete must be true"));
    }
    if q.session_count != 1 {
        return Err(string_of("quality.diagnostics.sessionCount must be 1"));
    }
    if q.recorder_dropped_samples != MAX_RECORDER_DROPPED_SAMPLES {
        return Err(string_of("quality.diagnostics.recorderDroppedSamples must be 0"));
    }
    Ok(())
}

/// The first of the diagnostic limits: enough samples.
pub fn validate_diagnostic_sample_count(sample_count: usize) -> (r: Result<(), String>)
    ensures
        sample_count >= MIN_CALIBRATION_SAMPLE_COUNT ==> r is Ok,
        sample_count < MIN_CALIBRATION_SAMPLE_COUNT ==> (r matches Err(m) && m@
            == "quality.diagnostics.sampleCount is below calibration v1 minimum"@),
{
    if sample_count < MIN_CALIBRATION_SAMPLE_COUNT {
        Err(string_of("quality.diagnostics.sampleCount is below calibration v1 minimum"))
    } else {
        Ok(())
    }
}

} // verus!
