//! The decisions of the command-line tool: its options, its commands, and the
//! timings it reads from build profiles and reports to InfluxDB.

use vstd::prelude::*;

use crate::pattern::{fancy_find, fancy_find_of, group_at, group_text, groups_present, regex_captures, regex_captures_of, GroupTexts};
use crate::text::{
    chars_of, contains_chars, contains_seq, extend_chars, parse_usize, parsed_usize, split_chars, split_on, string_of, char_seqs,
    decimal_text, is_digit, lemma_decimal_round_trip, lemma_decimal_text_digits, lemma_split_at_single_separator,
};

verus! {

/// The values of an option argument such as `-command=a,b` that mentions one of `keys`:
/// the text after its only `=`, split at each `,`. `None` when the argument mentions none
/// of the keys or does not hold exactly one `=`.
pub open spec fn option_values_of(arg: Seq<char>, keys: Seq<Seq<char>>) -> Option<Seq<Seq<char>>> {
    if exists|k: int| 0 <= k < keys.len() && contains_seq(arg, #[trigger] keys[k]) {
        let after = split_on(arg, '=').drop_first();
        if after.len() == 1 {
            Some(split_on(after[0], ','))
        } else {
            None
        }
    } else {
        None
    }
}

fn mentions_any(arg: &Vec<char>, keys: &Vec<String>) -> (r: bool)
    ensures
        r == exists|k: int| 0 <= k < keys@.len() && contains_seq(arg@, #[trigger] keys.deep_view()[k]),
{
    let mut i: usize = 0;
    while i < keys.len()
        invariant
            i <= keys.len(),
            forall|k: int| 0 <= k < i ==> !contains_seq(arg@, #[trigger] keys.deep_view()[k]),
        decreases keys.len() - i,
    {
        if contains_chars(arg, &chars_of(keys[i].as_str())) {
            assert(contains_seq(arg@, keys.deep_view()[i as int]));
            return true;
        }
        i = i + 1;
    }
    false
}

/// The values of the option argument `arg` when it mentions one of `keys`, as the tool
/// reads `-command=...`, `-extras=...` and the manifest options.
pub fn option_values(arg: &str, keys: &Vec<String>) -> (r: Option<Vec<String>>)
    ensures
        r.deep_view() == option_values_of(arg@, keys.deep_view()),
{
    let a = chars_of(arg);
    if !mentions_any(&a, keys) {
        return None;
    }
    let pieces = split_chars(&a, '=');
    proof {
        crate::text::lemma_split_on_nonempty(arg@, '=');
    }
    if pieces.len() != 2 {
        assert(char_seqs(pieces@).drop_first().len() != 1);
        return None;
    }
    assert(char_seqs(pieces@).drop_first()[0] == pieces@[1]@);
    let values = split_chars(&pieces[1], ',');
    let mut out: Vec<String> = Vec::new();
    let mut i: usize = 0;
    while i < values.len()
        invariant
            i <= values.len(),
            out.deep_view() =~= char_seqs(values@).take(i as int),
        decreases values.len() - i,
    {
        let ghost prev = out.deep_view();
        out.push(string_of(&values[i]));
        assert(out.deep_view() =~= prev.push(values@[i as int]@));
        i = i + 1;
        assert(out.deep_view() =~= char_seqs(values@).take(i as int));
    }
    assert(char_seqs(values@).take(i as int) =~= char_seqs(values@));
    Some(out)
}

/// The commands of the tool.
#[derive(Clone, Copy, PartialEq, Eq, Structural, Debug)]
pub enum Command {
    /// `find_bazel_log`: copy the Bazel command log named in `path.log`.
    FindBazelLog,
    /// `parse_profile_to_grafana`: report the run time of a Bazel profile.
    ParseProfileToGrafana,
    /// `parse_gradle_profile_to_grafana`: report the build time of a Gradle profile.
    ParseGradleProfileToGrafana,
    /// `android_manifest_merger`: rewrite a sample manifest.
    AndroidManifestMerger,
    /// Any other name: nothing is done.
    Unknown,
}

/// The command that `name` names.
pub open spec fn command_of(name: Seq<char>) -> Command {
    if name == "find_bazel_log"@ {
        Command::FindBazelLog
    } else if name == "parse_profile_to_grafana"@ {
        Command::ParseProfileToGrafana
    } else if name == "parse_gradle_profile_to_grafana"@ {
        Command::ParseGradleProfileToGrafana
    } else if name == "android_manifest_merger"@ {
        Command::AndroidManifestMerger
    } else {
        Command::Unknown
    }
}

fn chars_equal(a: &Vec<char>, b: &Vec<char>) -> (r: bool)
    ensures
        r == (a@ == b@),
{
    if a.len() != b.len() {
        return false;
    }
    let mut i: usize = 0;
    while i < a.len()
        invariant
            a.len() == b.len(),
            i <= a.len(),
            forall|k: int| 0 <= k < i ==> a@[k] == b@[k],
        decreases a.len() - i,
    {
        if a[i] != b[i] {
            return false;
        }
        i = i + 1;
    }
    assert(a@ =~= b@);
    true
}

impl Command {
    /// The command that `name` names.
    pub fn parse(name: &str) -> (c: Command)
        ensures
            c == command_of(name@),
    {
        let n = chars_of(name);
        if chars_equal(&n, &chars_of("find_bazel_log")) {
            Command::FindBazelLog
        } else if chars_equal(&n, &chars_of("parse_profile_to_grafana")) {
            Command::ParseProfileToGrafana
        } else if chars_equal(&n, &chars_of("parse_gradle_profile_to_grafana")) {
            Command::ParseGradleProfileToGrafana
        } else if chars_equal(&n, &chars_of("android_manifest_merger")) {
            Command::AndroidManifestMerger
        } else {
            Command::Unknown
        }
    }
}

/// The value list that stands for an option that was not given: the single value `none`.
pub open spec fn default_values() -> Seq<Seq<char>> {
    seq!["none"@]
}

/// The (command, extra) pairs to run: the commands and extras given (each defaulting to
/// `none`) paired in order; `None` when the two lists differ in length.
pub open spec fn command_plan_of(commands: Option<Seq<Seq<char>>>, extras: Option<Seq<Seq<char>>>) -> Option<Seq<(Seq<char>, Seq<char>)>> {
    let c = match commands {
        Some(c) => c,
        None => default_values(),
    };
    let e = match extras {
        Some(e) => e,
        None => default_values(),
    };
    if c.len() == e.len() {
        Some(Seq::new(c.len(), |i: int| (c[i], e[i])))
    } else {
        None
    }
}

/// Pairs the commands with their extras, as the tool runs them.
pub fn command_plan(commands: Option<Vec<String>>, extras: Option<Vec<String>>) -> (r: Option<Vec<(String, String)>>)
    ensures
        r.deep_view() == command_plan_of(commands.deep_view(), extras.deep_view()),
{
    let c = match commands {
        Some(c) => c,
        None => vec!["none".to_owned()],
    };
    let e = match extras {
        Some(e) => e,
        None => vec!["none".to_owned()],
    };
    assert(c.deep_view() == (match commands.deep_view() { Some(x) => x, None => default_values() })) by {
        if commands is None {
            assert(c.deep_view() =~= default_values());
        }
    }
    assert(e.deep_view() == (match extras.deep_view() { Some(x) => x, None => default_values() })) by {
        if extras is None {
            assert(e.deep_view() =~= default_values());
        }
    }
    if c.len() != e.len() {
        return None;
    }
    let mut out: Vec<(String, String)> = Vec::new();
    let mut i: usize = 0;
    while i < c.len()
        invariant
            i <= c.len(),
            c.len() == e.len(),
            out.deep_view() =~= Seq::new(i as nat, |k: int| (c.deep_view()[k], e.deep_view()[k])),
        decreases c.len() - i,
    {
        let ghost prev = out.deep_view();
        out.push((c[i].clone(), e[i].clone()));
        assert(out.deep_view() =~= prev.push((c.deep_view()[i as int], e.deep_view()[i as int])));
        i = i + 1;
        assert(out.deep_view() =~= Seq::new(i as nat, |k: int| (c.deep_view()[k], e.deep_view()[k])));
    }
    Some(out)
}

/// The InfluxDB fields that report a build whose total duration is `total`.
pub open spec fn influx_fields_of(total: Seq<char>) -> Seq<char> {
    "start_time=1,fetch_duration=200,build_duration=201,report_duration=202,total_duration="@ + total
}

/// The InfluxDB fields that report a build whose total duration is `total`.
pub fn influx_fields(total: &str) -> (r: String)
    ensures
        r@ == influx_fields_of(total@),
{
    let mut out = chars_of("start_time=1,fetch_duration=200,build_duration=201,report_duration=202,total_duration=");
    extend_chars(&mut out, &chars_of(total));
    string_of(&out)
}

/// Why a timing could not be read.
#[derive(Clone, Copy, PartialEq, Eq, Structural, Debug)]
pub enum TimingError {
    /// The search could not be made.
    SearchFailed,
    /// The text holds no match.
    NoMatch,
    /// A group that the pattern always fills was missing.
    MissingGroup,
    /// The matched text holds no value after `=`.
    MissingValue,
    /// The value is not a number that fits.
    BadNumber,
}

/// A `Total run time <number>` line of a Bazel profile analysis; group 3 is the number.
pub const TOTAL_RUN_TIME_PATTERN: &'static str = r"(Total\srun\stime)(\s+)([+-]?([0-9]*[.])?[0-9]+)";

/// The total run time of the first match that has at least four groups: its group 3,
/// or `None` when no match has that many groups.
pub open spec fn first_run_time(ms: Seq<GroupTexts>) -> Result<Option<Seq<char>>, TimingError>
    decreases ms.len(),
{
    if ms.len() == 0 {
        Ok(None)
    } else if ms[0].len() >= 4 {
        match group_text(ms[0], 3) {
            Some(t) => Ok(Some(t)),
            None => Err(TimingError::MissingGroup),
        }
    } else {
        first_run_time(ms.drop_first())
    }
}

/// The total run time that the matches `ms` report: `NoMatch` when there is no match.
pub open spec fn run_time_of_matches(ms: Seq<GroupTexts>) -> Result<Option<Seq<char>>, TimingError> {
    if ms.len() == 0 {
        Err(TimingError::NoMatch)
    } else {
        first_run_time(ms)
    }
}

/// The total run time that the profile analysis `output` reports: the number of the
/// first `Total run time` match; `NoMatch` when there is none.
pub open spec fn total_run_time_of(output: Seq<char>) -> Result<Option<Seq<char>>, TimingError> {
    match regex_captures_of(TOTAL_RUN_TIME_PATTERN@, output) {
        None => Err(TimingError::SearchFailed),
        Some(ms) => run_time_of_matches(ms),
    }
}

/// Reads the total run time from the output of `bazel analyze-profile`.
pub fn total_run_time(output: &str) -> (r: Result<Option<String>, TimingError>)
    ensures
        match r {
            Ok(t) => total_run_time_of(output@) == Ok::<Option<Seq<char>>, TimingError>(t.deep_view()),
            Err(e) => total_run_time_of(output@) == Err::<Option<Seq<char>>, TimingError>(e),
        },
        r matches Err(e) ==> e == TimingError::NoMatch,
{
    match regex_captures(TOTAL_RUN_TIME_PATTERN, output) {
        Some(ms) => run_time_from_captures(&ms),
        None => Err(TimingError::SearchFailed),
    }
}

/// The total run time that the matches `ms` of the `Total run time` pattern report.
pub fn run_time_from_captures(ms: &Vec<Vec<Option<String>>>) -> (r: Result<Option<String>, TimingError>)
    ensures
        match r {
            Ok(t) => run_time_of_matches(ms.deep_view()) == Ok::<Option<Seq<char>>, TimingError>(t.deep_view()),
            Err(e) => run_time_of_matches(ms.deep_view()) == Err::<Option<Seq<char>>, TimingError>(e),
        },
        groups_present(ms.deep_view(), 5, 4) && ms.len() > 0 ==> (r matches Ok(t) && t is Some),
{
    if ms.len() == 0 {
        return Err(TimingError::NoMatch);
    }
    let ghost dms = ms.deep_view();
    let mut i: usize = 0;
    assert(dms.skip(0) =~= dms);
    while i < ms.len()
        invariant
            i <= ms.len(),
            dms == ms.deep_view(),
            dms.len() > 0,
            first_run_time(dms.skip(i as int)) == first_run_time(dms),
            groups_present(dms, 5, 4) ==> i == 0,
        decreases ms.len() - i,
    {
        assert(dms.skip(i as int)[0] == ms@[i as int].deep_view());
        assert(ms@[i as int].deep_view().len() == ms@[i as int].len());
        if ms[i].len() >= 4 {
            match group_at(&ms[i], 3) {
                Some(t) => return Ok(Some(t)),
                None => {
                    assert(!groups_present(dms, 5, 4)) by {
                        if groups_present(dms, 5, 4) {
                            assert(dms[i as int][3] is Some);
                        }
                    }
                    return Err(TimingError::MissingGroup);
                },
            }
        }
        assert(dms.skip(i as int).drop_first() =~= dms.skip(i + 1));
        i = i + 1;
    }
    assert(dms.skip(i as int) =~= Seq::<GroupTexts>::empty());
    Ok(None)
}

/// A `total_build_time=<ms>` entry of a Gradle profile; group 0 is the whole entry.
pub const BUILD_TIME_PATTERN: &'static str = r"total_build_time(=)([0-9]*)";

/// The build time in whole seconds that the Gradle profile line `line` reports: the
/// milliseconds after the `=` of its first `total_build_time=` entry, divided by 1000.
pub open spec fn build_seconds_of(line: Seq<char>) -> Result<usize, TimingError> {
    match regex_captures_of(BUILD_TIME_PATTERN@, line) {
        None => Err(TimingError::SearchFailed),
        Some(ms) => build_seconds_of_matches(ms),
    }
}

/// The build time in whole seconds that the matches `ms` of the build time pattern report.
pub open spec fn build_seconds_of_matches(ms: Seq<GroupTexts>) -> Result<usize, TimingError> {
    if ms.len() == 0 {
        Err(TimingError::NoMatch)
    } else {
        match group_text(ms[0], 0) {
            None => Err(TimingError::MissingGroup),
            Some(entry) => {
                let pieces = split_on(entry, '=');
                if pieces.len() < 2 {
                    Err(TimingError::MissingValue)
                } else {
                    match parsed_usize(pieces[1]) {
                        Some(ms_value) => Ok((ms_value / 1000) as usize),
                        None => Err(TimingError::BadNumber),
                    }
                }
            },
        }
    }
}

/// Reads the build time, in whole seconds, from a Gradle profile line.
pub fn gradle_build_seconds(line: &str) -> (r: Result<usize, TimingError>)
    ensures
        r == build_seconds_of(line@),
        r != Err::<usize, TimingError>(TimingError::SearchFailed),
        r != Err::<usize, TimingError>(TimingError::MissingGroup),
{
    match regex_captures(BUILD_TIME_PATTERN, line) {
        Some(ms) => build_seconds_from_captures(&ms),
        None => Err(TimingError::SearchFailed),
    }
}

/// The build time in whole seconds that the matches `ms` of the build time pattern report.
pub fn build_seconds_from_captures(ms: &Vec<Vec<Option<String>>>) -> (r: Result<usize, TimingError>)
    ensures
        r == build_seconds_of_matches(ms.deep_view()),
        groups_present(ms.deep_view(), 3, 3) ==> r != Err::<usize, TimingError>(TimingError::MissingGroup),
{
    if ms.len() == 0 {
        return Err(TimingError::NoMatch);
    }
    let entry = match group_at(&ms[0], 0) {
        Some(e) => e,
        None => return Err(TimingError::MissingGroup),
    };
    let pieces = split_chars(&chars_of(entry.as_str()), '=');
    if pieces.len() < 2 {
        return Err(TimingError::MissingValue);
    }
    assert(char_seqs(pieces@)[1] == pieces@[1]@);
    match parse_usize(&pieces[1]) {
        Some(v) => Ok(v / 1000),
        None => Err(TimingError::BadNumber),
    }
}

/// A `Total runtime <n>s <p>%` summary, searched with fancy-regex.
pub const RUNTIME_SUMMARY_PATTERN: &'static str = r"(?:Total)\s+(?:runtime)\s+(?<name3>((\d+\.?\d*)|(\.\d+)))((s|(ms)))\s(?<name4>((\d+\.?\d*)|(\.\d+)))?(%)*";

/// The first `Total runtime` summary in `text`, as its start and end byte offsets and its
/// text; the outer `None` when the search cannot be made.
pub fn runtime_summary(text: &str) -> (r: Option<Option<(usize, usize, String)>>)
    ensures
        r.deep_view() == fancy_find_of(RUNTIME_SUMMARY_PATTERN@, text@),
{
    fancy_find(RUNTIME_SUMMARY_PATTERN, text)
}

/// The sum of two sizes.
pub fn add(x: usize, y: usize) -> (r: usize)
    requires
        x + y <= usize::MAX,
    ensures
        r == x + y,
{
    x + y
}

/// The sum of two sizes.
pub fn bad_add(x: usize, y: usize) -> (r: usize)
    requires
        x + y <= usize::MAX,
    ensures
        r == x + y,
{
    x + y
}

/// A path under the working directory that `pwd` printed: its output without the final
/// newline, followed by `suffix`.
pub open spec fn path_in_working_dir_of(pwd_output: Seq<char>, suffix: Seq<char>) -> Seq<char> {
    pwd_output.drop_last() + suffix
}

/// The path `suffix` under the working directory that `pwd` printed as `pwd_output`
/// (the output's last character, its newline, is dropped; it must be a one-byte character).
pub fn path_in_working_dir(pwd_output: &str, suffix: &str) -> (r: String)
    requires
        pwd_output@.len() > 0,
        (pwd_output@.last() as u32) < 128,
    ensures
        r@ == path_in_working_dir_of(pwd_output@, suffix@),
{
    let out = chars_of(pwd_output);
    let mut head: Vec<char> = Vec::new();
    let mut i: usize = 0;
    while i + 1 < out.len()
        invariant
            out@ == pwd_output@,
            out.len() > 0,
            i + 1 <= out.len(),
            head@ =~= out@.take(i as int),
        decreases out.len() - i,
    {
        head.push(out[i]);
        i = i + 1;
        assert(head@ =~= out@.take(i as int));
    }
    assert(head@ =~= pwd_output@.drop_last());
    extend_chars(&mut head, &chars_of(suffix));
    string_of(&head)
}

/// The file in the working directory that names the Bazel command log.
pub const PATH_LOG: &'static str = "/path.log";

/// The InfluxDB fields for a Gradle build of `seconds` seconds.
pub fn gradle_influx_fields(seconds: usize) -> (r: String)
    ensures
        r@ == influx_fields_of(crate::text::decimal_text(seconds as nat)),
{
    let t = crate::text::usize_text(seconds);
    influx_fields(t.as_str())
}

/// The InfluxDB fields for a Bazel build whose profile reported `run_time`, or `0`.
pub fn bazel_influx_fields(run_time: &Option<String>) -> (r: String)
    ensures
        r@ == influx_fields_of(match run_time {
            Some(t) => t@,
            None => "0"@,
        }),
{
    match run_time {
        Some(t) => influx_fields(t.as_str()),
        None => influx_fields("0"),
    }
}

/// An event of the sample document that `android_manifest_merger` rewrites.
#[derive(Debug)]
pub enum SampleEvent {
    /// A start tag, by name.
    StartTag(Vec<u8>),
    /// An end tag, by name.
    EndTag(Vec<u8>),
    /// The end of the document.
    EndOfDocument,
    /// Any other event.
    OtherEvent,
}

/// What `android_manifest_merger` does with an event.
#[derive(Clone, Copy, PartialEq, Eq, Structural, Debug)]
pub enum SampleAction {
    /// Write a newline and a `my_elem` start tag with the event's attributes and `my-key="some value"`.
    WriteRenamedStart,
    /// Write a `my_elem` end tag.
    WriteRenamedEnd,
    /// Stop: the document is over.
    Finish,
    /// Write the event unchanged.
    CopyEvent,
}

/// The element that `android_manifest_merger` renames.
pub const SAMPLE_TAG: &'static str = "this_tag";

/// The name it receives.
pub const RENAMED_TAG: &'static str = "my_elem";

/// The attribute added to the renamed element: its key and value.
pub const ADDED_KEY: &'static str = "my-key";

/// The value of the added attribute.
pub const ADDED_VALUE: &'static str = "some value";

/// What is done with an event: the `this_tag` start and end tags are renamed,
/// the end of the document stops, and every other event is copied.
pub open spec fn sample_action_of(e: SampleEvent) -> SampleAction {
    match e {
        SampleEvent::StartTag(n) => if n@ == crate::manifest::ascii_bytes(SAMPLE_TAG@) {
            SampleAction::WriteRenamedStart
        } else {
            SampleAction::CopyEvent
        },
        SampleEvent::EndTag(n) => if n@ == crate::manifest::ascii_bytes(SAMPLE_TAG@) {
            SampleAction::WriteRenamedEnd
        } else {
            SampleAction::CopyEvent
        },
        SampleEvent::EndOfDocument => SampleAction::Finish,
        SampleEvent::OtherEvent => SampleAction::CopyEvent,
    }
}

/// What `android_manifest_merger` does with the event `e`.
pub fn sample_action(e: &SampleEvent) -> (r: SampleAction)
    ensures
        r == sample_action_of(*e),
{
    match e {
        SampleEvent::StartTag(n) => if crate::manifest::bytes_equal(n, &crate::manifest::ascii_bytes_of(SAMPLE_TAG)) {
            SampleAction::WriteRenamedStart
        } else {
            SampleAction::CopyEvent
        },
        SampleEvent::EndTag(n) => if crate::manifest::bytes_equal(n, &crate::manifest::ascii_bytes_of(SAMPLE_TAG)) {
            SampleAction::WriteRenamedEnd
        } else {
            SampleAction::CopyEvent
        },
        SampleEvent::EndOfDocument => SampleAction::Finish,
        SampleEvent::OtherEvent => SampleAction::CopyEvent,
    }
}

/// A profile entry `total_build_time=<n>` reports the whole seconds of `n` milliseconds,
/// `n / 1000`, however long the build took (a build of over a minute reports over 60).
pub proof fn lemma_build_seconds_are_whole_seconds(ms: Seq<GroupTexts>, n: usize)
    requires
        ms.len() > 0,
        group_text(ms[0], 0) == Some("total_build_time="@ + decimal_text(n as nat)),
    ensures
        build_seconds_of_matches(ms) == Ok::<usize, TimingError>(n / 1000),
{
    reveal_strlit("total_build_time=");
    reveal_strlit("total_build_time");
    let key = "total_build_time"@;
    let digits = decimal_text(n as nat);
    assert("total_build_time="@ =~= key + seq!['=']);
    assert(!key.contains('=')) by {
        if key.contains('=') {
            let k = choose|k: int| 0 <= k < key.len() && key[k] == '=';
            assert(key[k] == '=');
        }
    }
    lemma_decimal_text_digits(n as nat);
    assert(!digits.contains('=')) by {
        if digits.contains('=') {
            let k = choose|k: int| 0 <= k < digits.len() && digits[k] == '=';
            assert(is_digit(digits[k]));
        }
    }
    lemma_split_at_single_separator(key, '=', digits);
    assert("total_build_time="@ + digits =~= key + seq!['='] + digits);
    lemma_decimal_round_trip(n);
}

/// An option that is not given stands for the single value `none`, whatever the other
/// option holds: with one command and no extras, the command runs with the extra `none`.
pub proof fn lemma_missing_option_is_none(c: Seq<Seq<char>>, e: Seq<Seq<char>>)
    ensures
        command_plan_of(Some(c), None) == command_plan_of(Some(c), Some(seq!["none"@])),
        command_plan_of(None, Some(e)) == command_plan_of(Some(seq!["none"@]), Some(e)),
        c.len() == 1 ==> command_plan_of(Some(c), None) == Some(seq![(c[0], "none"@)]),
        e.len() == 1 ==> command_plan_of(None, Some(e)) == Some(seq![("none"@, e[0])]),
        command_plan_of(None, None) == Some(seq![("none"@, "none"@)]),
{
    if c.len() == 1 {
        assert(command_plan_of(Some(c), None)->0 =~= seq![(c[0], "none"@)]);
    }
    if e.len() == 1 {
        assert(command_plan_of(None, Some(e))->0 =~= seq![("none"@, e[0])]);
    }
    assert(command_plan_of(None, None)->0 =~= seq![("none"@, "none"@)]);
}

} // verus!
