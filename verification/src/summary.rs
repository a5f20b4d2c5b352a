//! Summaries: the instructions handed to the language model, and the files
//! that summaries are written to.

use vstd::prelude::*;
use crate::cli::CliArgs;
use crate::model::{file_name, is_last_component};
use crate::text::{is_first_occurrence, occurs_at, prefix_before, text_before, trim, trimmed};

verus! {

/// Directory that summaries are written to when none is given.
pub const SUMMARY_OUTPUT_DIR: &'static str = "./outputs";

/// File that holds the instructions for the language model.
pub const TRANSCRIPT_PROMPT_PATH: &'static str = "./src/transcriptor.md";

/// Heading in the instruction file after which the instructions end.
pub const RAW_TRANSCRIPT_MARKER: &'static str = "## Raw Transcript:";

/// The strftime pattern of the timestamp in a summary file's name.
pub const SUMMARY_TIMESTAMP_FORMAT: &'static str = "%Y%m%d-%H%M%S";

/// Why the summary step cannot go on.
#[derive(Debug, Clone, Copy, PartialEq, Eq)]
pub enum SummaryError {
    /// Nothing is left of the instruction file once the part from the raw
    /// transcript heading on is cut off and white space is trimmed.
    EmptyInstructions,
    /// The system clock gives no calendar time to name a summary file after
    /// (it reads before 1970, or beyond the calendar's range).
    ClockUnavailable,
}

impl SummaryError {
    /// The text of the error, as it is reported to the user.
    pub open spec fn text(self) -> Seq<char> {
        match self {
            SummaryError::EmptyInstructions => "Transcript instruction file is empty or malformed."@,
            SummaryError::ClockUnavailable => "System clock gives no calendar time for the summary file name."@,
        }
    }

    /// The text of the error, as it is reported to the user.
    pub fn message(&self) -> (r: String)
        ensures
            r@ == self.text(),
    {
        match self {
            SummaryError::EmptyInstructions => String::from_str(
                "Transcript instruction file is empty or malformed.",
            ),
            SummaryError::ClockUnavailable => String::from_str(
                "System clock gives no calendar time for the summary file name.",
            ),
        }
    }
}

/// The instructions that an instruction file's text `raw` holds: what comes
/// before the raw transcript heading, trimmed.
pub open spec fn instructions_text(raw: Seq<char>) -> Seq<char> {
    trimmed(text_before(raw, RAW_TRANSCRIPT_MARKER@))
}

/// Extracts the instructions for the language model from the text of the
/// instruction file: the part before the raw transcript heading, trimmed; an
/// error where nothing is left.
pub fn transcription_instructions(raw: &str) -> (r: Result<String, SummaryError>)
    ensures
        instructions_text(raw@).len() == 0 ==> r == Err::<String, SummaryError>(
            SummaryError::EmptyInstructions,
        ),
        instructions_text(raw@).len() > 0 ==> (r matches Ok(s) && s@ == instructions_text(raw@)),
{
    let before = prefix_before(raw, RAW_TRANSCRIPT_MARKER);
    let instructions = trim(before.as_str());
    if instructions.as_str().unicode_len() == 0 {
        Err(SummaryError::EmptyInstructions)
    } else {
        Ok(instructions)
    }
}

/// Where the raw transcript heading first occurs at index `i` of the
/// instruction file's text, the instructions are the whole text before it,
/// `raw[0..i]`, trimmed: every paragraph before the heading is kept.
pub proof fn lemma_instructions_end_at_first_marker(raw: Seq<char>, i: int)
    requires
        0 <= i,
        i + RAW_TRANSCRIPT_MARKER@.len() <= raw.len(),
        raw.subrange(i, i + RAW_TRANSCRIPT_MARKER@.len()) == RAW_TRANSCRIPT_MARKER@,
        forall|k: int|
            0 <= k < i ==> #[trigger] raw.subrange(k, k + RAW_TRANSCRIPT_MARKER@.len())
                != RAW_TRANSCRIPT_MARKER@,
    ensures
        instructions_text(raw) == trimmed(raw.subrange(0, i)),
{
    let m = RAW_TRANSCRIPT_MARKER@;
    assert(occurs_at(raw, m, i));
    assert forall|k: int| 0 <= k < i implies !occurs_at(raw, m, k) by {
        assert(raw.subrange(k, k + m.len()) != m);
    }
    assert(is_first_occurrence(raw, m, i));
    let j = choose|j: int| is_first_occurrence(raw, m, j);
    assert(is_first_occurrence(raw, m, j));
    assert(j == i);
}

/// Where the instruction file holds no raw transcript heading, the
/// instructions are its whole text, trimmed.
pub proof fn lemma_instructions_without_marker(raw: Seq<char>)
    requires
        forall|k: int|
            0 <= k && k + RAW_TRANSCRIPT_MARKER@.len() <= raw.len() ==> #[trigger] raw.subrange(
                k,
                k + RAW_TRANSCRIPT_MARKER@.len(),
            ) != RAW_TRANSCRIPT_MARKER@,
    ensures
        instructions_text(raw) == trimmed(raw),
{
    let m = RAW_TRANSCRIPT_MARKER@;
    assert forall|k: int| !occurs_at(raw, m, k) by {
        if 0 <= k && k + m.len() <= raw.len() {
            assert(raw.subrange(k, k + m.len()) != m);
        }
    }
}

} // verus!

verus! {

/// `name` placed in the directory `dir`, as `Path::join` places a relative
/// name: a `/` goes between them unless `dir` is empty or already ends in one.
pub open spec fn join_path(dir: Seq<char>, name: Seq<char>) -> Seq<char> {
    if dir.len() == 0 || dir.last() == '/' {
        dir + name
    } else {
        dir + seq!['/'] + name
    }
}

/// The name of the summary file written at the time rendered as `timestamp`.
pub open spec fn summary_file_name(timestamp: Seq<char>) -> Seq<char> {
    "summary-"@ + timestamp + ".md"@
}

/// The summary file in `dir` for the time rendered as `timestamp`.
pub open spec fn summary_file_path(dir: Seq<char>, timestamp: Seq<char>) -> Seq<char> {
    join_path(dir, summary_file_name(timestamp))
}

/// Whether `c` is a decimal digit.
pub open spec fn is_digit(c: char) -> bool {
    '0' <= c <= '9'
}

/// Whether `s` has the layout of the timestamps that name summary files
/// (`%Y%m%d-%H%M%S`): the year, as four digits or as a sign and at least four
/// digits, then four digits of month and day, `-`, and six digits of hour,
/// minute and second.
pub open spec fn is_timestamp_text(s: Seq<char>) -> bool {
    let y = s.len() - 11;
    &&& s.len() >= 15
    &&& {
        ||| y == 4 && forall|k: int| 0 <= k < 4 ==> is_digit(#[trigger] s[k])
        ||| y >= 5 && (s[0] == '+' || s[0] == '-') && forall|k: int|
            1 <= k < y ==> is_digit(#[trigger] s[k])
    }
    &&& forall|k: int| y <= k < y + 4 ==> is_digit(#[trigger] s[k])
    &&& s[y + 4] == '-'
    &&& forall|k: int| y + 5 <= k < s.len() ==> is_digit(#[trigger] s[k])
}

/// A timestamp holds no path separator and no dot.
proof fn lemma_timestamp_chars(s: Seq<char>, k: int)
    requires
        is_timestamp_text(s),
        0 <= k < s.len(),
    ensures
        s[k] != '/' && s[k] != '.',
{
    let y = s.len() - 11;
    if k < y {
        if k == 0 {
        } else {
            assert(is_digit(s[k]));
        }
    } else if k < y + 4 {
        assert(is_digit(s[k]));
    } else if k > y + 4 {
        assert(is_digit(s[k]));
    }
}

/// Places `name` in the directory `dir` (see `join_path`).
pub fn join_path_str(dir: &str, name: &str) -> (r: String)
    ensures
        r@ == join_path(dir@, name@),
{
    let dir_len = dir.unicode_len();
    let mut out = String::from_str(dir);
    if dir_len > 0 && dir.get_char(dir_len - 1) != '/' {
        proof {
            reveal_strlit("/");
        }
        out.append("/");
    }
    out.append(name);
    out
}

/// The summary file in `dir` for the time rendered as `timestamp`.
pub fn summary_path_for(dir: &str, timestamp: &str) -> (r: String)
    ensures
        r@ == summary_file_path(dir@, timestamp@),
{
    let mut name = String::from_str("summary-");
    name.append(timestamp);
    name.append(".md");
    join_path_str(dir, name.as_str())
}

/// The type of std's system clock readings, carried through as an opaque
/// value.
#[verifier::external_type_specification]
#[verifier::external_body]
pub struct ExSystemTime(std::time::SystemTime);

/// Calls `std::time::SystemTime::now()`. Nothing is claimed of the reading:
/// it is the clock's.
#[verifier::external_body]
fn system_time_now() -> std::time::SystemTime {
    std::time::SystemTime::now()
}

/// Calls `SystemTime::duration_since(UNIX_EPOCH)` on `time` and returns the
/// duration as whole seconds and the nanoseconds past them, or `None` where
/// `time` is earlier than the epoch (std returns an error then). Claimed,
/// from the documentation of `Duration::subsec_nanos`: the nanoseconds are
/// below one billion. Which duration it is, a function of the opaque
/// reading, is left unsaid.
#[verifier::external_body]
fn since_unix_epoch(time: &std::time::SystemTime) -> (r: Option<(u64, u32)>)
    ensures
        r matches Some((secs, nanos)) ==> nanos < 1_000_000_000,
{
    time.duration_since(std::time::UNIX_EPOCH).ok().map(|d| (d.as_secs(), d.subsec_nanos()))
}

/// The text that chrono renders for the UTC instant `secs` seconds and
/// `nanos` nanoseconds after the epoch with the strftime pattern `format`,
/// or `None` where chrono has no such instant.
pub uninterp spec fn chrono_utc_text(secs: i64, nanos: u32, format: Seq<char>) -> Option<Seq<char>>;

/// Calls chrono's `DateTime::from_timestamp(secs, nanos)` and, where that
/// gives an instant, renders it with `DateTime::format` and `to_string`
/// (the instant is converted to text within this item, as it has no view).
///
/// Claimed: the result is `chrono_utc_text` of the arguments, and a text
/// has the `%Y%m%d-%H%M%S` layout of `is_timestamp_text`. From chrono's
/// source: `from_timestamp` returns `None` outside its range and does not
/// panic; `write_year` writes four digits for years 0..=9999 and a sign with
/// at least four digits otherwise, and `write_two` two digits for month,
/// day, hour, minute and second.
#[verifier::external_body]
fn render_utc(secs: i64, nanos: u32, format: &str) -> (r: Option<String>)
    requires
        format@ == SUMMARY_TIMESTAMP_FORMAT@,
    ensures
        match r {
            Some(text) => chrono_utc_text(secs, nanos, format@) == Some(text@),
            None => chrono_utc_text(secs, nanos, format@) is None,
        },
        r matches Some(text) ==> is_timestamp_text(text@),
{
    chrono::DateTime::from_timestamp(secs, nanos).map(|instant| instant.format(format).to_string())
}

/// Whether `reading` can come from `since_unix_epoch`: where there is a
/// duration, its nanoseconds are below one billion.
pub open spec fn is_clock_reading(reading: Option<(u64, u32)>) -> bool {
    reading matches Some((secs, nanos)) ==> nanos < 1_000_000_000
}

/// The summary file timestamp for a clock reading (whole seconds and
/// nanoseconds since the epoch, or `None` for a clock before the epoch): the
/// UTC time that chrono renders with the summary timestamp pattern, or
/// `None` where the seconds do not fit in an `i64` or chrono has no such
/// instant.
pub open spec fn reading_timestamp(reading: Option<(u64, u32)>) -> Option<Seq<char>> {
    match reading {
        None => None,
        Some((secs, nanos)) => if secs <= i64::MAX {
            chrono_utc_text(secs as i64, nanos, SUMMARY_TIMESTAMP_FORMAT@)
        } else {
            None
        },
    }
}

/// Renders a clock reading as a summary file timestamp (see
/// `reading_timestamp`).
pub fn timestamp_from_reading(reading: Option<(u64, u32)>) -> (r: Option<String>)
    ensures
        r is None <==> reading_timestamp(reading) is None,
        r matches Some(text) ==> reading_timestamp(reading) == Some(text@) && is_timestamp_text(
            text@,
        ),
{
    match reading {
        None => None,
        Some((secs, nanos)) => {
            if secs <= i64::MAX as u64 {
                render_utc(secs as i64, nanos, SUMMARY_TIMESTAMP_FORMAT)
            } else {
                None
            }
        },
    }
}

/// Reads the system clock as whole seconds and nanoseconds since the epoch,
/// or `None` where it reads before the epoch.
fn clock_reading() -> (r: Option<(u64, u32)>)
    ensures
        is_clock_reading(r),
{
    let now = system_time_now();
    since_unix_epoch(&now)
}

/// What `summary_path_from_reading` gives for `dir` and `reading`: the
/// summary file named after the reading's timestamp, or the clock error
/// where the reading has none.
pub open spec fn summary_path_outcome(
    dir: Seq<char>,
    reading: Option<(u64, u32)>,
    r: Result<String, SummaryError>,
) -> bool {
    match reading_timestamp(reading) {
        None => r == Err::<String, SummaryError>(SummaryError::ClockUnavailable),
        Some(timestamp) => r matches Ok(path) && path@ == summary_file_path(dir, timestamp)
            && is_timestamp_text(timestamp),
    }
}

/// The summary file in `output_dir` named after the clock reading `reading`;
/// an error where the reading gives no timestamp.
pub fn summary_path_from_reading(output_dir: &str, reading: Option<(u64, u32)>) -> (r: Result<
    String,
    SummaryError,
>)
    ensures
        summary_path_outcome(output_dir@, reading, r),
{
    match timestamp_from_reading(reading) {
        Some(timestamp) => Ok(summary_path_for(output_dir, timestamp.as_str())),
        None => Err(SummaryError::ClockUnavailable),
    }
}

/// The summary file in `output_dir` named after the current time: what
/// `summary_path_from_reading` gives for the clock's reading now.
pub fn timestamped_summary_path_in(output_dir: &str) -> (r: Result<String, SummaryError>)
    ensures
        exists|reading: Option<(u64, u32)>|
            is_clock_reading(reading) && summary_path_outcome(output_dir@, reading, r),
{
    let reading = clock_reading();
    summary_path_from_reading(output_dir, reading)
}

} // verus!

verus! {

/// The directory-to-file map that a list of entries describes, later
/// entries taking precedence.
pub open spec fn entries_map(entries: Seq<(String, String)>) -> Map<Seq<char>, Seq<char>>
    decreases entries.len(),
{
    if entries.len() == 0 {
        Map::empty()
    } else {
        entries_map(entries.drop_last()).insert(entries.last().0@, entries.last().1@)
    }
}

proof fn lemma_entries_map_value(entries: Seq<(String, String)>, key: Seq<char>, i: int)
    requires
        0 <= i < entries.len(),
        entries[i].0@ == key,
        forall|j: int| i < j < entries.len() ==> #[trigger] entries[j].0@ != key,
    ensures
        entries_map(entries).contains_key(key),
        entries_map(entries)[key] == entries[i].1@,
    decreases entries.len(),
{
    let rest = entries.drop_last();
    if i < entries.len() - 1 {
        assert(entries[entries.len() - 1].0@ != key);
        assert(rest[i] == entries[i]);
        assert forall|j: int| i < j < rest.len() implies #[trigger] rest[j].0@ != key by {
            assert(rest[j] == entries[j]);
        }
        lemma_entries_map_value(rest, key, i);
    }
}

proof fn lemma_entries_map_absent(entries: Seq<(String, String)>, key: Seq<char>)
    requires
        forall|j: int| 0 <= j < entries.len() ==> #[trigger] entries[j].0@ != key,
    ensures
        !entries_map(entries).contains_key(key),
    decreases entries.len(),
{
    if entries.len() > 0 {
        let rest = entries.drop_last();
        assert(entries[entries.len() - 1].0@ != key);
        assert forall|j: int| 0 <= j < rest.len() implies #[trigger] rest[j].0@ != key by {
            assert(rest[j] == entries[j]);
        }
        lemma_entries_map_absent(rest, key);
    }
}

/// For each output directory, the summary file chosen for it during this
/// run, so that every summary written to a directory in one run refreshes
/// the same file.
pub struct SummaryPathCache {
    entries: Vec<(String, String)>,
}

impl View for SummaryPathCache {
    type V = Map<Seq<char>, Seq<char>>;

    closed spec fn view(&self) -> Map<Seq<char>, Seq<char>> {
        entries_map(self.entries@)
    }
}

/// The file for a summary in `dir`, and the map afterwards: the file chosen
/// before where there is one, otherwise the file named after `timestamp`,
/// which is then remembered for `dir`.
pub open spec fn summary_path_step(
    paths: Map<Seq<char>, Seq<char>>,
    dir: Seq<char>,
    timestamp: Seq<char>,
) -> (Map<Seq<char>, Seq<char>>, Seq<char>) {
    if paths.contains_key(dir) {
        (paths, paths[dir])
    } else {
        let path = summary_file_path(dir, timestamp);
        (paths.insert(dir, path), path)
    }
}

impl SummaryPathCache {
    /// No file chosen yet for any directory.
    pub fn new() -> (r: SummaryPathCache)
        ensures
            r@ == Map::<Seq<char>, Seq<char>>::empty(),
    {
        SummaryPathCache { entries: Vec::new() }
    }

    /// The file chosen for `dir`, if any.
    pub fn lookup(&self, dir: &str) -> (r: Option<String>)
        ensures
            r is None <==> !self@.contains_key(dir@),
            r matches Some(path) ==> path@ == self@[dir@],
    {
        let key = String::from_str(dir);
        let mut i = self.entries.len();
        while i > 0
            invariant
                i <= self.entries@.len(),
                key@ == dir@,
                forall|j: int| i <= j < self.entries@.len() ==> self.entries@[j].0@ != dir@,
            decreases i,
        {
            i = i - 1;
            if self.entries[i].0 == key {
                proof {
                    lemma_entries_map_value(self.entries@, dir@, i as int);
                }
                return Some(self.entries[i].1.clone());
            }
        }
        proof {
            lemma_entries_map_absent(self.entries@, dir@);
        }
        None
    }

    /// The file for a summary in `dir`: the one chosen before, or else the
    /// file named after `timestamp`, which is remembered for `dir`.
    pub fn path_for(&mut self, dir: &str, timestamp: &str) -> (r: String)
        ensures
            (final(self)@, r@) == summary_path_step(old(self)@, dir@, timestamp@),
    {
        match self.lookup(dir) {
            Some(path) => path,
            None => {
                let path = summary_path_for(dir, timestamp);
                self.entries.push((String::from_str(dir), path.clone()));
                proof {
                    assert(self.entries@.drop_last() == old(self).entries@);
                }
                path
            },
        }
    }
}

} // verus!

verus! {

/// Writing a summary: `contents` go to the file `path`, whose directory is
/// created first where it is missing.
#[derive(Debug, Clone, PartialEq, Eq)]
pub struct SummaryWrite {
    pub path: String,
    pub contents: String,
}

/// The directory that summaries go to: `output_dir` where given, else the
/// default output directory.
pub open spec fn output_dir_or_default(output_dir: Option<&str>) -> Seq<char> {
    match output_dir {
        Some(dir) => dir@,
        None => SUMMARY_OUTPUT_DIR@,
    }
}

/// What `write_summary_with_reading` decides for the directory `dir` and
/// the clock reading `reading`, given the files chosen before (`old_paths`)
/// and after (`new_paths`): where a file was chosen for `dir` before, the
/// summary goes there and nothing changes; otherwise, where the reading
/// gives no timestamp, the clock error, which changes nothing; else the
/// summary goes to the file named after the reading's timestamp, which is
/// then remembered for `dir`.
pub open spec fn summary_write_outcome(
    old_paths: Map<Seq<char>, Seq<char>>,
    new_paths: Map<Seq<char>, Seq<char>>,
    dir: Seq<char>,
    summary: Seq<char>,
    reading: Option<(u64, u32)>,
    r: Result<SummaryWrite, SummaryError>,
) -> bool {
    if old_paths.contains_key(dir) {
        r matches Ok(w) && w.path@ == old_paths[dir] && w.contents@ == summary && new_paths
            == old_paths
    } else {
        match reading_timestamp(reading) {
            None => r == Err::<SummaryWrite, SummaryError>(SummaryError::ClockUnavailable)
                && new_paths == old_paths,
            Some(timestamp) => r matches Ok(w) && w.contents@ == summary && is_timestamp_text(
                timestamp,
            ) && (new_paths, w.path@) == summary_path_step(old_paths, dir, timestamp),
        }
    }
}

/// Decides how `summary` is written to `output_dir` (default `./outputs`)
/// when the clock reads `reading`: to the file chosen for that directory
/// earlier in this run, or, at the first summary for it, to a new file named
/// after the reading's timestamp, which `paths` then remembers.
pub fn write_summary_with_reading(
    paths: &mut SummaryPathCache,
    summary: &str,
    output_dir: Option<&str>,
    reading: Option<(u64, u32)>,
) -> (r: Result<SummaryWrite, SummaryError>)
    ensures
        summary_write_outcome(
            old(paths)@,
            final(paths)@,
            output_dir_or_default(output_dir),
            summary@,
            reading,
            r,
        ),
{
    let dir: &str = match output_dir {
        Some(d) => d,
        None => SUMMARY_OUTPUT_DIR,
    };
    let path = match paths.lookup(dir) {
        Some(p) => p,
        None => match timestamp_from_reading(reading) {
            Some(timestamp) => paths.path_for(dir, timestamp.as_str()),
            None => {
                return Err(SummaryError::ClockUnavailable);
            },
        },
    };
    Ok(SummaryWrite { path, contents: String::from_str(summary) })
}

/// Decides how `summary` is written: to the file chosen for the output
/// directory earlier in this run, or, at the first summary for that
/// directory, to a new file named after the current time, which `paths`
/// then remembers. `output_dir` defaults to `./outputs`. This is what
/// `write_summary_with_reading` decides for the clock's reading now; the
/// writing itself is left to the caller.
pub fn write_summary(paths: &mut SummaryPathCache, summary: &str, output_dir: Option<&str>) -> (r:
    Result<SummaryWrite, SummaryError>)
    ensures
        exists|reading: Option<(u64, u32)>|
            is_clock_reading(reading) && summary_write_outcome(
                old(paths)@,
                final(paths)@,
                output_dir_or_default(output_dir),
                summary@,
                reading,
                r,
            ),
{
    let reading = clock_reading();
    write_summary_with_reading(paths, summary, output_dir, reading)
}

/// Decides how `summary` is written to `output_dir`, as `write_summary`
/// does: every summary for one directory in a run goes to the same file.
pub fn write_summary_to_dir(paths: &mut SummaryPathCache, summary: &str, output_dir: &str) -> (r:
    Result<SummaryWrite, SummaryError>)
    ensures
        exists|reading: Option<(u64, u32)>|
            is_clock_reading(reading) && summary_write_outcome(
                old(paths)@,
                final(paths)@,
                output_dir@,
                summary@,
                reading,
                r,
            ),
{
    write_summary(paths, summary, Some(output_dir))
}

/// Two summaries written one after the other to the same directory go to
/// the same file, whatever the clock read at either write: the summary is
/// refreshed in place. (Where the first write failed, nothing was chosen,
/// and the second one decides afresh.)
pub proof fn lemma_summary_writes_refresh_one_file(
    paths0: Map<Seq<char>, Seq<char>>,
    paths1: Map<Seq<char>, Seq<char>>,
    paths2: Map<Seq<char>, Seq<char>>,
    dir: Seq<char>,
    first: Seq<char>,
    second: Seq<char>,
    reading1: Option<(u64, u32)>,
    reading2: Option<(u64, u32)>,
    r1: Result<SummaryWrite, SummaryError>,
    r2: Result<SummaryWrite, SummaryError>,
)
    requires
        summary_write_outcome(paths0, paths1, dir, first, reading1, r1),
        summary_write_outcome(paths1, paths2, dir, second, reading2, r2),
        r1 is Ok,
    ensures
        r2 is Ok,
        r2->Ok_0.path@ == r1->Ok_0.path@,
        r2->Ok_0.contents@ == second,
        paths2 == paths1,
{
}

/// Once a file is chosen for a directory, every later summary for that
/// directory in the same run goes to the same file: the summary is refreshed
/// in place rather than written anew.
pub proof fn lemma_summary_path_is_stable(
    paths: Map<Seq<char>, Seq<char>>,
    dir: Seq<char>,
    first_time: Seq<char>,
    later_time: Seq<char>,
)
    ensures
        summary_path_step(summary_path_step(paths, dir, first_time).0, dir, later_time)
            == summary_path_step(paths, dir, first_time),
{
}

/// Choosing the file for one directory leaves the files chosen for the other
/// directories as they were.
pub proof fn lemma_summary_paths_per_directory(
    paths: Map<Seq<char>, Seq<char>>,
    dir: Seq<char>,
    other: Seq<char>,
    timestamp: Seq<char>,
)
    requires
        other != dir,
    ensures
        summary_path_step(paths, dir, timestamp).0.contains_key(other) == paths.contains_key(other),
        paths.contains_key(other) ==> summary_path_step(paths, dir, timestamp).0[other]
            == paths[other],
{
}

/// A summary file lies directly in its output directory: its path begins
/// with the directory, and its file name is `summary-<timestamp>.md`.
pub proof fn lemma_summary_file_in_dir(dir: Seq<char>, timestamp: Seq<char>)
    requires
        is_timestamp_text(timestamp),
    ensures
        summary_file_path(dir, timestamp).subrange(0, dir.len() as int) == dir,
        file_name(summary_file_path(dir, timestamp)) == Some(summary_file_name(timestamp)),
{
    reveal_strlit("summary-");
    reveal_strlit(".md");
    let name = summary_file_name(timestamp);
    let p = summary_file_path(dir, timestamp);
    let i = p.len() - name.len();
    assert(p.subrange(0, dir.len() as int) =~= dir);
    assert(p.subrange(i, p.len() as int) =~= name);
    assert forall|k: int| i <= k < p.len() implies #[trigger] p[k] != '/' by {
        assert(p[k] == name[k - i]);
        if k - i >= 8 && k - i < 8 + timestamp.len() {
            assert(name[k - i] == timestamp[k - i - 8]);
            lemma_timestamp_chars(timestamp, k - i - 8);
        }
    }
    assert(i == 0 || p[i - 1] == '/');
    assert(is_last_component(p, i, p.len() as int));
    let (a, b) = choose|a: int, b: int| is_last_component(p, a, b);
    crate::model::lemma_last_component_unique(p, a, b, i, p.len() as int);
    assert(name.len() >= 26);
}

} // verus!

verus! {

/// Configuration of the summarising step: the language model, the
/// instruction file and the output directory.
#[derive(Debug, Clone, PartialEq, Eq)]
pub struct SummaryService {
    pub model_name: String,
    pub prompt_path: String,
    pub output_dir: String,
}

impl SummaryService {
    /// The default configuration: the command line's default model, the
    /// default instruction file and the default output directory.
    pub fn new() -> (s: SummaryService)
        ensures
            s.model_name@ == crate::cli::DEFAULT_MODEL@,
            s.prompt_path@ == TRANSCRIPT_PROMPT_PATH@,
            s.output_dir@ == SUMMARY_OUTPUT_DIR@,
    {
        let defaults = CliArgs::from_values(Some(String::from_str("./default")), None, None, None);
        let model_name = match defaults {
            Ok(args) => args.model,
            Err(_) => String::from_str(crate::cli::DEFAULT_MODEL),
        };
        SummaryService {
            model_name,
            prompt_path: String::from_str(TRANSCRIPT_PROMPT_PATH),
            output_dir: String::from_str(SUMMARY_OUTPUT_DIR),
        }
    }

    /// The configuration with the language model `model_name`.
    pub fn with_model(self, model_name: &str) -> (s: SummaryService)
        ensures
            s.model_name@ == model_name@,
            s.prompt_path == self.prompt_path,
            s.output_dir == self.output_dir,
    {
        SummaryService { model_name: String::from_str(model_name), ..self }
    }

    /// The configuration with the instruction file `path`.
    pub fn with_prompt_path(self, path: &str) -> (s: SummaryService)
        ensures
            s.prompt_path@ == path@,
            s.model_name == self.model_name,
            s.output_dir == self.output_dir,
    {
        SummaryService { prompt_path: String::from_str(path), ..self }
    }

    /// The configuration with the output directory `dir`.
    pub fn with_output_dir(self, dir: &str) -> (s: SummaryService)
        ensures
            s.output_dir@ == dir@,
            s.model_name == self.model_name,
            s.prompt_path == self.prompt_path,
    {
        SummaryService { output_dir: String::from_str(dir), ..self }
    }

    /// Decides how `summary` is written (see the free function
    /// `write_summary`).
    pub fn write_summary(
        &self,
        paths: &mut SummaryPathCache,
        summary: &str,
        output_path: Option<&str>,
    ) -> (r: Result<SummaryWrite, SummaryError>)
        ensures
            exists|reading: Option<(u64, u32)>|
                is_clock_reading(reading) && summary_write_outcome(
                    old(paths)@,
                    final(paths)@,
                    output_dir_or_default(output_path),
                    summary@,
                    reading,
                    r,
                ),
    {
        write_summary(paths, summary, output_path)
    }
}

impl Default for SummaryService {
    fn default() -> (s: SummaryService)
        ensures
            s.model_name@ == crate::cli::DEFAULT_MODEL@,
            s.prompt_path@ == TRANSCRIPT_PROMPT_PATH@,
            s.output_dir@ == SUMMARY_OUTPUT_DIR@,
    {
        SummaryService::new()
    }
}

} // verus!
