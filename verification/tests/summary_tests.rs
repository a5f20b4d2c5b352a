use quiet_water::summary::{
    summary_path_from_reading, timestamp_from_reading, timestamped_summary_path_in,
    transcription_instructions, write_summary, write_summary_to_dir, write_summary_with_reading,
    SummaryError, SummaryPathCache, SummaryService, SUMMARY_OUTPUT_DIR, TRANSCRIPT_PROMPT_PATH,
};
use std::path::Path;

fn file_name_of(path: &str) -> String {
    Path::new(path).file_name().unwrap().to_string_lossy().to_string()
}

fn is_summary_name(name: &str) -> bool {
    let Some(stamp) = name.strip_prefix("summary-").and_then(|rest| rest.strip_suffix(".md")) else {
        return false;
    };
    stamp.len() == 15
        && stamp.char_indices().all(|(i, c)| if i == 8 { c == '-' } else { c.is_ascii_digit() })
}

#[test]
fn summary_tests_generated_summary_name_starts_with_summary_prefix() {
    let output_dir = "/tmp/quiet-water-name";

    let output_path = timestamped_summary_path_in(output_dir).unwrap();

    assert!(Path::new(&output_path).starts_with(output_dir));
    assert!(file_name_of(&output_path).starts_with("summary-"));
    assert_eq!(Path::new(&output_path).extension().and_then(|ext| ext.to_str()), Some("md"));
}

#[test]
fn summary_service_generated_summary_name_starts_with_summary_prefix() {
    let output_dir = "/tmp/quiet-water-name";
    let service = SummaryService::new();
    let mut paths = SummaryPathCache::new();

    let output_path = service.write_summary(&mut paths, "", Some(output_dir)).unwrap().path;

    assert!(Path::new(&output_path).starts_with(output_dir));
    assert!(file_name_of(&output_path).starts_with("summary-"));
    assert_eq!(Path::new(&output_path).extension().and_then(|ext| ext.to_str()), Some("md"));
}

#[test]
fn summary_file_names_carry_the_current_time() {
    let path = timestamped_summary_path_in("out").unwrap();
    assert!(path.starts_with("out/summary-"));
    let name = file_name_of(&path);
    assert!(is_summary_name(&name), "{name}");
    assert!(!name.contains('%'));
}

#[test]
fn summary_paths_join_like_std_paths() {
    for dir in ["out", "out/", "", "/", "./outputs", "a/b"] {
        let path = timestamped_summary_path_in(dir).unwrap();
        let name = file_name_of(&path);
        assert_eq!(Path::new(dir).join(&name).to_str().unwrap(), path, "{dir}");
    }
}

#[test]
fn instructions_end_before_the_raw_transcript_marker() {
    let content = "Write a summary.\n\n## Raw Transcript:\nThis is ignored.";
    assert_eq!(transcription_instructions(content).unwrap(), "Write a summary.");
}

#[test]
fn instructions_without_marker_are_the_whole_file_trimmed() {
    let content = "\n  Summarise for executives.\n- Be brief.\n\n";
    assert_eq!(transcription_instructions(content).unwrap(), "Summarise for executives.\n- Be brief.");
    let twice = "A\n## Raw Transcript:\nB\n## Raw Transcript:\nC";
    assert_eq!(transcription_instructions(twice).unwrap(), "A");
}

#[test]
fn empty_instructions_are_refused() {
    for content in ["", "   \n\t", "## Raw Transcript:\nOnly transcript", "  \n## Raw Transcript:"] {
        assert_eq!(transcription_instructions(content), Err(SummaryError::EmptyInstructions));
    }
    assert_eq!(
        SummaryError::EmptyInstructions.message(),
        "Transcript instruction file is empty or malformed."
    );
}

#[test]
fn summary_writes_go_to_the_output_directory() {
    let summary = "# Executive summary\n\n- Done";
    let mut paths = SummaryPathCache::new();

    let write = write_summary(&mut paths, summary, Some("/tmp/quiet-water-summary")).unwrap();

    assert!(Path::new(&write.path).starts_with("/tmp/quiet-water-summary"));
    assert!(file_name_of(&write.path).starts_with("summary-"));
    assert_eq!(write.contents, summary);
}

#[test]
fn refreshed_summary_goes_to_the_same_file() {
    let mut paths = SummaryPathCache::new();

    let first = write_summary(&mut paths, "# first", Some("/tmp/quiet-water-refresh")).unwrap();
    let second = write_summary(&mut paths, "# second", Some("/tmp/quiet-water-refresh")).unwrap();

    assert_eq!(first.path, second.path);
    assert_eq!(second.contents, "# second");
    assert_eq!(paths.lookup("/tmp/quiet-water-refresh"), Some(first.path.clone()));
}

#[test]
fn each_output_directory_keeps_its_own_file() {
    let mut paths = SummaryPathCache::new();
    let a = write_summary(&mut paths, "x", Some("dir-a")).unwrap();
    let b = write_summary(&mut paths, "y", Some("dir-b")).unwrap();
    let default = write_summary(&mut paths, "z", None).unwrap();
    assert!(a.path.starts_with("dir-a/summary-"));
    assert!(b.path.starts_with("dir-b/summary-"));
    assert!(default.path.starts_with(&format!("{}/summary-", SUMMARY_OUTPUT_DIR)));
    assert_eq!(write_summary(&mut paths, "again", Some("dir-a")).unwrap().path, a.path);
    assert_eq!(paths.lookup("dir-c"), None);
}

#[test]
fn cached_paths_use_the_timestamp_only_on_first_use() {
    let mut paths = SummaryPathCache::new();
    assert_eq!(paths.path_for("out", "20240101-000000"), "out/summary-20240101-000000.md");
    assert_eq!(paths.path_for("out", "20250505-121212"), "out/summary-20240101-000000.md");
    assert_eq!(paths.path_for("out/", "20250505-121212"), "out/summary-20250505-121212.md");
}

#[test]
fn uncached_summary_writes_use_a_timestamped_file() {
    let mut paths = SummaryPathCache::new();
    let write = write_summary_to_dir(&mut paths, "body", "reports").unwrap();
    assert!(write.path.starts_with("reports/summary-"));
    assert!(is_summary_name(&file_name_of(&write.path)));
    assert_eq!(write.contents, "body");
}

#[test]
fn summary_constants() {
    assert_eq!(SUMMARY_OUTPUT_DIR, "./outputs");
    assert_eq!(TRANSCRIPT_PROMPT_PATH, "./src/transcriptor.md");
}

#[test]
fn summary_tests_write_summary_to_dir_overwrites_the_same_summary_file() {
    let output_dir = "/tmp/quiet-water-refresh";
    let mut paths = SummaryPathCache::new();

    let first = write_summary_to_dir(&mut paths, "# first", output_dir).unwrap();
    let second = write_summary_to_dir(&mut paths, "# second", output_dir).unwrap();

    assert_eq!(first.path, second.path);
    assert_eq!(second.contents, "# second");
}

#[test]
fn summary_file_names_follow_the_timestamp_layout() {
    let mut paths = SummaryPathCache::new();
    let write = write_summary_to_dir(&mut paths, "body", "layout").unwrap();
    let name = file_name_of(&write.path);
    assert!(is_summary_name(&name), "{name}");
    assert_eq!(name.len(), "summary-".len() + 15 + ".md".len());
}

#[test]
fn clock_errors_have_a_message() {
    assert_eq!(
        SummaryError::ClockUnavailable.message(),
        "System clock gives no calendar time for the summary file name."
    );
    assert_ne!(SummaryError::ClockUnavailable, SummaryError::EmptyInstructions);
}

#[test]
fn clock_readings_render_as_utc_timestamps() {
    assert_eq!(timestamp_from_reading(Some((0, 0))).as_deref(), Some("19700101-000000"));
    assert_eq!(
        timestamp_from_reading(Some((1_700_000_000, 123))).as_deref(),
        Some("20231114-221320")
    );
    assert_eq!(
        timestamp_from_reading(Some((253_402_300_800, 0))).as_deref(),
        Some("+100000101-000000")
    );
    assert_eq!(timestamp_from_reading(None), None);
    assert_eq!(timestamp_from_reading(Some((u64::MAX, 0))), None);
    assert_eq!(timestamp_from_reading(Some((i64::MAX as u64, 0))), None);
}

#[test]
fn summary_paths_follow_the_clock_reading() {
    assert_eq!(
        summary_path_from_reading("out", Some((1_700_000_000, 0))),
        Ok("out/summary-20231114-221320.md".to_string())
    );
    assert_eq!(summary_path_from_reading("out", None), Err(SummaryError::ClockUnavailable));
}

#[test]
fn first_write_to_a_directory_needs_a_calendar_time() {
    let mut paths = SummaryPathCache::new();
    assert_eq!(
        write_summary_with_reading(&mut paths, "x", Some("d"), None),
        Err(SummaryError::ClockUnavailable)
    );
    assert_eq!(paths.lookup("d"), None);
    let first = write_summary_with_reading(&mut paths, "x", Some("d"), Some((0, 0))).unwrap();
    assert_eq!(first.path, "d/summary-19700101-000000.md");
    let again = write_summary_with_reading(&mut paths, "y", Some("d"), None).unwrap();
    assert_eq!(again.path, first.path);
    assert_eq!(again.contents, "y");
    let default = write_summary_with_reading(&mut paths, "z", None, Some((60, 0))).unwrap();
    assert_eq!(default.path, "./outputs/summary-19700101-000100.md");
}
