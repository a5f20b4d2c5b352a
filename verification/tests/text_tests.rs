use quiet_water::text::{trim, white_space};
use quiet_water::{
    append_chunk_transcript, CHUNK_DURATION_SECONDS, CHUNK_OVERLAP_SECONDS, CHUNK_SAMPLE_RATE,
};

#[test]
fn white_space_matches_std() {
    for u in 0u32..=0x10ffff {
        if let Some(c) = char::from_u32(u) {
            assert_eq!(white_space(c), c.is_whitespace(), "{u:#x}");
        }
    }
}

#[test]
fn trim_matches_std() {
    let samples = [
        "", " ", "  a  ", "\t\nline\r\n", "\u{3000}wide\u{2029}", "no-space", " a b ", "\u{85}x\u{a0}",
        "\u{200b}zero width\u{200b}", "é à ",
    ];
    for s in samples {
        assert_eq!(trim(s), s.trim(), "{s:?}");
    }
}

#[test]
fn cumulative_transcript_grows_chunk_by_chunk() {
    let mut cumulative = String::new();
    append_chunk_transcript(&mut cumulative, "  Hello team. ");
    assert_eq!(cumulative, "Hello team. ");
    append_chunk_transcript(&mut cumulative, " \n ");
    assert_eq!(cumulative, "Hello team. ");
    append_chunk_transcript(&mut cumulative, "Next item.");
    assert_eq!(cumulative, "Hello team. Next item. ");
}

#[test]
fn pipeline_chunk_settings() {
    assert_eq!((CHUNK_SAMPLE_RATE, CHUNK_DURATION_SECONDS, CHUNK_OVERLAP_SECONDS), (16_000, 30, 5));
}
