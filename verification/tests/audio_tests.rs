use quiet_water::audio::{
    callback_segment, chunk_samples, push_callback_segment, join_segment_texts, offset_segments, to_duration_format,
    wav_sample_decoding, SampleDecoding, SampleKind, TranscriptionSegment, WavFormatError,
};

fn last_index<T>(slice: &[T]) -> usize {
    slice.len().saturating_sub(1)
}

#[test]
fn formats_duration_with_hours_minutes_seconds_and_centiseconds() {
    assert_eq!(to_duration_format(0), "00:00:00.00");
    assert_eq!(to_duration_format(12345), "00:02:03.45");
    assert_eq!(to_duration_format(366101), "01:01:01.01");
}

#[test]
fn duration_hours_take_more_digits_past_ninety_nine() {
    assert_eq!(to_duration_format(100 * 3600 * 100), "100:00:00.00");
    assert_eq!(to_duration_format(9 * 3600 * 100 + 59 * 6000 + 59 * 100 + 99), "09:59:59.99");
    assert_eq!(to_duration_format(u64::MAX), "51240955760304:18:36.15");
}

#[test]
fn distinct_durations_have_distinct_texts() {
    let values = [0u64, 1, 99, 100, 5999, 6000, 359999, 360000, 12345, 366101];
    for a in values {
        for b in values {
            assert_eq!(a == b, to_duration_format(a) == to_duration_format(b));
        }
    }
}

#[test]
fn chunks_samples_into_fixed_windows_with_overlap() {
    let samples: Vec<f32> = (0..(16000 * 5)).map(|value| value as f32).collect();
    let chunk_duration = 2;
    let chunk_rate = 16_000.0;
    let expected_chunk_len = chunk_duration * chunk_rate as usize;
    let chunks = chunk_samples(&samples, 16000, chunk_duration as u32, 1);

    assert_eq!(chunks.len(), 4);
    assert_eq!(chunks[0].samples.len(), expected_chunk_len);
    assert_eq!(chunks[1].samples.len(), expected_chunk_len);
    assert_eq!(chunks[2].samples.len(), expected_chunk_len);
    assert_eq!(chunks[3].samples.len(), expected_chunk_len);
    assert_eq!(chunks[0].samples[0], 0.0);
    assert_eq!(chunks[0].samples[last_index(&chunks[0].samples)], (expected_chunk_len - 1) as f32);
    assert_eq!(chunks[1].samples[0], 16_000.0);
    assert_eq!(chunks[3].samples[last_index(&chunks[3].samples)], (samples.len() - 1) as f32);
}

#[test]
fn chunk_offsets_track_the_original_audio_timeline() {
    let samples: Vec<f32> = (0..(16000 * 100)).map(|value| value as f32).collect();
    let chunks = chunk_samples(&samples, 16_000, 30, 5);

    assert_eq!(chunks.len(), 4);
    assert_eq!(chunks[0].start_sample_offset, 0);
    assert_eq!(chunks[1].start_sample_offset, 25 * 16_000);
    assert_eq!(chunks[2].start_sample_offset, 50 * 16_000);
    assert_eq!(chunks[3].start_sample_offset, 75 * 16_000);
}

#[test]
fn chunking_an_empty_stream_gives_no_chunks() {
    let samples: Vec<f32> = Vec::new();
    assert!(chunk_samples(&samples, 16_000, 30, 5).is_empty());
}

#[test]
fn zero_rate_or_duration_gives_one_chunk_of_everything() {
    let samples: Vec<i32> = (0..10).collect();
    for (rate, duration) in [(0u32, 30u32), (16_000, 0), (0, 0)] {
        let chunks = chunk_samples(&samples, rate, duration, 5);
        assert_eq!(chunks.len(), 1);
        assert_eq!(chunks[0].start_sample_offset, 0);
        assert_eq!(chunks[0].samples, samples);
    }
}

#[test]
fn short_stream_fits_in_one_chunk() {
    let samples: Vec<i32> = (0..7).collect();
    let chunks = chunk_samples(&samples, 2, 5, 1);
    assert_eq!(chunks.len(), 1);
    assert_eq!(chunks[0].samples, samples);
}

#[test]
fn overlap_as_long_as_a_chunk_steps_one_sample() {
    let samples: Vec<i32> = (0..5).collect();
    let chunks = chunk_samples(&samples, 1, 2, 9);
    let starts: Vec<usize> = chunks.iter().map(|c| c.start_sample_offset).collect();
    assert_eq!(starts, vec![0, 1, 2, 3]);
    assert_eq!(chunks[3].samples, vec![3, 4]);
}

#[test]
fn every_sample_lies_in_some_chunk_and_neighbours_share_the_overlap() {
    let samples: Vec<i32> = (0..1003).collect();
    let chunks = chunk_samples(&samples, 10, 7, 2);
    for j in 0..samples.len() {
        assert!(chunks
            .iter()
            .any(|c| c.start_sample_offset <= j && j < c.start_sample_offset + c.samples.len()));
    }
    for pair in chunks.windows(2) {
        assert_eq!(pair[0].samples.len(), 70);
        assert_eq!(pair[1].start_sample_offset, pair[0].start_sample_offset + 50);
        assert_eq!(pair[0].start_sample_offset + pair[0].samples.len() - pair[1].start_sample_offset, 20);
    }
    let last = chunks.last().unwrap();
    assert_eq!(last.start_sample_offset + last.samples.len(), samples.len());
    for chunk in &chunks {
        let start = chunk.start_sample_offset;
        assert_eq!(chunk.samples[..], samples[start..start + chunk.samples.len()]);
    }
}

#[test]
fn segments_can_be_offset_to_the_full_audio_timeline() {
    let segments = vec![
        TranscriptionSegment { start_timestamp: 0, end_timestamp: 300, text: "First".to_string() },
        TranscriptionSegment { start_timestamp: 300, end_timestamp: 700, text: "Second".to_string() },
    ];

    let offset = 25 * 100;
    let shifted = offset_segments(&segments, offset);

    assert_eq!(shifted[0].start_timestamp, 2500);
    assert_eq!(shifted[0].end_timestamp, 2800);
    assert_eq!(shifted[1].start_timestamp, 2800);
    assert_eq!(shifted[1].end_timestamp, 3200);
    assert_eq!(shifted[0].text, "First");
    assert_eq!(shifted[1].text, "Second");
}

#[test]
fn offsets_compose_and_zero_offset_changes_nothing() {
    let segments = vec![
        TranscriptionSegment { start_timestamp: 10, end_timestamp: 20, text: "a".to_string() },
        TranscriptionSegment { start_timestamp: 20, end_timestamp: 45, text: "b c".to_string() },
    ];
    let twice = offset_segments(&offset_segments(&segments, 300), 1200);
    assert_eq!(twice, offset_segments(&segments, 1500));
    assert_eq!(offset_segments(&segments, 0), segments);
    assert!(offset_segments(&[], 99).is_empty());
}

#[test]
fn segment_texts_are_joined_with_single_spaces() {
    let segments = vec![
        TranscriptionSegment { start_timestamp: 0, end_timestamp: 1, text: "Hello".to_string() },
        TranscriptionSegment { start_timestamp: 1, end_timestamp: 2, text: "there,".to_string() },
        TranscriptionSegment { start_timestamp: 2, end_timestamp: 3, text: "world.".to_string() },
    ];
    assert_eq!(join_segment_texts(&segments), "Hello there, world.");
    assert_eq!(join_segment_texts(&segments[..1]), "Hello");
    assert_eq!(join_segment_texts(&[]), "");
}

#[test]
fn recogniser_segments_are_trimmed_and_moved_to_the_audio_timeline() {
    let segment = callback_segment(120, 480, "  Good morning, team. \n", 2_500).unwrap();
    assert_eq!(segment.start_timestamp, 2_620);
    assert_eq!(segment.end_timestamp, 2_980);
    assert_eq!(segment.text, "Good morning, team.");
    assert_eq!(callback_segment(0, 10, " \t\u{3000} ", 0), None);
    assert_eq!(callback_segment(0, 10, "", 7), None);
}

#[test]
fn wav_headers_choose_the_sample_decoding() {
    assert_eq!(wav_sample_decoding(16_000, 1, SampleKind::Float, 32), Ok(SampleDecoding::Float32));
    assert_eq!(
        wav_sample_decoding(16_000, 1, SampleKind::Int, 16),
        Ok(SampleDecoding::Int16 { full_scale: i16::MAX as u32 })
    );
    assert_eq!(
        wav_sample_decoding(16_000, 1, SampleKind::Int, 24),
        Ok(SampleDecoding::Int32 { full_scale: 8_388_607 })
    );
    assert_eq!(
        wav_sample_decoding(16_000, 1, SampleKind::Int, 32),
        Ok(SampleDecoding::Int32 { full_scale: i32::MAX as u32 })
    );
    assert_eq!(
        wav_sample_decoding(16_000, 1, SampleKind::Int, 8),
        Err(WavFormatError::Unsupported { kind: SampleKind::Int, bits_per_sample: 8 })
    );
    assert_eq!(
        wav_sample_decoding(16_000, 1, SampleKind::Float, 64),
        Err(WavFormatError::Unsupported { kind: SampleKind::Float, bits_per_sample: 64 })
    );
}

#[test]
fn wav_headers_that_are_not_16khz_mono_are_refused() {
    for (rate, channels) in [(8_000u32, 2u16), (8_000, 1), (16_000, 2), (44_100, 1)] {
        let err = wav_sample_decoding(rate, channels, SampleKind::Int, 16).unwrap_err();
        assert_eq!(err, WavFormatError::NotMono16kHz);
        assert!(err.message().contains("16kHz mono WAV format"));
    }
}

#[test]
fn wav_error_messages() {
    assert_eq!(WavFormatError::NotMono16kHz.message(), "Audio file must be 16kHz mono WAV format.");
    assert_eq!(
        WavFormatError::Unsupported { kind: SampleKind::Int, bits_per_sample: 8 }.message(),
        format!("Unsupported audio format: {:?}, {} bits", SampleKind::Int, 8)
    );
    assert_eq!(
        WavFormatError::Unsupported { kind: SampleKind::Float, bits_per_sample: 64 }.message(),
        "Unsupported audio format: Float, 64 bits"
    );
}

#[test]
fn callback_reports_are_collected_in_order_and_blank_ones_dropped() {
    let mut segments = Vec::new();
    push_callback_segment(&mut segments, 0, 150, " Hello there. ", 3_000);
    push_callback_segment(&mut segments, 150, 200, "   ", 3_000);
    push_callback_segment(&mut segments, 200, 420, "\nNext point.", 3_000);
    assert_eq!(
        segments,
        vec![
            TranscriptionSegment { start_timestamp: 3_000, end_timestamp: 3_150, text: "Hello there.".to_string() },
            TranscriptionSegment { start_timestamp: 3_200, end_timestamp: 3_420, text: "Next point.".to_string() },
        ]
    );
}

#[test]
fn collecting_at_an_offset_equals_offsetting_what_was_collected_at_zero() {
    let reports: [(i64, i64, &str); 4] =
        [(0, 90, " one "), (90, 95, ""), (95, 300, "two"), (300, 310, " \t ")];
    let offset = 4_500;
    let mut at_zero = Vec::new();
    let mut at_offset = Vec::new();
    for (start, end, text) in reports {
        push_callback_segment(&mut at_zero, start, end, text, 0);
        push_callback_segment(&mut at_offset, start, end, text, offset);
    }
    assert_eq!(offset_segments(&at_zero, offset), at_offset);
    assert_eq!(at_offset.len(), 2);
    assert_eq!(at_offset[1].start_timestamp, 4_595);
}
