use kick::config::Config;
use kick::error::ApiError;
use kick::streaming::{
    run_buffered, run_buffered_fallible, run_chain, run_chunked, run_chunked_fallible,
    run_progress, run_progress_fallible, run_rate_limited, run_rate_limited_fallible,
    BufferedStream, ChunkedStream, ProgressStream, RateLimitedStream, StreamHandler,
    TransformKind,
};

fn flatten(chunks: &[Vec<u8>]) -> Vec<u8> {
    let mut out = Vec::new();
    for c in chunks {
        out.extend_from_slice(c);
    }
    out
}

#[test]
fn test_chunked_exact_framing() {
    // Ten bytes at chunk size four: two full chunks and a remainder of two.
    let input = vec![vec![1u8, 2, 3], vec![4, 5, 6, 7], vec![8, 9, 10]];
    let out = run_chunked(&input, 4);
    assert_eq!(out, vec![vec![1u8, 2, 3, 4], vec![5, 6, 7, 8], vec![9, 10]]);
}

#[test]
fn test_chunked_count_is_rounded_up() {
    // 10 bytes / 4 per chunk: three chunks; 8 bytes / 4: exactly two.
    let input = vec![(0u8..10).collect::<Vec<u8>>()];
    assert_eq!(run_chunked(&input, 4).len(), 3);
    let even = vec![(0u8..8).collect::<Vec<u8>>()];
    assert_eq!(run_chunked(&even, 4).len(), 2);
    let empty: Vec<Vec<u8>> = vec![];
    assert_eq!(run_chunked(&empty, 4).len(), 0);
}

#[test]
fn test_chunked_never_exceeds_size_or_emits_empty() {
    let input = vec![vec![9u8; 7], vec![], vec![9u8; 6]];
    let out = run_chunked(&input, 5);
    assert!(out.iter().all(|c| !c.is_empty() && c.len() <= 5));
    assert_eq!(flatten(&out), flatten(&input));
}

#[test]
fn test_buffered_emits_on_threshold_and_remainder() {
    let mut stage = BufferedStream::new(4);
    assert_eq!(stage.push(&[1, 2]), None);
    // Reaching the capacity flushes everything gathered so far.
    assert_eq!(stage.push(&[3, 4, 5]), Some(vec![1, 2, 3, 4, 5]));
    assert_eq!(stage.push(&[6]), None);
    // The remainder comes out exactly once at the end of the stream.
    assert_eq!(stage.finish(), Some(vec![6]));
    assert_eq!(stage.finish(), None);
}

#[test]
fn test_buffered_run_preserves_content() {
    let input = vec![vec![1u8, 2], vec![3], vec![], vec![4, 5, 6, 7, 8]];
    let out = run_buffered(&input, 3);
    assert_eq!(flatten(&out), flatten(&input));
    for (i, c) in out.iter().enumerate() {
        assert!(!c.is_empty());
        if i + 1 < out.len() {
            assert!(c.len() >= 3);
        }
    }
}

#[test]
fn test_rate_limited_passes_content_and_waits() {
    // 10,000 bytes in hundred-byte chunks at 1000 bytes/second: the pacing
    // budget is 100 bytes per tick, so from the third chunk on every other
    // chunk waits for a tick; 49 ticks in all, and the bytes are untouched.
    let input: Vec<Vec<u8>> = (0..100).map(|i| vec![i as u8; 100]).collect();
    let expected = input.clone();
    let (out, ticks) = run_rate_limited(input, 1000);
    assert_eq!(out, expected);
    assert_eq!(ticks, 49);
}

#[test]
fn test_rate_limiter_steps() {
    let mut limiter = RateLimitedStream::new(1000);
    assert_eq!(limiter.bytes_per_tick, 100);
    assert!(!limiter.needs_tick());
    limiter.charge(100);
    assert!(!limiter.needs_tick());
    limiter.charge(50);
    assert!(limiter.needs_tick());
    limiter.on_tick();
    assert!(!limiter.needs_tick());
}

#[test]
fn test_progress_reports_running_total() {
    let mut tracker = ProgressStream::new();
    assert_eq!(tracker.observe(10), 10);
    assert_eq!(tracker.observe(0), 10);
    assert_eq!(tracker.observe(5), 15);

    let input = vec![vec![0u8; 7], vec![0u8; 3]];
    let (out, total) = run_progress(input.clone());
    assert_eq!(out, input);
    assert_eq!(total, 10);
}

#[test]
fn test_chain_composition_preserves_content() {
    // Content preservation holds for any composition of transforms, in any
    // order.
    let input: Vec<Vec<u8>> = vec![
        (0u8..13).collect(),
        vec![],
        (13u8..40).collect(),
        (40u8..41).collect(),
    ];
    let chains: Vec<Vec<TransformKind>> = vec![
        vec![TransformKind::Chunked(5), TransformKind::Buffered(7)],
        vec![
            TransformKind::Buffered(3),
            TransformKind::RateLimited(1000),
            TransformKind::Chunked(11),
            TransformKind::Progress,
        ],
        vec![
            TransformKind::Progress,
            TransformKind::Chunked(1),
            TransformKind::Chunked(64),
            TransformKind::Buffered(64),
        ],
        vec![],
    ];
    for chain in chains {
        let out = run_chain(input.clone(), &chain);
        assert_eq!(flatten(&out), flatten(&input));
    }
}

#[test]
fn test_collect_stream_gathers_all_bytes() {
    let handler = StreamHandler::new(Config::new(".".to_string()));
    let items: Vec<Result<Vec<u8>, ApiError>> =
        vec![Ok(vec![1, 2, 3]), Ok(vec![]), Ok(vec![4, 5])];
    let collected = handler.collect_stream(items, None).unwrap();
    assert_eq!(collected, vec![1, 2, 3, 4, 5]);
}

#[test]
fn test_collect_stream_size_guard() {
    // Exceeding the limit aborts with the size that crossed it and never
    // returns a truncated result.
    let handler = StreamHandler::new(Config::new(".".to_string()));
    let items: Vec<Result<Vec<u8>, ApiError>> =
        vec![Ok(vec![0u8; 6]), Ok(vec![0u8; 6])];
    let err = handler.collect_stream(items, Some(10)).unwrap_err();
    match err {
        ApiError::SizeExceeded { size, limit } => {
            assert_eq!(size, 12);
            assert_eq!(limit, 10);
        }
        other => panic!("expected the size guard, got {:?}", other),
    }
}

#[test]
fn test_collect_stream_propagates_stream_error() {
    let handler = StreamHandler::new(Config::new(".".to_string()));
    let items: Vec<Result<Vec<u8>, ApiError>> = vec![
        Ok(vec![1, 2, 3]),
        Err(ApiError::Stream("cut off".to_string())),
        Ok(vec![4, 5]),
    ];
    let err = handler.collect_stream(items, None).unwrap_err();
    assert!(matches!(err, ApiError::Stream(m) if m == "cut off"));
}

#[test]
fn test_stream_handler_stages_use_config() {
    let config = Config::new(".".to_string());
    let handler = StreamHandler::new(config);
    let buffered = handler.create_buffered_stream();
    assert_eq!(buffered.buffer_size, 8192);
    let chunked = handler.create_chunked_stream();
    assert_eq!(chunked.chunk_size, 4096);
    let limited = handler.create_rate_limited_stream(1000);
    assert_eq!(limited.bytes_per_tick, 100);
    let progress = handler.track_progress();
    assert_eq!(progress.total_bytes, 0);
}

#[test]
fn test_chunked_stream_stepwise() {
    let mut stage = ChunkedStream::new(3);
    stage.push(&[1, 2, 3, 4]);
    assert_eq!(stage.next_chunk(), Some(vec![1, 2, 3]));
    assert_eq!(stage.next_chunk(), None);
    stage.push(&[5, 6, 7]);
    assert_eq!(stage.next_chunk(), Some(vec![4, 5, 6]));
    assert_eq!(stage.finish(), Some(vec![7]));
    assert_eq!(stage.finish(), None);
}

#[test]
fn test_buffered_error_drops_buffered_bytes() {
    // The first upstream error comes back verbatim and at once; the three
    // bytes sitting in the buffer are lost, never flushed.
    let items: Vec<Result<Vec<u8>, ApiError>> = vec![
        Ok(vec![1, 2, 3, 4, 5]),
        Ok(vec![6, 7, 8]),
        Err(ApiError::Stream("cut off".to_string())),
        Ok(vec![9]),
    ];
    let (out, err) = run_buffered_fallible(items, 4);
    assert_eq!(out, vec![vec![1, 2, 3, 4, 5]]);
    assert!(matches!(err, Some(ApiError::Stream(m)) if m == "cut off"));

    // The same chunks without the error flush the remainder at the end.
    let clean: Vec<Result<Vec<u8>, ApiError>> =
        vec![Ok(vec![1, 2, 3, 4, 5]), Ok(vec![6, 7, 8]), Ok(vec![9])];
    let (out, err) = run_buffered_fallible(clean, 4);
    assert_eq!(out, vec![vec![1, 2, 3, 4, 5], vec![6, 7, 8, 9]]);
    assert!(err.is_none());
}

#[test]
fn test_chunked_error_drops_partial_remainder() {
    // Seven bytes at chunk size three: two full chunks went out, the
    // one-byte remainder is lost when the error arrives.
    let items: Vec<Result<Vec<u8>, ApiError>> = vec![
        Ok(vec![1, 2, 3, 4]),
        Ok(vec![5, 6, 7]),
        Err(ApiError::Stream("gone".to_string())),
    ];
    let (out, err) = run_chunked_fallible(items, 3);
    assert_eq!(out, vec![vec![1, 2, 3], vec![4, 5, 6]]);
    assert!(matches!(err, Some(ApiError::Stream(m)) if m == "gone"));

    let clean: Vec<Result<Vec<u8>, ApiError>> = vec![Ok(vec![1, 2, 3, 4]), Ok(vec![5, 6, 7])];
    let (out, err) = run_chunked_fallible(clean, 3);
    assert_eq!(out, vec![vec![1, 2, 3], vec![4, 5, 6], vec![7]]);
    assert!(err.is_none());
}

#[test]
fn test_rate_limited_error_stops_pacing() {
    // The chunks before the error pass through untouched, in their original
    // framing, and the error comes back verbatim.
    let items: Vec<Result<Vec<u8>, ApiError>> = vec![
        Ok(vec![1u8; 100]),
        Ok(vec![2u8; 100]),
        Err(ApiError::Timeout),
        Ok(vec![3u8; 100]),
    ];
    let (out, ticks, err) = run_rate_limited_fallible(items, 1000);
    assert_eq!(out, vec![vec![1u8; 100], vec![2u8; 100]]);
    assert_eq!(ticks, 0);
    assert!(matches!(err, Some(ApiError::Timeout)));
}

#[test]
fn test_progress_error_stops_counting() {
    let items: Vec<Result<Vec<u8>, ApiError>> = vec![
        Ok(vec![0u8; 7]),
        Ok(vec![0u8; 3]),
        Err(ApiError::Stream("late".to_string())),
        Ok(vec![0u8; 100]),
    ];
    let (out, total, err) = run_progress_fallible(items);
    assert_eq!(out, vec![vec![0u8; 7], vec![0u8; 3]]);
    assert_eq!(total, 10);
    assert!(matches!(err, Some(ApiError::Stream(m)) if m == "late"));
}
