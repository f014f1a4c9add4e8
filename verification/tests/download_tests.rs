use konachan_wallpaper::download::{
    all_units_ok, parse_content_length, partition, preflight_size, progress_advance,
    range_header_value, DownloadError,
};

#[test]
fn test_partition_scenario() {
    // Each range starts one byte past an exact quotient split: the
    // pad is part of the stated formula, not to be corrected.
    let ranges = partition(1000, 4);
    assert_eq!(ranges, vec![(0, 250), (251, 501), (502, 752), (753, 1003)]);
}

#[test]
fn test_partition_single_thread() {
    assert_eq!(partition(1000, 1), vec![(0, 1000)]);
    assert_eq!(partition(0, 1), vec![(0, 0)]);
}

#[test]
fn test_partition_more_threads_than_bytes() {
    let ranges = partition(5, 8);
    assert_eq!(ranges.len(), 8);
    for (i, &(start, end)) in ranges.iter().enumerate() {
        assert_eq!(start, i as u64);
        assert_eq!(end, i as u64);
    }
}

#[test]
fn test_partition_shape_spot_checks() {
    for threads in 1u8..=64 {
        for &size in [0u64, 1, 999, 1000, 12345, 4224138].iter() {
            let ranges = partition(size, threads);
            assert_eq!(ranges.len(), threads as usize);
            assert_eq!(ranges[0].0, 0);
            for w in ranges.windows(2) {
                // Pairwise disjoint, ascending, with the one-byte gap.
                assert_eq!(w[1].0, w[0].1 + 1);
            }
            let last_end = ranges[threads as usize - 1].1;
            assert!(last_end >= size);
            assert!(last_end <= size + threads as u64 - 1);
        }
    }
}

#[test]
fn test_parse_content_length() {
    assert_eq!(parse_content_length("4224138"), Ok(4224138));
    assert_eq!(parse_content_length("0"), Ok(0));
    assert_eq!(parse_content_length("+10"), Ok(10));
    assert_eq!(parse_content_length("18446744073709551615"), Ok(u64::MAX));
    assert_eq!(
        parse_content_length("18446744073709551616"),
        Err(DownloadError::SizeUnknown)
    );
    assert_eq!(parse_content_length(""), Err(DownloadError::SizeUnknown));
    assert_eq!(parse_content_length("+"), Err(DownloadError::SizeUnknown));
    assert_eq!(parse_content_length("12a"), Err(DownloadError::SizeUnknown));
    assert_eq!(parse_content_length("-5"), Err(DownloadError::SizeUnknown));
    assert_eq!(parse_content_length(" 5"), Err(DownloadError::SizeUnknown));
}

#[test]
fn test_preflight_size_missing_header() {
    // A preflight without a content-length fails before anything else
    // happens.
    assert_eq!(preflight_size(None), Err(DownloadError::SizeUnknown));
}

#[test]
fn test_preflight_size_present() {
    assert_eq!(preflight_size(Some("4224138")), Ok(4224138));
    assert_eq!(preflight_size(Some("garbage")), Err(DownloadError::SizeUnknown));
}

#[test]
fn test_all_units_ok() {
    // One failed unit fails the whole download, even after the other
    // three completed their writes.
    assert!(!all_units_ok(&vec![true, true, true, false]));
    assert!(all_units_ok(&vec![true, true, true, true]));
    assert!(all_units_ok(&vec![]));
    assert!(!all_units_ok(&vec![false]));
}

#[test]
fn test_range_header_value() {
    assert_eq!(range_header_value(0, 249), "bytes=0-249");
    assert_eq!(range_header_value(753, 1003), "bytes=753-1003");
}

#[test]
fn test_progress_advance() {
    assert_eq!(progress_advance(0, 100, 250), 100);
    assert_eq!(progress_advance(200, 100, 250), 250);
    assert_eq!(progress_advance(250, 0, 250), 250);
    assert_eq!(progress_advance(0, u64::MAX, 10), 10);
}
