use std::time::Duration;

use frama_c_mcp::span::{time_left, Span};

#[test]
fn spans_read_like_durations() {
    for (secs, nanos) in [
        (0u64, 0u32),
        (0, 12_000_000),
        (10, 0),
        (1, 500_000_000),
        (0, 999_999_999),
        (90, 1),
    ] {
        let span = Span::new(secs, nanos).unwrap();
        let duration = Duration::new(secs, nanos);
        assert_eq!(span.text(), format!("{duration:?}"));
        assert_eq!(span.as_millis(), duration.as_millis());
        assert_eq!(span.as_secs(), duration.as_secs());
        assert_eq!(span.subsec_nanos(), duration.subsec_nanos());
    }
    assert_eq!(Span::from_millis(12).text(), "12ms");
    assert_eq!(Span::from_millis(30_000).text(), "30s");
}

#[test]
fn a_full_second_is_no_fraction() {
    assert!(Span::new(1, 1_000_000_000).is_none());
}

#[test]
fn what_is_left_is_the_difference() {
    let timeout = Span::from_millis(1500);
    assert_eq!(time_left(timeout, Span::from_millis(0)), Some(timeout));
    assert_eq!(time_left(timeout, Span::from_millis(700)), Some(Span::from_millis(800)));
    assert_eq!(time_left(timeout, Span::from_millis(1500)), None);
    assert_eq!(time_left(timeout, Span::from_millis(2000)), None);
    assert!(timeout.reaches(timeout));
    assert!(!Span::from_millis(1499).reaches(timeout));
}
