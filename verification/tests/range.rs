use qshare::range::RangeSpec;

#[test]
fn parses_open_ended() {
    let r = RangeSpec::parse("bytes=100-", 1000).unwrap();
    assert_eq!(r.start, 100);
    assert_eq!(r.end, Some(999));
    assert_eq!(r.length, 900);
}

#[test]
fn parses_closed() {
    let r = RangeSpec::parse("bytes=0-1023", 5000).unwrap();
    assert_eq!(r.start, 0);
    assert_eq!(r.end, Some(1023));
    assert_eq!(r.length, 1024);
}

#[test]
fn parses_suffix() {
    let r = RangeSpec::parse("bytes=-500", 1000).unwrap();
    assert_eq!(r.start, 500);
    assert_eq!(r.end, Some(999));
    assert_eq!(r.length, 500);
}

#[test]
fn rejects_multi_range() {
    assert!(RangeSpec::parse("bytes=0-100,200-300", 1000).is_none());
}

#[test]
fn rejects_out_of_bounds_start() {
    assert!(RangeSpec::parse("bytes=2000-3000", 1000).is_none());
}

#[test]
fn clamps_end_to_size() {
    let r = RangeSpec::parse("bytes=900-9999", 1000).unwrap();
    assert_eq!(r.end, Some(999));
}

#[test]
fn rejects_inverted_range() {
    assert!(RangeSpec::parse("bytes=500-100", 1000).is_none());
}

#[test]
fn suffix_longer_than_file_covers_whole_file() {
    let r = RangeSpec::parse("bytes=-5000", 1000).unwrap();
    assert_eq!((r.start, r.end, r.length), (0, Some(999), 1000));
}

#[test]
fn zero_suffix_and_bad_unit_are_rejected() {
    assert!(RangeSpec::parse("bytes=-0", 1000).is_none());
    assert!(RangeSpec::parse("items=0-1", 1000).is_none());
    assert!(RangeSpec::parse("bytes=abc-", 1000).is_none());
    assert!(RangeSpec::parse("bytes=5", 1000).is_none());
}

#[test]
fn header_whitespace_is_trimmed() {
    let r = RangeSpec::parse("  bytes=10-19 ", 100).unwrap();
    assert_eq!((r.start, r.length), (10, 10));
}

#[test]
fn every_accepted_range_lies_inside_the_file() {
    for h in ["bytes=0-", "bytes=999-", "bytes=-1", "bytes=5-5", "bytes=0-99999"] {
        let r = RangeSpec::parse(h, 1000).unwrap();
        assert!(r.length >= 1);
        assert!(r.start + r.length <= 1000);
        assert_eq!(r.end, Some(r.start + r.length - 1));
    }
}
