use aegis_proxy::ranges::HttpRange;

#[test]
fn test_parse_valid() {
    assert_eq!(HttpRange::parse("bytes=0-499"), Some(vec![HttpRange::Range(0, 499)]));
    assert_eq!(HttpRange::parse("bytes=500-"), Some(vec![HttpRange::StartOnly(500)]));
    assert_eq!(HttpRange::parse("bytes=-500"), Some(vec![HttpRange::Suffix(500)]));
    assert_eq!(
        HttpRange::parse("bytes=0-100, 200-300"),
        Some(vec![HttpRange::Range(0, 100), HttpRange::Range(200, 300)])
    );
    assert_eq!(
        HttpRange::parse("bytes=500-, -500"),
        Some(vec![HttpRange::StartOnly(500), HttpRange::Suffix(500)])
    );
}

#[test]
fn test_parse_invalid() {
    assert_eq!(HttpRange::parse("lines=0-100"), None);
    assert_eq!(HttpRange::parse("bytes=100-0"), None);
    assert_eq!(HttpRange::parse("bytes=abc-def"), None);
    assert_eq!(HttpRange::parse("bytes=-"), None);
}

#[test]
fn test_resolve() {
    let size = 1000;
    assert_eq!(HttpRange::Range(0, 499).resolve(size), Some((0, 499)));
    assert_eq!(HttpRange::Range(500, 1500).resolve(size), Some((500, 999)));
    assert_eq!(HttpRange::Range(1000, 1500).resolve(size), None);
    assert_eq!(HttpRange::StartOnly(500).resolve(size), Some((500, 999)));
    assert_eq!(HttpRange::StartOnly(1000).resolve(size), None);
    assert_eq!(HttpRange::Suffix(500).resolve(size), Some((500, 999)));
    assert_eq!(HttpRange::Suffix(1500).resolve(size), Some((0, 999)));
    assert_eq!(HttpRange::Suffix(0).resolve(size), None);
}

#[test]
fn ranges_blank_pieces_are_skipped_and_empty_lists_refused() {
    assert_eq!(HttpRange::parse("bytes= 1-2 ,,"), Some(vec![HttpRange::Range(1, 2)]));
    assert_eq!(HttpRange::parse("bytes="), None);
    assert_eq!(HttpRange::parse("bytes=,"), None);
    assert_eq!(HttpRange::parse("bytes=+5-7"), Some(vec![HttpRange::Range(5, 7)]));
    assert_eq!(HttpRange::parse("bytes=1-2-3"), None);
    assert_eq!(HttpRange::parse("bytes=18446744073709551616-"), None);
}

#[test]
fn ranges_resolve_empty_body_and_bounds() {
    assert_eq!(HttpRange::Range(0, 0).resolve(0), None);
    assert_eq!(HttpRange::Suffix(1).resolve(1), Some((0, 0)));
    for r in [HttpRange::Range(3, 9), HttpRange::StartOnly(2), HttpRange::Suffix(7)] {
        let (a, b) = r.resolve(5).unwrap();
        assert!(a <= b && b < 5);
    }
}
