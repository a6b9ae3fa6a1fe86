use rsmem::error::MemoryError;
use rsmem::pattern::{find_all_occurrences, parse_pattern, compare_func, PatternToken};
use rsmem::scan::{region_hits, scan_regions, search_pattern, RegionBytes};

fn sample_region() -> Vec<RegionBytes> {
    vec![RegionBytes {
        base: 0x1000,
        bytes: vec![
            0x00, 0x11, 0x22, 0x33, 0x44, 0x55, 0x66, 0x77, 0x88, 0x99, 0xAA, 0xBB, 0xCC, 0xDD,
            0xEE, 0xFF,
        ],
    }]
}

#[test]
fn wildcard_in_middle_finds_one_address() {
    let r = search_pattern(&sample_region(), b"22 ?? 44").unwrap();
    assert_eq!(r, vec![0x1002]);
}

#[test]
fn absent_pattern_finds_nothing() {
    let r = search_pattern(&sample_region(), b"FF FF").unwrap();
    assert_eq!(r, Vec::<usize>::new());
}

#[test]
fn single_wildcard_matches_every_address() {
    let r = search_pattern(&sample_region(), b"??").unwrap();
    let expected: Vec<usize> = (0x1000..=0x100F).collect();
    assert_eq!(r, expected);
}

#[test]
fn wildcards_only_match_every_fitting_offset() {
    let r = search_pattern(&sample_region(), b"?? ?? ??").unwrap();
    let expected: Vec<usize> = (0x1000..=0x100D).collect();
    assert_eq!(r, expected);
}

#[test]
fn concrete_bytes_match_exactly() {
    let r = search_pattern(&sample_region(), b"33 44").unwrap();
    assert_eq!(r, vec![0x1003]);
    let r = search_pattern(&sample_region(), b"33 45").unwrap();
    assert!(r.is_empty());
}

#[test]
fn overlapping_matches_are_reported() {
    let pat = parse_pattern(b"41 41").unwrap();
    assert_eq!(find_all_occurrences(b"AAAAA", &pat), vec![0, 1, 2, 3]);
}

#[test]
fn pattern_longer_than_buffer_matches_nothing() {
    let pat = parse_pattern(b"?? ?? ??").unwrap();
    assert!(find_all_occurrences(b"AB", &pat).is_empty());
}

#[test]
fn empty_pattern_matches_nothing() {
    let pat = parse_pattern(b"   ").unwrap();
    assert!(pat.is_empty());
    assert!(find_all_occurrences(b"ABC", &pat).is_empty());
    assert!(search_pattern(&sample_region(), b"").unwrap().is_empty());
}

#[test]
fn parse_reads_hex_in_either_case_and_wildcards() {
    let pat = parse_pattern(b" aB\t??\n0f ").unwrap();
    assert_eq!(
        pat,
        vec![PatternToken::AnyOf(vec![0xAB]), PatternToken::Wildcard, PatternToken::AnyOf(vec![0x0F])]
    );
}

#[test]
fn parse_rejects_malformed_tokens() {
    for text in [&b"2"[..], b"GG", b"123", b"?", b"2?", b"11 2", b"?? ?x"] {
        assert_eq!(parse_pattern(text), Err(MemoryError::MalformedPattern));
    }
    assert_eq!(search_pattern(&sample_region(), b"zz"), Err(MemoryError::MalformedPattern));
}

#[test]
fn compare_checks_window_bounds() {
    let pat = parse_pattern(b"42 ??").unwrap();
    assert!(compare_func(b"ABC", 1, &pat));
    assert!(!compare_func(b"ABC", 0, &pat));
    assert!(!compare_func(b"ABC", 2, &pat));
}

#[test]
fn byte_sets_accept_any_member() {
    let pat = vec![PatternToken::AnyOf(vec![0x01, 0x03]), PatternToken::Wildcard];
    assert_eq!(find_all_occurrences(&[0x01, 0x02, 0x03, 0x04, 0x02], &pat), vec![0, 2]);
}

#[test]
fn region_hits_are_absolute() {
    let pat = parse_pattern(b"BB").unwrap();
    assert_eq!(region_hits(0x4000, &[0xAA, 0xBB, 0xBB], &pat), vec![0x4001, 0x4002]);
}

#[test]
fn region_running_past_address_space_is_unreadable() {
    let pat = parse_pattern(b"??").unwrap();
    assert!(region_hits(usize::MAX - 1, &[1, 2, 3, 4], &pat).is_empty());
}

#[test]
fn regions_are_searched_in_order() {
    let chunks = vec![
        RegionBytes { base: 0x9000, bytes: vec![0x90, 0x90, 0xC3] },
        RegionBytes { base: 0x100, bytes: vec![] },
        RegionBytes { base: 0x2000, bytes: vec![0xC3, 0x90, 0x90, 0x90] },
    ];
    let pat = parse_pattern(b"90 90").unwrap();
    assert_eq!(scan_regions(&chunks, &pat), vec![0x9000, 0x2001, 0x2002]);
}

#[test]
fn unicode_whitespace_separates_tokens() {
    let nbsp = "22\u{00A0}44".as_bytes().to_vec();
    assert_eq!(
        parse_pattern(&nbsp).unwrap(),
        vec![PatternToken::AnyOf(vec![0x22]), PatternToken::AnyOf(vec![0x44])]
    );
    let text = "\u{3000}?? \u{2003}41\u{2029}\u{0085}42\u{205F}\u{1680}".as_bytes().to_vec();
    assert_eq!(
        parse_pattern(&text).unwrap(),
        vec![PatternToken::Wildcard, PatternToken::AnyOf(vec![0x41]), PatternToken::AnyOf(vec![0x42])]
    );
    let r = search_pattern(&sample_region(), "22\u{202F}??\u{00A0}44".as_bytes()).unwrap();
    assert_eq!(r, vec![0x1002]);
}

#[test]
fn non_space_unicode_is_malformed() {
    assert_eq!(parse_pattern("22\u{00E9}44".as_bytes()), Err(MemoryError::MalformedPattern));
    assert_eq!(parse_pattern("22\u{200B}44".as_bytes()), Err(MemoryError::MalformedPattern));
}
