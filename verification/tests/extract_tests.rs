use dirsummary::extract::{extract_contents, is_binary, rendered_content, ExtractionResult};
use dirsummary::rules::RuleSet;

fn rules_with_max(max: u64) -> RuleSet {
    RuleSet {
        allowed_extensions: Vec::new(),
        ignored_extensions: Vec::new(),
        ignored_directory_names: Vec::new(),
        whitelisted_filenames: Vec::new(),
        ignored_filenames: Vec::new(),
        max_file_size_bytes: max,
    }
}

fn text_of(r: ExtractionResult) -> String {
    match r {
        ExtractionResult::Text(s) => s,
        other => panic!("expected text, got {:?}", other),
    }
}

#[test]
fn utf8_text_extracted() {
    let data = b"hello world".to_vec();
    let r = extract_contents(&data, &rules_with_max(1024));
    assert_eq!(text_of(r), "hello world");
}

#[test]
fn size_boundary() {
    let rules = rules_with_max(4);
    let at_limit = b"abcd".to_vec();
    let over_limit = b"abcde".to_vec();
    assert_eq!(text_of(extract_contents(&at_limit, &rules)), "abcd");
    assert!(matches!(
        extract_contents(&over_limit, &rules),
        ExtractionResult::SkippedTooLarge
    ));
}

#[test]
fn nul_byte_means_binary() {
    let mut data = vec![b'a'; 500];
    data[250] = 0;
    assert!(is_binary(&data));
    assert!(matches!(
        extract_contents(&data, &rules_with_max(1024)),
        ExtractionResult::SkippedBinary
    ));
}

#[test]
fn nul_beyond_first_kilobyte_is_not_binary() {
    let mut data = vec![b'a'; 2000];
    data[1500] = 0;
    assert!(!is_binary(&data));
    let r = extract_contents(&data, &rules_with_max(4096));
    // A NUL after the first kilobyte escapes the heuristic: the file is
    // embedded as text.
    assert!(matches!(r, ExtractionResult::Text(_)));
}

#[test]
fn size_check_comes_before_binary_check() {
    let mut data = vec![b'a'; 100];
    data[0] = 0;
    assert!(matches!(
        extract_contents(&data, &rules_with_max(10)),
        ExtractionResult::SkippedTooLarge
    ));
}

#[test]
fn shift_jis_fallback() {
    // 0x82 0xA0 is the Shift_JIS encoding of the hiragana letter "a"; it is
    // not valid UTF-8.
    let data = vec![0x82u8, 0xA0u8];
    let r = extract_contents(&data, &rules_with_max(1024));
    assert_eq!(text_of(r), "\u{3042}");
}

#[test]
fn undecodable_bytes() {
    // 0xFF is neither valid UTF-8 nor a valid Shift_JIS lead byte.
    let data = vec![0xFFu8];
    assert!(matches!(
        extract_contents(&data, &rules_with_max(1024)),
        ExtractionResult::SkippedUndecodable
    ));
}

#[test]
fn extractor_is_idempotent() {
    let rules = rules_with_max(1024);
    for data in [
        b"plain".to_vec(),
        vec![0u8, 1, 2],
        vec![0xFFu8],
        vec![0x82u8, 0xA0u8],
    ] {
        let first = extract_contents(&data, &rules);
        let second = extract_contents(&data, &rules);
        assert_eq!(first, second);
    }
}

#[test]
fn placeholder_texts_are_literal() {
    assert_eq!(
        rendered_content(ExtractionResult::SkippedTooLarge),
        "[File size exceeds limit; skipped]\n"
    );
    assert_eq!(
        rendered_content(ExtractionResult::SkippedBinary),
        "[Binary file skipped]\n"
    );
    assert_eq!(
        rendered_content(ExtractionResult::SkippedUndecodable),
        "[Cannot decode file content]"
    );
    assert_eq!(rendered_content(ExtractionResult::Text("x".to_string())), "x");
}
