use find_work::github::{decimal_text, decode_file, issues_path, MilestoneCache};

#[test]
fn decodes_base64_file_content() {
    let s = decode_file("file", "base64", "UHV0IHlvdXIgR2l0SHViIHRva2Vu\nIGhlcmUK\n").unwrap();
    assert_eq!(s, "Put your GitHub token here\n");
}

#[test]
fn rejects_other_kinds_and_encodings() {
    assert_eq!(decode_file("dir", "base64", "").unwrap_err().0, "Expected file, found dir");
    assert_eq!(decode_file("file", "utf-8", "").unwrap_err().0, "Expected base64, found utf-8");
    assert!(decode_file("file", "base64", "!!!!").is_err());
    // 0xff is not UTF-8.
    assert!(decode_file("file", "base64", "/w==").is_err());
}

#[test]
fn writes_decimal_numbers() {
    assert_eq!(decimal_text(0), "0");
    assert_eq!(decimal_text(7), "7");
    assert_eq!(decimal_text(42), "42");
    assert_eq!(decimal_text(1000), "1000");
    assert_eq!(decimal_text(u32::MAX), "4294967295");
}

#[test]
fn builds_issue_paths() {
    assert_eq!(issues_path("nrc/testing", "label-1,label-2", None), "/repos/nrc/testing/issues?labels=label-1,label-2");
    assert_eq!(issues_path("o/r", "a", Some(12)), "/repos/o/r/issues?labels=a&milestone=12");
}

#[test]
fn milestone_numbers_are_looked_up_per_repository() {
    let mut cache = MilestoneCache::new();
    assert!(!cache.contains("o/r"));
    assert!(cache.number("o/r", "1.0").is_err());
    cache.insert("o/r".to_owned(), vec![("1.0".to_owned(), 3), ("2.0".to_owned(), 5), ("1.0".to_owned(), 9)]);
    assert!(cache.contains("o/r"));
    assert!(!cache.contains("o/s"));
    assert_eq!(cache.number("o/r", "1.0").unwrap(), 9);
    assert_eq!(cache.number("o/r", "2.0").unwrap(), 5);
    assert_eq!(cache.number("o/r", "3.0").unwrap_err().0, "Bad milestone 3.0 in o/r");
}

#[test]
fn builds_other_api_paths() {
    assert_eq!(find_work::github::milestones_path("o/r"), "/repos/o/r/milestones");
    assert_eq!(find_work::github::contents_path("nrc/find-work", "data/tabs.json"), "/repos/nrc/find-work/contents/data/tabs.json");
    assert_eq!(find_work::github::api_url("/repos/o/r"), "https://api.github.com/repos/o/r");
}
