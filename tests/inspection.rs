use envgrep::{
    grep_file, load_cmdline, parse_entry, scan_step, split_entry, split_segments, InspectError,
    MatchPattern, PatternError, Process, ScanStep,
};

fn pattern(text: &str, case_insensitive: bool) -> MatchPattern {
    match MatchPattern::new(text, case_insensitive) {
        Ok(p) => p,
        Err(e) => panic!("pattern {:?} did not compile: {:?}", text, e),
    }
}

fn pairs(p: &Process) -> Vec<(String, String)> {
    p.variables
        .iter()
        .map(|v| (v.key.clone(), v.value.clone()))
        .collect()
}

#[test]
fn segments_drop_empty_fields() {
    let got = split_segments(b"a\0\0bc\0");
    assert_eq!(got, vec![b"a".to_vec(), b"bc".to_vec()]);
}

#[test]
fn segments_of_empty_blob() {
    assert!(split_segments(b"").is_empty());
    assert!(split_segments(b"\0\0").is_empty());
}

#[test]
fn segments_without_trailing_nul() {
    let got = split_segments(b"A=1\0B=2");
    assert_eq!(got, vec![b"A=1".to_vec(), b"B=2".to_vec()]);
}

#[test]
fn cmdline_with_trailing_nul() {
    let line = load_cmdline(b"/bin/sh\0-c\0echo hi\0").unwrap();
    assert_eq!(line, "/bin/sh -c echo hi");
}

#[test]
fn cmdline_without_trailing_nul() {
    let line = load_cmdline(b"/bin/sh\0-c\0echo hi").unwrap();
    assert_eq!(line, "/bin/sh -c echo hi");
}

#[test]
fn cmdline_of_kernel_thread_is_empty() {
    assert_eq!(load_cmdline(b"").unwrap(), "");
}

#[test]
fn cmdline_not_text_is_an_error() {
    let r = load_cmdline(b"/bin/\xff\0x\0");
    assert!(matches!(r, Err(InspectError::CommandLineNotText)));
}

#[test]
fn entry_splits_at_first_equals() {
    let (k, v) = split_entry(b"OPTS=a=b").unwrap();
    assert_eq!(k, b"OPTS".to_vec());
    assert_eq!(v, b"a=b".to_vec());
    assert!(split_entry(b"NOEQUALS").is_none());
}

#[test]
fn entry_with_empty_value() {
    let (k, v) = parse_entry(b"EMPTY=").unwrap();
    assert_eq!(k, "EMPTY");
    assert_eq!(v, "");
}

#[test]
fn entry_rejoins_to_its_segment() {
    let seg = "KEY=va=lue";
    let (k, v) = parse_entry(seg.as_bytes()).unwrap();
    assert_eq!(format!("{}={}", k, v), seg);
}

#[test]
fn entry_not_text_is_an_error() {
    let r = parse_entry(b"BIN=\xc3\x28");
    assert!(matches!(r, Err(InspectError::EntryNotText)));
}

#[test]
fn path_value_matches_usr() {
    let p = pattern("usr", false);
    let r = grep_file(b"bash\0", b"HOME=/root\0PATH=/usr/bin:/bin\0", &p).unwrap();
    assert_eq!(r.cmdline, "bash");
    assert_eq!(
        pairs(&r),
        vec![("PATH".to_string(), "/usr/bin:/bin".to_string())]
    );
}

#[test]
fn case_insensitive_matches_secret() {
    let p = pattern("^SECRET", true);
    assert!(p.case_insensitive());
    let r = grep_file(b"app\0", b"secret_key=abc\0", &p).unwrap();
    assert_eq!(pairs(&r), vec![("secret_key".to_string(), "abc".to_string())]);
}

#[test]
fn case_sensitive_misses_secret() {
    let p = pattern("^SECRET", false);
    let r = grep_file(b"app\0", b"secret_key=abc\0", &p).unwrap();
    assert!(r.variables.is_empty());
}

#[test]
fn case_insensitive_keeps_what_case_sensitive_matches() {
    let sensitive = pattern("usr", false);
    let insensitive = pattern("usr", true);
    for seg in [&b"PATH=/usr/bin"[..], b"P=/USR", b"HOME=/root"] {
        if sensitive.matches(seg) {
            assert!(insensitive.matches(seg));
        }
    }
    assert!(!sensitive.matches(b"P=/USR"));
    assert!(insensitive.matches(b"P=/USR"));
}

#[test]
fn missing_separator_fails_the_process() {
    let p = pattern("BROKEN", false);
    let r = grep_file(b"app\0", b"A=1\0BROKEN\0B=2\0", &p);
    assert!(matches!(r, Err(InspectError::MissingSeparator)));
}

#[test]
fn unmatched_malformed_segment_is_ignored() {
    let p = pattern("^A=", false);
    let r = grep_file(b"app\0", b"A=1\0BROKEN\0", &p).unwrap();
    assert_eq!(pairs(&r), vec![("A".to_string(), "1".to_string())]);
}

#[test]
fn raw_bytes_are_matched_before_decoding() {
    let p = pattern("^BIN=", false);
    let r = grep_file(b"app\0", b"OTHER=\xff\0BIN=\xff\0", &p);
    assert!(matches!(r, Err(InspectError::EntryNotText)));
    let q = pattern("^OK=", false);
    let r = grep_file(b"app\0", b"OTHER=\xff\0OK=yes\0", &q).unwrap();
    assert_eq!(pairs(&r), vec![("OK".to_string(), "yes".to_string())]);
}

#[test]
fn matches_keep_environment_order() {
    let p = pattern("=x", false);
    let r = grep_file(b"app\0", b"Z=x\0M=y\0A=x2\0", &p).unwrap();
    assert_eq!(
        pairs(&r),
        vec![
            ("Z".to_string(), "x".to_string()),
            ("A".to_string(), "x2".to_string())
        ]
    );
}

#[test]
fn bad_cmdline_fails_before_environment() {
    let p = pattern("BROKEN", false);
    let r = grep_file(b"\xff\0", b"BROKEN\0", &p);
    assert!(matches!(r, Err(InspectError::CommandLineNotText)));
}

#[test]
fn invalid_pattern_is_rejected() {
    let r = MatchPattern::new("(unclosed", false);
    assert!(matches!(r, Err(PatternError::Invalid(_))));
}

#[test]
fn no_match_prints_nothing() {
    let p = pattern("NOPE", false);
    let r = grep_file(b"bash\0", b"HOME=/root\0", &p);
    assert!(matches!(scan_step("/proc/1/environ", &r, true), ScanStep::Skip));
    assert!(matches!(scan_step("/proc/1/environ", &r, false), ScanStep::Skip));
}

#[test]
fn record_lines_of_a_match() {
    let p = pattern("usr", false);
    let r = grep_file(b"/bin/sh\0-c\0x\0", b"PATH=/usr/bin\0", &p);
    match scan_step("/proc/7/environ", &r, false) {
        ScanStep::Report(lines) => assert_eq!(
            lines,
            vec![
                "/proc/7/environ (/bin/sh -c x):".to_string(),
                "PATH = \"/usr/bin\"".to_string(),
                String::new()
            ]
        ),
        other => panic!("unexpected step {:?}", other),
    }
}

#[test]
fn record_value_is_escaped() {
    let p = pattern("^K=", false);
    let r = grep_file(b"sh\0", b"K=a\nb\"c\0", &p);
    match scan_step("/proc/9/environ", &r, true) {
        ScanStep::Report(lines) => assert_eq!(lines[1], "K = \"a\\nb\\\"c\""),
        other => panic!("unexpected step {:?}", other),
    }
}

#[test]
fn vanished_process_is_one_line_when_verbose() {
    let r: Result<Process, InspectError> = Err(InspectError::Unreadable(
        "No such file or directory (os error 2)".to_string(),
    ));
    match scan_step("/proc/42/environ", &r, true) {
        ScanStep::Diagnose(line) => assert_eq!(
            line,
            "Error reading /proc/42/environ - No such file or directory (os error 2)"
        ),
        other => panic!("unexpected step {:?}", other),
    }
    assert!(matches!(scan_step("/proc/42/environ", &r, false), ScanStep::Skip));
}

#[test]
fn parse_failure_is_reported_when_verbose() {
    let p = pattern("X", false);
    let r = grep_file(b"sh\0", b"X\0", &p);
    match scan_step("/proc/5/environ", &r, true) {
        ScanStep::Diagnose(line) => {
            assert_eq!(line, "Error reading /proc/5/environ - environment entry has no '='")
        }
        other => panic!("unexpected step {:?}", other),
    }
}

#[test]
fn error_messages() {
    assert_eq!(InspectError::Unreadable("denied".to_string()).message(), "denied");
    assert_eq!(
        InspectError::CommandLineNotText.message(),
        "command line is not valid UTF-8"
    );
    assert_eq!(
        InspectError::EntryNotText.message(),
        "environment entry is not valid UTF-8"
    );
}

#[test]
fn negated_class_is_not_widened_by_case_folding() {
    let sensitive = pattern("^[^a]", false);
    let insensitive = pattern("^[^a]", true);
    assert!(sensitive.matches(b"A=1"));
    assert!(!insensitive.matches(b"A=1"));
}

#[test]
fn well_formed_blob_rejoins_segment_by_segment() {
    let blob = b"A=1\0B=x=y\0EMPTY=\0";
    let p = pattern("=", false);
    let r = grep_file(b"sh\0", blob, &p).unwrap();
    let rejoined: Vec<Vec<u8>> = r
        .variables
        .iter()
        .map(|v| format!("{}={}", v.key, v.value).into_bytes())
        .collect();
    assert_eq!(rejoined, split_segments(blob));
}
