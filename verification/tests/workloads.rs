use cutty::workloads::{parser_workloads, random_bytes, repeat_bytes, validate_workloads, ParserWorkload, VTEBENCH_MIN_BYTES};

#[test]
fn all_external_parser_workloads_are_valid() {
    let workloads = parser_workloads();
    assert!(validate_workloads(&workloads));
    assert_eq!(workloads.len(), 17);
    assert_eq!(workloads.iter().filter(|w| w.suite == "vtebench").count(), 12);
    assert_eq!(workloads.iter().filter(|w| w.suite == "kitty").count(), 5);
    for workload in &workloads {
        assert!(!workload.payload.is_empty());
        if workload.suite == "vtebench" {
            assert!(workload.payload.len() >= VTEBENCH_MIN_BYTES);
        }
    }
    assert_eq!(workloads[0].qualified_name(), "vtebench/cursor_motion");
    assert_eq!(workloads[16].qualified_name(), "kitty/long_escape_codes");
    assert!(workloads[1].setup == b"\x1b[?1049h".to_vec());
    assert!(workloads[12].payload.ends_with(b"\x1b[?2026l"));
    assert_eq!(workloads[13].payload.len(), 1_895_424 + 8);
    assert!(workloads[9].payload.starts_with(b"y\ny\n"));
}

#[test]
fn validation_rejects_duplicates_and_short_payloads() {
    let mut workloads = parser_workloads();
    workloads[1].name = "cursor_motion".to_string();
    assert!(!validate_workloads(&workloads));

    let mut workloads = parser_workloads();
    workloads[3].payload.truncate(10);
    assert!(!validate_workloads(&workloads));

    let mut workloads = parser_workloads();
    workloads.push(ParserWorkload::new("kitty", "extra", "one too many", Vec::new(), vec![1]));
    assert!(!validate_workloads(&workloads));
}

#[test]
fn repeat_bytes_repeats_whole_copies() {
    assert_eq!(repeat_bytes(b"abc", 7), b"abcabcabc".to_vec());
    assert_eq!(repeat_bytes(b"abc", 6), b"abcabc".to_vec());
    assert_eq!(repeat_bytes(b"abc", 2), b"abc".to_vec());
    assert!(repeat_bytes(b"abc", 0).is_empty());
}

#[test]
fn random_bytes_follow_the_generator() {
    let alphabet = b"xyz";
    let mut state: u64 = 42;
    let mut expected = Vec::new();
    for _ in 0..5 {
        state = state.wrapping_mul(6_364_136_223_846_793_005).wrapping_add(1);
        expected.push(alphabet[((state >> 32) as usize) % alphabet.len()]);
    }
    assert_eq!(random_bytes(5, alphabet, 42), expected);
    assert!(random_bytes(0, alphabet, 42).is_empty());
}

#[test]
fn random_bytes_of_no_length_need_no_alphabet() {
    assert!(random_bytes(0, b"", 7).is_empty());
    assert_eq!(random_bytes(4, b"q", 7), b"qqqq".to_vec());
}

#[test]
fn cursor_motion_payload_starts_with_a_cursor_position_command() {
    let workloads = parser_workloads();
    assert!(workloads[0].payload.starts_with(b"\x1b[1;1HA\x1b[1;2HA"));
    assert!(workloads[2].payload.starts_with(b"\x1b[HAAAA"));
    assert!(workloads[1].payload.starts_with(b"\x1b[H\x1b[38;5;102;48;5;353;1;3;4mA"));
}
