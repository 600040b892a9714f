use rally_timer::normalize::normalize;

#[test]
fn pass_token_with_newline_is_recognized() {
    let e = normalize(&b"P\n".to_vec(), 123).expect("pass line");
    assert_eq!(e.ts_ms, 123);
    assert_eq!(e.device_id, None);
}

#[test]
fn surrounding_whitespace_is_trimmed() {
    assert!(normalize(&b"  P \r\n".to_vec(), 1).is_some());
    assert!(normalize(&b"\tP".to_vec(), 1).is_some());
    assert!(normalize(&b"P".to_vec(), 1).is_some());
}

#[test]
fn anything_else_is_ignored() {
    for line in [&b""[..], b"\n", b"  \r\n", b"X\n", b"PP\n", b"p\n", b"P P\n", b"0\n"] {
        assert!(normalize(&line.to_vec(), 1).is_none());
    }
}
