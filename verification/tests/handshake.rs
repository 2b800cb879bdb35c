use taurigo::handshake::{base_url_for_port, parse_handshake, stdout_port, HANDSHAKE_PREFIX};

#[test]
fn parse_handshake_reads_the_port_out_of_a_valid_line() {
    assert_eq!(parse_handshake("PORT=54213"), Some(54213));
}

#[test]
fn parse_handshake_rejects_lines_without_the_prefix() {
    assert_eq!(parse_handshake("54213"), None);
    assert_eq!(parse_handshake(""), None);
}

#[test]
fn parse_handshake_rejects_a_non_numeric_port() {
    assert_eq!(parse_handshake("PORT=abc"), None);
}

#[test]
fn handshake_prefix_is_port_equals() {
    assert_eq!(HANDSHAKE_PREFIX, "PORT=");
}

#[test]
fn parse_handshake_trims_around_the_port() {
    assert_eq!(parse_handshake("PORT=  8080 \t"), Some(8080));
    assert_eq!(parse_handshake("PORT=\u{3000}8080\u{a0}"), Some(8080));
}

#[test]
fn parse_handshake_needs_the_prefix_at_the_very_start() {
    assert_eq!(parse_handshake(" PORT=8080"), None);
    assert_eq!(parse_handshake("port=8080"), None);
    assert_eq!(parse_handshake("PORT:8080"), None);
}

#[test]
fn parse_handshake_follows_u16_parsing() {
    assert_eq!(parse_handshake("PORT=+80"), Some(80));
    assert_eq!(parse_handshake("PORT=00080"), Some(80));
    assert_eq!(parse_handshake("PORT=0"), Some(0));
    assert_eq!(parse_handshake("PORT=65535"), Some(65535));
    assert_eq!(parse_handshake("PORT=65536"), None);
    assert_eq!(parse_handshake("PORT=999999999999"), None);
    assert_eq!(parse_handshake("PORT=-1"), None);
    assert_eq!(parse_handshake("PORT=+"), None);
    assert_eq!(parse_handshake("PORT="), None);
    assert_eq!(parse_handshake("PORT=   "), None);
    assert_eq!(parse_handshake("PORT=80 80"), None);
    assert_eq!(parse_handshake("PORT=８０"), None);
}

#[test]
fn parse_handshake_agrees_with_std_parsing_on_samples() {
    for rest in ["1", "+1", "001", "65535", "65536", "x", "", "+", "-0", " 7 ", "7a"] {
        let expected: Option<u16> = rest.trim().parse().ok();
        assert_eq!(parse_handshake(&format!("PORT={rest}")), expected, "{rest}");
    }
}

#[test]
fn handshake_line_round_trips_for_every_port() {
    for port in [0u16, 1, 9, 10, 99, 100, 1024, 54213, 65535] {
        assert_eq!(parse_handshake(&format!("{HANDSHAKE_PREFIX}{port}")), Some(port));
    }
}

#[test]
fn stdout_port_reads_a_handshake_line_with_its_newline() {
    assert_eq!(stdout_port(b"PORT=54213\n"), Some(54213));
    assert_eq!(stdout_port(b"  PORT=54213\r\n"), Some(54213));
}

#[test]
fn stdout_port_ignores_other_output() {
    assert_eq!(stdout_port(b"listening\n"), None);
    assert_eq!(stdout_port(b""), None);
    assert_eq!(stdout_port(b"\xffPORT=1"), None);
}

#[test]
fn stdout_port_decodes_invalid_utf8_lossily() {
    assert_eq!(stdout_port(b"PORT=12\xff"), None);
    assert_eq!(stdout_port(b"PORT=12\n\xff"), None);
}

#[test]
fn base_url_for_port_is_the_loopback_url() {
    assert_eq!(base_url_for_port(54213), "http://127.0.0.1:54213");
    assert_eq!(base_url_for_port(0), "http://127.0.0.1:0");
    assert_eq!(base_url_for_port(65535), "http://127.0.0.1:65535");
    assert_eq!(base_url_for_port(100), "http://127.0.0.1:100");
}

