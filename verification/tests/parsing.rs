use remoterm::{
    authenticate, bind_host, fresh_password, parse_addr, parse_password, parse_port,
    password_from, password_of, port_or_default, session_line, shell_or_default,
    InvalidPassword, BUFSIZE, EVENT_CAPACITY, PASSLEN, PORT, PTY_COLS, PTY_ROWS, STDIN_CHUNK,
};
use std::io::{Error, ErrorKind};

fn addr(input: &str) -> Option<(String, u16)> {
    parse_addr(input)
}

fn some(host: &str, port: u16) -> Option<(String, u16)> {
    Some((host.to_string(), port))
}

#[test]
fn constants_are_the_documented_ones() {
    assert_eq!(PORT, 53202);
    assert_eq!(PASSLEN, 32);
    assert_eq!(BUFSIZE, 8 * 1024);
    assert_eq!(EVENT_CAPACITY, 1024);
    assert_eq!(STDIN_CHUNK, 1024);
    assert_eq!((PTY_COLS, PTY_ROWS), (80, 32));
}

#[test]
fn address_with_port() {
    assert_eq!(addr("192.0.2.4:2222"), some("192.0.2.4", 2222));
}

#[test]
fn address_without_port_gets_the_default() {
    assert_eq!(addr("192.0.2.4"), some("192.0.2.4", 53202));
    assert_eq!(addr("example.org"), some("example.org", PORT));
    assert_eq!(addr(""), some("", PORT));
}

#[test]
fn address_with_a_port_that_is_none() {
    assert_eq!(addr("nohost:nan"), None);
    assert_eq!(addr("host:"), None);
    assert_eq!(addr("host:65536"), None);
    assert_eq!(addr("host:-1"), None);
    assert_eq!(addr("host: 80"), None);
    assert_eq!(addr("host:80 "), None);
    assert_eq!(addr("host:8o"), None);
    assert_eq!(addr("host:+"), None);
}

#[test]
fn address_splits_at_the_last_colon() {
    assert_eq!(addr("[::1]:8080"), some("[::1]", 8080));
    assert_eq!(addr("a:b:7"), some("a:b", 7));
    assert_eq!(addr(":80"), some("", 80));
    assert_eq!(addr("::1"), some(":", 1));
    assert_eq!(addr("h\u{f6}st.example:443"), some("h\u{f6}st.example", 443));
    assert_eq!(addr("host:22:"), None);
}

#[test]
fn port_limits() {
    assert_eq!(parse_port("0"), Some(0));
    assert_eq!(parse_port("65535"), Some(65535));
    assert_eq!(parse_port("65536"), None);
    assert_eq!(parse_port("99999999999999999999999999"), None);
    assert_eq!(parse_port("0000000000000000000000065535"), Some(65535));
    assert_eq!(parse_port("+53202"), Some(53202));
    assert_eq!(parse_port("++1"), None);
    assert_eq!(parse_port("+"), None);
    assert_eq!(parse_port(""), None);
    assert_eq!(parse_port("-0"), None);
    assert_eq!(parse_port("12a"), None);
    assert_eq!(parse_port("\u{661}\u{662}"), None);
}

#[test]
fn port_reads_as_the_standard_library_reads_it() {
    let mut samples: Vec<String> = Vec::new();
    for n in [0u32, 1, 9, 10, 80, 443, 6553, 65534, 65535, 65536, 65540, 70000, 99999, 655350] {
        samples.push(n.to_string());
        samples.push(format!("+{}", n));
        samples.push(format!("-{}", n));
        samples.push(format!("0{}", n));
        samples.push(format!("{} ", n));
        samples.push(format!(" {}", n));
        samples.push(format!("{}x", n));
        samples.push(format!("{}+", n));
    }
    for s in ["", "+", "-", "++", "+-1", "0x10", "1_000", "1e3", "١٢٣", "/", ":", "4294967296", "4294967377"] {
        samples.push(s.to_string());
    }
    for s in samples {
        assert_eq!(parse_port(&s), s.parse::<u16>().ok(), "on {:?}", s);
    }
}

#[test]
fn port_argument_of_the_server() {
    assert_eq!(port_or_default(None), (53202, false));
    assert_eq!(port_or_default(Some("2222")), (2222, false));
    assert_eq!(port_or_default(Some("port")), (53202, true));
    assert_eq!(port_or_default(Some("70000")), (53202, true));
    assert_eq!(port_or_default(Some("")), (53202, true));
}

#[test]
fn password_line_is_split_at_the_first_dash() {
    let line = format!("ABCD-{}", "X".repeat(32));
    let c = parse_password(&line).unwrap();
    assert_eq!(c.fingerprint(), "ABCD");
    assert_eq!(c.password(), "X".repeat(32));
}

#[test]
fn password_of_the_wrong_length_is_refused() {
    assert_eq!(parse_password("ABCD-shortpw").unwrap_err(), InvalidPassword);
    assert_eq!(parse_password("no-dash-here").unwrap_err(), InvalidPassword);
    assert!(parse_password(&format!("ABCD-{}", "X".repeat(31))).is_err());
    assert!(parse_password(&format!("ABCD-{}", "X".repeat(33))).is_err());
    assert!(parse_password("ABCD-").is_err());
    assert!(parse_password("-").is_err());
}

#[test]
fn line_without_a_dash_is_refused() {
    assert!(parse_password("").is_err());
    assert!(parse_password(&"X".repeat(32)).is_err());
    assert!(parse_password(&"X".repeat(33)).is_err());
}

#[test]
fn later_dashes_belong_to_the_password() {
    let password = format!("{}-{}-", "a".repeat(15), "b".repeat(15));
    assert_eq!(password.len(), 32);
    let c = parse_password(&format!("0A1B-{}", password)).unwrap();
    assert_eq!(c.fingerprint(), "0A1B");
    assert_eq!(c.password(), password);
}

#[test]
fn an_empty_fingerprint_is_no_fault_of_the_line() {
    let c = parse_password(&format!("-{}", "p".repeat(32))).unwrap();
    assert_eq!(c.fingerprint(), "");
    assert_eq!(c.password(), "p".repeat(32));
}

#[test]
fn password_length_counts_bytes() {
    // Sixteen characters of two bytes each are thirty-two bytes.
    let two_bytes = "\u{e9}".repeat(16);
    assert_eq!(two_bytes.len(), 32);
    let c = parse_password(&format!("FF-{}", two_bytes)).unwrap();
    assert_eq!(c.password(), two_bytes);
    // Thirty-two such characters are sixty-four bytes.
    assert!(parse_password(&format!("FF-{}", "\u{e9}".repeat(32))).is_err());
    // A fingerprint may hold any character.
    let c = parse_password(&format!("\u{e9}\u{20ac}-{}", "z".repeat(32))).unwrap();
    assert_eq!(c.fingerprint(), "\u{e9}\u{20ac}");
}

#[test]
fn invalid_password_says_so() {
    assert_eq!(InvalidPassword.message(), "invalid password");
}

#[test]
fn session_line_joins_with_a_dash() {
    assert_eq!(session_line("ABCD", "pw"), "ABCD-pw");
    assert_eq!(session_line("", ""), "-");
}

#[test]
fn what_the_server_prints_the_client_reads() {
    let fingerprint = "9F86D081884C7D659A2FEAA0C55AD015A3BF4F1B2B0B822CD15D6C15B0F00A08";
    let password = fresh_password().unwrap();
    let c = parse_password(&session_line(fingerprint, &password)).unwrap();
    assert_eq!(c.fingerprint(), fingerprint);
    assert_eq!(c.password(), password);
}

#[test]
fn fresh_password_has_the_length_and_the_letters() {
    let mut all = String::new();
    for _ in 0..50 {
        let p = fresh_password().unwrap();
        assert_eq!(p.len(), PASSLEN);
        assert_eq!(p.chars().count(), PASSLEN);
        assert!(p.chars().all(|c| c.is_ascii_alphanumeric()), "{:?}", p);
        all.push_str(&p);
    }
    // Fifty passwords that were all one and the same letter would not be random.
    let first = all.chars().next().unwrap();
    assert!(all.chars().any(|c| c != first));
}

#[test]
fn a_password_is_made_of_the_characters_drawn() {
    let drawn: Vec<char> = "abcdefghijklmnopqrstuvwxyzABCDEF".chars().collect();
    assert_eq!(password_of(&drawn), "abcdefghijklmnopqrstuvwxyzABCDEF");
    let drawn: Vec<char> = "0123456789".repeat(4).chars().take(32).collect();
    assert_eq!(password_of(&drawn), "01234567890123456789012345678901");
}

#[test]
fn an_opened_source_always_gives_a_password() {
    for _ in 0..20 {
        let p = password_from(rand::OsRng::new()).unwrap();
        assert_eq!(p.len(), PASSLEN);
        assert!(p.chars().all(|c| c.is_ascii_alphanumeric()), "{:?}", p);
    }
}

#[test]
fn a_source_that_cannot_be_opened_gives_its_failure() {
    let failure = password_from(Err(Error::new(ErrorKind::NotFound, "no source"))).unwrap_err();
    assert_eq!(failure.kind(), ErrorKind::NotFound);
    assert_eq!(failure.to_string(), "no source");
    let failure = password_from(Err(Error::new(ErrorKind::WouldBlock, "later"))).unwrap_err();
    assert_eq!(failure.kind(), ErrorKind::WouldBlock);
}

#[test]
fn fresh_passwords_differ() {
    assert_ne!(fresh_password().unwrap(), fresh_password().unwrap());
}

#[test]
fn the_right_password_opens() {
    let password = "A".repeat(32);
    assert!(authenticate(password.as_bytes(), &password).is_some());
}

#[test]
fn a_wrong_password_does_not_open() {
    let password = "A".repeat(32);
    assert!(authenticate("B".repeat(32).as_bytes(), &password).is_none());
    let mut almost = password.clone().into_bytes();
    almost[31] = b'B';
    assert!(authenticate(&almost, &password).is_none());
    almost[31] = b'A';
    almost[0] = b'a';
    assert!(authenticate(&almost, &password).is_none());
}

#[test]
fn a_password_of_another_length_does_not_open() {
    let password = "A".repeat(32);
    assert!(authenticate(b"", &password).is_none());
    assert!(authenticate("A".repeat(31).as_bytes(), &password).is_none());
    assert!(authenticate("A".repeat(33).as_bytes(), &password).is_none());
    assert!(authenticate(b"", "").is_some());
}

#[test]
fn bind_host_by_mode() {
    assert_eq!(bind_host(false), "0.0.0.0");
    assert_eq!(bind_host(true), "127.0.0.1");
}

#[test]
fn shell_from_the_environment_or_bash() {
    assert_eq!(shell_or_default(Some("/bin/zsh")), "/bin/zsh");
    assert_eq!(shell_or_default(Some("")), "");
    assert_eq!(shell_or_default(None), "/bin/bash");
}
