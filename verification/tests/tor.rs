use void::tor::{
    bootstrap_phase, bootstrap_step, build_torrc, circuit_is_established, control_port_text,
    extract_kv, parse_u8, published_matches, retry_bootstrap, slash, socks_listener_text, BootStep,
    TorConfig, TorError,
};
use void::tor_control::{
    add_onion_command, authenticate_command, decimal_u16, getinfo_command, info_value, join_lines,
    parse_line, reply_line, service_id_of,
};

#[test]
fn parse_continuation() {
    let (code, fin, rest) = parse_line("250-ServiceID=abc").unwrap();
    assert_eq!((code, fin), (250, false));
    assert_eq!(rest, "ServiceID=abc");
}

#[test]
fn parse_final_ok() {
    let (code, fin, rest) = parse_line("250 OK").unwrap();
    assert_eq!((code, fin), (250, true));
    assert_eq!(rest, "OK");
}

#[test]
fn parse_final_err() {
    let (code, fin, _) = parse_line("512 Unrecognized command").unwrap();
    assert_eq!((code, fin), (512, true));
}

#[test]
fn parse_bare_code() {
    let (code, fin, rest) = parse_line("250").unwrap();
    assert_eq!((code, fin, rest), (250, true, ""));
}

#[test]
fn parse_junk() {
    assert!(parse_line("Bootstrap progress 45%").is_none());
}

#[test]
fn parse_data_line_and_short() {
    assert_eq!(parse_line("250+onions/current="), Some((250, false, "onions/current=")));
    assert!(parse_line("25").is_none());
    assert_eq!(parse_line("007 x"), Some((7, true, "x")));
}

fn lines(v: &[&str]) -> Vec<String> {
    v.iter().map(|s| s.to_string()).collect()
}

#[test]
fn reply_accumulates_until_final() {
    let mut acc = Vec::new();
    assert!(reply_line(&mut acc, "250-ServiceID=abc").is_none());
    assert!(reply_line(&mut acc, "noise").is_none());
    match reply_line(&mut acc, "250 OK") {
        Some(Ok(all)) => assert_eq!(all, lines(&["ServiceID=abc", "OK"])),
        other => panic!("unexpected: {other:?}"),
    }
    let mut acc = Vec::new();
    assert!(reply_line(&mut acc, "552-Bad").is_none());
    match reply_line(&mut acc, "552 Unrecognized") {
        Some(Err(TorError::Control(m))) => assert_eq!(m, "erreur tor 552: Bad / Unrecognized"),
        other => panic!("unexpected: {other:?}"),
    }
}

#[test]
fn info_values() {
    let l = lines(&["status/bootstrap-phase=\"NOTICE BOOTSTRAP PROGRESS=45 TAG=loading\"", "OK"]);
    assert_eq!(info_value(&l, "status/bootstrap-phase"), "NOTICE BOOTSTRAP PROGRESS=45 TAG=loading");
    assert_eq!(info_value(&l, "missing"), "");
    assert_eq!(info_value(&lines(&["k=\"\"\""]), "k"), "");
}

#[test]
fn service_ids() {
    assert_eq!(service_id_of(&lines(&["ServiceID= abc ", "OK"])).unwrap(), "abc");
    match service_id_of(&lines(&["OK"])) {
        Err(TorError::Control(m)) => assert_eq!(m, "ServiceID absent de la réponse ADD_ONION"),
        other => panic!("unexpected: {other:?}"),
    }
}

#[test]
fn commands() {
    assert_eq!(authenticate_command(&[0xab, 0x01]), "AUTHENTICATE ab01");
    assert_eq!(getinfo_command("net/listeners/socks"), "GETINFO net/listeners/socks");
    assert_eq!(
        add_onion_command("KEY", 8477, 50123),
        "ADD_ONION ED25519-V3:KEY Flags=Detach Port=8477,127.0.0.1:50123"
    );
    assert_eq!(decimal_u16(0), "0");
    assert_eq!(decimal_u16(65535), "65535");
    assert_eq!(join_lines(&lines(&["a", "b", "c"]), " / "), "a / b / c");
    assert_eq!(join_lines(&lines(&[]), " / "), "");
}

#[test]
fn key_values_and_progress() {
    let raw = "NOTICE BOOTSTRAP PROGRESS=85 TAG=ap_handshake_done SUMMARY=\"x\"";
    assert_eq!(extract_kv(raw, "TAG"), Some("ap_handshake_done".to_string()));
    assert_eq!(extract_kv(raw, "NOPE"), None);
    assert_eq!(bootstrap_phase(raw), (85, "ap_handshake_done".to_string()));
    assert_eq!(bootstrap_phase("PROGRESS=300"), (0, String::new()));
    assert_eq!(bootstrap_phase(""), (0, String::new()));
}

#[test]
fn u8_parsing() {
    assert_eq!(parse_u8("0"), Some(0));
    assert_eq!(parse_u8("+255"), Some(255));
    assert_eq!(parse_u8("007"), Some(7));
    assert_eq!(parse_u8("256"), None);
    assert_eq!(parse_u8(""), None);
    assert_eq!(parse_u8("+"), None);
    assert_eq!(parse_u8("-1"), None);
    assert_eq!(parse_u8("1a"), None);
    for n in 0..=255u16 {
        assert_eq!(parse_u8(&n.to_string()), Some(n as u8));
    }
}

#[test]
fn circuit_and_addresses() {
    assert!(circuit_is_established(" 1\n"));
    assert!(!circuit_is_established("0"));
    assert!(!circuit_is_established("11"));
    assert_eq!(socks_listener_text(" \"127.0.0.1:9050\" "), "127.0.0.1:9050");
    assert_eq!(control_port_text("PORT=127.0.0.1:9051\n"), Some("127.0.0.1:9051".to_string()));
    assert_eq!(control_port_text("garbage"), None);
}

#[test]
fn config_paths_and_torrc() {
    let cfg = TorConfig { tor_dir: "C:\\tor".to_string(), data_dir: "data/tor".to_string() };
    assert!(cfg.tor_exe().starts_with("C:\\tor"));
    assert!(cfg.tor_exe().ends_with("tor.exe"));
    assert_eq!(cfg.port_file(), "data/tor/control.port");
    assert_eq!(cfg.cookie_file(), "data/tor/control_auth_cookie");
    assert_eq!(cfg.torrc_path(), "data/tor/void-torrc");
    let torrc = build_torrc(&cfg);
    assert!(torrc.starts_with("SocksPort 127.0.0.1:auto OnionTrafficOnly\n"));
    assert!(torrc.contains("ControlPortWriteToFile \"data/tor/control.port\"\n"));
    assert!(torrc.contains("DataDirectory \"data/tor\"\n"));
    assert!(torrc.contains("GeoIPFile \"C:/tor/geoip\"\n"));
    assert!(torrc.ends_with("AvoidDiskWrites 1\n"));
    assert_eq!(slash("a\\b/c"), "a/b/c");
}

#[test]
fn bootstrap_decisions() {
    assert_eq!(bootstrap_step(false, Some(true), true, false), BootStep::Died);
    assert_eq!(bootstrap_step(true, Some(true), true, true), BootStep::Ready);
    assert_eq!(bootstrap_step(true, None, false, false), BootStep::Died);
    assert_eq!(bootstrap_step(true, None, true, true), BootStep::TimedOut);
    assert_eq!(bootstrap_step(true, Some(false), true, false), BootStep::Wait);
    assert!(retry_bootstrap(1, 3, &TorError::ProcessDied(String::new())));
    assert!(!retry_bootstrap(3, 3, &TorError::ProcessDied(String::new())));
    assert!(!retry_bootstrap(1, 3, &TorError::Control("x".to_string())));
    assert!(published_matches("abc", "abc"));
    assert!(!published_matches("abc", "abd"));
}

#[test]
fn tor_error_messages() {
    assert_eq!(TorError::Control("x".to_string()).message(), "protocole control: x");
    assert_eq!(TorError::Timeout("y".to_string()).message(), "délai dépassé en attendant: y");
    assert_eq!(
        TorError::MissingTor("d".to_string()).message(),
        "tor.exe introuvable dans d. Lancez scripts/fetch-tor.ps1"
    );
}
