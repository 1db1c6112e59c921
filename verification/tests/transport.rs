use phinet_core::addr::SocketAddr;
use phinet_core::errors::Error;
use phinet_core::transport::{
    client_environment, parse_cmethod_line, parse_smethod_line, server_environment, socks5_open,
    socks5_rep_str, BridgeLine, ClientStart, ClientStep, PtEvent, PtLine, ServerStart, ServerStep,
    SocksState, SubprocessTransport, PT_START_SECS,
};

fn addr(s: &str) -> SocketAddr {
    SocketAddr::parse(s).unwrap()
}

#[test]
fn parse_version_line() {
    assert_eq!(parse_cmethod_line("VERSION 1", "obfs4"), PtLine::VersionOk);
}

#[test]
fn parse_cmethod_line_with_addr() {
    let r = parse_cmethod_line("CMETHOD obfs4 socks5 127.0.0.1:46221", "obfs4");
    match r {
        PtLine::Cmethod(addr) => {
            assert_eq!(addr.text(), "127.0.0.1:46221");
        }
        other => panic!("expected Cmethod, got {:?}", other),
    }
}

#[test]
fn parse_cmethod_line_for_other_transport_ignored() {
    // We're looking for obfs4 but the line announces meek_lite —
    // should not match, falls through to Other.
    let r = parse_cmethod_line("CMETHOD meek_lite socks5 127.0.0.1:1234", "obfs4");
    assert_eq!(r, PtLine::Other);
}

#[test]
fn parse_cmethods_done() {
    assert_eq!(parse_cmethod_line("CMETHODS DONE", "obfs4"), PtLine::CmethodsDone);
}

#[test]
fn parse_error_lines() {
    match parse_cmethod_line("VERSION-ERROR no-version", "obfs4") {
        PtLine::VersionError(s) => assert_eq!(s, "no-version"),
        other => panic!("got {:?}", other),
    }
    match parse_cmethod_line("ENV-ERROR missing TOR_PT_STATE_LOCATION", "obfs4") {
        PtLine::EnvError(s) => assert_eq!(s, "missing TOR_PT_STATE_LOCATION"),
        other => panic!("got {:?}", other),
    }
    match parse_cmethod_line("CMETHOD-ERROR obfs4 missing keypair", "obfs4") {
        PtLine::CmethodError(s) => assert_eq!(s, "obfs4 missing keypair"),
        other => panic!("got {:?}", other),
    }
}

#[test]
fn parse_garbage_line_is_other() {
    assert_eq!(parse_cmethod_line("garbage stdout from PT", "obfs4"), PtLine::Other);
    assert_eq!(parse_cmethod_line("", "obfs4"), PtLine::Other);
}

#[test]
fn parse_cmethod_with_extra_whitespace() {
    // Real PT binaries vary in whitespace handling.
    let r = parse_cmethod_line("  CMETHOD obfs4 socks5 127.0.0.1:9999  ", "obfs4");
    match r {
        PtLine::Cmethod(_) => {}
        other => panic!("expected Cmethod even with leading/trailing whitespace, got {:?}", other),
    }
}

#[test]
fn parse_cmethod_malformed_addr_falls_through() {
    // If the addr doesn't parse, the whole line is treated as
    // garbage — caller will time out waiting for CMETHODS DONE.
    let r = parse_cmethod_line("CMETHOD obfs4 socks5 not-an-address", "obfs4");
    assert_eq!(r, PtLine::Other);
}

#[test]
fn parse_smethod_with_args() {
    let r = parse_smethod_line(
        "SMETHOD obfs4 0.0.0.0:443 ARGS:cert=ABCDEF;iat-mode=0", "obfs4");
    match r {
        PtLine::Smethod { bind, args } => {
            assert_eq!(bind, addr("0.0.0.0:443"));
            assert_eq!(args.as_deref(), Some("cert=ABCDEF;iat-mode=0"));
        }
        other => panic!("expected Smethod, got {other:?}"),
    }
}

#[test]
fn parse_smethod_without_args() {
    match parse_smethod_line("SMETHOD obfs4 1.2.3.4:9001", "obfs4") {
        PtLine::Smethod { bind, args } => {
            assert_eq!(bind, addr("1.2.3.4:9001"));
            assert!(args.is_none());
        }
        other => panic!("expected Smethod, got {other:?}"),
    }
}

#[test]
fn parse_smethod_other_transport_ignored() {
    // An SMETHOD for a different transport name is not our bridge.
    let r = parse_smethod_line("SMETHOD meek_lite 0.0.0.0:443 ARGS:x=y", "obfs4");
    assert_eq!(r, PtLine::Other);
}

#[test]
fn parse_smethods_done_and_errors() {
    assert_eq!(parse_smethod_line("SMETHODS DONE", "obfs4"), PtLine::SmethodsDone);
    assert_eq!(parse_smethod_line("VERSION 1", "obfs4"), PtLine::VersionOk);
    match parse_smethod_line("SMETHOD-ERROR obfs4 no bindaddr", "obfs4") {
        PtLine::SmethodError(s) => assert_eq!(s, "obfs4 no bindaddr"),
        other => panic!("expected SmethodError, got {other:?}"),
    }
}

#[test]
fn bridge_line_client_string() {
    let bl = BridgeLine {
        transport: "obfs4".into(),
        bind_addr: addr("1.2.3.4:443"),
        args: Some("cert=ZZ;iat-mode=0".into()),
    };
    assert_eq!(bl.client_line(), "obfs4 1.2.3.4:443 cert=ZZ;iat-mode=0");
}

/// Hands the lines of a plugin's output to its client start, one by one.
fn client_run(lines: &[&str]) -> Result<SocketAddr, Error> {
    let mut state = ClientStart::new();
    for line in lines {
        match state.on_event(PtEvent::Line(line.to_string()), "obfs4") {
            ClientStep::Wait(s) => state = s,
            ClientStep::Ready(a) => return Ok(a),
            ClientStep::Fail(e) => return Err(e),
        }
    }
    match state.on_event(PtEvent::Closed, "obfs4") {
        ClientStep::Ready(a) => Ok(a),
        ClientStep::Fail(e) => Err(e),
        ClientStep::Wait(_) => panic!("nothing follows the end of the output"),
    }
}

fn server_run(lines: &[&str]) -> Result<BridgeLine, Error> {
    let mut state = ServerStart::new();
    for line in lines {
        match state.on_event(PtEvent::Line(line.to_string()), "obfs4") {
            ServerStep::Wait(s) => state = s,
            ServerStep::Ready(b) => return Ok(b),
            ServerStep::Fail(e) => return Err(e),
        }
    }
    match state.on_event(PtEvent::Closed, "obfs4") {
        ServerStep::Ready(b) => Ok(b),
        ServerStep::Fail(e) => Err(e),
        ServerStep::Wait(_) => panic!("nothing follows the end of the output"),
    }
}

#[test]
fn server_pt_happy_path_parses_bridge_line() {
    let bridge = server_run(&[
        "VERSION 1",
        "SMETHOD obfs4 0.0.0.0:443 ARGS:cert=DEADBEEF;iat-mode=0",
        "SMETHODS DONE",
    ])
    .expect("server pt");
    assert_eq!(bridge.transport, "obfs4");
    assert_eq!(bridge.bind_addr, addr("0.0.0.0:443"));
    assert_eq!(bridge.args.as_deref(), Some("cert=DEADBEEF;iat-mode=0"));
    assert!(bridge.client_line().contains("cert=DEADBEEF"));
}

#[test]
fn server_pt_smethod_error_surfaces() {
    let err = match server_run(&["VERSION 1", "SMETHOD-ERROR obfs4 could not bind"]) {
        Ok(_) => panic!("expected smethod error"),
        Err(e) => format!("{:?}", e),
    };
    assert!(err.contains("smethod error"), "got: {}", err);
}

#[test]
fn server_pt_no_smethod_errors() {
    let err = match server_run(&["VERSION 1", "SMETHODS DONE"]) {
        Ok(_) => panic!("expected no-smethod error"),
        Err(e) => format!("{:?}", e),
    };
    assert!(err.contains("did not announce an SMETHOD"), "got: {}", err);
}

#[test]
fn subprocess_handshake_happy_path() {
    let found = client_run(&[
        "VERSION 1",
        "CMETHOD obfs4 socks5 127.0.0.1:46221",
        "CMETHODS DONE",
    ])
    .expect("handshake");
    let mut t = SubprocessTransport::new("obfs4", "");
    t.started_at(found).expect("first start");
    assert!(t.socks_addr().is_some());
    assert_eq!(t.socks_addr(), Some(addr("127.0.0.1:46221")));
}

#[test]
fn subprocess_handshake_version_error() {
    let err = match client_run(&["VERSION-ERROR no-version"]) {
        Ok(_) => panic!("expected version error"),
        Err(e) => format!("{:?}", e),
    };
    assert!(err.contains("version"), "got: {}", err);
}

#[test]
fn subprocess_handshake_env_error() {
    let err = match client_run(&["ENV-ERROR missing transport spec"]) {
        Ok(_) => panic!("expected env error"),
        Err(e) => format!("{:?}", e),
    };
    assert!(err.contains("env error"), "got: {}", err);
}

#[test]
fn subprocess_handshake_no_cmethod() {
    let err = match client_run(&["VERSION 1", "CMETHODS DONE"]) {
        Ok(_) => panic!("expected no-cmethod error"),
        Err(e) => format!("{:?}", e),
    };
    assert!(err.contains("did not announce a CMETHOD"), "got: {}", err);
}

#[test]
fn subprocess_set_socks_twice_fails() {
    let lines = ["VERSION 1", "CMETHOD obfs4 socks5 127.0.0.1:46221", "CMETHODS DONE"];
    let mut t = SubprocessTransport::new("obfs4", "");
    t.started_at(client_run(&lines).unwrap()).expect("first");

    let r2 = t.started_at(client_run(&lines).unwrap());
    assert!(r2.is_err(), "second start should fail (socks_addr already set)");
}

#[test]
fn subprocess_dial_without_socks_fails() {
    let t = SubprocessTransport::new("obfs4", "");
    let err = match t.dial_through() {
        Ok(_) => panic!("expected error from unconfigured subprocess transport"),
        Err(e) => format!("{:?}", e),
    };
    assert!(err.contains("SOCKS5 endpoint not configured"),
        "expected helpful error, got: {}", err);
}

#[test]
fn subprocess_listen_unsupported() {
    let t = SubprocessTransport::new("obfs4", "");
    assert!(matches!(t.listen_refusal(), Error::Crypto(_)));
}

#[test]
fn subprocess_set_socks_addr_idempotent_protected() {
    let mut t = SubprocessTransport::new("obfs4", "cert=foo");
    let addr1 = addr("127.0.0.1:9050");
    let addr2 = addr("127.0.0.1:9051");
    t.set_socks_addr(addr1).expect("first set ok");
    let r2 = t.set_socks_addr(addr2);
    assert!(r2.is_err());
    assert_eq!(t.socks_addr(), Some(addr1));
    assert_eq!(t.dial_through().unwrap(), addr1);
}

/// Plays the client against the bytes a proxy sends, and returns what the client
/// sent, message by message.
fn socks_run(mut replies: &[u8], host: &str, port: u16, args: &str) -> Result<Vec<Vec<u8>>, Error> {
    let mut step = socks5_open();
    let mut sent = vec![];
    loop {
        if !step.send.is_empty() {
            sent.push(step.send.clone());
        }
        let state = step.next;
        if state == SocksState::Open {
            assert!(replies.is_empty());
            return Ok(sent);
        }
        let n = state.wanted();
        let got = &replies[..n];
        replies = &replies[n..];
        step = state.on_bytes(got, host, port, args)?;
    }
}

#[test]
fn socks5_connect_through_local_echo_socks() {
    let sent = socks_run(
        &[0x05, 0x00, 0x05, 0x00, 0x00, 0x01, 0, 0, 0, 0, 0, 0],
        "echo.local",
        42,
        "",
    )
    .expect("socks5_connect");
    assert_eq!(sent.len(), 2);
    // The greeting offers no authentication.
    assert_eq!(sent[0][0], 0x05);
    assert!(sent[0][2..].contains(&0x00));
    let req = &sent[1];
    assert_eq!(req[0], 0x05);
    assert_eq!(req[1], 0x01); // CONNECT
    assert_eq!(req[3], 0x03); // domain
    assert_eq!(req[4] as usize, "echo.local".len());
    assert_eq!(&req[5..15], b"echo.local");
    assert_eq!(u16::from_be_bytes([req[15], req[16]]), 42);
    assert_eq!(req.len(), 17);
}

#[test]
fn socks5_connect_with_auth_carries_pt_args() {
    let sent = socks_run(
        &[0x05, 0x02, 0x01, 0x00, 0x05, 0x00, 0x00, 0x01, 0, 0, 0, 0, 0, 0],
        "bridge.example",
        443,
        "cert=ABC&iat-mode=0",
    )
    .expect("socks5_connect with PT args");
    assert_eq!(sent.len(), 3);
    assert!(sent[0][2..].contains(&0x02));
    let auth = &sent[1];
    assert_eq!(auth[0], 0x01);
    let user_len = auth[1] as usize;
    assert_eq!(&auth[2..2 + user_len], b"cert=ABC&iat-mode=0",
        "PT args must be passed verbatim in the username field");
    assert_eq!(auth[2 + user_len], 0);
    assert_eq!(auth.len(), 3 + user_len);
}

#[test]
fn socks5_connect_failure_propagates() {
    let err = match socks_run(
        &[0x05, 0x00, 0x05, 0x05, 0x00, 0x01, 0, 0, 0, 0, 0, 0],
        "x.example",
        1,
        "",
    ) {
        Ok(_) => panic!("expected SOCKS5 connect to fail with REFUSED"),
        Err(e) => format!("{:?}", e),
    };
    assert!(err.contains("connection refused"), "expected refused error, got: {}", err);
}

#[test]
fn bound_addresses_of_every_kind_are_skipped() {
    let v6 = [&[0x05, 0x00, 0x05, 0x00, 0x00, 0x04][..], &[0; 18]].concat();
    assert_eq!(socks_run(&v6, "h", 1, "").unwrap().len(), 2);
    let name = [&[0x05, 0x00, 0x05, 0x00, 0x00, 0x03, 4][..], b"name", &[0, 0]].concat();
    assert_eq!(socks_run(&name, "h", 1, "").unwrap().len(), 2);
    assert!(socks_run(&[0x05, 0x00, 0x05, 0x00, 0x00, 0x09], "h", 1, "").is_err());
}

#[test]
fn a_proxy_that_refuses_is_reported() {
    assert!(socks_run(&[0x04, 0x00], "h", 1, "").is_err());
    assert!(socks_run(&[0x05, 0xff], "h", 1, "").is_err());
    assert!(socks_run(&[0x05, 0x02, 0x01, 0x01], "h", 1, "args").is_err());
    assert!(socks_run(&[0x05, 0x00], &"h".repeat(256), 1, "").is_err());
    assert_eq!(socks5_rep_str(0x05), "connection refused");
}

#[test]
fn a_plugin_that_says_nothing_fails_the_start() {
    assert!(matches!(
        ClientStart::new().on_event(PtEvent::TimedOut, "obfs4"),
        ClientStep::Fail(Error::Crypto(_))
    ));
    assert!(matches!(
        ServerStart::new().on_event(PtEvent::TimedOut, "obfs4"),
        ServerStep::Fail(Error::Crypto(_))
    ));
    assert_eq!(PT_START_SECS, 30);
}

#[test]
fn an_announcement_without_a_version_is_not_enough() {
    assert!(client_run(&["CMETHOD obfs4 socks5 127.0.0.1:1", "CMETHODS DONE"]).is_err());
    assert!(server_run(&["SMETHOD obfs4 127.0.0.1:1", "SMETHODS DONE"]).is_err());
}

#[test]
fn addresses_are_read_and_written() {
    for text in ["127.0.0.1:80", "[::1]:443", "[2001:db8::8:800:200c:417a]:9001"] {
        let here = addr(text).text();
        assert_eq!(here, text);
    }
    for text in ["127.0.0.1", "127.0.0.256:1", "01.2.3.4:5", "1.2.3.4:65536", "[::1]", "host:1"] {
        assert!(SocketAddr::parse(text).is_none(), "{} was accepted", text);
    }
}

#[test]
fn a_plugin_is_told_its_role_by_its_environment() {
    let client = client_environment("obfs4", "/var/state");
    assert!(client.iter().any(|v| v.key == "TOR_PT_CLIENT_TRANSPORTS" && v.value == "obfs4"));
    assert!(client.iter().any(|v| v.value == "/var/state"));
    let server = server_environment("obfs4", "/s", "0.0.0.0:443", "127.0.0.1:7700", None);
    assert!(server.iter().any(|v| v.key == "TOR_PT_SERVER_BINDADDR" && v.value == "obfs4-0.0.0.0:443"));
    let with = server_environment("obfs4", "/s", "0.0.0.0:443", "127.0.0.1:7700", Some("k=v"));
    assert_eq!(with.len(), server.len() + 1);
}
