use taiga::socks5::{ipv4_text, Socks5Action, Socks5Handshake, Socks5Phase};

fn read_len(a: Socks5Action) -> usize {
    match a {
        Socks5Action::Read(n) => n,
        other => panic!("expected a read, got {:?}", other),
    }
}

fn written(a: Socks5Action) -> Vec<u8> {
    match a {
        Socks5Action::Write(b) => b,
        other => panic!("expected a write, got {:?}", other),
    }
}

#[test]
fn ipv4_connect_handshake() {
    let mut hs = Socks5Handshake::new();
    assert_eq!(read_len(hs.advance(&[])), 2);
    assert_eq!(read_len(hs.advance(&[5, 2])), 2);
    assert_eq!(written(hs.advance(&[0, 2])), vec![5, 0]);
    assert_eq!(read_len(hs.advance(&[])), 4);
    assert_eq!(read_len(hs.advance(&[5, 1, 0, 1])), 4);
    assert_eq!(read_len(hs.advance(&[192, 168, 0, 10])), 2);
    assert_eq!(written(hs.advance(&[0x01, 0xBB])), vec![5, 0, 0, 1, 0, 0, 0, 0, 0, 0]);
    match hs.advance(&[]) {
        Socks5Action::Connect { host, port } => {
            assert_eq!(host, "192.168.0.10");
            assert_eq!(port, 443);
        }
        other => panic!("unexpected {:?}", other),
    }
    assert!(matches!(hs.phase, Socks5Phase::Closed));
    assert!(matches!(hs.advance(&[]), Socks5Action::Abort));
}

#[test]
fn domain_connect_handshake() {
    let mut hs = Socks5Handshake::new();
    hs.advance(&[]);
    assert_eq!(read_len(hs.advance(&[5, 1])), 1);
    hs.advance(&[0]);
    hs.advance(&[]);
    assert_eq!(read_len(hs.advance(&[5, 1, 0, 3])), 1);
    assert_eq!(read_len(hs.advance(&[11])), 11);
    assert_eq!(read_len(hs.advance(b"example.org")), 2);
    hs.advance(&[0, 80]);
    match hs.advance(&[]) {
        Socks5Action::Connect { host, port } => {
            assert_eq!(host, "example.org");
            assert_eq!(port, 80);
        }
        other => panic!("unexpected {:?}", other),
    }
}

#[test]
fn invalid_utf8_domain_is_decoded_lossily() {
    let mut hs = Socks5Handshake::new();
    hs.advance(&[]);
    hs.advance(&[5, 0]);
    hs.advance(&[]);
    hs.advance(&[]);
    hs.advance(&[5, 1, 0, 3]);
    hs.advance(&[2]);
    hs.advance(&[b'a', 0xFF]);
    match &hs.phase {
        Socks5Phase::Port(host) => assert_eq!(host, "a\u{FFFD}"),
        other => panic!("unexpected {:?}", other),
    }
}

#[test]
fn wrong_version_is_refused() {
    let mut hs = Socks5Handshake::new();
    hs.advance(&[]);
    assert!(matches!(hs.advance(&[4, 1]), Socks5Action::Abort));
}

#[test]
fn non_connect_command_is_refused() {
    let mut hs = Socks5Handshake::new();
    hs.advance(&[]);
    hs.advance(&[5, 0]);
    hs.advance(&[]);
    hs.advance(&[]);
    assert!(matches!(hs.advance(&[5, 2, 0, 1]), Socks5Action::Abort));
}

#[test]
fn ipv6_is_refused() {
    let mut hs = Socks5Handshake::new();
    hs.advance(&[]);
    hs.advance(&[5, 0]);
    hs.advance(&[]);
    hs.advance(&[]);
    assert!(matches!(hs.advance(&[5, 1, 0, 4]), Socks5Action::Abort));
}

#[test]
fn ipv4_text_has_no_leading_zeros() {
    assert_eq!(ipv4_text(&[0, 7, 42, 255]), "0.7.42.255");
    assert_eq!(ipv4_text(&[100, 10, 1, 200]), "100.10.1.200");
}
