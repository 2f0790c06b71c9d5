use vstd::prelude::*;
use vstd::utf8::{valid_utf8, decode_utf8};
use crate::bytes::{spec_be_u16, read_u16_be};

verus! {

/// What `String::from_utf8_lossy` (std) gives for some bytes: the decoded
/// text, with U+FFFD in place of each invalid sequence.
pub uninterp spec fn utf8_lossy(bytes: Seq<u8>) -> Seq<char>;

/// Calls `String::from_utf8_lossy` (std) and takes the text as a `String`.
/// States that the result is the named one and, as the documentation says,
/// that valid UTF-8 is decoded unchanged.
#[verifier::external_body]
fn decode_lossy(bytes: &[u8]) -> (s: String)
    ensures
        s@ == utf8_lossy(bytes@),
        valid_utf8(bytes@) ==> s@ == decode_utf8(bytes@),
{
    String::from_utf8_lossy(bytes).to_string()
}

/// The reply that accepts a client without authentication.
pub open spec fn spec_no_auth_reply() -> Seq<u8> {
    seq![5u8, 0u8]
}

/// The reply that tells the client its CONNECT succeeded (bound to
/// 0.0.0.0:0).
pub open spec fn spec_connect_reply() -> Seq<u8> {
    seq![5u8, 0u8, 0u8, 1u8, 0u8, 0u8, 0u8, 0u8, 0u8, 0u8]
}

/// Decimal digits of a byte, without leading zeros.
pub open spec fn spec_decimal(x: u8) -> Seq<char> {
    if x < 10 {
        seq![(48 + x) as char]
    } else if x < 100 {
        seq![(48 + x / 10) as char, (48 + x % 10) as char]
    } else {
        seq![(48 + x / 100) as char, (48 + (x / 10) % 10) as char, (48 + x % 10) as char]
    }
}

/// The decimal text of a byte reads back as the byte: one to three ASCII
/// digits, most significant first, with no leading zero except for 0.
pub proof fn lemma_decimal_reads_back(x: u8)
    ensures
        ({
            let d = spec_decimal(x);
            &&& 1 <= d.len() <= 3
            &&& forall|i: int| 0 <= i < d.len() ==> '0' <= #[trigger] d[i] <= '9'
            &&& d.len() > 1 ==> d[0] != '0'
            &&& d.len() == 1 ==> x == d[0] as int - 48
            &&& d.len() == 2 ==> x == (d[0] as int - 48) * 10 + (d[1] as int - 48)
            &&& d.len() == 3 ==> x == ((d[0] as int - 48) * 10 + (d[1] as int - 48)) * 10 + (
            d[2] as int - 48)
        }),
{
}

/// Dotted-decimal text of an IPv4 address.
pub open spec fn spec_ipv4_text(a: Seq<u8>) -> Seq<char> {
    spec_decimal(a[0]) + seq!['.'] + spec_decimal(a[1]) + seq!['.'] + spec_decimal(a[2]) + seq!['.']
        + spec_decimal(a[3])
}

fn digit_text(d: u8) -> (s: &'static str)
    requires
        d < 10,
    ensures
        s@ == seq![(48 + d) as char],
{
    proof {
        reveal_strlit("0");
        reveal_strlit("1");
        reveal_strlit("2");
        reveal_strlit("3");
        reveal_strlit("4");
        reveal_strlit("5");
        reveal_strlit("6");
        reveal_strlit("7");
        reveal_strlit("8");
        reveal_strlit("9");
    }
    match d {
        0 => "0",
        1 => "1",
        2 => "2",
        3 => "3",
        4 => "4",
        5 => "5",
        6 => "6",
        7 => "7",
        8 => "8",
        _ => "9",
    }
}

fn push_decimal(out: &mut String, x: u8)
    ensures
        final(out)@ == old(out)@ + spec_decimal(x),
{
    if x >= 100 {
        out.append(digit_text(x / 100));
    }
    if x >= 10 {
        out.append(digit_text((x / 10) % 10));
    }
    out.append(digit_text(x % 10));
    proof {
        if x < 10 {
            assert(out@ =~= old(out)@ + spec_decimal(x));
        } else if x < 100 {
            assert(x / 10 < 10);
            assert((x / 10) % 10 == x / 10);
            assert(out@ =~= old(out)@ + spec_decimal(x));
        } else {
            assert(out@ =~= old(out)@ + spec_decimal(x));
        }
    }
}

/// Dotted-decimal text of an IPv4 address given as four bytes.
pub fn ipv4_text(a: &[u8]) -> (s: String)
    requires
        a@.len() == 4,
    ensures
        s@ == spec_ipv4_text(a@),
{
    let mut s = String::new();
    proof {
        reveal_strlit(".");
    }
    push_decimal(&mut s, a[0]);
    s.append(".");
    push_decimal(&mut s, a[1]);
    s.append(".");
    push_decimal(&mut s, a[2]);
    s.append(".");
    push_decimal(&mut s, a[3]);
    assert(s@ =~= spec_ipv4_text(a@));
    s
}

/// Where a SOCKS5 handshake stands; phases that read say how many bytes.
#[derive(Debug)]
pub enum Socks5Phase {
    /// Nothing exchanged yet.
    Start,
    /// Waiting for the greeting: version and number of methods.
    Greeting,
    /// Waiting for the list of this many methods.
    Methods(usize),
    /// The no-authentication reply was sent.
    Accepted,
    /// Waiting for the request header: version, command, reserved, address type.
    Request,
    /// Waiting for an IPv4 address.
    Ipv4Address,
    /// Waiting for the length of a domain name.
    DomainLength,
    /// Waiting for a domain name of this many bytes.
    DomainName(usize),
    /// Waiting for the port of a request for this host.
    Port(String),
    /// The success reply was sent for this host and port.
    Granted(String, u16),
    /// The handshake is over (or was refused).
    Closed,
}

/// What the server must do next in a SOCKS5 handshake.
#[derive(Debug)]
pub enum Socks5Action {
    /// Read exactly this many bytes and hand them to the next step.
    Read(usize),
    /// Write these bytes to the client.
    Write(Vec<u8>),
    /// The client asked to reach this host and port.
    Connect { host: String, port: u16 },
    /// Drop the connection.
    Abort,
}

/// The number of bytes a phase waits for.
pub open spec fn spec_expected_input(phase: Socks5Phase) -> nat {
    match phase {
        Socks5Phase::Greeting => 2,
        Socks5Phase::Methods(n) => n as nat,
        Socks5Phase::Request => 4,
        Socks5Phase::Ipv4Address => 4,
        Socks5Phase::DomainLength => 1,
        Socks5Phase::DomainName(n) => n as nat,
        Socks5Phase::Port(_) => 2,
        _ => 0,
    }
}

/// A SOCKS5 handshake (no authentication, CONNECT only, IPv4 or domain
/// names), driven one step at a time by the connection that reads and
/// writes the bytes.
#[derive(Debug)]
pub struct Socks5Handshake {
    pub phase: Socks5Phase,
}

impl Socks5Handshake {
    /// A handshake that has not started.
    pub fn new() -> (h: Self)
        ensures
            h.phase is Start,
    {
        Socks5Handshake { phase: Socks5Phase::Start }
    }

    /// Takes the bytes that the last `Read` asked for (nothing after any
    /// other action) and says what to do next.
    pub fn advance(&mut self, input: &[u8]) -> (action: Socks5Action)
        requires
            input@.len() == spec_expected_input(old(self).phase),
        ensures
            match old(self).phase {
                Socks5Phase::Start => action == Socks5Action::Read(2) && final(self).phase
                    is Greeting,
                Socks5Phase::Greeting => if input@[0] == 5 {
                    action == Socks5Action::Read(input@[1] as usize) && final(self).phase
                        == Socks5Phase::Methods(input@[1] as usize)
                } else {
                    action is Abort && final(self).phase is Closed
                },
                Socks5Phase::Methods(_) => (action matches Socks5Action::Write(b) && b@
                    == spec_no_auth_reply()) && final(self).phase is Accepted,
                Socks5Phase::Accepted => action == Socks5Action::Read(4) && final(self).phase
                    is Request,
                Socks5Phase::Request => if input@[1] != 1 {
                    action is Abort && final(self).phase is Closed
                } else if input@[3] == 1 {
                    action == Socks5Action::Read(4) && final(self).phase is Ipv4Address
                } else if input@[3] == 3 {
                    action == Socks5Action::Read(1) && final(self).phase is DomainLength
                } else {
                    action is Abort && final(self).phase is Closed
                },
                Socks5Phase::Ipv4Address => action == Socks5Action::Read(2) && (final(self).phase matches Socks5Phase::Port(host) && host@ == spec_ipv4_text(input@)),
                Socks5Phase::DomainLength => action == Socks5Action::Read(input@[0] as usize)
                    && final(self).phase == Socks5Phase::DomainName(input@[0] as usize),
                Socks5Phase::DomainName(_) => action == Socks5Action::Read(2) && (final(self).phase matches Socks5Phase::Port(host) && host@ == utf8_lossy(input@) && (
                valid_utf8(input@) ==> host@ == decode_utf8(input@))),
                Socks5Phase::Port(host) => (action matches Socks5Action::Write(b) && b@
                    == spec_connect_reply()) && (final(self).phase matches Socks5Phase::Granted(
                    h,
                    p,
                ) && h == host && p == spec_be_u16(input@)),
                Socks5Phase::Granted(host, port) => (action matches Socks5Action::Connect {
                    host: h,
                    port: p,
                } && h == host && p == port) && final(self).phase is Closed,
                Socks5Phase::Closed => action is Abort && final(self).phase is Closed,
            },
    {
        let mut phase = Socks5Phase::Closed;
        std::mem::swap(&mut phase, &mut self.phase);
        match phase {
            Socks5Phase::Start => {
                self.phase = Socks5Phase::Greeting;
                Socks5Action::Read(2)
            },
            Socks5Phase::Greeting => {
                if input[0] == 5 {
                    let n = input[1] as usize;
                    self.phase = Socks5Phase::Methods(n);
                    Socks5Action::Read(n)
                } else {
                    Socks5Action::Abort
                }
            },
            Socks5Phase::Methods(_) => {
                self.phase = Socks5Phase::Accepted;
                let mut reply: Vec<u8> = Vec::new();
                reply.push(5);
                reply.push(0);
                assert(reply@ =~= spec_no_auth_reply());
                Socks5Action::Write(reply)
            },
            Socks5Phase::Accepted => {
                self.phase = Socks5Phase::Request;
                Socks5Action::Read(4)
            },
            Socks5Phase::Request => {
                if input[1] != 1 {
                    Socks5Action::Abort
                } else if input[3] == 1 {
                    self.phase = Socks5Phase::Ipv4Address;
                    Socks5Action::Read(4)
                } else if input[3] == 3 {
                    self.phase = Socks5Phase::DomainLength;
                    Socks5Action::Read(1)
                } else {
                    Socks5Action::Abort
                }
            },
            Socks5Phase::Ipv4Address => {
                self.phase = Socks5Phase::Port(ipv4_text(input));
                Socks5Action::Read(2)
            },
            Socks5Phase::DomainLength => {
                let n = input[0] as usize;
                self.phase = Socks5Phase::DomainName(n);
                Socks5Action::Read(n)
            },
            Socks5Phase::DomainName(_) => {
                self.phase = Socks5Phase::Port(decode_lossy(input));
                Socks5Action::Read(2)
            },
            Socks5Phase::Port(host) => {
                let port = read_u16_be(input);
                self.phase = Socks5Phase::Granted(host, port);
                let mut reply: Vec<u8> = Vec::new();
                reply.push(5);
                reply.push(0);
                reply.push(0);
                reply.push(1);
                reply.push(0);
                reply.push(0);
                reply.push(0);
                reply.push(0);
                reply.push(0);
                reply.push(0);
                assert(reply@ =~= spec_connect_reply());
                Socks5Action::Write(reply)
            },
            Socks5Phase::Granted(host, port) => Socks5Action::Connect { host, port },
            Socks5Phase::Closed => Socks5Action::Abort,
        }
    }
}

} // verus!
