//! SOCKS5 messages exchanged with the local proxy: the no-authentication
//! greeting, CONNECT and UDP ASSOCIATE requests, and the replies' address part.

use vstd::prelude::*;

use crate::stun::{dotted, dotted_text, Ipv4};
use crate::text::{from_utf8_lossy, utf8_lossy};

verus! {

/// The greeting: version 5, one method, no authentication.
pub const GREETING: [u8; 3] = [0x05, 0x01, 0x00];

/// The proxy accepted the greeting: version 5, method "no authentication".
pub fn greeting_accepted(reply: &[u8; 2]) -> (r: bool)
    ensures
        r == (reply@[0] == 0x05 && reply@[1] == 0x00),
{
    reply[0] == 0x05 && reply[1] == 0x00
}

/// UDP ASSOCIATE for the local UDP port, with the unspecified IPv4 address.
pub open spec fn udp_associate_bytes(local_port: u16) -> Seq<u8> {
    seq![0x05u8, 0x03u8, 0x00u8, 0x01u8, 0u8, 0u8, 0u8, 0u8, (local_port / 256) as u8, (local_port % 256) as u8]
}

pub fn udp_associate_request(local_port: u16) -> (r: Vec<u8>)
    ensures
        r@ == udp_associate_bytes(local_port),
{
    let v = vec![0x05u8, 0x03, 0x00, 0x01, 0, 0, 0, 0, (local_port / 256) as u8, (local_port % 256) as u8];
    assert(v@ =~= udp_associate_bytes(local_port));
    v
}

/// CONNECT to a host name (address type 3) and port.
pub open spec fn connect_bytes(host: Seq<u8>, port: u16) -> Seq<u8> {
    seq![0x05u8, 0x01u8, 0x00u8, 0x03u8, host.len() as u8] + host + seq![(port / 256) as u8, (port % 256) as u8]
}

/// The CONNECT request for `host:port`; `None` when the host name is longer
/// than 255 bytes.
pub fn connect_request(host: &str, port: u16) -> (r: Option<Vec<u8>>)
    ensures
        vstd::utf8::encode_utf8(host@).len() > 255 ==> r is None,
        vstd::utf8::encode_utf8(host@).len() <= 255 ==> (r matches Some(v) && v@ == connect_bytes(
            vstd::utf8::encode_utf8(host@),
            port,
        )),
{
    let hb = host.as_bytes();
    if hb.len() > 255 {
        return None;
    }
    let mut req: Vec<u8> = vec![0x05, 0x01, 0x00, 0x03, hb.len() as u8];
    req.extend_from_slice(hb);
    req.push((port / 256) as u8);
    req.push((port % 256) as u8);
    assert(req@ =~= connect_bytes(vstd::utf8::encode_utf8(host@), port));
    Some(req)
}

/// The address part of a SOCKS5 reply.
#[derive(Clone, Copy, PartialEq, Eq, Structural, Debug)]
pub enum ReplyAddrKind {
    /// Four address bytes.
    V4,
    /// A length byte and that many name bytes.
    Domain,
    /// Sixteen address bytes.
    V6,
}

/// The address type byte of a reply; `None` for an unknown type.
pub fn reply_addr_kind(atyp: u8) -> (r: Option<ReplyAddrKind>)
    ensures
        atyp == 1 ==> r == Some(ReplyAddrKind::V4),
        atyp == 3 ==> r == Some(ReplyAddrKind::Domain),
        atyp == 4 ==> r == Some(ReplyAddrKind::V6),
        atyp != 1 && atyp != 3 && atyp != 4 ==> r is None,
{
    if atyp == 0x01 {
        Some(ReplyAddrKind::V4)
    } else if atyp == 0x03 {
        Some(ReplyAddrKind::Domain)
    } else if atyp == 0x04 {
        Some(ReplyAddrKind::V6)
    } else {
        None
    }
}

/// The request succeeded: the reply's status byte is zero.
pub fn reply_succeeded(header: &[u8; 4]) -> (r: bool)
    ensures
        r == (header@[1] == 0),
{
    header[1] == 0x00
}

/// The loopback address text.
pub open spec fn loopback_text() -> Seq<char> {
    seq!['1', '2', '7', '.', '0', '.', '0', '.', '1']
}

fn loopback() -> (r: String)
    ensures
        r@ == loopback_text(),
{
    let v = vec!['1', '2', '7', '.', '0', '.', '0', '.', '1'];
    assert(v@ =~= loopback_text());
    crate::text::string_of(&v)
}

/// Where UDP datagrams go when the relay reports an IPv4 address: most
/// proxies report 0.0.0.0, which means the proxy's own (loopback) address.
pub fn relay_host_v4(ip: Ipv4) -> (r: String)
    ensures
        ip.is_unspecified() ==> r@ == loopback_text(),
        !ip.is_unspecified() ==> r@ == dotted_text(ip),
{
    if ip.0 == 0 && ip.1 == 0 && ip.2 == 0 && ip.3 == 0 {
        loopback()
    } else {
        dotted(ip)
    }
}

/// Where UDP datagrams go when the relay reports a host name: the name's
/// bytes decoded leniently.
pub fn relay_host_domain(name: &[u8]) -> (r: String)
    ensures
        r@ == utf8_lossy(name@),
{
    from_utf8_lossy(name)
}

/// Where UDP datagrams go when the relay reports an IPv6 address: the loopback.
pub fn relay_host_v6() -> (r: String)
    ensures
        r@ == loopback_text(),
{
    loopback()
}

} // verus!
