//! Classic STUN (RFC 3489) over a SOCKS5 UDP relay: request framing, response
//! parsing and the NAT classification that the probe sequence decides.

use vstd::prelude::*;

use crate::text::{all_ascii_digits, chars_of, dec_value, fmt_int, push_char, push_int, split_chars, split_on};

verus! {

/// The first four bytes of every transaction id (the RFC 5389 magic cookie).
pub const MAGIC: [u8; 4] = [0x21, 0x12, 0xa4, 0x42];

/// An IPv4 address as its four octets, most significant first.
#[derive(Clone, Copy, PartialEq, Eq, Structural, Debug)]
pub struct Ipv4(pub u8, pub u8, pub u8, pub u8);

impl Ipv4 {
    pub open spec fn is_unspecified(self) -> bool {
        self.0 == 0 && self.1 == 0 && self.2 == 0 && self.3 == 0
    }
}

/// A parsed Binding response: the mapped (external) address and the
/// alternate (CHANGED-ADDRESS) server address.
#[derive(Clone, Copy, PartialEq, Eq, Structural, Debug)]
pub struct StunResp {
    pub failed: bool,
    pub ext_ip: Ipv4,
    pub ext_port: u16,
    pub change_ip: Ipv4,
    pub change_port: u16,
}

/// No answer yet: failed, every address zero.
pub open spec fn stun_default() -> StunResp {
    StunResp { failed: true, ext_ip: Ipv4(0, 0, 0, 0), ext_port: 0, change_ip: Ipv4(0, 0, 0, 0), change_port: 0 }
}

impl StunResp {
    pub fn default() -> (r: StunResp)
        ensures
            r == stun_default(),
    {
        StunResp { failed: true, ext_ip: Ipv4(0, 0, 0, 0), ext_port: 0, change_ip: Ipv4(0, 0, 0, 0), change_port: 0 }
    }
}

/// Big-endian 16-bit value of two bytes.
pub open spec fn be16(hi: u8, lo: u8) -> int {
    256 * hi + lo
}

/// An IPv4 address attribute body: reserved, family (1 = IPv4), port, address.
pub open spec fn spec_addr_attr(val: Seq<u8>) -> Option<(Ipv4, u16)> {
    if val.len() < 8 || val[1] != 1 {
        None
    } else {
        Some((Ipv4(val[4], val[5], val[6], val[7]), be16(val[2], val[3]) as u16))
    }
}

/// An XOR-MAPPED-ADDRESS body: port and address XORed with the leading bytes of
/// the transaction id.
pub open spec fn spec_xor_addr_attr(val: Seq<u8>, tid: Seq<u8>) -> Option<(Ipv4, u16)> {
    if val.len() < 8 || val[1] != 1 {
        None
    } else {
        Some((
            Ipv4(val[4] ^ tid[0], val[5] ^ tid[1], val[6] ^ tid[2], val[7] ^ tid[3]),
            (be16(val[2], val[3]) as u16) ^ (be16(tid[0], tid[1]) as u16),
        ))
    }
}

/// Parses an address attribute body.
pub fn parse_addr_attr(val: &[u8]) -> (r: Option<(Ipv4, u16)>)
    ensures
        r == spec_addr_attr(val@),
{
    if val.len() < 8 || val[1] != 0x01 {
        return None;
    }
    let port = (val[2] as u16) * 256 + val[3] as u16;
    Some((Ipv4(val[4], val[5], val[6], val[7]), port))
}

/// Parses an XOR address attribute body against the transaction id.
pub fn parse_xor_addr_attr(val: &[u8], tid: &[u8; 16]) -> (r: Option<(Ipv4, u16)>)
    ensures
        r == spec_xor_addr_attr(val@, tid@),
{
    if val.len() < 8 || val[1] != 0x01 {
        return None;
    }
    let port = (val[2] as u16) * 256 + val[3] as u16;
    let tport = (tid[0] as u16) * 256 + tid[1] as u16;
    let xport = port ^ tport;
    let oct = Ipv4(val[4] ^ tid[0], val[5] ^ tid[1], val[6] ^ tid[2], val[7] ^ tid[3]);
    Some((oct, xport))
}

/// Applies one attribute of a response to the answer collected so far:
/// MAPPED-ADDRESS and XOR-MAPPED-ADDRESS set the external address and mark the
/// answer successful; CHANGED-ADDRESS only records the alternate server.
pub open spec fn apply_attr(r: StunResp, t0: u8, t1: u8, val: Seq<u8>, tid: Seq<u8>) -> StunResp {
    if t0 == 0 && t1 == 0x01 {
        match spec_addr_attr(val) {
            Some(a) => StunResp { ext_ip: a.0, ext_port: a.1, failed: false, ..r },
            None => r,
        }
    } else if t0 == 0 && t1 == 0x20 {
        match spec_xor_addr_attr(val, tid) {
            Some(a) => StunResp { ext_ip: a.0, ext_port: a.1, failed: false, ..r },
            None => r,
        }
    } else if t0 == 0 && t1 == 0x05 {
        match spec_addr_attr(val) {
            Some(a) => StunResp { change_ip: a.0, change_port: a.1, ..r },
            None => r,
        }
    } else {
        r
    }
}

/// Walks the attributes from `pos`: each is a type, a 16-bit length and a body
/// padded to four bytes; the walk stops at the first attribute that does not fit.
pub open spec fn walk_attrs(p: Seq<u8>, pos: int, tid: Seq<u8>, r: StunResp) -> StunResp
    decreases p.len() + 4 - pos,
{
    if pos < 0 || pos + 4 > p.len() {
        r
    } else {
        let alen = be16(p[pos + 2], p[pos + 3]);
        let end = pos + 4 + alen;
        if end > p.len() {
            r
        } else {
            let r2 = apply_attr(r, p[pos], p[pos + 1], p.subrange(pos + 4, end), tid);
            let next = end + (4 - alen % 4) % 4;
            proof {
                assert(0 <= alen);
                assert(0 <= alen % 4 < 4);
                assert(next > pos);
            }
            walk_attrs(p, next, tid, r2)
        }
    }
}

/// A Binding response carrying this transaction id, parsed; `None` for anything
/// shorter than a header, another message type, or another transaction.
pub open spec fn spec_parse_stun(p: Seq<u8>, tid: Seq<u8>) -> Option<StunResp> {
    if p.len() < 20 || p[0] != 0x01 || p[1] != 0x01 || p.subrange(4, 20) != tid {
        None
    } else {
        Some(walk_attrs(p, 20, tid, stun_default()))
    }
}

/// Parses a STUN Binding response for the transaction `tid`.
pub fn parse_stun(payload: &[u8], tid: &[u8; 16]) -> (r: Option<StunResp>)
    requires
        payload@.len() + 0x20000 <= usize::MAX,
    ensures
        r == spec_parse_stun(payload@, tid@),
{
    if payload.len() < 20 {
        return None;
    }
    if payload[0] != 0x01 || payload[1] != 0x01 {
        return None;
    }
    let mut k: usize = 0;
    while k < 16
        invariant
            k <= 16,
            payload@.len() >= 20,
            forall|j: int| 0 <= j < k ==> payload@[4 + j] == tid@[j],
        decreases 16 - k,
    {
        if payload[4 + k] != tid[k] {
            assert(payload@.subrange(4, 20)[k as int] != tid@[k as int]);
            return None;
        }
        k += 1;
    }
    assert(payload@.subrange(4, 20) =~= tid@);
    let mut r = StunResp::default();
    let mut pos: usize = 20;
    while pos + 4 <= payload.len()
        invariant
            payload@.len() + 0x20000 <= usize::MAX,
            pos <= payload@.len() + 3,
            payload@.len() >= 20,
            walk_attrs(payload@, pos as int, tid@, r) == walk_attrs(payload@, 20, tid@, stun_default()),
        ensures
            r == walk_attrs(payload@, 20, tid@, stun_default()),
        decreases payload@.len() + 4 - pos,
    {
        let alen = (payload[pos + 2] as usize) * 256 + payload[pos + 3] as usize;
        let start = pos + 4;
        let end = start + alen;
        if end > payload.len() {
            break;
        }
        let val = &payload[start..end];
        let t0 = payload[pos];
        let t1 = payload[pos + 1];
        let ghost before = r;
        if t0 == 0 && t1 == 0x01 {
            if let Some((ip, port)) = parse_addr_attr(val) {
                r.ext_ip = ip;
                r.ext_port = port;
                r.failed = false;
            }
        } else if t0 == 0 && t1 == 0x20 {
            if let Some((ip, port)) = parse_xor_addr_attr(val, tid) {
                r.ext_ip = ip;
                r.ext_port = port;
                r.failed = false;
            }
        } else if t0 == 0 && t1 == 0x05 {
            if let Some((ip, port)) = parse_addr_attr(val) {
                r.change_ip = ip;
                r.change_port = port;
            }
        }
        assert(r == apply_attr(before, t0, t1, payload@.subrange(start as int, end as int), tid@));
        let pad = (4 - (alen % 4)) % 4;
        pos = end + pad;
    }
    Some(r)
}

/// Where the payload of a SOCKS5 UDP datagram starts: after RSV RSV FRAG, the
/// address type, the address (4 bytes, a length-prefixed name, or 16 bytes)
/// and the port; `None` for short or fragmented datagrams and unknown types.
pub open spec fn socks_udp_payload_start(buf: Seq<u8>) -> Option<int> {
    if buf.len() < 10 || buf[0] != 0 || buf[1] != 0 || buf[2] != 0 {
        None
    } else {
        let addr_end: int = if buf[3] == 0x01 {
            8
        } else if buf[3] == 0x03 {
            5 + buf[4]
        } else if buf[3] == 0x04 {
            20
        } else {
            -1
        };
        if addr_end < 0 || addr_end + 2 > buf.len() {
            None
        } else {
            Some(addr_end + 2)
        }
    }
}

/// The payload of a SOCKS5 UDP datagram.
pub fn unwrap_socks_udp(buf: &[u8]) -> (r: Option<&[u8]>)
    ensures
        match socks_udp_payload_start(buf@) {
            Some(i) => r is Some && r->0@ == buf@.subrange(i, buf@.len() as int),
            None => r is None,
        },
{
    if buf.len() < 10 || buf[0] != 0 || buf[1] != 0 || buf[2] != 0 {
        return None;
    }
    let mut i: usize = 4;
    let atyp = buf[3];
    if atyp == 0x01 {
        i += 4;
    } else if atyp == 0x03 {
        let n = buf[4] as usize;
        i = 5 + n;
    } else if atyp == 0x04 {
        i += 16;
    } else {
        return None;
    }
    i += 2;
    if i > buf.len() {
        return None;
    }
    Some(&buf[i..buf.len()])
}

/// One octet of dotted-decimal IPv4 text: one to three digits, no leading
/// zero except for `0` itself, at most 255.
pub open spec fn spec_octet(p: Seq<char>) -> Option<u8> {
    if 1 <= p.len() <= 3 && all_ascii_digits(p) && (p.len() == 1 || p[0] != '0') && dec_value(p)
        <= 255 {
        Some(dec_value(p) as u8)
    } else {
        None
    }
}

/// The octets of an IPv4 address in dotted-decimal text (the standard
/// library's `Ipv4Addr` syntax: four octets separated by dots); `None` when
/// the text is not one.
pub open spec fn ipv4_text_octets(s: Seq<char>) -> Option<(u8, u8, u8, u8)> {
    let parts = split_on(s, '.');
    if parts.len() == 4 && spec_octet(parts[0]) is Some && spec_octet(parts[1]) is Some
        && spec_octet(parts[2]) is Some && spec_octet(parts[3]) is Some {
        Some((
            spec_octet(parts[0])->0,
            spec_octet(parts[1])->0,
            spec_octet(parts[2])->0,
            spec_octet(parts[3])->0,
        ))
    } else {
        None
    }
}

fn parse_octet(p: &Vec<char>) -> (r: Option<u8>)
    ensures
        r == spec_octet(p@),
{
    let n = p.len();
    if n < 1 || n > 3 {
        return None;
    }
    if n > 1 && p[0] == '0' {
        return None;
    }
    let mut v: u32 = 0;
    let mut i: usize = 0;
    while i < n
        invariant
            n == p@.len(),
            1 <= n <= 3,
            i <= n,
            all_ascii_digits(p@.take(i as int)),
            v as nat == dec_value(p@.take(i as int)),
            v <= 999,
            i <= 1 ==> v <= 9,
            i <= 2 ==> v <= 99,
        decreases n - i,
    {
        let c = p[i];
        if c < '0' || c > '9' {
            assert(!all_ascii_digits(p@));
            return None;
        }
        proof {
            assert(p@.take(i + 1).drop_last() =~= p@.take(i as int));
        }
        v = v * 10 + (c as u32 - 48);
        i += 1;
    }
    assert(p@.take(n as int) =~= p@);
    if v > 255 {
        None
    } else {
        Some(v as u8)
    }
}

/// Reads dotted-decimal IPv4 text.
pub fn parse_ipv4_text(s: &str) -> (r: Option<(u8, u8, u8, u8)>)
    ensures
        r == ipv4_text_octets(s@),
{
    let cs = chars_of(s);
    let parts = split_chars(&cs, '.');
    if parts.len() != 4 {
        return None;
    }
    let a = parse_octet(&parts[0]);
    let b = parse_octet(&parts[1]);
    let c = parse_octet(&parts[2]);
    let d = parse_octet(&parts[3]);
    match (a, b, c, d) {
        (Some(a), Some(b), Some(c), Some(d)) => Some((a, b, c, d)),
        _ => None,
    }
}

/// The SOCKS5 UDP request header for a destination followed by the data:
/// RSV RSV FRAG, then either an IPv4 address (type 1) or the host name's UTF-8
/// bytes with a one-byte length (type 3, the length cut to eight bits), then
/// the big-endian port.
pub open spec fn socks_udp_frame(addr: Option<(u8, u8, u8, u8)>, host: Seq<u8>, port: u16, data: Seq<u8>) -> Seq<u8> {
    let head: Seq<u8> = match addr {
        Some(o) => seq![0u8, 0u8, 0u8, 1u8, o.0, o.1, o.2, o.3],
        None => seq![0u8, 0u8, 0u8, 3u8, (host.len() % 256) as u8] + host,
    };
    head + seq![(port / 256) as u8, (port % 256) as u8] + data
}

/// Frames `data` for the SOCKS5 relay toward `host:port`, given how the host
/// text reads as an IPv4 address.
pub fn frame_socks_udp(addr: Option<(u8, u8, u8, u8)>, host: &str, port: u16, data: &[u8]) -> (r: Vec<u8>)
    ensures
        r@ == socks_udp_frame(addr, vstd::utf8::encode_utf8(host@), port, data@),
{
    let mut out: Vec<u8> = vec![0, 0, 0];
    match addr {
        Some(o) => {
            out.push(1);
            out.push(o.0);
            out.push(o.1);
            out.push(o.2);
            out.push(o.3);
        },
        None => {
            let b = host.as_bytes();
            out.push(3);
            let bl = b.len();
            let l8 = #[verifier::truncate] (bl as u8);
            assert(l8 as int == bl % 256) by (bit_vector)
                requires
                    l8 == #[verifier::truncate] (bl as u8),
            ;
            out.push(l8);
            out.extend_from_slice(b);
        },
    }
    out.push((port / 256) as u8);
    out.push((port % 256) as u8);
    out.extend_from_slice(data);
    assert(out@ =~= socks_udp_frame(addr, vstd::utf8::encode_utf8(host@), port, data@));
    out
}

/// Frames `data` for the SOCKS5 relay toward `host:port`.
pub fn wrap_socks_udp(host: &str, port: u16, data: &[u8]) -> (r: Vec<u8>)
    ensures
        r@ == socks_udp_frame(ipv4_text_octets(host@), vstd::utf8::encode_utf8(host@), port, data@),
{
    let addr = parse_ipv4_text(host);
    frame_socks_udp(addr, host, port, data)
}

/// Unwrapping a framed datagram gives back its data, whenever the frame can
/// carry the host (an IPv4 address, or a name of at most 255 bytes) and is
/// at least as long as the shortest datagram.
pub proof fn law_socks_udp_roundtrip(addr: Option<(u8, u8, u8, u8)>, host: Seq<u8>, port: u16, data: Seq<u8>)
    requires
        addr is Some || host.len() <= 255,
        socks_udp_frame(addr, host, port, data).len() >= 10,
    ensures
        ({
            let f = socks_udp_frame(addr, host, port, data);
            &&& socks_udp_payload_start(f) == Some(f.len() - data.len())
            &&& f.subrange(f.len() - data.len(), f.len() as int) == data
        }),
{
    let f = socks_udp_frame(addr, host, port, data);
    match addr {
        Some(o) => {
            assert(f[3] == 1u8);
        },
        None => {
            assert(f[3] == 3u8);
            assert(f[4] == (host.len() % 256) as u8);
        },
    }
    assert(f.subrange(f.len() - data.len(), f.len() as int) =~= data);
}

/// A transaction id made from a nonce: the magic cookie, the nonce's eight
/// little-endian bytes, then its bytes 1 to 4 again.
pub open spec fn tid_of(r: u64) -> Seq<u8> {
    seq![0x21u8, 0x12u8, 0xa4u8, 0x42u8] + Seq::new(8, |k: int| (r >> (8 * k) as u64) as u8) + seq![
        (r >> 8) as u8,
        (r >> 16) as u8,
        (r >> 24) as u8,
        (r >> 32) as u8,
    ]
}

/// Builds the transaction id for a nonce (the clock's nanoseconds).
pub fn make_tid_from(r: u64) -> (tid: [u8; 16])
    ensures
        tid@ == tid_of(r),
{
    let tid: [u8; 16] = [
        0x21,
        0x12,
        0xa4,
        0x42,
        r as u8,
        (r >> 8) as u8,
        (r >> 16) as u8,
        (r >> 24) as u8,
        (r >> 32) as u8,
        (r >> 40) as u8,
        (r >> 48) as u8,
        (r >> 56) as u8,
        (r >> 8) as u8,
        (r >> 16) as u8,
        (r >> 24) as u8,
        (r >> 32) as u8,
    ];
    assert(tid@ =~= tid_of(r)) by {
        assert(r >> 0u64 == r) by (bit_vector);
    }
    tid
}

/// Nanoseconds since the Unix epoch on the system clock, cut to 64 bits.
#[verifier::external_body]
fn clock_nanos() -> u64 {
    std::time::SystemTime::now().duration_since(std::time::UNIX_EPOCH).map(|d| d.as_nanos() as u64).unwrap_or(0)
}

/// A fresh transaction id: the magic cookie followed by clock-derived bytes.
pub fn make_tid() -> (tid: [u8; 16])
    ensures
        exists|r: u64| tid@ == #[trigger] tid_of(r),
{
    make_tid_from(clock_nanos())
}

/// A Binding request (type 0x0001) with the given transaction id and
/// attributes.
pub open spec fn binding_request(tid: Seq<u8>, attrs: Seq<u8>) -> Seq<u8> {
    seq![0u8, 1u8, (attrs.len() / 256) as u8, (attrs.len() % 256) as u8] + tid + attrs
}

/// Builds a Binding request.
pub fn build_binding_request(tid: &[u8; 16], attrs: &[u8]) -> (r: Vec<u8>)
    requires
        attrs@.len() <= 0xffff,
    ensures
        r@ == binding_request(tid@, attrs@),
{
    let n = attrs.len();
    let mut out: Vec<u8> = vec![0, 1, (n / 256) as u8, (n % 256) as u8];
    out.extend_from_slice(tid);
    out.extend_from_slice(attrs);
    assert(out@ =~= binding_request(tid@, attrs@));
    out
}

/// The CHANGE-REQUEST attribute asking the server to answer from its other
/// address and port.
pub const CHANGE_IP_PORT: [u8; 8] = [0x00, 0x03, 0x00, 0x04, 0x00, 0x00, 0x00, 0x06];

/// The CHANGE-REQUEST attribute asking the server to answer from its other port.
pub const CHANGE_PORT: [u8; 8] = [0x00, 0x03, 0x00, 0x04, 0x00, 0x00, 0x00, 0x02];

/// The NAT behaviour that the probe sequence concludes.
#[derive(Clone, Copy, PartialEq, Eq, Structural, Debug)]
pub enum NatType {
    FullCone,
    RestrictedCone,
    PortRestrictedCone,
    Symmetric,
    Blocked,
    Unknown,
}

pub open spec fn nat_text(t: NatType) -> Seq<char> {
    match t {
        NatType::FullCone => "FullCone"@,
        NatType::RestrictedCone => "RestrictedCone"@,
        NatType::PortRestrictedCone => "PortRestrictedCone"@,
        NatType::Symmetric => "Symmetric"@,
        NatType::Blocked => "Blocked"@,
        NatType::Unknown => "Unknown"@,
    }
}

impl NatType {
    /// The name shown in results.
    pub fn as_str(&self) -> (r: &'static str)
        ensures
            r@ == nat_text(*self),
    {
        match self {
            NatType::FullCone => "FullCone",
            NatType::RestrictedCone => "RestrictedCone",
            NatType::PortRestrictedCone => "PortRestrictedCone",
            NatType::Symmetric => "Symmetric",
            NatType::Blocked => "Blocked",
            NatType::Unknown => "Unknown",
        }
    }
}

/// `Blocked` and `Unknown` are the inconclusive outcomes that earn a second run.
pub open spec fn is_inconclusive(t: NatType) -> bool {
    t == NatType::Blocked || t == NatType::Unknown
}

/// Whether a first NAT result is inconclusive and the detection runs again.
pub fn nat_needs_retry(first: NatType) -> (r: bool)
    ensures
        r == is_inconclusive(first),
{
    first == NatType::Blocked || first == NatType::Unknown
}

/// The result kept after an optional second run: a conclusive first result
/// stands; otherwise a conclusive second result replaces it.
pub open spec fn spec_combine_nat(first: NatType, second: Option<NatType>) -> NatType {
    if !is_inconclusive(first) {
        first
    } else {
        match second {
            Some(t) => if is_inconclusive(t) { first } else { t },
            None => first,
        }
    }
}

/// Combines the first and (when it ran) the second NAT detection.
pub fn combine_nat(first: NatType, second: Option<NatType>) -> (r: NatType)
    ensures
        r == spec_combine_nat(first, second),
{
    if !nat_needs_retry(first) {
        return first;
    }
    match second {
        Some(t) => if nat_needs_retry(t) { first } else { t },
        None => first,
    }
}

/// The combined result is one of the two runs, and a conclusive run is never
/// replaced by an inconclusive one.
pub proof fn law_combine_nat_keeps_conclusive(first: NatType, second: Option<NatType>)
    ensures
        spec_combine_nat(first, second) == first || second == Some(spec_combine_nat(first, second)),
        !is_inconclusive(first) ==> spec_combine_nat(first, second) == first,
        (second matches Some(t) && !is_inconclusive(t)) ==> !is_inconclusive(spec_combine_nat(first, second)),
{
}

/// The public STUN servers tried in order.
pub open spec fn stun_candidate(i: int) -> (Seq<char>, u16) {
    if i == 0 {
        ("stun.l.google.com"@, 19302)
    } else if i == 1 {
        ("stun1.l.google.com"@, 19302)
    } else if i == 2 {
        ("stun.cloudflare.com"@, 3478)
    } else if i == 3 {
        ("stun.voipgate.com"@, 3478)
    } else {
        ("stun.miwifi.com"@, 3478)
    }
}

pub const STUN_CANDIDATES: usize = 5;

/// The host and port of candidate server `i`.
pub fn stun_candidate_at(i: usize) -> (r: (&'static str, u16))
    requires
        i < STUN_CANDIDATES,
    ensures
        (r.0@, r.1) == stun_candidate(i as int),
{
    if i == 0 {
        ("stun.l.google.com", 19302)
    } else if i == 1 {
        ("stun1.l.google.com", 19302)
    } else if i == 2 {
        ("stun.cloudflare.com", 3478)
    } else if i == 3 {
        ("stun.voipgate.com", 3478)
    } else {
        ("stun.miwifi.com", 3478)
    }
}

/// Whether an answer names an alternate server.
pub open spec fn has_change(r: StunResp) -> bool {
    !r.change_ip.is_unspecified() && r.change_port != 0
}

/// Where the next Binding request goes.
#[derive(Clone, Copy, PartialEq, Eq, Structural, Debug)]
pub enum StunTarget {
    /// One of the candidate servers.
    Candidate(usize),
    /// The alternate address a server announced.
    Changed(Ipv4, u16),
}

/// Which CHANGE-REQUEST attribute the request carries.
#[derive(Clone, Copy, PartialEq, Eq, Structural, Debug)]
pub enum ChangeRequest {
    Nothing,
    IpAndPort,
    Port,
}

/// The attribute bytes of a change request.
pub fn change_attr(c: ChangeRequest) -> (r: Vec<u8>)
    ensures
        c == ChangeRequest::Nothing ==> r@.len() == 0,
        c == ChangeRequest::IpAndPort ==> r@ == CHANGE_IP_PORT@,
        c == ChangeRequest::Port ==> r@ == CHANGE_PORT@,
{
    match c {
        ChangeRequest::Nothing => Vec::new(),
        ChangeRequest::IpAndPort => {
            let v = vec![0x00u8, 0x03, 0x00, 0x04, 0x00, 0x00, 0x00, 0x06];
            assert(v@ =~= CHANGE_IP_PORT@);
            v
        },
        ChangeRequest::Port => {
            let v = vec![0x00u8, 0x03, 0x00, 0x04, 0x00, 0x00, 0x00, 0x02];
            assert(v@ =~= CHANGE_PORT@);
            v
        },
    }
}

/// What the prober does next.
#[derive(Clone, Copy, PartialEq, Eq, Structural, Debug)]
pub enum NatAction {
    /// Send one Binding exchange and report its answer.
    Query { target: StunTarget, change: ChangeRequest },
    /// The classification is complete.
    Done(NatType),
}

/// Which test the prober is waiting on.
#[derive(Clone, Copy, PartialEq, Eq, Structural, Debug)]
pub enum NatStage {
    /// Test 1 against candidate `i`.
    Candidate(usize),
    /// Test 2: same server, asked to answer from its other address and port.
    ChangeBoth,
    /// Test 3: the alternate server, plain request.
    AltServer,
    /// Test 4: the alternate server, asked to answer from its other port.
    AltPort,
    Finished,
}

/// A candidate server (by index) and its Test 1 answer.
#[derive(Clone, Copy, PartialEq, Eq, Structural, Debug)]
pub struct ProbePick {
    pub index: usize,
    pub resp: StunResp,
}

/// The Classic STUN NAT prober. Test 1 goes to the candidates in order until
/// one answers with an alternate address (a bare answer is kept as a
/// fallback); then Tests 2-4 classify the NAT.
#[derive(Clone, Copy, PartialEq, Eq, Structural, Debug)]
pub struct NatProbe {
    pub stage: NatStage,
    /// The first candidate that answered without an alternate address.
    pub fallback: Option<ProbePick>,
    /// The candidate Tests 2-4 use, with its Test 1 answer.
    pub chosen: Option<ProbePick>,
}

impl NatProbe {
    /// The invariant between the stage and the recorded answers.
    pub open spec fn wf(self) -> bool {
        &&& (self.fallback matches Some(f) ==> f.index < STUN_CANDIDATES && !f.resp.failed)
        &&& match self.stage {
            NatStage::Candidate(i) => i < STUN_CANDIDATES && self.chosen is None
                && (self.fallback matches Some(f) ==> f.index < i),
            NatStage::ChangeBoth => self.chosen matches Some(c) && c.index < STUN_CANDIDATES && !c.resp.failed,
            NatStage::AltServer | NatStage::AltPort => self.chosen matches Some(c) && c.index
                < STUN_CANDIDATES && !c.resp.failed && has_change(c.resp),
            NatStage::Finished => true,
        }
    }

    /// Steps left before the prober must finish.
    pub open spec fn rank(self) -> int {
        match self.stage {
            NatStage::Candidate(i) => 8 - i,
            NatStage::ChangeBoth => 3,
            NatStage::AltServer => 2,
            NatStage::AltPort => 1,
            NatStage::Finished => 0,
        }
    }

    /// The transition taken on the answer to the pending request.
    pub open spec fn spec_step(self, resp: StunResp) -> (NatProbe, NatAction) {
        match self.stage {
            NatStage::Candidate(i) => {
                if !resp.failed && has_change(resp) {
                    (
                        NatProbe { stage: NatStage::ChangeBoth, chosen: Some(ProbePick { index: i, resp }), ..self },
                        NatAction::Query { target: StunTarget::Candidate(i), change: ChangeRequest::IpAndPort },
                    )
                } else {
                    let fb = if !resp.failed && self.fallback is None {
                        Some(ProbePick { index: i, resp })
                    } else {
                        self.fallback
                    };
                    if i + 1 < STUN_CANDIDATES {
                        (
                            NatProbe { stage: NatStage::Candidate((i + 1) as usize), fallback: fb, ..self },
                            NatAction::Query {
                                target: StunTarget::Candidate((i + 1) as usize),
                                change: ChangeRequest::Nothing,
                            },
                        )
                    } else {
                        match fb {
                            Some(f) => (
                                NatProbe { stage: NatStage::ChangeBoth, fallback: fb, chosen: fb },
                                NatAction::Query { target: StunTarget::Candidate(f.index), change: ChangeRequest::IpAndPort },
                            ),
                            None => (
                                NatProbe { stage: NatStage::Finished, fallback: fb, ..self },
                                NatAction::Done(NatType::Blocked),
                            ),
                        }
                    }
                }
            },
            NatStage::ChangeBoth => {
                let r1 = (self.chosen->0).resp;
                if !resp.failed {
                    (NatProbe { stage: NatStage::Finished, ..self }, NatAction::Done(NatType::FullCone))
                } else if !has_change(r1) {
                    (NatProbe { stage: NatStage::Finished, ..self }, NatAction::Done(NatType::Unknown))
                } else {
                    (
                        NatProbe { stage: NatStage::AltServer, ..self },
                        NatAction::Query {
                            target: StunTarget::Changed(r1.change_ip, r1.change_port),
                            change: ChangeRequest::Nothing,
                        },
                    )
                }
            },
            NatStage::AltServer => {
                let r1 = (self.chosen->0).resp;
                if resp.failed {
                    (NatProbe { stage: NatStage::Finished, ..self }, NatAction::Done(NatType::Unknown))
                } else if resp.ext_ip != r1.ext_ip || resp.ext_port != r1.ext_port {
                    (NatProbe { stage: NatStage::Finished, ..self }, NatAction::Done(NatType::Symmetric))
                } else {
                    (
                        NatProbe { stage: NatStage::AltPort, ..self },
                        NatAction::Query {
                            target: StunTarget::Changed(r1.change_ip, r1.change_port),
                            change: ChangeRequest::Port,
                        },
                    )
                }
            },
            NatStage::AltPort => {
                if resp.failed {
                    (NatProbe { stage: NatStage::Finished, ..self }, NatAction::Done(NatType::PortRestrictedCone))
                } else {
                    (NatProbe { stage: NatStage::Finished, ..self }, NatAction::Done(NatType::RestrictedCone))
                }
            },
            NatStage::Finished => (self, NatAction::Done(NatType::Unknown)),
        }
    }

    /// A new prober and its first request (Test 1 to the first candidate).
    pub fn new() -> (r: (NatProbe, NatAction))
        ensures
            r.0.wf(),
            r.0.stage == NatStage::Candidate(0),
            r.0.fallback is None && r.0.chosen is None,
            r.1 == (NatAction::Query { target: StunTarget::Candidate(0), change: ChangeRequest::Nothing }),
    {
        (
            NatProbe { stage: NatStage::Candidate(0), fallback: None, chosen: None },
            NatAction::Query { target: StunTarget::Candidate(0), change: ChangeRequest::Nothing },
        )
    }

    /// Takes the answer to the pending request and says what to do next.
    pub fn step(&mut self, resp: StunResp) -> (r: NatAction)
        requires
            old(self).wf(),
            old(self).stage != NatStage::Finished,
        ensures
            (*final(self), r) == old(self).spec_step(resp),
            final(self).wf(),
            final(self).rank() < old(self).rank(),
            r is Done <==> final(self).stage == NatStage::Finished,
    {
        match self.stage {
            NatStage::Candidate(i) => {
                if !resp.failed && !(resp.change_ip.0 == 0 && resp.change_ip.1 == 0 && resp.change_ip.2 == 0 && resp.change_ip.3 == 0) && resp.change_port != 0 {
                    self.stage = NatStage::ChangeBoth;
                    self.chosen = Some(ProbePick { index: i, resp });
                    NatAction::Query { target: StunTarget::Candidate(i), change: ChangeRequest::IpAndPort }
                } else {
                    if !resp.failed && self.fallback.is_none() {
                        self.fallback = Some(ProbePick { index: i, resp });
                    }
                    if i + 1 < STUN_CANDIDATES {
                        self.stage = NatStage::Candidate(i + 1);
                        NatAction::Query { target: StunTarget::Candidate(i + 1), change: ChangeRequest::Nothing }
                    } else {
                        match self.fallback {
                            Some(f) => {
                                self.stage = NatStage::ChangeBoth;
                                self.chosen = self.fallback;
                                NatAction::Query { target: StunTarget::Candidate(f.index), change: ChangeRequest::IpAndPort }
                            },
                            None => {
                                self.stage = NatStage::Finished;
                                NatAction::Done(NatType::Blocked)
                            },
                        }
                    }
                }
            },
            NatStage::ChangeBoth => {
                let r1 = match self.chosen {
                    Some(c) => c.resp,
                    None => StunResp::default(),
                };
                if !resp.failed {
                    self.stage = NatStage::Finished;
                    NatAction::Done(NatType::FullCone)
                } else if (r1.change_ip.0 == 0 && r1.change_ip.1 == 0 && r1.change_ip.2 == 0 && r1.change_ip.3 == 0) || r1.change_port == 0 {
                    self.stage = NatStage::Finished;
                    NatAction::Done(NatType::Unknown)
                } else {
                    self.stage = NatStage::AltServer;
                    NatAction::Query {
                        target: StunTarget::Changed(r1.change_ip, r1.change_port),
                        change: ChangeRequest::Nothing,
                    }
                }
            },
            NatStage::AltServer => {
                let r1 = match self.chosen {
                    Some(c) => c.resp,
                    None => StunResp::default(),
                };
                if resp.failed {
                    self.stage = NatStage::Finished;
                    NatAction::Done(NatType::Unknown)
                } else if resp.ext_ip != r1.ext_ip || resp.ext_port != r1.ext_port {
                    self.stage = NatStage::Finished;
                    NatAction::Done(NatType::Symmetric)
                } else {
                    self.stage = NatStage::AltPort;
                    NatAction::Query {
                        target: StunTarget::Changed(r1.change_ip, r1.change_port),
                        change: ChangeRequest::Port,
                    }
                }
            },
            NatStage::AltPort => {
                self.stage = NatStage::Finished;
                if resp.failed {
                    NatAction::Done(NatType::PortRestrictedCone)
                } else {
                    NatAction::Done(NatType::RestrictedCone)
                }
            },
            NatStage::Finished => NatAction::Done(NatType::Unknown),
        }
    }
}

/// The prober always finishes: every answer lowers its rank, and a prober
/// that is not finished has a positive rank, so at most eight answers are
/// ever asked for (five candidates, then three tests).
pub proof fn law_nat_probe_terminates(p: NatProbe, resp: StunResp)
    requires
        p.wf(),
        p.stage != NatStage::Finished,
    ensures
        0 < p.rank() <= 8,
        p.spec_step(resp).0.rank() < p.rank(),
        p.spec_step(resp).0.wf(),
        p.spec_step(resp).1 is Done <==> p.spec_step(resp).0.stage == NatStage::Finished,
{
}

/// `Blocked` is concluded only when no candidate answered Test 1, and
/// `FullCone` only on a successful Test 2.
pub proof fn law_nat_blocked_only_without_answer(p: NatProbe, resp: StunResp)
    requires
        p.wf(),
        p.stage != NatStage::Finished,
    ensures
        p.spec_step(resp).1 == NatAction::Done(NatType::Blocked) ==> (p.stage == NatStage::Candidate(
            (STUN_CANDIDATES - 1) as usize) && resp.failed && p.fallback is None),
        p.spec_step(resp).1 == NatAction::Done(NatType::FullCone) ==> (p.stage == NatStage::ChangeBoth
            && !resp.failed),
{
}

/// Dotted-decimal text of an IPv4 address.
pub open spec fn dotted_text(ip: Ipv4) -> Seq<char> {
    fmt_int(ip.0 as int) + seq!['.'] + fmt_int(ip.1 as int) + seq!['.'] + fmt_int(ip.2 as int)
        + seq!['.'] + fmt_int(ip.3 as int)
}

/// Formats an IPv4 address as dotted-decimal text.
pub fn dotted(ip: Ipv4) -> (r: String)
    ensures
        r@ == dotted_text(ip),
{
    let mut out = String::new();
    push_int(&mut out, ip.0 as i64);
    push_char(&mut out, '.');
    push_int(&mut out, ip.1 as i64);
    push_char(&mut out, '.');
    push_int(&mut out, ip.2 as i64);
    push_char(&mut out, '.');
    push_int(&mut out, ip.3 as i64);
    assert(out@ =~= dotted_text(ip));
    out
}

/// The last two tests classify as RFC 3489 says. Test 2 answered (the server
/// replied from its other address and port): full cone. Test 3, the plain
/// request to the alternate server: no answer leaves the type unknown, a
/// different mapped address means symmetric, the same one leads to Test 4.
/// Test 4, the alternate server asked to reply from its other port: no
/// answer means port-restricted cone, an answer means restricted cone.
pub proof fn law_nat_tests_classify(p: NatProbe, resp: StunResp)
    requires
        p.wf(),
    ensures
        p.stage == NatStage::ChangeBoth && !resp.failed ==> p.spec_step(resp).1 == NatAction::Done(NatType::FullCone),
        p.stage == NatStage::AltServer && resp.failed ==> p.spec_step(resp).1 == NatAction::Done(NatType::Unknown),
        p.stage == NatStage::AltServer && !resp.failed && (resp.ext_ip != (p.chosen->0).resp.ext_ip || resp.ext_port
            != (p.chosen->0).resp.ext_port) ==> p.spec_step(resp).1 == NatAction::Done(NatType::Symmetric),
        p.stage == NatStage::AltServer && !resp.failed && resp.ext_ip == (p.chosen->0).resp.ext_ip && resp.ext_port
            == (p.chosen->0).resp.ext_port ==> p.spec_step(resp).0.stage == NatStage::AltPort && p.spec_step(resp).1
            == (NatAction::Query {
            target: StunTarget::Changed((p.chosen->0).resp.change_ip, (p.chosen->0).resp.change_port),
            change: ChangeRequest::Port,
        }),
        p.stage == NatStage::AltPort && resp.failed ==> p.spec_step(resp).1 == NatAction::Done(NatType::PortRestrictedCone),
        p.stage == NatStage::AltPort && !resp.failed ==> p.spec_step(resp).1 == NatAction::Done(NatType::RestrictedCone),
{
}

} // verus!
