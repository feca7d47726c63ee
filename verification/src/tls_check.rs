//! The verdict of a strict TLS check (SNI and WebPKI) made through the proxy.

use vstd::prelude::*;

use crate::text::{chars_of, contains_chars, contains_seq, lowercase, to_lowercase};

verus! {

/// NotApplicable: no conclusion could be drawn; Verified: the chain and the
/// host name checked out; Failed: the certificate was rejected.
#[derive(Clone, Copy, PartialEq, Eq, Structural, Debug)]
pub enum TlsVerifyState {
    NotApplicable,
    Verified,
    Failed,
}

pub open spec fn tls_state_text(s: TlsVerifyState) -> Seq<char> {
    match s {
        TlsVerifyState::NotApplicable => "NotApplicable"@,
        TlsVerifyState::Verified => "Verified"@,
        TlsVerifyState::Failed => "Failed"@,
    }
}

impl TlsVerifyState {
    /// The name stored in results.
    pub fn as_str(self) -> (r: &'static str)
        ensures
            r@ == tls_state_text(self),
    {
        match self {
            TlsVerifyState::NotApplicable => "NotApplicable",
            TlsVerifyState::Verified => "Verified",
            TlsVerifyState::Failed => "Failed",
        }
    }
}

/// The host checked, the same one the latency probe uses.
pub const TLS_VERIFY_HOST: &'static str = "cp.cloudflare.com";
pub const TLS_VERIFY_PORT: u16 = 443;

/// The verdict of a check's outcome: `Some(true)` handshake verified,
/// `Some(false)` certificate rejected, `None` no conclusion.
pub fn tls_state_of(outcome: Option<bool>) -> (r: TlsVerifyState)
    ensures
        outcome == Some(true) ==> r == TlsVerifyState::Verified,
        outcome == Some(false) ==> r == TlsVerifyState::Failed,
        outcome is None ==> r == TlsVerifyState::NotApplicable,
{
    match outcome {
        Some(true) => TlsVerifyState::Verified,
        Some(false) => TlsVerifyState::Failed,
        None => TlsVerifyState::NotApplicable,
    }
}

/// The words that mark a handshake error as a certificate problem.
pub open spec fn cert_keyword(i: int) -> Seq<char> {
    if i == 0 {
        "certificate"@
    } else if i == 1 {
        "cert"@
    } else if i == 2 {
        "webpki"@
    } else if i == 3 {
        "unknown issuer"@
    } else if i == 4 {
        "unknownissuer"@
    } else if i == 5 {
        "not valid"@
    } else if i == 6 {
        "notvalidforname"@
    } else if i == 7 {
        "expired"@
    } else if i == 8 {
        "hostname"@
    } else if i == 9 {
        "name mismatch"@
    } else if i == 10 {
        "badencoding"@
    } else if i == 11 {
        "unsupportedcert"@
    } else {
        "invalid peer"@
    }
}

pub const CERT_KEYWORDS: usize = 13;

fn cert_keyword_at(i: usize) -> (r: &'static str)
    requires
        i < CERT_KEYWORDS,
    ensures
        r@ == cert_keyword(i as int),
{
    if i == 0 {
        "certificate"
    } else if i == 1 {
        "cert"
    } else if i == 2 {
        "webpki"
    } else if i == 3 {
        "unknown issuer"
    } else if i == 4 {
        "unknownissuer"
    } else if i == 5 {
        "not valid"
    } else if i == 6 {
        "notvalidforname"
    } else if i == 7 {
        "expired"
    } else if i == 8 {
        "hostname"
    } else if i == 9 {
        "name mismatch"
    } else if i == 10 {
        "badencoding"
    } else if i == 11 {
        "unsupportedcert"
    } else {
        "invalid peer"
    }
}

/// Whether a lower-cased error text names a certificate problem.
pub open spec fn names_cert_problem(lower: Seq<char>) -> bool {
    exists|i: int| 0 <= i < CERT_KEYWORDS && contains_seq(lower, #[trigger] cert_keyword(i))
}

/// Whether an already lower-cased handshake error is a certificate problem.
pub fn is_certificate_error_text(lower: &str) -> (r: bool)
    ensures
        r == names_cert_problem(lower@),
{
    let h = chars_of(lower);
    let mut i: usize = 0;
    while i < CERT_KEYWORDS
        invariant
            i <= CERT_KEYWORDS,
            h@ == lower@,
            forall|j: int| 0 <= j < i ==> !contains_seq(lower@, #[trigger] cert_keyword(j)),
        decreases CERT_KEYWORDS - i,
    {
        let k = chars_of(cert_keyword_at(i));
        if contains_chars(&h, &k) {
            return true;
        }
        i += 1;
    }
    false
}

/// A handshake error after the proxy connected counts as a certificate
/// rejection when its lower-cased text names a certificate problem; any other
/// error (the peer hung up, the protocol broke off) gives no conclusion.
pub fn handshake_error_outcome(msg: &str) -> (r: Option<bool>)
    ensures
        names_cert_problem(lowercase(msg@)) ==> r == Some(false),
        !names_cert_problem(lowercase(msg@)) ==> r is None,
{
    let lower = to_lowercase(msg);
    if is_certificate_error_text(lower.as_str()) {
        Some(false)
    } else {
        None
    }
}

/// `socks connect failed N`
pub open spec fn connect_failed_text(code: u8) -> Seq<char> {
    "socks connect failed "@ + crate::text::fmt_int(code as int)
}

/// Reads the header of the proxy's CONNECT reply: the address part that
/// follows, or the error for a refused request or an unknown address type.
pub fn connect_reply_tail(header: &[u8; 4]) -> (r: Result<crate::socks::ReplyAddrKind, String>)
    ensures
        header@[1] != 0 ==> (r matches Err(m) && m@ == connect_failed_text(header@[1])),
        header@[1] == 0 && header@[3] == 1 ==> r == Ok::<crate::socks::ReplyAddrKind, String>(crate::socks::ReplyAddrKind::V4),
        header@[1] == 0 && header@[3] == 3 ==> r == Ok::<crate::socks::ReplyAddrKind, String>(crate::socks::ReplyAddrKind::Domain),
        header@[1] == 0 && header@[3] == 4 ==> r == Ok::<crate::socks::ReplyAddrKind, String>(crate::socks::ReplyAddrKind::V6),
        header@[1] == 0 && header@[3] != 1 && header@[3] != 3 && header@[3] != 4 ==> (r matches Err(m) && m@
            == "bad atyp"@),
{
    if !crate::socks::reply_succeeded(header) {
        let mut m = crate::text::string_of(&chars_of("socks connect failed "));
        crate::text::push_u64_padded(&mut m, header[1] as u64, 0);
        return Err(m);
    }
    match crate::socks::reply_addr_kind(header[3]) {
        Some(k) => Ok(k),
        None => Err(crate::text::string_of(&chars_of("bad atyp"))),
    }
}

/// How many bytes of the reply's address part remain after its first byte
/// is known: four address bytes and the port, a name of the given length and
/// the port, or sixteen address bytes and the port. For a name, the first
/// byte read is the length itself.
pub fn reply_tail_len(kind: crate::socks::ReplyAddrKind, name_len: u8) -> (r: usize)
    ensures
        r == (match kind {
            crate::socks::ReplyAddrKind::V4 => 6,
            crate::socks::ReplyAddrKind::Domain => name_len + 2,
            crate::socks::ReplyAddrKind::V6 => 18,
        }),
{
    match kind {
        crate::socks::ReplyAddrKind::V4 => 6,
        crate::socks::ReplyAddrKind::Domain => name_len as usize + 2,
        crate::socks::ReplyAddrKind::V6 => 18,
    }
}

/// The conclusion of a TLS handshake made through the proxy: verified when it
/// succeeded, rejected on a certificate error, otherwise the error itself.
pub fn handshake_conclusion(handshake: Result<(), String>) -> (r: Result<bool, String>)
    ensures
        match handshake {
            Ok(()) => r == Ok::<bool, String>(true),
            Err(e) => if names_cert_problem(lowercase(e@)) {
                r == Ok::<bool, String>(false)
            } else {
                r matches Err(m) && m@ == e@
            },
        },
{
    match handshake {
        Ok(()) => Ok(true),
        Err(e) => match handshake_error_outcome(e.as_str()) {
            Some(v) => Ok(v),
            None => Err(e),
        },
    }
}

/// The verdict stored for a check: verified, failed, or not applicable when
/// the check ended in an error.
pub fn verdict_of(check: Result<bool, String>) -> (r: TlsVerifyState)
    ensures
        check == Ok::<bool, String>(true) ==> r == TlsVerifyState::Verified,
        check == Ok::<bool, String>(false) ==> r == TlsVerifyState::Failed,
        check is Err ==> r == TlsVerifyState::NotApplicable,
{
    match check {
        Ok(v) => tls_state_of(Some(v)),
        Err(_) => TlsVerifyState::NotApplicable,
    }
}

} // verus!
