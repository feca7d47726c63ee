//! Subscription import: share links, Base64 subscription bodies and Clash
//! proxy lists become proxy units, and the proxy units become the proxy
//! provider files of the core.

use serde_yaml::Value;
use vstd::prelude::*;

use crate::codec::{b64_decode, b64_decode_checked, b64_encode_text, b64_text, pct_decode, url_decode};
use crate::text::{
    occurs_at, chars_of, contains_chars, contains_seq, find_first, find_seq, fmt_int, is_white_space, lowercase,
    parse_i32_chars, push_char, push_int, push_str_chars, rfind_char, rfind_char_in, slice_chars,
    spec_parse_i32, split_chars, split_on, str_eq, string_of, to_lowercase, trim, trim_chars,
};

verus! {

/// A proxy of a subscription with what the engine keeps of it besides the
/// measurements.
#[derive(Debug)]
pub struct NodeInfo {
    pub id: i32,
    pub group: String,
    pub remarks: String,
    pub server: String,
    pub port: i32,
    pub proxy_str: String,
    pub proxy_type: String,
    pub raw_unit: String,
    pub is_link_unit: bool,
}

/// `://`
pub open spec fn scheme_sep() -> Seq<char> {
    seq![':', '/', '/']
}

/// A character allowed in a share-link scheme.
pub open spec fn is_scheme_char(c: char) -> bool {
    ('0' <= c <= '9') || ('a' <= c <= 'z') || ('A' <= c <= 'Z') || c == '+' || c == '-' || c == '.'
}

/// `s` is a share link: a non-empty scheme before the first `://` that,
/// lower-cased, is neither `http` nor `https` and holds only ASCII letters,
/// digits, `+`, `-` and `.`.
pub open spec fn spec_is_share_link(s: Seq<char>) -> bool {
    match find_first(s, scheme_sep()) {
        None => false,
        Some(p) => {
            let sc = lowercase(s.take(p));
            &&& p != 0
            &&& sc != seq!['h', 't', 't', 'p']
            &&& sc != seq!['h', 't', 't', 'p', 's']
            &&& forall|i: int| 0 <= i < sc.len() ==> is_scheme_char(#[trigger] sc[i])
        },
    }
}

#[verifier::loop_isolation(false)]
fn is_share_link_chars(cs: &[char]) -> (r: bool)
    ensures
        r == spec_is_share_link(cs@),
{
    let sep = [':', '/', '/'];
    assert(sep@ =~= scheme_sep());
    proof {
        crate::text::lemma_find_first(cs@, scheme_sep());
    }
    match find_seq(cs, &sep) {
        None => false,
        Some(p) => {
            if p == 0 {
                return false;
            }
            let pre = slice_chars(cs, 0, p);
            assert(pre@ =~= cs@.take(p as int));
            let lower = to_lowercase(&string_of(&pre));
            proof {
                reveal_strlit("http");
                reveal_strlit("https");
            }
            if str_eq(lower.as_str(), "http") || str_eq(lower.as_str(), "https") {
                assert("http"@ =~= seq!['h', 't', 't', 'p']);
                assert("https"@ =~= seq!['h', 't', 't', 'p', 's']);
                return false;
            }
            assert("http"@ =~= seq!['h', 't', 't', 'p']);
            assert("https"@ =~= seq!['h', 't', 't', 'p', 's']);
            let sc = chars_of(lower.as_str());
            let mut i: usize = 0;
            while i < sc.len()
                invariant
                    i <= sc@.len(),
                    forall|j: int| 0 <= j < i ==> is_scheme_char(#[trigger] sc@[j]),
                decreases sc@.len() - i,
            {
                let c = sc[i];
                if !(('0' <= c && c <= '9') || ('a' <= c && c <= 'z') || ('A' <= c && c <= 'Z') || c == '+'
                    || c == '-' || c == '.') {
                    assert(!is_scheme_char(sc@[i as int]));
                    return false;
                }
                i += 1;
            }
            true
        },
    }
}

/// Whether `s` is a share link (`vless://…`, `ss://…`, …) rather than an
/// `http(s)` address or plain text.
pub fn is_share_link(s: &str) -> (r: bool)
    ensures
        r == spec_is_share_link(s@),
{
    let cs = chars_of(s);
    is_share_link_chars(&cs)
}

/// The first index of `c` in `s`.
pub open spec fn find_char(s: Seq<char>, c: char) -> Option<int> {
    find_first(s, seq![c])
}

fn find_char_in(s: &[char], c: char) -> (r: Option<usize>)
    ensures
        r matches Some(k) ==> find_char(s@, c) == Some(k as int),
        r is None ==> find_char(s@, c) is None,
{
    let pat = [c];
    assert(pat@ =~= seq![c]);
    find_seq(s, &pat)
}

/// What a remark decodes to: the percent-decoded text, or empty when the
/// decoded bytes are not UTF-8.
pub open spec fn remark_text(r: Seq<char>) -> Seq<char> {
    let b = pct_decode(vstd::utf8::encode_utf8(r));
    if vstd::utf8::valid_utf8(b) {
        vstd::utf8::decode_utf8(b)
    } else {
        Seq::empty()
    }
}

/// The part of a link after its scheme separator.
pub open spec fn after_scheme(link: Seq<char>) -> Seq<char> {
    match find_first(link, scheme_sep()) {
        Some(p) => link.skip(p + 3),
        None => link,
    }
}

/// The remark (after `#`) of a link body and the body before it.
pub open spec fn split_remark(b: Seq<char>) -> (Seq<char>, Seq<char>) {
    match find_char(b, '#') {
        Some(h) => (remark_text(b.skip(h + 1)), b.take(h)),
        None => (Seq::empty(), b),
    }
}

/// The host part of a link body: the query, the user info and the path cut off.
pub open spec fn host_part(b: Seq<char>) -> Seq<char> {
    let b1 = match find_char(b, '?') {
        Some(q) => b.take(q),
        None => b,
    };
    let b2 = match rfind_char(b1, '@') {
        Some(a) => b1.skip(a + 1),
        None => b1,
    };
    match find_char(b2, '/') {
        Some(s) => b2.take(s),
        None => b2,
    }
}

/// Server and port of a host part: `[v6]:port`, `host:port` (split at the
/// last colon) or a bare host.
pub open spec fn server_port(h: Seq<char>) -> (Seq<char>, Seq<char>) {
    if h.len() > 0 && h[0] == '[' {
        match find_char(h, ']') {
            Some(rb) => (
                h.subrange(1, rb),
                if h.len() > rb + 1 && h[rb + 1] == ':' {
                    h.skip(rb + 2)
                } else {
                    Seq::empty()
                },
            ),
            None => (Seq::empty(), Seq::empty()),
        }
    } else {
        match rfind_char(h, ':') {
            Some(c) => if !contains_seq(h, seq![']']) {
                (h.take(c), h.skip(c + 1))
            } else {
                (h, Seq::empty())
            },
            None => (h, Seq::empty()),
        }
    }
}

/// Server, port text and remark of a share link.
pub open spec fn spec_link_meta(link: Seq<char>) -> (Seq<char>, Seq<char>, Seq<char>) {
    let (remark, body) = split_remark(after_scheme(link));
    let (server, port) = server_port(host_part(body));
    (server, port, remark)
}

proof fn lemma_find_char_bounds(s: Seq<char>, c: char)
    ensures
        find_char(s, c) matches Some(k) ==> 0 <= k < s.len() && s[k] == c,
{
    crate::text::lemma_find_first(s, seq![c]);
    if let Some(k) = find_char(s, c) {
        assert(s.subrange(k, k + 1)[0] == s[k]);
    }
}

proof fn lemma_rfind_bounds(s: Seq<char>, c: char)
    ensures
        rfind_char(s, c) matches Some(k) ==> 0 <= k < s.len() && s[k] == c,
    decreases s.len(),
{
    if s.len() > 0 && s.last() != c {
        lemma_rfind_bounds(s.drop_last(), c);
    }
}

fn remark_of(r: &[char]) -> (t: Vec<char>)
    ensures
        t@ == remark_text(r@),
{
    let s = string_of(r);
    match url_decode(s.as_str()) {
        Some(d) => chars_of(d.as_str()),
        None => Vec::new(),
    }
}

fn server_port_of(h: &[char]) -> (r: (Vec<char>, Vec<char>))
    ensures
        (r.0@, r.1@) == server_port(h@),
{
    proof {
        lemma_find_char_bounds(h@, ']');
        lemma_rfind_bounds(h@, ':');
    }
    if h.len() > 0 && h[0] == '[' {
        match find_char_in(h, ']') {
            Some(rb) => {
                if rb < 1 {
                    assert(false);
                }
                let server = slice_chars(h, 1, rb);
                let port = if h.len() > rb + 1 && h[rb + 1] == ':' {
                    let p = slice_chars(h, rb + 2, h.len());
                    assert(p@ =~= h@.skip(rb + 2));
                    p
                } else {
                    Vec::new()
                };
                (server, port)
            },
            None => (Vec::new(), Vec::new()),
        }
    } else {
        match rfind_char_in(h, ':') {
            Some(c) => {
                let rb = [']'];
                assert(rb@ =~= seq![']']);
                if !contains_chars(h, &rb) {
                    let server = slice_chars(h, 0, c);
                    let port = slice_chars(h, c + 1, h.len());
                    assert(server@ =~= h@.take(c as int));
                    assert(port@ =~= h@.skip(c + 1));
                    (server, port)
                } else {
                    (slice_chars(h, 0, h.len()), Vec::new())
                }
            },
            None => (slice_chars(h, 0, h.len()), Vec::new()),
        }
    }
}

fn link_meta_chars(link: &[char]) -> (r: (Vec<char>, Vec<char>, Vec<char>))
    ensures
        (r.0@, r.1@, r.2@) == spec_link_meta(link@),
{
    let sep = [':', '/', '/'];
    assert(sep@ =~= scheme_sep());
    proof {
        crate::text::lemma_find_first(link@, scheme_sep());
    }
    let body = match find_seq(link, &sep) {
        Some(p) => {
            assert(occurs_at(link@, scheme_sep(), p as int));
            assert(scheme_sep().len() == 3);
            assert(p + 3 <= link@.len());
            assert(link@.len() == link.len());
            let b = slice_chars(link, p + 3, link.len());
            assert(b@ =~= link@.skip(p + 3));
            b
        },
        None => slice_chars(link, 0, link.len()),
    };
    assert(body@ =~= after_scheme(link@));
    proof {
        lemma_find_char_bounds(body@, '#');
    }
    let (remark, body) = match find_char_in(&body, '#') {
        Some(h) => {
            let r = slice_chars(&body, h + 1, body.len());
            let t = remark_of(&r);
            let b = slice_chars(&body, 0, h);
            assert(r@ =~= body@.skip(h + 1));
            assert(b@ =~= body@.take(h as int));
            (t, b)
        },
        None => (Vec::new(), body),
    };
    proof {
        lemma_find_char_bounds(body@, '?');
    }
    let b1 = match find_char_in(&body, '?') {
        Some(q) => {
            let b = slice_chars(&body, 0, q);
            assert(b@ =~= body@.take(q as int));
            b
        },
        None => body,
    };
    proof {
        lemma_rfind_bounds(b1@, '@');
    }
    let b2 = match rfind_char_in(&b1, '@') {
        Some(a) => {
            let b = slice_chars(&b1, a + 1, b1.len());
            assert(b@ =~= b1@.skip(a + 1));
            b
        },
        None => b1,
    };
    proof {
        lemma_find_char_bounds(b2@, '/');
    }
    let b3 = match find_char_in(&b2, '/') {
        Some(s) => {
            let b = slice_chars(&b2, 0, s);
            assert(b@ =~= b2@.take(s as int));
            b
        },
        None => b2,
    };
    let (server, port) = server_port_of(&b3);
    (server, port, remark)
}

/// Server, port text and decoded remark of a share link.
pub fn link_meta(link: &str) -> (r: (String, String, String))
    ensures
        (r.0@, r.1@, r.2@) == spec_link_meta(link@),
{
    let cs = chars_of(link);
    let (s, p, m) = link_meta_chars(&cs);
    (string_of(&s), string_of(&p), string_of(&m))
}

/// The group every imported proxy starts in.
pub open spec fn default_group() -> Seq<char> {
    seq!['D', 'e', 'f', 'a', 'u', 'l', 't']
}

/// The group given to a proxy at import.
pub fn default_group_for(_remarks: &str) -> (r: String)
    ensures
        r@ == default_group(),
{
    let mut g = String::new();
    push_str_chars(&mut g, &['D', 'e', 'f', 'a', 'u', 'l', 't']);
    assert(g@ =~= default_group());
    g
}

/// The port of a proxy from its port text: the parsed number, 0 when the text
/// is no `i32`.
pub open spec fn port_value(t: Seq<char>) -> i32 {
    match spec_parse_i32(t) {
        Some(v) => v,
        None => 0,
    }
}

/// The name of a proxy without a remark: `server:port`.
pub open spec fn fallback_remarks(server: Seq<char>, port: Seq<char>) -> Seq<char> {
    server + seq![':'] + port
}

/// `n` is the unit for a share link, with the port overridden by a non-empty
/// `custom_port`.
pub open spec fn is_link_node(n: NodeInfo, link: Seq<char>, custom_port: Seq<char>) -> bool {
    let (server, port0, remark) = spec_link_meta(link);
    let port = if custom_port.len() > 0 { custom_port } else { port0 };
    let remarks = if remark.len() == 0 { fallback_remarks(server, port) } else { remark };
    &&& n.id == -1
    &&& n.group@ == default_group()
    &&& n.remarks@ == remarks
    &&& n.server@ == server
    &&& n.port == port_value(port)
    &&& n.proxy_str@ == Seq::<char>::empty()
    &&& n.proxy_type@ == Seq::<char>::empty()
    &&& n.raw_unit@ == link
    &&& n.is_link_unit
}

fn port_value_of(t: &[char]) -> (r: i32)
    ensures
        r == port_value(t@),
{
    match parse_i32_chars(t) {
        Some(v) => v,
        None => 0,
    }
}

fn remarks_or(remark: &[char], server: &[char], port: &[char]) -> (r: String)
    ensures
        r@ == (if remark@.len() == 0 { fallback_remarks(server@, port@) } else { remark@ }),
{
    if remark.len() == 0 {
        let mut s = string_of(server);
        push_char(&mut s, ':');
        push_str_chars(&mut s, port);
        assert(s@ =~= fallback_remarks(server@, port@));
        s
    } else {
        string_of(remark)
    }
}

fn link_node_chars(link: &[char], custom_port: &[char]) -> (n: NodeInfo)
    ensures
        is_link_node(n, link@, custom_port@),
{
    let (server, port0, remark) = link_meta_chars(link);
    let port = if custom_port.len() > 0 { slice_chars(custom_port, 0, custom_port.len()) } else { port0 };
    assert(custom_port.len() > 0 ==> port@ =~= custom_port@);
    let remarks = remarks_or(&remark, &server, &port);
    NodeInfo {
        id: -1,
        group: default_group_for(""),
        remarks,
        server: string_of(&server),
        port: port_value_of(&port),
        proxy_str: String::new(),
        proxy_type: String::new(),
        raw_unit: string_of(link),
        is_link_unit: true,
    }
}

/// The unit for one share link; a non-empty `custom_port` replaces its port.
pub fn link_node(link: &str, custom_port: &str) -> (n: NodeInfo)
    ensures
        is_link_node(n, link@, custom_port@),
{
    let l = chars_of(link);
    let c = chars_of(custom_port);
    link_node_chars(&l, &c)
}

/// `-` as `+` and `_` as `/`: the URL-safe alphabet mapped to the standard one.
pub open spec fn std_alphabet(s: Seq<char>) -> Seq<char> {
    s.map_values(|c: char| if c == '-' { '+' } else if c == '_' { '/' } else { c })
}

/// The trimmed text in the standard alphabet, padded with `=` to a multiple
/// of four bytes.
pub open spec fn padded_b64(s: Seq<char>) -> Seq<char> {
    let t = std_alphabet(trim(s));
    let n = vstd::utf8::encode_utf8(t).len();
    t + Seq::new(((4 - n % 4) % 4) as nat, |i: int| '=')
}

/// What a URL-safe Base64 body decodes to: its text when it decodes to UTF-8,
/// else empty.
pub open spec fn spec_urlsafe_b64_text(s: Seq<char>) -> Seq<char> {
    match b64_decode(vstd::utf8::encode_utf8(padded_b64(s))) {
        Some(b) => if vstd::utf8::valid_utf8(b) {
            vstd::utf8::decode_utf8(b)
        } else {
            Seq::empty()
        },
        None => Seq::empty(),
    }
}

/// Decodes a Base64 body written in either alphabet, with or without padding;
/// empty when it is no Base64 of UTF-8 text.
pub fn urlsafe_base64_decode(s: &[char]) -> (r: Vec<char>)
    ensures
        r@ == spec_urlsafe_b64_text(s@),
{
    let t0 = trim_chars(s);
    let mut t: Vec<char> = Vec::new();
    let mut i: usize = 0;
    while i < t0.len()
        invariant
            i <= t0@.len(),
            t@ == std_alphabet(t0@.take(i as int)),
        decreases t0@.len() - i,
    {
        let c = t0[i];
        let d = if c == '-' {
            '+'
        } else if c == '_' {
            '/'
        } else {
            c
        };
        t.push(d);
        i += 1;
        assert(t@ =~= std_alphabet(t0@.take(i as int)));
    }
    assert(t0@.take(t0@.len() as int) =~= t0@);
    let ts = string_of(&t);
    let n = ts.as_str().as_bytes().len();
    let k = (4 - n % 4) % 4;
    let mut padded = ts;
    let ghost base = padded@;
    let mut j: usize = 0;
    while j < k
        invariant
            j <= k,
            k < 4,
            padded@ == base + Seq::new(j as nat, |x: int| '='),
        decreases k - j,
    {
        push_char(&mut padded, '=');
        j += 1;
        assert(padded@ =~= base + Seq::new(j as nat, |x: int| '='));
    }
    assert(padded@ =~= padded_b64(s@));
    match b64_decode_checked(padded.as_str().as_bytes()) {
        Some(b) => match crate::text::from_utf8(b) {
            Some(text) => chars_of(text.as_str()),
            None => Vec::new(),
        },
        None => Vec::new(),
    }
}

/// `proxies`
pub open spec fn proxies_word() -> Seq<char> {
    seq!['p', 'r', 'o', 'x', 'i', 'e', 's']
}

/// `Proxy`
pub open spec fn proxy_word() -> Seq<char> {
    seq!['P', 'r', 'o', 'x', 'y']
}

/// Every character of `s[a..b]` is white space.
pub open spec fn all_ws(s: Seq<char>, a: int, b: int) -> bool {
    forall|k: int| a <= k < b ==> is_white_space(#[trigger] s[k])
}

/// From `k` on, white space and then a `:` at `m`.
pub open spec fn colon_after(s: Seq<char>, k: int, m: int) -> bool {
    k <= m < s.len() && all_ws(s, k, m) && s[m] == ':'
}

/// Some line of `s` opens, after white space, a `proxies:` or `Proxy:` key
/// (white space allowed before the colon).
pub open spec fn has_proxies_key(s: Seq<char>) -> bool {
    exists|i: int, j: int, m: int|
        #![trigger all_ws(s, i, j), colon_after(s, j, m)]
        0 <= i <= j && (i == 0 || s[i - 1] == '\n') && all_ws(s, i, j) && ((occurs_at(s, proxies_word(), j)
            && colon_after(s, j + 7, m)) || (occurs_at(s, proxy_word(), j) && colon_after(s, j + 5, m)))
}

/// The pattern that detects a Clash proxy list.
pub const CLASH_KEY_PATTERN: &'static str = "(?m)^\\s*(?:proxies|Proxy)\\s*:";

/// Matches `hay` against the Clash proxy-list pattern with `regex::Regex`:
/// multi-line `^` matches at the start and after each `\n`, and `\s` is
/// Unicode white space.
#[verifier::external_body]
fn regex_is_match(pattern: &str, hay: &str) -> (r: bool)
    requires
        pattern@ == CLASH_KEY_PATTERN@,
    ensures
        r == has_proxies_key(hay@),
{
    regex::Regex::new(pattern).map(|re| re.is_match(hay)).unwrap_or(false)
}

/// One item of a Clash proxy list: a mapping, written back as YAML, or
/// anything else.
#[derive(Debug)]
pub enum ClashEntry {
    /// An item that is not a mapping.
    Skipped,
    Proxy { unit: String },
}

/// A top-level member of a YAML document: missing, a sequence (its items,
/// mappings written back as YAML), or anything else.
#[derive(Debug)]
pub enum YamlMember {
    Absent,
    Sequence(Vec<ClashEntry>),
    Other,
}

/// What `serde_yaml` reads from a document under `key`: its parse error, or
/// the member.
pub uninterp spec fn yaml_member(content: Seq<char>, key: Seq<char>) -> Result<YamlMember, String>;

/// Parses `content` with `serde_yaml::from_str` into a `serde_yaml::Value`
/// and takes its member `key` (`Value::get`); a sequence has each mapping in
/// it written back with `serde_yaml::to_string`.
#[verifier::external_body]
fn yaml_member_of(content: &str, key: &str) -> (r: Result<YamlMember, String>)
    ensures
        r == yaml_member(content@, key@),
{
    let doc: Value = serde_yaml::from_str(content).map_err(|e| e.to_string())?;
    Ok(match doc.get(key) {
        None => YamlMember::Absent,
        Some(Value::Sequence(items)) => YamlMember::Sequence(items.iter().map(|p| match p {
            Value::Mapping(_) => ClashEntry::Proxy { unit: serde_yaml::to_string(p).unwrap_or_default() },
            _ => ClashEntry::Skipped,
        }).collect()),
        Some(_) => YamlMember::Other,
    })
}

/// The proxy list of a document: the `proxies` sequence; when there is no
/// `proxies` member, the `Proxy` sequence; `None` when the member found is
/// not a sequence or neither exists.
pub open spec fn yaml_proxies(content: Seq<char>) -> Result<Option<Vec<ClashEntry>>, String> {
    match yaml_member(content, "proxies"@) {
        Err(e) => Err(e),
        Ok(YamlMember::Sequence(v)) => Ok(Some(v)),
        Ok(YamlMember::Other) => Ok(None),
        Ok(YamlMember::Absent) => match yaml_member(content, "Proxy"@) {
            Err(e) => Err(e),
            Ok(YamlMember::Sequence(v)) => Ok(Some(v)),
            Ok(_) => Ok(None),
        },
    }
}

/// Reads the proxy list of a Clash document.
fn yaml_proxy_entries(content: &str) -> (r: Result<Option<Vec<ClashEntry>>, String>)
    ensures
        r == yaml_proxies(content@),
{
    match yaml_member_of(content, "proxies") {
        Err(e) => Err(e),
        Ok(YamlMember::Sequence(v)) => Ok(Some(v)),
        Ok(YamlMember::Other) => Ok(None),
        Ok(YamlMember::Absent) => match yaml_member_of(content, "Proxy") {
            Err(e) => Err(e),
            Ok(YamlMember::Sequence(v)) => Ok(Some(v)),
            Ok(_) => Ok(None),
        },
    }
}

/// What `serde_yaml` reads as the `name`, `server` and `port` of a proxy
/// written as YAML: strings as they are, numbers and booleans written out,
/// anything else (or a missing key) empty.
pub uninterp spec fn yaml_fields(unit: Seq<char>) -> (String, String, String);

/// Reads `unit` with `serde_yaml::from_str` and writes out its `name`,
/// `server` and `port` values.
#[verifier::external_body]
fn yaml_unit_fields(unit: &str) -> (r: (String, String, String))
    ensures
        r == yaml_fields(unit@),
{
    let v: Value = serde_yaml::from_str(unit).unwrap_or_default();
    let text = |k: &str| match v.get(k) {
        Some(Value::String(s)) => s.clone(),
        Some(Value::Number(n)) => n.to_string(),
        Some(Value::Bool(b)) => b.to_string(),
        _ => String::new(),
    };
    (text("name"), text("server"), text("port"))
}

/// What `serde_yaml` makes of a proxy written out as YAML after setting its
/// `port` to a number: the new text, or the parser's or writer's message.
pub uninterp spec fn yaml_with_port(unit: Seq<char>, port: i32) -> Result<String, String>;

/// Reads `unit` with `serde_yaml::from_str`, sets the mapping's `port` to
/// `port` and writes it back with `serde_yaml::to_string`.
#[verifier::external_body]
fn yaml_set_port(unit: &str, port: i32) -> (r: Result<String, String>)
    ensures
        r == yaml_with_port(unit@, port),
{
    let mut v: Value = serde_yaml::from_str(unit).map_err(|e| e.to_string())?;
    if let Some(m) = v.as_mapping_mut() {
        m.insert("port".into(), port.into());
    }
    serde_yaml::to_string(&v).map_err(|e| e.to_string())
}

/// A unit with its port set to `port`; the unit as it is when the YAML
/// library cannot read or write it.
pub open spec fn unit_with_port(unit: Seq<char>, port: i32) -> Seq<char> {
    match yaml_with_port(unit, port) {
        Ok(t) => t@,
        Err(_) => unit,
    }
}

/// `---`
pub open spec fn doc_mark() -> Seq<char> {
    seq!['-', '-', '-']
}

/// `s` without its leading `---` marks.
pub open spec fn strip_doc_marks(s: Seq<char>) -> Seq<char>
    decreases s.len(),
{
    if s.len() >= 3 && s.take(3) == doc_mark() {
        strip_doc_marks(s.skip(3))
    } else {
        s
    }
}

fn strip_doc_marks_chars(s: &[char]) -> (r: Vec<char>)
    ensures
        r@ == strip_doc_marks(s@),
{
    let mut i: usize = 0;
    assert(s@.skip(0) =~= s@);
    while i <= s.len() && s.len() - i >= 3 && s[i] == '-' && s[i + 1] == '-' && s[i + 2] == '-'
        invariant
            i <= s@.len(),
            strip_doc_marks(s@.skip(i as int)) == strip_doc_marks(s@),
        decreases s@.len() - i,
    {
        assert(s@.skip(i as int).take(3) =~= doc_mark());
        assert(s@.skip(i as int).skip(3) =~= s@.skip(i + 3));
        i += 3;
    }
    if s.len() - i >= 3 {
        assert(s@.skip(i as int).take(3) != doc_mark()) by {
            if s@.skip(i as int).take(3) == doc_mark() {
                assert(s@.skip(i as int).take(3)[0] == s@[i as int]);
                assert(s@.skip(i as int).take(3)[1] == s@[i + 1]);
                assert(s@.skip(i as int).take(3)[2] == s@[i + 2]);
            }
        }
    }
    let r = slice_chars(s, i, s.len());
    assert(r@ =~= s@.skip(i as int));
    r
}

/// `n` is the unit for a Clash proxy item, with the port overridden by a
/// non-empty `custom_port`.
pub open spec fn is_clash_node(n: NodeInfo, e: ClashEntry, custom_port: Seq<char>) -> bool {
    match e {
        ClashEntry::Skipped => false,
        ClashEntry::Proxy { unit } => {
            let (name, server, port) = yaml_fields(unit@);
            let port_t = if custom_port.len() > 0 { custom_port } else { port@ };
            let pv = port_value(port_t);
            let unit_t = if custom_port.len() > 0 { unit_with_port(unit@, pv) } else { unit@ };
            &&& n.id == -1
            &&& n.group@ == default_group()
            &&& n.remarks@ == (if name@.len() == 0 { fallback_remarks(server@, port_t) } else { name@ })
            &&& n.server@ == server@
            &&& n.port == pv
            &&& n.proxy_str@ == Seq::<char>::empty()
            &&& n.proxy_type@ == Seq::<char>::empty()
            &&& n.raw_unit@ == trim(strip_doc_marks(unit_t))
            &&& !n.is_link_unit
        },
    }
}

/// The proxy items of a list, mappings only, in order.
pub open spec fn proxy_items(es: Seq<ClashEntry>) -> Seq<ClashEntry>
    decreases es.len(),
{
    if es.len() == 0 {
        Seq::empty()
    } else {
        let prev = proxy_items(es.drop_last());
        match es.last() {
            ClashEntry::Skipped => prev,
            _ => prev.push(es.last()),
        }
    }
}

/// `v` holds the units of the proxy items of `es`, in order.
pub open spec fn clash_nodes_ok(v: Seq<NodeInfo>, es: Seq<ClashEntry>, custom_port: Seq<char>) -> bool {
    &&& v.len() == proxy_items(es).len()
    &&& forall|i: int| 0 <= i < v.len() ==> is_clash_node(#[trigger] v[i], proxy_items(es)[i], custom_port)
}

fn clash_node(e: &ClashEntry, custom: &[char]) -> (n: NodeInfo)
    requires
        !(*e is Skipped),
    ensures
        is_clash_node(n, *e, custom@),
{
    match e {
        ClashEntry::Skipped => {
            assert(false);
            link_node_chars(&[], custom)
        },
        ClashEntry::Proxy { unit } => {
            let (name, server, port) = yaml_unit_fields(unit.as_str());
            let port_t = if custom.len() > 0 { slice_chars(custom, 0, custom.len()) } else { chars_of(port.as_str()) };
            assert(custom@.len() > 0 ==> port_t@ =~= custom@);
            let pv = port_value_of(&port_t);
            let unit_t = if custom.len() > 0 {
                match yaml_set_port(unit.as_str(), pv) {
                    Ok(t) => t,
                    Err(_) => string_of(&chars_of(unit.as_str())),
                }
            } else {
                string_of(&chars_of(unit.as_str()))
            };
            let stripped = strip_doc_marks_chars(&chars_of(unit_t.as_str()));
            let raw = trim_chars(&stripped);
            let name_c = chars_of(name.as_str());
            let server_c = chars_of(server.as_str());
            let remarks = remarks_or(&name_c, &server_c, &port_t);
            NodeInfo {
                id: -1,
                group: default_group_for(""),
                remarks,
                server: string_of(&server_c),
                port: pv,
                proxy_str: String::new(),
                proxy_type: String::new(),
                raw_unit: string_of(&raw),
                is_link_unit: false,
            }
        },
    }
}

/// `YAML 解析失败: ` followed by the parser's message.
pub open spec fn yaml_error_text(e: Seq<char>) -> Seq<char> {
    "YAML 解析失败: "@ + e
}

/// The error for a YAML document without a proxy list.
pub open spec fn no_proxies_text() -> Seq<char> {
    "无 proxies 列表"@
}

/// Reads a Clash document: its proxy units, or the parse error, or the error
/// for a document without a proxy list.
pub fn load_clash(content: &str, custom_port: &str) -> (r: Result<Vec<NodeInfo>, String>)
    ensures
        match yaml_proxies(content@) {
            Err(e) => r matches Err(m) && m@ == yaml_error_text(e@),
            Ok(None) => r matches Err(m) && m@ == no_proxies_text(),
            Ok(Some(es)) => r matches Ok(v) && clash_nodes_ok(v@, es@, custom_port@),
        },
{
    let custom = chars_of(custom_port);
    match yaml_proxy_entries(content) {
        Err(e) => {
            let mut m = string_of(&chars_of("YAML 解析失败: "));
            push_str_chars(&mut m, &chars_of(e.as_str()));
            Err(m)
        },
        Ok(None) => Err(string_of(&chars_of("无 proxies 列表"))),
        Ok(Some(es)) => {
            let mut out: Vec<NodeInfo> = Vec::new();
            let mut i: usize = 0;
            while i < es.len()
                invariant
                    i <= es@.len(),
                    clash_nodes_ok(out@, es@.take(i as int), custom@),
                decreases es@.len() - i,
            {
                proof {
                    assert(es@.take(i + 1).drop_last() =~= es@.take(i as int));
                    assert(es@.take(i + 1).last() == es@[i as int]);
                }
                match &es[i] {
                    ClashEntry::Skipped => {},
                    ClashEntry::Proxy { .. } => {
                        let n = clash_node(&es[i], &custom);
                        let ghost prev = out@;
                        out.push(n);
                        proof {
                            let items = proxy_items(es@.take(i + 1));
                            assert(items == proxy_items(es@.take(i as int)).push(es@[i as int]));
                            assert forall|j: int| 0 <= j < out@.len() implies is_clash_node(
                                #[trigger] out@[j],
                                items[j],
                                custom@,
                            ) by {
                                if j < out@.len() - 1 {
                                    assert(out@[j] == prev[j]);
                                    assert(items[j] == proxy_items(es@.take(i as int))[j]);
                                }
                            }
                        }
                    },
                }
                i += 1;
            }
            assert(es@.take(es@.len() as int) =~= es@);
            Ok(out)
        },
    }
}

/// The share links among the lines of a text, each trimmed, in order.
pub open spec fn share_lines(pieces: Seq<Seq<char>>) -> Seq<Seq<char>>
    decreases pieces.len(),
{
    if pieces.len() == 0 {
        Seq::empty()
    } else {
        let prev = share_lines(pieces.drop_last());
        let t = trim(pieces.last());
        if t.len() > 0 && spec_is_share_link(t) {
            prev.push(t)
        } else {
            prev
        }
    }
}

/// The share links of a text, one per line.
pub open spec fn text_links(src: Seq<char>) -> Seq<Seq<char>> {
    share_lines(split_on(src, '\n'))
}

/// `v` holds the units of the share links of `src`, in order.
pub open spec fn link_nodes_ok(v: Seq<NodeInfo>, src: Seq<char>, custom_port: Seq<char>) -> bool {
    &&& v.len() == text_links(src).len()
    &&& forall|i: int| 0 <= i < v.len() ==> is_link_node(#[trigger] v[i], text_links(src)[i], custom_port)
}

fn share_link_nodes(src: &[char], custom: &[char]) -> (r: Vec<NodeInfo>)
    ensures
        link_nodes_ok(r@, src@, custom@),
{
    let pieces = split_chars(src, '\n');
    let ghost ps = split_on(src@, '\n');
    let mut out: Vec<NodeInfo> = Vec::new();
    let mut i: usize = 0;
    while i < pieces.len()
        invariant
            i <= pieces@.len(),
            pieces@.len() == ps.len(),
            ps == split_on(src@, '\n'),
            forall|k: int| 0 <= k < pieces@.len() ==> #[trigger] pieces@[k]@ == ps[k],
            out@.len() == share_lines(ps.take(i as int)).len(),
            forall|k: int| 0 <= k < out@.len() ==> is_link_node(#[trigger] out@[k], share_lines(ps.take(i as int))[k], custom@),
        decreases pieces@.len() - i,
    {
        proof {
            assert(ps.take(i + 1).drop_last() =~= ps.take(i as int));
            assert(ps.take(i + 1).last() == ps[i as int]);
        }
        let t = trim_chars(&pieces[i]);
        if t.len() > 0 && is_share_link_chars(&t) {
            let n = link_node_chars(&t, custom);
            let ghost prev = out@;
            out.push(n);
            proof {
                let sl = share_lines(ps.take(i + 1));
                assert(sl == share_lines(ps.take(i as int)).push(t@));
                assert forall|k: int| 0 <= k < out@.len() implies is_link_node(#[trigger] out@[k], sl[k], custom@) by {
                    if k < out@.len() - 1 {
                        assert(out@[k] == prev[k]);
                        assert(sl[k] == share_lines(ps.take(i as int))[k]);
                    }
                }
            }
        }
        i += 1;
    }
    assert(ps.take(pieces@.len() as int) =~= ps);
    out
}

/// `s` holds no line break.
pub open spec fn single_line(s: Seq<char>) -> bool {
    !contains_seq(s, seq!['\n']) && !contains_seq(s, seq!['\r'])
}

/// The text whose lines are read: the Base64-decoded body when it opens
/// (after trimming) with a share link, else the body itself.
pub open spec fn lines_source(body: Seq<char>) -> Seq<char> {
    let decoded = spec_urlsafe_b64_text(body);
    if spec_is_share_link(trim(decoded)) {
        decoded
    } else {
        body
    }
}

/// What importing `content` gives: nothing for blank text; one unit for a
/// single-line share link; for a text with a `proxies:` key, the Clash units
/// or the Clash error (an empty Clash list falls through); otherwise one unit
/// per share-link line of the Base64-decoded body, or of the body itself.
pub open spec fn load_result_ok(r: Result<Vec<NodeInfo>, String>, content: Seq<char>, custom_port: Seq<char>) -> bool {
    let body = trim(content);
    if body.len() == 0 {
        r matches Ok(v) && v@.len() == 0
    } else if spec_is_share_link(body) && single_line(body) {
        r matches Ok(v) && v@.len() == 1 && is_link_node(v@[0], body, custom_port)
    } else if has_proxies_key(body) && !(yaml_proxies(body) matches Ok(Some(es)) && proxy_items(es@).len() == 0) {
        match yaml_proxies(body) {
            Err(e) => r matches Err(m) && m@ == yaml_error_text(e@),
            Ok(None) => r matches Err(m) && m@ == no_proxies_text(),
            Ok(Some(es)) => r matches Ok(v) && clash_nodes_ok(v@, es@, custom_port),
        }
    } else {
        r matches Ok(v) && link_nodes_ok(v@, lines_source(body), custom_port)
    }
}

/// Reads a subscription body (a share link, a Base64 list of links, a plain
/// list of links, or a Clash document) into proxy units; a non-empty
/// `custom_port` replaces every port.
pub fn load_subscription(content: &str, custom_port: &str) -> (r: Result<Vec<NodeInfo>, String>)
    ensures
        load_result_ok(r, content@, custom_port@),
{
    let cs = chars_of(content);
    let body = trim_chars(&cs);
    let custom = chars_of(custom_port);
    if body.len() == 0 {
        return Ok(Vec::new());
    }
    let nl = ['\n'];
    let cr = ['\r'];
    assert(nl@ =~= seq!['\n']);
    assert(cr@ =~= seq!['\r']);
    if is_share_link_chars(&body) && !contains_chars(&body, &nl) && !contains_chars(&body, &cr) {
        let mut v: Vec<NodeInfo> = Vec::new();
        v.push(link_node_chars(&body, &custom));
        return Ok(v);
    }
    let body_s = string_of(&body);
    if regex_is_match(CLASH_KEY_PATTERN, body_s.as_str()) {
        match load_clash(body_s.as_str(), custom_port) {
            Err(e) => {
                return Err(e);
            },
            Ok(nodes) => {
                if nodes.len() > 0 {
                    return Ok(nodes);
                }
            },
        }
    }
    let decoded = urlsafe_base64_decode(&body);
    let td = trim_chars(&decoded);
    let src = if is_share_link_chars(&td) {
        decoded
    } else {
        body
    };
    Ok(share_link_nodes(&src, &custom))
}

/// Whether `serde_yaml` reads `unit` as a YAML value.
pub uninterp spec fn yaml_parses(unit: Seq<char>) -> bool;

/// Whether `serde_yaml::from_str` reads `unit` into a `serde_yaml::Value`.
#[verifier::external_body]
fn yaml_unit_parses(unit: &str) -> (r: bool)
    ensures
        r == yaml_parses(unit@),
{
    serde_yaml::from_str::<serde_yaml::Value>(unit).is_ok()
}

/// What `serde_yaml` writes for a mapping whose `proxies` holds the values
/// read from the given units, in order.
pub uninterp spec fn yaml_provider_text(units: Seq<Seq<char>>) -> Seq<char>;

/// Reads each unit with `serde_yaml::from_str` and writes
/// `proxies: [those values]` with `serde_yaml::to_string`.
#[verifier::external_body]
fn yaml_provider_doc(units: &Vec<String>) -> (r: String)
    ensures
        r@ == yaml_provider_text(units@.map_values(|u: String| u@)),
{
    let items: Vec<serde_yaml::Value> = units.iter().map(|u| serde_yaml::from_str(u).unwrap_or_default()).collect();
    let root = serde_yaml::Mapping::from_iter([(serde_yaml::Value::String("proxies".into()), serde_yaml::Value::Sequence(items))]);
    serde_yaml::to_string(&serde_yaml::Value::Mapping(root)).unwrap_or_default()
}

/// The configuration and provider files of the core for a set of units.
#[derive(Debug)]
pub struct ProvidersBuild {
    pub config_yaml: String,
    pub yaml_provider_path: String,
    pub yaml_provider_body: String,
    pub link_provider_path: String,
    pub link_provider_body: String,
    pub yaml_order: Vec<usize>,
    pub link_order: Vec<usize>,
}

/// A unit that goes to a provider: not the `LOG` placeholder and not empty.
pub open spec fn is_kept(n: NodeInfo) -> bool {
    n.proxy_str@ != "LOG"@ && n.raw_unit@.len() > 0
}

/// A kept share-link unit.
pub open spec fn is_link_kept(n: NodeInfo) -> bool {
    is_kept(n) && n.is_link_unit
}

/// A kept YAML unit that reads as YAML.
pub open spec fn is_yaml_kept(n: NodeInfo) -> bool {
    is_kept(n) && !n.is_link_unit && yaml_parses(n.raw_unit@)
}

/// Indices of the units that satisfy `p`, in order.
pub open spec fn order_of(u: Seq<NodeInfo>, p: spec_fn(NodeInfo) -> bool) -> Seq<usize>
    decreases u.len(),
{
    if u.len() == 0 {
        Seq::empty()
    } else {
        let prev = order_of(u.drop_last(), p);
        if p(u.last()) {
            prev.push((u.len() - 1) as usize)
        } else {
            prev
        }
    }
}

/// The kept share links, each followed by a line break.
pub open spec fn link_list_of(u: Seq<NodeInfo>) -> Seq<char>
    decreases u.len(),
{
    if u.len() == 0 {
        Seq::empty()
    } else {
        let prev = link_list_of(u.drop_last());
        if is_link_kept(u.last()) {
            prev + u.last().raw_unit@ + seq!['\n']
        } else {
            prev
        }
    }
}

/// The kept YAML units, in order.
pub open spec fn yaml_units_of(u: Seq<NodeInfo>) -> Seq<Seq<char>>
    decreases u.len(),
{
    if u.len() == 0 {
        Seq::empty()
    } else {
        let prev = yaml_units_of(u.drop_last());
        if is_yaml_kept(u.last()) {
            prev.push(u.last().raw_unit@)
        } else {
            prev
        }
    }
}

/// The provider entry of the YAML units.
pub open spec fn yaml_provider_entry() -> Seq<char> {
    "  yaml_sub:\n    type: file\n    path: ./sub_yaml.yaml\n    health-check:\n      enable: false\n"@
}

/// The provider entry of the share links.
pub open spec fn link_provider_entry() -> Seq<char> {
    "  link_sub:\n    type: file\n    path: ./sub_link.txt\n    health-check:\n      enable: false\n"@
}

/// The core configuration: a SOCKS inbound on `socks_port`, the controller,
/// and, when there are providers, a `GLOBAL` group that uses them.
pub open spec fn config_text(socks_port: int, controller: Seq<char>, has_yaml: bool, has_link: bool) -> Seq<char> {
    let head = "mixed-port: 0\nsocks-port: "@ + fmt_int(socks_port)
        + "\nallow-lan: false\nbind-address: '127.0.0.1'\nmode: global\nlog-level: warning\nipv6: true\nexternal-controller: '"@
        + controller + "'\nsecret: ''\nunified-delay: true\n"@;
    if has_yaml || has_link {
        head + "proxy-providers:\n"@ + (if has_yaml { yaml_provider_entry() } else { Seq::empty() }) + (if has_link {
            link_provider_entry()
        } else {
            Seq::empty()
        }) + "proxy-groups:\n  - name: GLOBAL\n    type: select\n    use:\n"@ + (if has_yaml {
            "      - yaml_sub\n"@
        } else {
            Seq::empty()
        }) + (if has_link {
            "      - link_sub\n"@
        } else {
            Seq::empty()
        })
    } else {
        head
    }
}

/// `b` is the provider set for `units`: the share links go, Base64-encoded
/// one per line, to `sub_link.txt`; the YAML units that read as YAML go as one
/// `proxies` list to `sub_yaml.yaml`; the orders give each file's units'
/// indices.
pub open spec fn providers_ok(b: ProvidersBuild, units: Seq<NodeInfo>, socks_port: int, controller: Seq<char>) -> bool {
    let yo = yaml_order(units);
    let lo = link_order(units);
    let has_yaml = yo.len() > 0;
    let has_link = lo.len() > 0;
    &&& b.yaml_order@ == yo
    &&& b.link_order@ == lo
    &&& b.yaml_provider_path@ == (if has_yaml { "sub_yaml.yaml"@ } else { Seq::empty() })
    &&& b.yaml_provider_body@ == (if has_yaml { yaml_provider_text(yaml_units_of(units)) } else { Seq::empty() })
    &&& b.link_provider_path@ == (if has_link { "sub_link.txt"@ } else { Seq::empty() })
    &&& b.link_provider_body@ == (if has_link {
        b64_text(vstd::utf8::encode_utf8(link_list_of(units)))
    } else {
        Seq::empty()
    })
    &&& b.config_yaml@ == config_text(socks_port, controller, has_yaml, has_link)
}

fn push_str(out: &mut String, s: &str)
    ensures
        final(out)@ == old(out)@ + s@,
{
    push_str_chars(out, &chars_of(s));
}

/// Builds the core configuration and the provider files for the units.
pub fn build_providers_config(nodes: &[NodeInfo], socks_port: u16, controller: &str) -> (b: ProvidersBuild)
    ensures
        providers_ok(b, nodes@, socks_port as int, controller@),
{
    let ghost yp = |n: NodeInfo| is_yaml_kept(n);
    let ghost lp = |n: NodeInfo| is_link_kept(n);
    let mut yaml_units: Vec<String> = Vec::new();
    let mut link_list = String::new();
    let mut yaml_order: Vec<usize> = Vec::new();
    let mut link_order: Vec<usize> = Vec::new();
    let mut idx: usize = 0;
    while idx < nodes.len()
        invariant
            idx <= nodes@.len(),
            yp == (|n: NodeInfo| is_yaml_kept(n)),
            lp == (|n: NodeInfo| is_link_kept(n)),
            yaml_order@ == order_of(nodes@.take(idx as int), yp),
            link_order@ == order_of(nodes@.take(idx as int), lp),
            link_list@ == link_list_of(nodes@.take(idx as int)),
            yaml_units@.map_values(|u: String| u@) == yaml_units_of(nodes@.take(idx as int)),
        decreases nodes@.len() - idx,
    {
        let n = &nodes[idx];
        let ghost pre = nodes@.take(idx as int);
        let ghost nxt = nodes@.take(idx + 1);
        proof {
            assert(nxt.drop_last() =~= pre);
            assert(nxt.last() == *n);
        }
        proof {
            reveal_strlit("LOG");
        }
        let is_log = str_eq(n.proxy_str.as_str(), "LOG");
        if is_log || n.raw_unit.as_str().is_empty() {
            assert(!is_kept(*n));
        } else if n.is_link_unit {
            push_str(&mut link_list, n.raw_unit.as_str());
            push_char(&mut link_list, '\n');
            link_order.push(idx);
            assert(link_list@ =~= link_list_of(nxt));
        } else if yaml_unit_parses(n.raw_unit.as_str()) {
            let ghost before = yaml_units@;
            yaml_units.push(string_of(&chars_of(n.raw_unit.as_str())));
            yaml_order.push(idx);
            assert(yaml_units@.map_values(|u: String| u@) =~= yaml_units_of(nxt)) by {
                assert(yaml_units@ == before.push(yaml_units@.last()));
                assert(before.map_values(|u: String| u@) =~= yaml_units_of(pre));
            }
        }
        idx += 1;
    }
    assert(nodes@.take(nodes@.len() as int) =~= nodes@);
    let mut providers = String::new();
    let mut groups_use = String::new();
    let mut yaml_provider_path = String::new();
    let mut yaml_provider_body = String::new();
    let mut link_provider_path = String::new();
    let mut link_provider_body = String::new();
    if yaml_order.len() > 0 {
        yaml_provider_path = string_of(&chars_of("sub_yaml.yaml"));
        yaml_provider_body = yaml_provider_doc(&yaml_units);
        push_str(&mut providers, "  yaml_sub:\n    type: file\n    path: ./sub_yaml.yaml\n    health-check:\n      enable: false\n");
        push_str(&mut groups_use, "      - yaml_sub\n");
    }
    if link_order.len() > 0 {
        link_provider_path = string_of(&chars_of("sub_link.txt"));
        link_provider_body = b64_encode_text(link_list.as_str().as_bytes());
        push_str(&mut providers, "  link_sub:\n    type: file\n    path: ./sub_link.txt\n    health-check:\n      enable: false\n");
        push_str(&mut groups_use, "      - link_sub\n");
    }
    let mut cfg = String::new();
    push_str(&mut cfg, "mixed-port: 0\nsocks-port: ");
    push_int(&mut cfg, socks_port as i64);
    push_str(
        &mut cfg,
        "\nallow-lan: false\nbind-address: '127.0.0.1'\nmode: global\nlog-level: warning\nipv6: true\nexternal-controller: '",
    );
    push_str(&mut cfg, controller);
    push_str(&mut cfg, "'\nsecret: ''\nunified-delay: true\n");
    if yaml_order.len() > 0 || link_order.len() > 0 {
        push_str(&mut cfg, "proxy-providers:\n");
        push_str(&mut cfg, providers.as_str());
        push_str(&mut cfg, "proxy-groups:\n  - name: GLOBAL\n    type: select\n    use:\n");
        push_str(&mut cfg, groups_use.as_str());
    }
    let has_yaml = yaml_order.len() > 0;
    let has_link = link_order.len() > 0;
    assert(cfg@ =~= config_text(socks_port as int, controller@, has_yaml, has_link));
    ProvidersBuild {
        config_yaml: cfg,
        yaml_provider_path,
        yaml_provider_body,
        link_provider_path,
        link_provider_body,
        yaml_order,
        link_order,
    }
}

/// Every index of an order refers to a unit the order selects, and the
/// indices rise strictly.
proof fn lemma_order_of(u: Seq<NodeInfo>, p: spec_fn(NodeInfo) -> bool)
    requires
        u.len() <= usize::MAX,
    ensures
        forall|k: int| 0 <= k < order_of(u, p).len() ==> #[trigger] order_of(u, p)[k] < u.len() && p(
            u[order_of(u, p)[k] as int],
        ),
        forall|k: int, l: int| 0 <= k < l < order_of(u, p).len() ==> order_of(u, p)[k] < order_of(u, p)[l],
    decreases u.len(),
{
    if u.len() > 0 {
        lemma_order_of(u.drop_last(), p);
        let prev = order_of(u.drop_last(), p);
        assert forall|k: int| 0 <= k < prev.len() implies u[prev[k] as int] == u.drop_last()[prev[k] as int] by {}
    }
}

/// The indices of the share-link units that go to the link provider.
pub open spec fn link_order(units: Seq<NodeInfo>) -> Seq<usize> {
    order_of(units, |n: NodeInfo| is_link_kept(n))
}

/// The indices of the YAML units that go to the YAML provider.
pub open spec fn yaml_order(units: Seq<NodeInfo>) -> Seq<usize> {
    order_of(units, |n: NodeInfo| is_yaml_kept(n))
}

/// The provider files split the units: each share link and each readable
/// YAML unit goes to exactly one of them, in the units' order, and no unit
/// goes to both.
pub proof fn law_provider_orders(units: Seq<NodeInfo>)
    requires
        units.len() <= usize::MAX,
    ensures
        forall|k: int| 0 <= k < link_order(units).len() ==> #[trigger] link_order(units)[k] < units.len()
            && is_link_kept(units[link_order(units)[k] as int]),
        forall|k: int| 0 <= k < yaml_order(units).len() ==> #[trigger] yaml_order(units)[k] < units.len()
            && is_yaml_kept(units[yaml_order(units)[k] as int]),
        forall|k: int, l: int|
            0 <= k < link_order(units).len() && 0 <= l < yaml_order(units).len() ==> #[trigger] link_order(units)[k]
                != #[trigger] yaml_order(units)[l],
        forall|k: int, l: int| 0 <= k < l < link_order(units).len() ==> #[trigger] link_order(units)[k] < #[trigger] link_order(units)[l],
        forall|k: int, l: int| 0 <= k < l < yaml_order(units).len() ==> #[trigger] yaml_order(units)[k] < #[trigger] yaml_order(units)[l],
{
    let lp = |n: NodeInfo| is_link_kept(n);
    let yp = |n: NodeInfo| is_yaml_kept(n);
    lemma_order_of(units, lp);
    lemma_order_of(units, yp);
    assert forall|k: int, l: int|
        0 <= k < link_order(units).len() && 0 <= l < yaml_order(units).len() implies link_order(units)[k]
        != yaml_order(units)[l] by {
        let a = link_order(units)[k];
        let b = yaml_order(units)[l];
        assert(lp(units[a as int]));
        assert(yp(units[b as int]));
    }
}

} // verus!
