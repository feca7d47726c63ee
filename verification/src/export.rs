//! What the result export decides: the timestamp strings, the file-name
//! stamp, the UDP and TLS labels and the text truncation used by the table.

use vstd::prelude::*;

use crate::calendar::{date_of_day, days_to_ymd, unix_time_secs};
use crate::text::{fmt_padded, push_char, push_int_padded, push_u64_padded, str_eq, chars_of, string_of};

verus! {

/// ` (UTC)`
pub open spec fn utc_suffix() -> Seq<char> {
    seq![' ', '(', 'U', 'T', 'C', ')']
}

/// The test-time text for `secs` seconds since the Unix epoch, read as UTC:
/// `YYYY-MM-DD HH:MM:SS (UTC)`, the year shown as a 32-bit integer.
pub open spec fn utc_test_time_text(secs: nat) -> Seq<char> {
    let ymd = date_of_day((secs / 86400) as int);
    let tod = secs % 86400;
    fmt_padded((ymd.0 as i32) as int, 4) + seq!['-'] + fmt_padded(ymd.1, 2) + seq!['-'] + fmt_padded(ymd.2, 2)
        + seq![' '] + fmt_padded((tod / 3600) as int, 2) + seq![':'] + fmt_padded(
        ((tod % 3600) / 60) as int,
        2,
    ) + seq![':'] + fmt_padded((tod % 60) as int, 2) + utc_suffix()
}

#[verifier::rlimit(40)]
fn push_date_time(out: &mut String, y: i64, mo: u64, d: u64, h: u64, mi: u64, sec: u64)
    ensures
        final(out)@ == old(out)@ + (fmt_padded(y as int, 4) + seq!['-'] + fmt_padded(mo as int, 2)
            + seq!['-'] + fmt_padded(d as int, 2) + seq![' '] + fmt_padded(h as int, 2) + seq![':']
            + fmt_padded(mi as int, 2) + seq![':'] + fmt_padded(sec as int, 2)),
{
    let ghost o = out@;
    push_int_padded(out, y, 4);
    push_char(out, '-');
    push_u64_padded(out, mo, 2);
    push_char(out, '-');
    push_u64_padded(out, d, 2);
    push_char(out, ' ');
    push_u64_padded(out, h, 2);
    push_char(out, ':');
    push_u64_padded(out, mi, 2);
    push_char(out, ':');
    push_u64_padded(out, sec, 2);
    assert(out@ =~= o + (fmt_padded(y as int, 4) + seq!['-'] + fmt_padded(mo as int, 2) + seq!['-']
        + fmt_padded(d as int, 2) + seq![' '] + fmt_padded(h as int, 2) + seq![':'] + fmt_padded(
        mi as int,
        2,
    ) + seq![':'] + fmt_padded(sec as int, 2)));
}

/// Formats a Unix time (seconds) as the UTC test-time text.
pub fn format_utc_test_time(secs: u64) -> (r: String)
    ensures
        r@ == utc_test_time_text(secs as nat),
{
    let days = secs / 86400;
    let tod = secs % 86400;
    let (y, m, d) = days_to_ymd(days as i64);
    let y32 = #[verifier::truncate] (y as i32);
    let mut out = String::new();
    push_date_time(&mut out, y32 as i64, m as u64, d as u64, tod / 3600, (tod % 3600) / 60, tod % 60);
    let ghost body = out@;
    push_char(&mut out, ' ');
    push_char(&mut out, '(');
    push_char(&mut out, 'U');
    push_char(&mut out, 'T');
    push_char(&mut out, 'C');
    push_char(&mut out, ')');
    assert(out@ =~= body + utc_suffix());
    out
}

/// The test time read from the system clock, shown in UTC. (The local wall
/// clock with its zone is formatted by `format_zoned_test_time` from the
/// readings of the machine's clock and zone.)
pub fn format_local_test_time() -> (r: String)
    ensures
        exists|t: u64| r@ == #[trigger] utc_test_time_text(t as nat),
{
    let t = unix_time_secs();
    format_utc_test_time(t)
}

/// `HH:MM:SS` of a duration in whole seconds (hours are not wrapped).
pub open spec fn hms_text(secs: nat) -> Seq<char> {
    fmt_padded((secs / 3600) as int, 2) + seq![':'] + fmt_padded(((secs % 3600) / 60) as int, 2)
        + seq![':'] + fmt_padded((secs % 60) as int, 2)
}

/// Formats a duration given in whole seconds as `HH:MM:SS`.
pub fn format_duration_hms(secs: u64) -> (r: String)
    ensures
        r@ == hms_text(secs as nat),
{
    let mut out = String::new();
    push_u64_padded(&mut out, secs / 3600, 2);
    push_char(&mut out, ':');
    push_u64_padded(&mut out, (secs % 3600) / 60, 2);
    push_char(&mut out, ':');
    push_u64_padded(&mut out, secs % 60, 2);
    assert(out@ =~= hms_text(secs as nat));
    out
}

/// The file-name stamp of a Unix time: day number (five digits), `-`, then
/// `HHMMSS` of the UTC time of day.
pub open spec fn stamp_text(secs: nat) -> Seq<char> {
    let tod = secs % 86400;
    fmt_padded((secs / 86400) as int, 5) + seq!['-'] + fmt_padded((tod / 3600) as int, 2)
        + fmt_padded(((tod % 3600) / 60) as int, 2) + fmt_padded((tod % 60) as int, 2)
}

/// Formats the file-name stamp of a Unix time.
pub fn format_stamp(secs: u64) -> (r: String)
    ensures
        r@ == stamp_text(secs as nat),
{
    let tod = secs % 86400;
    let mut out = String::new();
    push_u64_padded(&mut out, secs / 86400, 5);
    push_char(&mut out, '-');
    push_u64_padded(&mut out, tod / 3600, 2);
    push_u64_padded(&mut out, (tod % 3600) / 60, 2);
    push_u64_padded(&mut out, tod % 60, 2);
    assert(out@ =~= stamp_text(secs as nat));
    out
}

/// The file-name stamp of the current time.
pub fn now_stamp() -> (r: String)
    ensures
        exists|t: u64| r@ == #[trigger] stamp_text(t as nat),
{
    format_stamp(unix_time_secs())
}

/// The zone shown after a local test time: `CST` for UTC+8, otherwise
/// `UTC+H`, `UTC-H` or, when the offset is not a whole hour, `UTC+H:MM`.
pub open spec fn zone_label(total_min: int) -> Seq<char> {
    let sign = if total_min >= 0 { '+' } else { '-' };
    let abs = if total_min >= 0 { total_min } else { -total_min };
    if total_min == 480 {
        seq!['C', 'S', 'T']
    } else if abs % 60 == 0 {
        seq!['U', 'T', 'C', sign] + fmt_padded(abs / 60, 0)
    } else {
        seq!['U', 'T', 'C', sign] + fmt_padded(abs / 60, 0) + seq![':'] + fmt_padded(abs % 60, 2)
    }
}

/// The minutes east of UTC of a zone whose bias (minutes west of UTC) is
/// `zone_bias`, corrected by the daylight bias when `zone_id` is 2 (daylight
/// time) and by the standard bias otherwise.
pub open spec fn zone_offset_minutes(zone_bias: int, zone_id: int, standard_bias: int, daylight_bias: int) -> int {
    -(zone_bias + if zone_id == 2 { daylight_bias } else { standard_bias })
}

/// Formats a local date and time together with its zone:
/// `YYYY-MM-DD HH:MM:SS (zone)`.
pub fn format_zoned_test_time(
    year: u16,
    month: u16,
    day: u16,
    hour: u16,
    minute: u16,
    second: u16,
    zone_bias: i32,
    zone_id: u32,
    standard_bias: i32,
    daylight_bias: i32,
) -> (r: String)
    requires
        i32::MIN < zone_bias + (if zone_id == 2 { daylight_bias } else { standard_bias }) <= i32::MAX,
    ensures
        r@ == fmt_padded(year as int, 4) + seq!['-'] + fmt_padded(month as int, 2) + seq!['-']
            + fmt_padded(day as int, 2) + seq![' '] + fmt_padded(hour as int, 2) + seq![':']
            + fmt_padded(minute as int, 2) + seq![':'] + fmt_padded(second as int, 2) + seq![' ', '(']
            + zone_label(zone_offset_minutes(zone_bias as int, zone_id as int, standard_bias as int, daylight_bias as int))
            + seq![')'],
{
    let mut bias = zone_bias;
    if zone_id == 2 {
        bias = bias + daylight_bias;
    } else {
        bias = bias + standard_bias;
    }
    let total_min = -bias;
    let mut out = String::new();
    push_date_time(&mut out, year as i64, month as u64, day as u64, hour as u64, minute as u64, second as u64);
    let ghost body = out@;
    push_char(&mut out, ' ');
    push_char(&mut out, '(');
    push_zone_label(&mut out, total_min);
    push_char(&mut out, ')');
    assert(out@ =~= body + seq![' ', '('] + zone_label(total_min as int) + seq![')']);
    out
}

fn push_zone_label(out: &mut String, total_min: i32)
    requires
        total_min > i32::MIN,
    ensures
        final(out)@ == old(out)@ + zone_label(total_min as int),
{
    let ghost head = out@;
    let sign = if total_min >= 0 { '+' } else { '-' };
    let abs: u32 = if total_min >= 0 { total_min as u32 } else { (-total_min) as u32 };
    if total_min == 480 {
        push_char(out, 'C');
        push_char(out, 'S');
        push_char(out, 'T');
        assert(out@ =~= head + zone_label(total_min as int));
    } else {
        push_char(out, 'U');
        push_char(out, 'T');
        push_char(out, 'C');
        push_char(out, sign);
        push_u64_padded(out, (abs / 60) as u64, 0);
        if abs % 60 != 0 {
            push_char(out, ':');
            push_u64_padded(out, (abs % 60) as u64, 2);
        }
        assert(out@ =~= head + zone_label(total_min as int));
    }
}

/// The label of a NAT type in the result table's UDP column.
pub open spec fn udp_label_text(nat_type: Seq<char>) -> Seq<char> {
    if nat_type == "FullCone"@ {
        "完全支持"@
    } else if nat_type == "RestrictedCone"@ {
        "受限支持"@
    } else if nat_type == "PortRestrictedCone"@ {
        "端口受限"@
    } else if nat_type == "Symmetric"@ {
        "对称受限"@
    } else if nat_type == "Blocked"@ {
        "不支持"@
    } else {
        "未知"@
    }
}

/// The label of a NAT type in the result table's UDP column.
pub fn udp_label(nat_type: &str) -> (r: &'static str)
    ensures
        r@ == udp_label_text(nat_type@),
{
    if str_eq(nat_type, "FullCone") {
        "完全支持"
    } else if str_eq(nat_type, "RestrictedCone") {
        "受限支持"
    } else if str_eq(nat_type, "PortRestrictedCone") {
        "端口受限"
    } else if str_eq(nat_type, "Symmetric") {
        "对称受限"
    } else if str_eq(nat_type, "Blocked") {
        "不支持"
    } else {
        "未知"
    }
}

/// The UDP column is shown as soon as one node has any NAT result, `Unknown`
/// and `Blocked` included; only an empty result hides it.
pub fn should_show_udp_col(nat_type: &str) -> (r: bool)
    ensures
        r == (nat_type@.len() > 0),
{
    !nat_type.is_empty()
}

/// Which TLS line the export footer shows.
#[derive(Clone, Copy, PartialEq, Eq, Structural, Debug)]
pub enum TlsFootKind {
    AllOk,
    Partial,
    AllBad,
}

/// The TLS footer: none when no node reached a TLS verdict; all-verified when
/// every verdict was positive; partial when some were; all-failed otherwise.
pub fn tls_footer_state(n_count: i32, tls_ok: i32, tls_fail: i32) -> (r: Option<(TlsFootKind, &'static str)>)
    ensures
        tls_ok == 0 && tls_fail == 0 ==> r is None,
        !(tls_ok == 0 && tls_fail == 0) && tls_fail == 0 && tls_ok > 0 ==> r == Some((
            TlsFootKind::AllOk,
            "已核实全部节点的 TLS 证书",
        )),
        !(tls_ok == 0 && tls_fail == 0) && !(tls_fail == 0 && tls_ok > 0) && tls_ok > 0 ==> r
            == Some((TlsFootKind::Partial, "已核实部分节点的 TLS 证书")),
        !(tls_ok == 0 && tls_fail == 0) && !(tls_fail == 0 && tls_ok > 0) && tls_ok <= 0 ==> r
            == Some((TlsFootKind::AllBad, "未核实全部节点的 TLS 证书")),
{
    if tls_ok == 0 && tls_fail == 0 {
        return None;
    }
    if tls_fail == 0 && tls_ok > 0 {
        Some((TlsFootKind::AllOk, "已核实全部节点的 TLS 证书"))
    } else if tls_ok > 0 {
        Some((TlsFootKind::Partial, "已核实部分节点的 TLS 证书"))
    } else {
        Some((TlsFootKind::AllBad, "未核实全部节点的 TLS 证书"))
    }
}

/// The first `max` characters of `s`, followed by an ellipsis when `s` is longer.
pub open spec fn truncated_text(s: Seq<char>, max: nat) -> Seq<char> {
    if s.len() > max {
        s.take(max as int).push('…')
    } else {
        s
    }
}

/// Cuts a name to at most `max` characters, marking the cut with `…`.
pub fn truncate(s: &str, max: usize) -> (r: String)
    ensures
        r@ == truncated_text(s@, max as nat),
{
    let cs = chars_of(s);
    let mut out: Vec<char> = Vec::new();
    let mut i: usize = 0;
    while i < cs.len() && i < max
        invariant
            i <= cs@.len(),
            i <= max,
            out@ == cs@.take(i as int),
        decreases cs@.len() - i,
    {
        out.push(cs[i]);
        i += 1;
        assert(out@ =~= cs@.take(i as int));
    }
    if i < cs.len() {
        out.push('…');
    }
    assert(i < cs@.len() ==> i == max);
    assert(i >= cs@.len() ==> cs@.take(i as int) =~= cs@);
    string_of(&out)
}

/// Whether a character is replaced in a file name.
pub open spec fn is_filename_reserved(c: char) -> bool {
    c == '/' || c == '\\' || c == ':' || c == '*' || c == '?' || c == '"' || c == '<' || c == '>'
        || c == '|'
}

/// `s` with every reserved character replaced by `_`.
pub open spec fn replace_reserved(s: Seq<char>) -> Seq<char> {
    s.map_values(|c: char| if is_filename_reserved(c) { '_' } else { c })
}

fn replace_reserved_chars(s: &str) -> (r: Vec<char>)
    ensures
        r@ == replace_reserved(s@),
{
    let cs = chars_of(s);
    let mut out: Vec<char> = Vec::new();
    let mut i: usize = 0;
    while i < cs.len()
        invariant
            i <= cs@.len(),
            out@ == replace_reserved(cs@.take(i as int)),
        decreases cs@.len() - i,
    {
        let c = cs[i];
        let rc = if c == '/' || c == '\\' || c == ':' || c == '*' || c == '?' || c == '"' || c == '<'
            || c == '>' || c == '|' {
            '_'
        } else {
            c
        };
        out.push(rc);
        i += 1;
        assert(out@ =~= replace_reserved(cs@.take(i as int)));
    }
    assert(cs@.take(i as int) =~= cs@);
    out
}

/// A group name made safe for a file name: reserved characters become `_`,
/// and an empty name becomes `Results`.
pub fn sanitize_filename(s: &str) -> (r: String)
    ensures
        s@.len() == 0 ==> r@ == "Results"@,
        s@.len() > 0 ==> r@ == replace_reserved(s@),
{
    let out = replace_reserved_chars(s);
    if out.len() == 0 {
        String::from_str("Results")
    } else {
        string_of(&out)
    }
}

/// `s` with every reserved character replaced by `_`, empty names kept empty
/// (the base name chosen in the save dialog).
pub fn sanitize_dest_name(s: &str) -> (r: String)
    ensures
        r@ == replace_reserved(s@),
{
    let out = replace_reserved_chars(s);
    string_of(&out)
}

/// The name of a result file pair: the safe group name, `-`, and the stamp.
pub fn result_base_name(group: &str, stamp: &str) -> (r: String)
    ensures
        r@ == (if group@.len() == 0 { "Results"@ } else { replace_reserved(group@) }) + seq!['-'] + stamp@,
{
    let mut b = sanitize_filename(group);
    push_char(&mut b, '-');
    crate::text::push_str_chars(&mut b, &chars_of(stamp));
    b
}

/// `image_scale=`
pub open spec fn scale_key() -> Seq<char> {
    "image_scale="@
}

/// A scale read from a setting value: the parsed integer (4 when it is none)
/// kept within 1 to 6.
pub open spec fn scale_value(v: Seq<char>) -> i32 {
    let n: i32 = match crate::text::spec_parse_i32(crate::text::trim(v)) {
        Some(n) => n,
        None => 4,
    };
    if n < 1 {
        1
    } else if n > 6 {
        6
    } else {
        n
    }
}

/// The image scale set by the first `image_scale=` line of the settings
/// (lines trimmed); 4 without such a line.
pub open spec fn scale_of_lines(lines: Seq<Seq<char>>) -> i32
    decreases lines.len(),
{
    if lines.len() == 0 {
        4
    } else {
        let t = crate::text::trim(lines[0]);
        if crate::engine::starts_with(t, scale_key()) {
            scale_value(t.skip(scale_key().len() as int))
        } else {
            scale_of_lines(lines.skip(1))
        }
    }
}

/// The image scale read from any settings is between 1 and 6.
pub proof fn law_image_scale_in_range(lines: Seq<Seq<char>>)
    ensures
        1 <= scale_of_lines(lines) <= 6,
    decreases lines.len(),
{
    if lines.len() > 0 {
        law_image_scale_in_range(lines.skip(1));
    }
}

/// The result image scale from the settings text (`None` when the settings
/// could not be read: 4).
#[verifier::loop_isolation(false)]
pub fn image_scale_from(text: Option<&str>) -> (r: i32)
    ensures
        r == (match text {
            Some(t) => scale_of_lines(crate::text::split_on(t@, '\n')),
            None => 4,
        }),
{
    let t = match text {
        Some(t) => t,
        None => {
            return 4;
        },
    };
    let cs = chars_of(t);
    let lines = crate::text::split_chars(&cs, '\n');
    let ghost ls = crate::text::split_on(cs@, '\n');
    let key = chars_of("image_scale=");
    let mut i: usize = 0;
    assert(ls.skip(0) =~= ls);
    while i < lines.len()
        invariant
            i <= lines@.len(),
            lines@.len() == ls.len(),
            ls == crate::text::split_on(cs@, '\n'),
            cs@ == t@,
            key@ == scale_key(),
            forall|k: int| 0 <= k < lines@.len() ==> #[trigger] lines@[k]@ == ls[k],
            scale_of_lines(ls) == scale_of_lines(ls.skip(i as int)),
        decreases lines@.len() - i,
    {
        assert(ls.skip(i as int)[0] == ls[i as int]);
        assert(ls.skip(i as int).skip(1) =~= ls.skip(i + 1));
        let line = crate::text::trim_chars(&lines[i]);
        if crate::text::occurs_at_index(&line, 0, &key) {
            assert(line@.take(key@.len() as int) =~= line@.subrange(0, key@.len() as int));
            let rest = crate::text::slice_chars(&line, key.len(), line.len());
            assert(rest@ =~= line@.skip(scale_key().len() as int));
            let v = crate::text::trim_chars(&rest);
            let n = match crate::text::parse_i32_chars(&v) {
                Some(n) => n,
                None => 4,
            };
            assert(crate::engine::starts_with(line@, scale_key()));
            assert(line@ == crate::text::trim(ls.skip(i as int)[0]));
            assert(scale_of_lines(ls.skip(i as int)) == scale_value(line@.skip(scale_key().len() as int)));
            assert(v@ == crate::text::trim(line@.skip(scale_key().len() as int)));
            assert(n == (match crate::text::spec_parse_i32(v@) {
                Some(n) => n,
                None => 4i32,
            }));
            return if n < 1 {
                1
            } else if n > 6 {
                6
            } else {
                n
            };
        }
        assert(!crate::engine::starts_with(line@, scale_key())) by {
            if crate::engine::starts_with(line@, scale_key()) {
                assert(line@.take(key@.len() as int) =~= line@.subrange(0, key@.len() as int));
            }
        }
        i += 1;
    }
    assert(ls.skip(i as int).len() == 0);
    4
}

/// What an ip-api answer is read as: its status, message and place members.
#[derive(Debug)]
pub struct IpApiAnswer {
    pub status: crate::json::JsonField,
    pub message: crate::json::JsonField,
    pub country: crate::json::JsonField,
    pub region: crate::json::JsonField,
    pub city: crate::json::JsonField,
    pub isp: crate::json::JsonField,
}

/// The members of an ip-api answer body, or the parser's message.
pub open spec fn ip_api_of(body: Seq<u8>) -> Result<IpApiAnswer, String> {
    match (
        crate::json::json_member(body, "status"@),
        crate::json::json_member(body, "message"@),
        crate::json::json_member(body, "country"@),
        crate::json::json_member(body, "regionName"@),
        crate::json::json_member(body, "city"@),
        crate::json::json_member(body, "isp"@),
    ) {
        (Ok(status), Ok(message), Ok(country), Ok(region), Ok(city), Ok(isp)) => Ok(
            IpApiAnswer { status, message, country, region, city, isp },
        ),
        (Err(e), _, _, _, _, _) => Err(e),
        (_, Err(e), _, _, _, _) => Err(e),
        (_, _, Err(e), _, _, _) => Err(e),
        (_, _, _, Err(e), _, _) => Err(e),
        (_, _, _, _, Err(e), _) => Err(e),
        (_, _, _, _, _, Err(e)) => Err(e),
    }
}

/// Reads the members of an ip-api answer body.
pub fn read_ip_api(body: &[u8]) -> (r: Result<IpApiAnswer, String>)
    ensures
        r == ip_api_of(body@),
{
    let status = crate::json::json_member_of(body, "status");
    let message = crate::json::json_member_of(body, "message");
    let country = crate::json::json_member_of(body, "country");
    let region = crate::json::json_member_of(body, "regionName");
    let city = crate::json::json_member_of(body, "city");
    let isp = crate::json::json_member_of(body, "isp");
    match (status, message, country, region, city, isp) {
        (Ok(status), Ok(message), Ok(country), Ok(region), Ok(city), Ok(isp)) => Ok(
            IpApiAnswer { status, message, country, region, city, isp },
        ),
        (Err(e), _, _, _, _, _) => Err(e),
        (_, Err(e), _, _, _, _) => Err(e),
        (_, _, Err(e), _, _, _) => Err(e),
        (_, _, _, Err(e), _, _) => Err(e),
        (_, _, _, _, Err(e), _) => Err(e),
        (_, _, _, _, _, Err(e)) => Err(e),
    }
}

/// Whether the answer's status is `success`.
pub open spec fn ip_api_ok(a: IpApiAnswer) -> bool {
    a.status matches crate::json::JsonField::Text(s) && s@ == "success"@
}

/// The message of a failed answer (`未知错误` when it has none).
pub open spec fn ip_api_message(a: IpApiAnswer) -> Seq<char> {
    crate::json::text_or(a.message, "未知错误"@)
}

/// The distinct non-empty place names among the given, in order.
pub open spec fn distinct_places(ps: Seq<Seq<char>>) -> Seq<Seq<char>>
    decreases ps.len(),
{
    if ps.len() == 0 {
        Seq::empty()
    } else {
        let prev = distinct_places(ps.drop_last());
        let v = ps.last();
        if v.len() > 0 && !prev.contains(v) {
            prev.push(v)
        } else {
            prev
        }
    }
}

/// The region line of a result image: the distinct country, region and
/// city names joined by spaces.
pub open spec fn region_line_of(a: IpApiAnswer) -> Seq<char> {
    crate::host::join_words(distinct_places(seq![
        crate::json::text_or(a.country, Seq::empty()),
        crate::json::text_or(a.region, Seq::empty()),
        crate::json::text_or(a.city, Seq::empty()),
    ]))
}

/// The test machine's region line and carrier for a result image, or the
/// answer's message when the lookup failed.
pub fn local_geo_from(a: &IpApiAnswer) -> (r: Result<(String, String), String>)
    ensures
        ip_api_ok(*a) ==> (r matches Ok((line, isp)) && line@ == region_line_of(*a) && isp@
            == crate::host::carrier_text(crate::json::text_or(a.isp, Seq::empty()), crate::host::ISP_SHORT_RULES@)),
        !ip_api_ok(*a) ==> (r matches Err(m) && m@ == ip_api_message(*a)),
{
    let ok = match &a.status {
        crate::json::JsonField::Text(s) => str_eq(s.as_str(), "success"),
        _ => false,
    };
    if !ok {
        return Err(crate::json::text_or_default(&a.message, "未知错误"));
    }
    proof {
        reveal_strlit("");
    }
    assert(""@ =~= Seq::<char>::empty());
    let c = chars_of(crate::json::text_or_default(&a.country, "").as_str());
    let g = chars_of(crate::json::text_or_default(&a.region, "").as_str());
    let t = chars_of(crate::json::text_or_default(&a.city, "").as_str());
    let mut parts: Vec<Vec<char>> = Vec::new();
    let ghost ps = seq![c@, g@, t@];
    let cands = [c, g, t];
    let mut i: usize = 0;
    while i < 3
        invariant
            i <= 3,
            cands@.len() == 3,
            ps.len() == 3,
            forall|k: int| 0 <= k < 3 ==> #[trigger] cands@[k]@ == ps[k],
            parts@.map_values(|v: Vec<char>| v@) == distinct_places(ps.take(i as int)),
        decreases 3 - i,
    {
        assert(ps.take(i + 1).drop_last() =~= ps.take(i as int));
        assert(ps.take(i + 1).last() == cands@[i as int]@);
        let v = &cands[i];
        if v.len() > 0 && !crate::host::contains_entry_pub(&parts, v) {
            let ghost before = parts@;
            parts.push(crate::text::slice_chars(v, 0, v.len()));
            assert(parts@.map_values(|x: Vec<char>| x@) =~= before.map_values(|x: Vec<char>| x@).push(v@)) by {
                assert(v@.subrange(0, v@.len() as int) =~= v@);
            }
        }
        i += 1;
    }
    assert(ps.take(3) =~= ps);
    let line = crate::host::join_words_pub(&parts);
    let isp = crate::host::translate_isp_short(crate::json::text_or_default(&a.isp, "").as_str());
    Ok((string_of(&line), isp))
}

/// Where the test machine is, as the footer shows it.
#[derive(Debug)]
pub struct GeoIpInfo {
    pub country: String,
    pub region: String,
    pub city: String,
    pub isp: String,
}

/// Whether an ip-api answer reports success.
pub fn ip_api_succeeded(a: &IpApiAnswer) -> (r: bool)
    ensures
        r == ip_api_ok(*a),
{
    match &a.status {
        crate::json::JsonField::Text(s) => str_eq(s.as_str(), "success"),
        _ => false,
    }
}

/// `ip-api 返回错误: ` and the message of a failed answer.
pub fn ip_api_error(a: &IpApiAnswer) -> (r: String)
    ensures
        r@ == "ip-api 返回错误: "@ + ip_api_message(*a),
{
    let mut m = string_of(&chars_of("ip-api 返回错误: "));
    crate::text::push_str_chars(&mut m, &chars_of(crate::json::text_or_default(&a.message, "未知错误").as_str()));
    m
}

/// The location shown when the lookup failed: every field empty, so that the
/// footer degrades gracefully.
pub fn no_ip_info() -> (g: GeoIpInfo)
    ensures
        g.country@.len() == 0 && g.region@.len() == 0 && g.city@.len() == 0 && g.isp@.len() == 0,
{
    GeoIpInfo { country: String::new(), region: String::new(), city: String::new(), isp: String::new() }
}

/// The footer's location for an ip-api answer: its country, region, city
/// and carrier when the answer reports success; every field empty when it
/// does not.
pub fn my_ip_info_from(a: &IpApiAnswer) -> (g: GeoIpInfo)
    ensures
        ip_api_ok(*a) ==> (g.country@ == crate::json::text_or(a.country, Seq::empty()) && g.region@
            == crate::json::text_or(a.region, Seq::empty()) && g.city@ == crate::json::text_or(a.city, Seq::empty())
            && g.isp@ == crate::host::carrier_text(crate::json::text_or(a.isp, Seq::empty()), crate::host::ISP_RULES@)),
        !ip_api_ok(*a) ==> (g.country@.len() == 0 && g.region@.len() == 0 && g.city@.len() == 0 && g.isp@.len()
            == 0),
{
    if !ip_api_succeeded(a) {
        return no_ip_info();
    }
    proof {
        reveal_strlit("");
    }
    assert(""@ =~= Seq::<char>::empty());
    GeoIpInfo {
        country: crate::json::text_or_default(&a.country, ""),
        region: crate::json::text_or_default(&a.region, ""),
        city: crate::json::text_or_default(&a.city, ""),
        isp: crate::host::translate_isp(crate::json::text_or_default(&a.isp, "").as_str()),
    }
}

/// What the result log records of a tested unit; the latencies come as the
/// two-decimal text the log shows.
#[derive(Debug)]
pub struct LogNode {
    pub group: String,
    pub remarks: String,
    pub avg_ping: String,
    pub site_ping: String,
    pub avg_speed: String,
    pub max_speed: String,
    pub used_traffic: u64,
    pub nat_type: String,
    pub tls_verified: String,
    pub raw_speed: [u64; 20],
}

/// Numbers joined by commas.
pub open spec fn joined_numbers(v: Seq<u64>) -> Seq<char>
    decreases v.len(),
{
    if v.len() == 0 {
        Seq::empty()
    } else if v.len() == 1 {
        crate::text::fmt_int(v[0] as int)
    } else {
        joined_numbers(v.drop_last()) + seq![','] + crate::text::fmt_int(v.last() as int)
    }
}

/// The log section of one unit.
pub open spec fn log_section(n: LogNode) -> Seq<char> {
    seq!['['] + n.group@ + seq!['^'] + n.remarks@ + "]\nAvgPing="@ + n.avg_ping@ + "\nSitePing="@ + n.site_ping@
        + "\nAvgSpeed="@ + n.avg_speed@ + "\nMaxSpeed="@ + n.max_speed@ + "\nUsedTraffic="@ + crate::text::fmt_int(
        n.used_traffic as int,
    ) + "\nNatType="@ + n.nat_type@ + "\nTlsVerified="@ + n.tls_verified@ + "\nRawSpeed="@ + joined_numbers(
        n.raw_speed@,
    ) + "\n\n"@
}

/// The sections of the units, in order.
pub open spec fn log_sections(ns: Seq<LogNode>) -> Seq<char>
    decreases ns.len(),
{
    if ns.len() == 0 {
        Seq::empty()
    } else {
        log_sections(ns.drop_last()) + log_section(ns.last())
    }
}

/// The result log: a `[Basic]` section naming the tester group, then one
/// section per unit.
pub open spec fn log_text_of(group: Seq<char>, ns: Seq<LogNode>) -> Seq<char> {
    "[Basic]\nTester="@ + group + "\n\n"@ + log_sections(ns)
}

fn push_s(out: &mut String, s: &str)
    ensures
        final(out)@ == old(out)@ + s@,
{
    crate::text::push_str_chars(out, &chars_of(s));
}

fn push_numbers(out: &mut String, v: &[u64; 20])
    ensures
        final(out)@ == old(out)@ + joined_numbers(v@),
{
    let ghost o = out@;
    let mut i: usize = 0;
    while i < 20
        invariant
            i <= 20,
            v@.len() == 20,
            out@ == o + joined_numbers(v@.take(i as int)),
        decreases 20 - i,
    {
        assert(v@.take(i + 1).drop_last() =~= v@.take(i as int));
        let ghost before = out@;
        if i > 0 {
            push_char(out, ',');
        }
        push_u64_padded(out, v[i], 0);
        i += 1;
        if i == 1 {
            assert(out@ =~= o + joined_numbers(v@.take(1)));
        } else {
            assert(out@ =~= o + (joined_numbers(v@.take(i - 1)) + seq![','] + crate::text::fmt_int(v@[i - 1] as int)));
        }
    }
    assert(v@.take(20) =~= v@);
}

/// Writes the result log text.
#[verifier::rlimit(40)]
pub fn log_text(group: &str, nodes: &[LogNode]) -> (r: String)
    ensures
        r@ == log_text_of(group@, nodes@),
{
    let mut out = String::new();
    push_s(&mut out, "[Basic]\nTester=");
    push_s(&mut out, group);
    push_s(&mut out, "\n\n");
    let ghost head = out@;
    let mut i: usize = 0;
    while i < nodes.len()
        invariant
            i <= nodes@.len(),
            out@ == head + log_sections(nodes@.take(i as int)),
        decreases nodes@.len() - i,
    {
        assert(nodes@.take(i + 1).drop_last() =~= nodes@.take(i as int));
        let n = &nodes[i];
        let ghost before = out@;
        push_char(&mut out, '[');
        push_s(&mut out, n.group.as_str());
        push_char(&mut out, '^');
        push_s(&mut out, n.remarks.as_str());
        push_s(&mut out, "]\nAvgPing=");
        push_s(&mut out, n.avg_ping.as_str());
        push_s(&mut out, "\nSitePing=");
        push_s(&mut out, n.site_ping.as_str());
        push_s(&mut out, "\nAvgSpeed=");
        push_s(&mut out, n.avg_speed.as_str());
        push_s(&mut out, "\nMaxSpeed=");
        push_s(&mut out, n.max_speed.as_str());
        push_s(&mut out, "\nUsedTraffic=");
        push_u64_padded(&mut out, n.used_traffic, 0);
        push_s(&mut out, "\nNatType=");
        push_s(&mut out, n.nat_type.as_str());
        push_s(&mut out, "\nTlsVerified=");
        push_s(&mut out, n.tls_verified.as_str());
        push_s(&mut out, "\nRawSpeed=");
        push_numbers(&mut out, &n.raw_speed);
        push_s(&mut out, "\n\n");
        assert(out@ =~= before + log_section(*n));
        i += 1;
    }
    assert(nodes@.take(nodes@.len() as int) =~= nodes@);
    out
}

/// The test machine's details printed under a result image: region,
/// carrier, when the batch started and how long it ran (`HH:MM:SS`).
#[derive(Debug)]
pub struct ExportMeta {
    pub region_line: String,
    pub isp: String,
    pub test_time: String,
    pub duration: String,
}

/// The export details of a batch that started at `test_start_time` (the
/// current UTC time, as `format_local_test_time` gives it, when that is
/// empty) and ran `elapsed_secs` seconds.
pub fn collect_export_meta(region_line: String, isp: String, test_start_time: String, elapsed_secs: u64) -> (m: ExportMeta)
    ensures
        m.region_line@ == region_line@,
        m.isp@ == isp@,
        test_start_time@.len() > 0 ==> m.test_time@ == test_start_time@,
        test_start_time@.len() == 0 ==> exists|t: u64| m.test_time@ == #[trigger] utc_test_time_text(t as nat),
        m.duration@ == hms_text(elapsed_secs as nat),
{
    let test_time = if test_start_time.as_str().is_empty() {
        format_local_test_time()
    } else {
        test_start_time
    };
    ExportMeta { region_line, isp, test_time, duration: format_duration_hms(elapsed_secs) }
}

/// What the summary of the result image reads of one tested node.
#[derive(Debug)]
pub struct RowFacts {
    pub online: bool,
    pub total_recv_bytes: u64,
    pub avg_speed: String,
    pub nat_type: String,
    pub tls_verified: String,
    pub raw_speed: [u64; 20],
}

/// The summary of the result image: nodes online, traffic used, whether the
/// speed and UDP columns show, the TLS verdict counts and the highest slot.
#[derive(Debug)]
pub struct SummaryCounts {
    pub onlines: i32,
    pub traffic: u64,
    pub show_speed: bool,
    pub show_udp: bool,
    pub tls_ok: i32,
    pub tls_fail: i32,
    pub peak: u64,
}

/// How many rows are online.
pub open spec fn rows_online(rows: Seq<RowFacts>) -> int
    decreases rows.len(),
{
    if rows.len() == 0 {
        0
    } else {
        rows_online(rows.drop_last()) + if rows.last().online { 1int } else { 0int }
    }
}

/// The bytes received over all rows.
pub open spec fn rows_traffic(rows: Seq<RowFacts>) -> int
    decreases rows.len(),
{
    if rows.len() == 0 {
        0
    } else {
        rows_traffic(rows.drop_last()) + rows.last().total_recv_bytes
    }
}

/// How many rows have this TLS verdict.
pub open spec fn rows_with_tls(rows: Seq<RowFacts>, verdict: Seq<char>) -> int
    decreases rows.len(),
{
    if rows.len() == 0 {
        0
    } else {
        rows_with_tls(rows.drop_last(), verdict) + if rows.last().tls_verified@ == verdict { 1int } else { 0int }
    }
}

/// The highest spark slot over all rows (0 without rows).
pub open spec fn rows_peak(rows: Seq<RowFacts>) -> u64
    decreases rows.len(),
{
    if rows.len() == 0 {
        0
    } else {
        let m = rows_peak(rows.drop_last());
        let p = crate::measure::seq_max(rows.last().raw_speed@);
        if p > m {
            p
        } else {
            m
        }
    }
}

/// A row shows an average speed.
pub open spec fn has_speed(r: RowFacts) -> bool {
    r.avg_speed@.len() > 0 && r.avg_speed@ != "N/A"@
}

/// `c` is the summary of `rows`.
pub open spec fn summary_ok(c: SummaryCounts, rows: Seq<RowFacts>) -> bool {
    &&& c.onlines == rows_online(rows)
    &&& c.traffic == rows_traffic(rows)
    &&& c.show_speed == (exists|k: int| 0 <= k < rows.len() && has_speed(#[trigger] rows[k]))
    &&& c.show_udp == (exists|k: int| 0 <= k < rows.len() && (#[trigger] rows[k]).nat_type@.len() > 0)
    &&& c.tls_ok == rows_with_tls(rows, "Verified"@)
    &&& c.tls_fail == rows_with_tls(rows, "Failed"@)
    &&& c.peak == rows_peak(rows)
}

proof fn lemma_rows_bounds(rows: Seq<RowFacts>)
    ensures
        0 <= rows_online(rows) <= rows.len(),
        0 <= rows_with_tls(rows, "Verified"@) <= rows.len(),
        0 <= rows_with_tls(rows, "Failed"@) <= rows.len(),
        0 <= rows_traffic(rows),
    decreases rows.len(),
{
    if rows.len() > 0 {
        lemma_rows_bounds(rows.drop_last());
    }
}

proof fn lemma_traffic_prefix(rows: Seq<RowFacts>, i: int)
    requires
        0 <= i <= rows.len(),
    ensures
        rows_traffic(rows.take(i)) <= rows_traffic(rows),
    decreases rows.len() - i,
{
    if i < rows.len() {
        lemma_traffic_prefix(rows, i + 1);
        assert(rows.take(i + 1).drop_last() =~= rows.take(i));
    } else {
        assert(rows.take(i) =~= rows);
    }
}

/// Counts what the summary of the result image shows.
#[verifier::loop_isolation(false)]
pub fn summary_counts(rows: &[RowFacts]) -> (c: SummaryCounts)
    requires
        rows@.len() <= i32::MAX,
        rows_traffic(rows@) <= u64::MAX,
    ensures
        summary_ok(c, rows@),
{
    let mut c = SummaryCounts {
        onlines: 0,
        traffic: 0,
        show_speed: false,
        show_udp: false,
        tls_ok: 0,
        tls_fail: 0,
        peak: 0,
    };
    proof {
        reveal_strlit("Verified");
        reveal_strlit("Failed");
        reveal_strlit("N/A");
    }
    let mut i: usize = 0;
    while i < rows.len()
        invariant
            i <= rows@.len(),
            summary_ok(c, rows@.take(i as int)),
        decreases rows@.len() - i,
    {
        let ghost pre = rows@.take(i as int);
        let ghost cur = rows@.take(i + 1);
        assert(cur.drop_last() =~= pre);
        assert(cur.last() == rows@[i as int]);
        proof {
            lemma_rows_bounds(cur);
            lemma_traffic_prefix(rows@, i + 1);
        }
        let r = &rows[i];
        if r.online {
            c.onlines = c.onlines + 1;
        }
        c.traffic = c.traffic + r.total_recv_bytes;
        let speed = !r.avg_speed.as_str().is_empty() && !str_eq(r.avg_speed.as_str(), "N/A");
        if speed {
            c.show_speed = true;
        }
        if !r.nat_type.as_str().is_empty() {
            c.show_udp = true;
        }
        if str_eq(r.tls_verified.as_str(), "Verified") {
            c.tls_ok = c.tls_ok + 1;
        }
        if str_eq(r.tls_verified.as_str(), "Failed") {
            c.tls_fail = c.tls_fail + 1;
        }
        let p = crate::measure::peak_of(&r.raw_speed);
        if p > c.peak {
            c.peak = p;
        }
        assert(c.show_speed == (exists|k: int| 0 <= k < cur.len() && has_speed(#[trigger] cur[k]))) by {
            if speed {
                assert(has_speed(cur[i as int]));
            }
            if exists|k: int| 0 <= k < cur.len() && has_speed(#[trigger] cur[k]) {
                let k = choose|k: int| 0 <= k < cur.len() && has_speed(#[trigger] cur[k]);
                if k < i {
                    assert(pre[k] == cur[k]);
                }
            }
        }
        assert(c.show_udp == (exists|k: int| 0 <= k < cur.len() && (#[trigger] cur[k]).nat_type@.len() > 0)) by {
            if r.nat_type@.len() > 0 {
                assert(cur[i as int].nat_type@.len() > 0);
            }
            if exists|k: int| 0 <= k < cur.len() && (#[trigger] cur[k]).nat_type@.len() > 0 {
                let k = choose|k: int| 0 <= k < cur.len() && (#[trigger] cur[k]).nat_type@.len() > 0;
                if k < i {
                    assert(pre[k] == cur[k]);
                }
            }
        }
        i += 1;
    }
    assert(rows@.take(rows@.len() as int) =~= rows@);
    c
}

proof fn lemma_digits_no_comma(n: nat)
    ensures
        forall|i: int| 0 <= i < crate::text::digits_of(n).len() ==> #[trigger] crate::text::digits_of(n)[i] != ',',
    decreases n,
{
    if n >= 10 {
        lemma_digits_no_comma(n / 10);
    }
    let d = crate::text::digits_of(n);
    assert forall|i: int| 0 <= i < d.len() implies #[trigger] d[i] != ',' by {
        if n < 10 {
            assert(d[i] == crate::text::digit_char(n as int));
            assert(crate::text::digit_char(n as int) as u32 == 48 + n);
        } else if i < d.len() - 1 {
            assert(d[i] == crate::text::digits_of(n / 10)[i]);
        } else {
            assert(d[i] == crate::text::digit_char((n % 10) as int));
            assert(crate::text::digit_char((n % 10) as int) as u32 == 48 + n % 10);
        }
    }
}

proof fn lemma_fmt_int_no_comma(v: int)
    ensures
        forall|i: int| 0 <= i < crate::text::fmt_int(v).len() ==> #[trigger] crate::text::fmt_int(v)[i] != ',',
{
    let sign: Seq<char> = if v < 0 { seq!['-'] } else { Seq::empty() };
    let mag = if v < 0 { (-v) as nat } else { v as nat };
    let body = crate::text::digits_of(mag);
    lemma_digits_no_comma(mag);
    assert(crate::text::zeros(0 - sign.len() - body.len()) =~= Seq::<char>::empty()) by {
        assert(body.len() >= 0);
    }
    let f = crate::text::fmt_int(v);
    assert(f =~= sign + body);
    assert forall|i: int| 0 <= i < f.len() implies #[trigger] f[i] != ',' by {
        if i < sign.len() {
            assert(f[i] == '-');
        } else {
            assert(f[i] == body[i - sign.len()]);
        }
    }
}

proof fn lemma_split_plain(a: Seq<char>, b: Seq<char>, sep: char)
    requires
        forall|i: int| 0 <= i < b.len() ==> b[i] != sep,
    ensures
        crate::text::split_on(a + b, sep) == crate::text::split_on(a, sep).update(
            crate::text::split_on(a, sep).len() - 1,
            crate::text::split_on(a, sep).last() + b,
        ),
        crate::text::split_on(a, sep).len() >= 1,
    decreases b.len(),
{
    crate::text::lemma_split_on_nonempty(a, sep);
    let sa = crate::text::split_on(a, sep);
    if b.len() == 0 {
        assert(a + b =~= a);
        assert(sa.last() + b =~= sa.last());
        assert(sa.update(sa.len() - 1, sa.last()) =~= sa);
    } else {
        let b0 = b.drop_last();
        lemma_split_plain(a, b0, sep);
        assert((a + b).drop_last() =~= a + b0);
        assert((a + b).last() == b.last());
        assert(b.last() != sep);
        let prev = sa.update(sa.len() - 1, sa.last() + b0);
        assert(crate::text::split_on(a + b, sep) == prev.update(prev.len() - 1, prev.last().push(b.last())));
        assert((sa.last() + b0).push(b.last()) =~= sa.last() + b);
        assert(prev.update(prev.len() - 1, prev.last().push(b.last())) =~= sa.update(sa.len() - 1, sa.last() + b));
    }
}

proof fn lemma_split_joined(v: Seq<u64>)
    requires
        v.len() >= 1,
    ensures
        crate::text::split_on(joined_numbers(v), ',').len() == v.len(),
        forall|k: int| 0 <= k < v.len() ==> #[trigger] crate::text::split_on(joined_numbers(v), ',')[k]
            == crate::text::fmt_int(v[k] as int),
    decreases v.len(),
{
    let e = Seq::<char>::empty();
    if v.len() == 1 {
        let f = crate::text::fmt_int(v[0] as int);
        lemma_fmt_int_no_comma(v[0] as int);
        lemma_split_plain(e, f, ',');
        assert(e + f =~= f);
        assert(crate::text::split_on(e, ',') == seq![e]);
        assert(crate::text::split_on(f, ',') =~= seq![f]);
    } else {
        let p = v.drop_last();
        lemma_split_joined(p);
        let x = joined_numbers(p);
        let f = crate::text::fmt_int(v.last() as int);
        lemma_fmt_int_no_comma(v.last() as int);
        let xc = x.push(',');
        assert(xc.drop_last() =~= x);
        assert(xc.last() == ',');
        let sx = crate::text::split_on(x, ',');
        assert(crate::text::split_on(xc, ',') == sx.push(e));
        lemma_split_plain(xc, f, ',');
        assert(joined_numbers(v) =~= xc + f) by {
            assert(x + seq![','] =~= xc);
        }
        let sv = crate::text::split_on(joined_numbers(v), ',');
        assert(sv == sx.push(e).update(sx.len() as int, e + f));
        assert(e + f =~= f);
        assert forall|k: int| 0 <= k < v.len() implies #[trigger] sv[k] == crate::text::fmt_int(v[k] as int) by {
            if k < p.len() {
                assert(v[k] == p[k]);
            }
        }
    }
}

/// The `RawSpeed` line of a unit's log section lists its twenty spark slots
/// in slot order: the `k`-th comma-separated number is slot `k` in decimal.
pub proof fn law_log_raw_speed_in_slot_order(n: LogNode)
    ensures
        exists|head: Seq<char>, x: Seq<char>|
            log_section(n) == head + "\nRawSpeed="@ + x + "\n\n"@ && crate::text::split_on(x, ',').len() == 20
                && forall|k: int| 0 <= k < 20 ==> #[trigger] crate::text::split_on(x, ',')[k] == crate::text::fmt_int(
                n.raw_speed@[k] as int,
            ),
{
    let x = joined_numbers(n.raw_speed@);
    lemma_split_joined(n.raw_speed@);
    let head = seq!['['] + n.group@ + seq!['^'] + n.remarks@ + "]\nAvgPing="@ + n.avg_ping@ + "\nSitePing="@
        + n.site_ping@ + "\nAvgSpeed="@ + n.avg_speed@ + "\nMaxSpeed="@ + n.max_speed@ + "\nUsedTraffic="@
        + crate::text::fmt_int(n.used_traffic as int) + "\nNatType="@ + n.nat_type@ + "\nTlsVerified="@
        + n.tls_verified@;
    assert(log_section(n) =~= head + "\nRawSpeed="@ + x + "\n\n"@);
}

} // verus!
