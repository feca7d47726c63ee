//! Country flags for node names: the regional-indicator pair at the start of
//! a name, ISO country codes turned into flags, and place names in Chinese
//! that imply a country.

use vstd::prelude::*;

use crate::text::{chars_of, contains_chars, contains_seq, string_of, trim_start, trim_start_chars};

verus! {

/// A regional indicator symbol (U+1F1E6 to U+1F1FF).
pub open spec fn is_regional_indicator(c: char) -> bool {
    0x1F1E6 <= c as u32 <= 0x1F1FF
}

/// A name starts with a flag when its first two characters are regional
/// indicators (the first eight UTF-8 bytes of the name).
pub open spec fn starts_with_flag(s: Seq<char>) -> bool {
    s.len() >= 2 && is_regional_indicator(s[0]) && is_regional_indicator(s[1])
}

/// Splits a leading flag off a name: the flag and the rest without leading
/// white space; or no flag and the whole name.
pub fn split_flag(s: &str) -> (r: (Option<String>, String))
    ensures
        starts_with_flag(s@) ==> (r.0 matches Some(f) && f@ == s@.take(2)) && r.1@ == trim_start(s@.skip(2)),
        !starts_with_flag(s@) ==> r.0 is None && r.1@ == s@,
{
    let cs = chars_of(s);
    if cs.len() >= 2 && 0x1F1E6 <= cs[0] as u32 && cs[0] as u32 <= 0x1F1FF && 0x1F1E6 <= cs[1] as u32
        && cs[1] as u32 <= 0x1F1FF {
        let flag = crate::text::slice_chars(&cs, 0, 2);
        let tail = crate::text::slice_chars(&cs, 2, cs.len());
        let rest = trim_start_chars(&tail);
        assert(flag@ =~= s@.take(2));
        assert(tail@ =~= s@.skip(2));
        (Some(string_of(&flag)), string_of(&rest))
    } else {
        (None, String::from_str(s))
    }
}

/// Converts a code point to a character with `char::from_u32`: the
/// character for a scalar value, `None` for a surrogate or a value above
/// 0x10FFFF.
#[verifier::external_body]
fn char_from_u32(u: u32) -> (r: Option<char>)
    ensures
        (u <= 0x10FFFF && !(0xD800 <= u <= 0xDFFF)) ==> r == Some(u as char),
        !(u <= 0x10FFFF && !(0xD800 <= u <= 0xDFFF)) ==> r is None,
{
    char::from_u32(u)
}

pub open spec fn is_ascii_letter(c: char) -> bool {
    ('a' <= c <= 'z') || ('A' <= c <= 'Z')
}

/// The upper-case form of an ASCII letter.
pub open spec fn ascii_upper(c: char) -> u32 {
    if 'a' <= c <= 'z' {
        (c as u32 - 32) as u32
    } else {
        c as u32
    }
}

/// The flag of a two-letter country code: the regional indicators of its
/// upper-cased letters.
pub open spec fn code_flag(cc: Seq<char>) -> Option<Seq<u32>> {
    if cc.len() == 2 && is_ascii_letter(cc[0]) && is_ascii_letter(cc[1]) {
        Some(seq![(0x1F1E6 + ascii_upper(cc[0]) - 65) as u32, (0x1F1E6 + ascii_upper(cc[1]) - 65) as u32])
    } else {
        None
    }
}

/// The code points of a text.
pub open spec fn code_points(s: Seq<char>) -> Seq<u32> {
    s.map_values(|c: char| c as u32)
}

fn indicator_of(c: char) -> (r: char)
    requires
        is_ascii_letter(c),
    ensures
        r as u32 == 0x1F1E6 + ascii_upper(c) - 65,
{
    let up: u32 = if 'a' <= c && c <= 'z' { c as u32 - 32 } else { c as u32 };
    match char_from_u32(0x1F1E6 + up - 65) {
        Some(x) => x,
        None => 'A',
    }
}

/// An ISO 3166-1 alpha-2 code as a flag emoji; `None` unless the code is
/// exactly two ASCII letters (either case).
pub fn code_to_flag(cc: &str) -> (r: Option<String>)
    ensures
        match code_flag(cc@) {
            Some(f) => r matches Some(s) && code_points(s@) == f,
            None => r is None,
        },
{
    let cs = chars_of(cc);
    if cs.len() != 2 {
        return None;
    }
    let a = cs[0];
    let c = cs[1];
    if !(('a' <= a && a <= 'z') || ('A' <= a && a <= 'Z')) || !(('a' <= c && c <= 'z') || ('A' <= c
        && c <= 'Z')) {
        return None;
    }
    let v = vec![indicator_of(a), indicator_of(c)];
    let out = string_of(&v);
    assert(code_points(out@) =~= code_flag(cc@)->0);
    Some(out)
}

/// Place names (as they appear in node names) and the country they imply,
/// tried in this order.
pub const COUNTRY_KEYWORDS: [(&'static str, &'static str); 67] = [
    ("香港", "HK"),
    ("台湾", "TW"),
    ("台灣", "TW"),
    ("澳门", "MO"),
    ("澳門", "MO"),
    ("日本", "JP"),
    ("韩国", "KR"),
    ("韓國", "KR"),
    ("新加坡", "SG"),
    ("美国", "US"),
    ("美國", "US"),
    ("纽约", "US"),
    ("洛杉", "US"),
    ("洛杉磯", "US"),
    ("洛杉矶", "US"),
    ("硅谷", "US"),
    ("英国", "GB"),
    ("英國", "GB"),
    ("伦敦", "GB"),
    ("倫敦", "GB"),
    ("德国", "DE"),
    ("德國", "DE"),
    ("法国", "FR"),
    ("法國", "FR"),
    ("荷兰", "NL"),
    ("荷蘭", "NL"),
    ("俄罗斯", "RU"),
    ("俄羅斯", "RU"),
    ("澳洲", "AU"),
    ("澳大利亚", "AU"),
    ("加拿大", "CA"),
    ("印度", "IN"),
    ("土耳其", "TR"),
    ("阿联酋", "AE"),
    ("迪拜", "AE"),
    ("巴西", "BR"),
    ("阿根廷", "AR"),
    ("泰国", "TH"),
    ("泰國", "TH"),
    ("越南", "VN"),
    ("菲律宾", "PH"),
    ("菲律賓", "PH"),
    ("马来", "MY"),
    ("馬來", "MY"),
    ("印尼", "ID"),
    ("意大利", "IT"),
    ("西班牙", "ES"),
    ("瑞典", "SE"),
    ("瑞士", "CH"),
    ("波兰", "PL"),
    ("波蘭", "PL"),
    ("乌克兰", "UA"),
    ("烏克蘭", "UA"),
    ("尼日利亚", "NG"),
    ("南非", "ZA"),
    ("墨西哥", "MX"),
    ("智利", "CL"),
    ("爱尔兰", "IE"),
    ("愛爾蘭", "IE"),
    ("以色列", "IL"),
    ("中国", "CN"),
    ("大陸", "CN"),
    ("大陆", "CN"),
    ("上海", "CN"),
    ("北京", "CN"),
    ("广州", "CN"),
    ("深圳", "CN"),
];

/// The country of the first keyword at or after `i` that occurs in `name`.
pub open spec fn keyword_country_from(name: Seq<char>, i: int) -> Option<Seq<char>>
    decreases 67 - i,
{
    if i < 0 || i >= 67 {
        None
    } else if contains_seq(name, COUNTRY_KEYWORDS@[i].0@) {
        Some(COUNTRY_KEYWORDS@[i].1@)
    } else {
        keyword_country_from(name, i + 1)
    }
}

/// The country code implied by the first keyword that the name contains.
pub fn keyword_country_code(name: &str) -> (r: Option<&'static str>)
    ensures
        match keyword_country_from(name@, 0) {
            Some(c) => r matches Some(x) && x@ == c,
            None => r is None,
        },
{
    let h = chars_of(name);
    let mut i: usize = 0;
    while i < 67
        invariant
            i <= 67,
            h@ == name@,
            keyword_country_from(name@, 0) == keyword_country_from(name@, i as int),
        decreases 67 - i,
    {
        let (k, cc) = COUNTRY_KEYWORDS[i];
        let kc = chars_of(k);
        if contains_chars(&h, &kc) {
            return Some(cc);
        }
        i += 1;
    }
    None
}

/// The name shown next to the flag: the name without its leading flag.
pub open spec fn display_rest(remarks: Seq<char>) -> Seq<char> {
    if starts_with_flag(remarks) {
        trim_start(remarks.skip(2))
    } else {
        remarks
    }
}

/// The code points of the flag shown for a node, by priority: the flag
/// written in the name, the outbound country, the inbound country, then a
/// place name in the rest of the name.
pub open spec fn resolved_flag(remarks: Seq<char>, outbound_cc: Seq<char>, inbound_cc: Seq<char>) -> Option<Seq<u32>> {
    if starts_with_flag(remarks) {
        Some(code_points(remarks.take(2)))
    } else if code_flag(outbound_cc) is Some {
        code_flag(outbound_cc)
    } else if code_flag(inbound_cc) is Some {
        code_flag(inbound_cc)
    } else {
        match keyword_country_from(display_rest(remarks), 0) {
            Some(cc) => code_flag(cc),
            None => None,
        }
    }
}

/// The flag and the display name of a node.
pub fn resolve_flag(remarks: &str, outbound_cc: &str, inbound_cc: &str) -> (r: (Option<String>, String))
    ensures
        r.1@ == display_rest(remarks@),
        match resolved_flag(remarks@, outbound_cc@, inbound_cc@) {
            Some(f) => r.0 matches Some(s) && code_points(s@) == f,
            None => r.0 is None,
        },
{
    let (emoji, rest) = split_flag(remarks);
    if emoji.is_some() {
        assert(code_points(emoji->0@) =~= code_points(remarks@.take(2)));
        return (emoji, rest);
    }
    if let Some(f) = code_to_flag(outbound_cc) {
        return (Some(f), rest);
    }
    if let Some(f) = code_to_flag(inbound_cc) {
        return (Some(f), rest);
    }
    if let Some(cc) = keyword_country_code(rest.as_str()) {
        return (code_to_flag(cc), rest);
    }
    (None, rest)
}

/// A name without a flag of its own takes the flag of a valid outbound
/// country code (its two letters as regional indicators), whatever the
/// inbound country is.
pub proof fn law_outbound_country_wins(remarks: Seq<char>, outbound_cc: Seq<char>, inbound_a: Seq<char>, inbound_b: Seq<char>)
    requires
        !starts_with_flag(remarks),
        outbound_cc.len() == 2,
        is_ascii_letter(outbound_cc[0]),
        is_ascii_letter(outbound_cc[1]),
    ensures
        resolved_flag(remarks, outbound_cc, inbound_a) == Some(
            seq![(0x1F1E6 + ascii_upper(outbound_cc[0]) - 65) as u32, (0x1F1E6 + ascii_upper(outbound_cc[1]) - 65) as u32],
        ),
        resolved_flag(remarks, outbound_cc, inbound_a) == resolved_flag(remarks, outbound_cc, inbound_b),
{
}

/// Without a flag in the name or a valid outbound code, a valid inbound
/// country code gives the flag.
pub proof fn law_inbound_country_next(remarks: Seq<char>, outbound_cc: Seq<char>, inbound_cc: Seq<char>)
    requires
        !starts_with_flag(remarks),
        !(outbound_cc.len() == 2 && is_ascii_letter(outbound_cc[0]) && is_ascii_letter(outbound_cc[1])),
        inbound_cc.len() == 2,
        is_ascii_letter(inbound_cc[0]),
        is_ascii_letter(inbound_cc[1]),
    ensures
        resolved_flag(remarks, outbound_cc, inbound_cc) == Some(
            seq![(0x1F1E6 + ascii_upper(inbound_cc[0]) - 65) as u32, (0x1F1E6 + ascii_upper(inbound_cc[1]) - 65) as u32],
        ),
{
}

} // verus!
