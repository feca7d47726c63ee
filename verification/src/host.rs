//! What the desktop shell decides: safe file names, the window icon entry,
//! carrier names, the system proxy settings, the history and log listings and
//! the core update.

use vstd::prelude::*;

use crate::text::{
    chars_of, contains_chars, contains_seq, lowercase, push_char, push_str_chars, slice_chars, str_eq,
    string_of, to_lowercase, trim, trim_chars,
};

verus! {

/// The error for an empty name.
pub open spec fn empty_name_text() -> Seq<char> {
    "名称不能为空"@
}

/// The error for a name with a path character.
pub open spec fn bad_name_text() -> Seq<char> {
    "名称含非法字符"@
}

/// A name is safe as a file base name: not empty, and without `..`, `/`,
/// `\`, `:` or NUL.
pub open spec fn unsafe_name(n: Seq<char>) -> bool {
    contains_seq(n, seq!['.', '.']) || contains_seq(n, seq!['/']) || contains_seq(n, seq!['\\']) || contains_seq(
        n,
        seq![':'],
    ) || contains_seq(n, seq!['\0'])
}

/// Checks a user-given name before it becomes part of a path.
pub fn ensure_safe_basename(name: &str) -> (r: Result<(), String>)
    ensures
        name@.len() == 0 ==> (r matches Err(m) && m@ == empty_name_text()),
        name@.len() > 0 && unsafe_name(name@) ==> (r matches Err(m) && m@ == bad_name_text()),
        name@.len() > 0 && !unsafe_name(name@) ==> r is Ok,
{
    let cs = chars_of(name);
    if cs.len() == 0 {
        return Err(string_of(&chars_of("名称不能为空")));
    }
    let dd = ['.', '.'];
    let sl = ['/'];
    let bs = ['\\'];
    let co = [':'];
    let nul = ['\0'];
    assert(dd@ =~= seq!['.', '.']);
    assert(sl@ =~= seq!['/']);
    assert(bs@ =~= seq!['\\']);
    assert(co@ =~= seq![':']);
    assert(nul@ =~= seq!['\0']);
    if contains_chars(&cs, &dd) || contains_chars(&cs, &sl) || contains_chars(&cs, &bs) || contains_chars(&cs, &co)
        || contains_chars(&cs, &nul) {
        return Err(string_of(&chars_of("名称含非法字符")));
    }
    Ok(())
}

/// A little-endian 16-bit value.
pub open spec fn le16(b: Seq<u8>, o: int) -> int {
    b[o] + 256 * b[o + 1]
}

/// A little-endian 32-bit value.
pub open spec fn le32(b: Seq<u8>, o: int) -> int {
    b[o] + 256 * b[o + 1] + 65536 * b[o + 2] + 16777216 * b[o + 3]
}

/// An icon directory side: 0 stands for 256.
pub open spec fn ico_side(b: u8) -> int {
    if b == 0 {
        256
    } else {
        b as int
    }
}

/// `|x|`
pub open spec fn abs_int(x: int) -> int {
    if x < 0 {
        -x
    } else {
        x
    }
}

/// The best of the first `n` icon directory entries for a wanted side:
/// (minus the distance, the sum of sides, offset, size). Entries whose image
/// lies outside the file are skipped; a later entry wins only when strictly
/// closer, or as close and larger.
pub open spec fn best_ico(ico: Seq<u8>, want: int, n: int) -> Option<(int, int, int, int)>
    decreases n,
{
    if n <= 0 {
        None
    } else {
        let prev = best_ico(ico, want, n - 1);
        let o = 6 + 16 * (n - 1);
        let w = ico_side(ico[o]);
        let h = ico_side(ico[o + 1]);
        let size = le32(ico, o + 8);
        let off = le32(ico, o + 12);
        if off + size > ico.len() {
            prev
        } else {
            let d = -(abs_int(w - want) + abs_int(h - want));
            let s = w + h;
            match prev {
                None => Some((d, s, off, size)),
                Some((pd, ps, _, _)) => if d > pd || (d == pd && s > ps) {
                    Some((d, s, off, size))
                } else {
                    prev
                },
            }
        }
    }
}

/// The image of the icon entry that best fits `want` pixels, if the file
/// holds a well-formed directory with any usable entry.
pub open spec fn spec_pick_ico(ico: Seq<u8>, want: int) -> Option<(int, int)> {
    if ico.len() < 6 || ico.len() < 6 + 16 * le16(ico, 4) {
        None
    } else {
        match best_ico(ico, want, le16(ico, 4)) {
            Some((_, _, off, size)) => Some((off, off + size)),
            None => None,
        }
    }
}

proof fn lemma_best_ico_bounds(ico: Seq<u8>, want: int, n: int)
    ensures
        best_ico(ico, want, n) matches Some((_, _, off, size)) ==> 0 <= off && 0 <= size && off + size
            <= ico.len(),
    decreases n,
{
    if n > 0 {
        lemma_best_ico_bounds(ico, want, n - 1);
    }
}

/// Picks the icon image closest to `want` pixels (ties to the larger one).
pub fn pick_ico_entry(ico: &[u8], want: i32) -> (r: Option<&[u8]>)
    requires
        -0x3fff_0000 <= want <= 0x3fff_0000,
    ensures
        match spec_pick_ico(ico@, want as int) {
            Some((a, b)) => r matches Some(s) && s@ == ico@.subrange(a, b),
            None => r is None,
        },
{
    if ico.len() < 6 {
        return None;
    }
    let count: usize = ico[4] as usize + 256 * (ico[5] as usize);
    if ico.len() < 6 || (ico.len() - 6) / 16 < count {
        return None;
    }
    let mut best: Option<(i64, i64, usize, usize)> = None;
    let mut i: usize = 0;
    while i < count
        invariant
            i <= count,
            count == le16(ico@, 4),
            6 + 16 * count <= ico@.len(),
            -0x3fff_0000 <= want <= 0x3fff_0000,
            match (best, best_ico(ico@, want as int, i as int)) {
                (Some((d, s, o, z)), Some((sd, ss, so, sz))) => d == sd && s == ss && o == so && z == sz,
                (None, None) => true,
                _ => false,
            },
        decreases count - i,
    {
        let o = 6 + i * 16;
        let w: i64 = if ico[o] == 0 { 256 } else { ico[o] as i64 };
        let h: i64 = if ico[o + 1] == 0 { 256 } else { ico[o + 1] as i64 };
        let size: u64 = ico[o + 8] as u64 + 256 * (ico[o + 9] as u64) + 65536 * (ico[o + 10] as u64) + 16777216 * (ico[o + 11] as u64);
        let off: u64 = ico[o + 12] as u64 + 256 * (ico[o + 13] as u64) + 65536 * (ico[o + 14] as u64) + 16777216 * (ico[o + 15] as u64);
        if off + size <= ico.len() as u64 {
            let dw = if w >= want as i64 { w - want as i64 } else { want as i64 - w };
            let dh = if h >= want as i64 { h - want as i64 } else { want as i64 - h };
            let d: i64 = 0 - (dw + dh);
            let s: i64 = w + h;
            let better = match best {
                None => true,
                Some((pd, ps, _, _)) => d > pd || (d == pd && s > ps),
            };
            if better {
                best = Some((d, s, off as usize, size as usize));
            }
        }
        i += 1;
    }
    proof {
        lemma_best_ico_bounds(ico@, want as int, count as int);
    }
    match best {
        Some((_, _, off, size)) => Some(vstd::slice::slice_subrange(ico, off, off + size)),
        None => None,
    }
}

/// `lower` holds the keyword of rule `i` or a later one: the replacement of
/// the first such rule.
pub open spec fn first_rule(lower: Seq<char>, rules: Seq<(&'static str, &'static str)>, i: int) -> Option<Seq<char>>
    decreases rules.len() - i,
{
    if i < 0 || i >= rules.len() {
        None
    } else if contains_seq(lower, rules[i].0@) {
        Some(rules[i].1@)
    } else {
        first_rule(lower, rules, i + 1)
    }
}

fn apply_rules(lower: &[char], rules: &[(&'static str, &'static str)]) -> (r: Option<&'static str>)
    ensures
        match first_rule(lower@, rules@, 0) {
            Some(t) => r matches Some(x) && x@ == t,
            None => r is None,
        },
{
    let mut i: usize = 0;
    while i < rules.len()
        invariant
            i <= rules@.len(),
            first_rule(lower@, rules@, 0) == first_rule(lower@, rules@, i as int),
        decreases rules@.len() - i,
    {
        let (k, t) = rules[i];
        let kc = chars_of(k);
        if contains_chars(lower, &kc) {
            return Some(t);
        }
        i += 1;
    }
    None
}

/// Carrier keywords (of a lower-cased carrier name) and the name shown, tried
/// in this order.
pub const ISP_RULES: [(&'static str, &'static str); 26] = [
    ("chinanet", "中国电信"),
    ("china telecom", "中国电信"),
    ("chinaunicom", "中国联通"),
    ("china unicom", "中国联通"),
    ("china169", "中国联通"),
    ("unicom", "中国联通"),
    ("chinamobile", "中国移动"),
    ("china mobile", "中国移动"),
    ("cmcc", "中国移动"),
    ("china broadcast", "中国广电"),
    ("chinabroadnet", "中国广电"),
    ("cbn", "中国广电"),
    ("great wall broadband", "长城宽带"),
    ("great wall", "长城宽带"),
    ("dr.peng", "鹏博士"),
    ("dr peng", "鹏博士"),
    ("cernet", "教育网"),
    ("education network", "教育网"),
    ("cstnet", "中国科技网"),
    ("cnix", "中国国际通信网"),
    ("cloudflare", "Cloudflare"),
    ("amazon", "Amazon AWS"),
    ("google", "Google"),
    ("microsoft", "Microsoft Azure"),
    ("akamai", "Akamai"),
    ("hurricane electric", "Hurricane Electric"),
];

/// The shorter table used on result images.
pub const ISP_SHORT_RULES: [(&'static str, &'static str); 10] = [
    ("chinanet", "中国电信"),
    ("china telecom", "中国电信"),
    ("chinaunicom", "中国联通"),
    ("china unicom", "中国联通"),
    ("china169", "中国联通"),
    ("unicom", "中国联通"),
    ("chinamobile", "中国移动"),
    ("china mobile", "中国移动"),
    ("cmcc", "中国移动"),
    ("cloudflare", "Cloudflare"),
];

/// A carrier name as shown: the name of the first rule whose keyword occurs
/// in the lower-cased name, else the name itself.
pub open spec fn carrier_text(raw: Seq<char>, rules: Seq<(&'static str, &'static str)>) -> Seq<char> {
    if raw.len() == 0 {
        raw
    } else {
        match first_rule(lowercase(raw), rules, 0) {
            Some(t) => t,
            None => raw,
        }
    }
}

fn carrier_with(raw: &str, rules: &[(&'static str, &'static str)]) -> (r: String)
    ensures
        r@ == carrier_text(raw@, rules@),
{
    if raw.is_empty() {
        return string_of(&chars_of(raw));
    }
    let lower = chars_of(to_lowercase(raw).as_str());
    match apply_rules(&lower, rules) {
        Some(t) => string_of(&chars_of(t)),
        None => string_of(&chars_of(raw)),
    }
}

/// The carrier name shown in the footer, in Chinese for the known carriers.
pub fn translate_isp(raw: &str) -> (r: String)
    ensures
        r@ == carrier_text(raw@, ISP_RULES@),
{
    carrier_with(raw, &ISP_RULES)
}

/// The carrier name shown on result images.
pub fn translate_isp_short(raw: &str) -> (r: String)
    ensures
        r@ == carrier_text(raw@, ISP_SHORT_RULES@),
{
    carrier_with(raw, &ISP_SHORT_RULES)
}

/// The value of a `reg query` line for `name`: the line's words, when the
/// first is `name` and there are at least three, from the third on joined by
/// single spaces.
pub open spec fn reg_value(words: Seq<Seq<char>>, name: Seq<char>) -> Option<Seq<char>> {
    if words.len() >= 3 && words[0] == name {
        Some(join_words(words.skip(2)))
    } else {
        None
    }
}

/// Words joined by single spaces.
pub open spec fn join_words(ws: Seq<Seq<char>>) -> Seq<char>
    decreases ws.len(),
{
    if ws.len() == 0 {
        Seq::empty()
    } else if ws.len() == 1 {
        ws[0]
    } else {
        join_words(ws.drop_last()) + seq![' '] + ws.last()
    }
}

/// The lines of a `reg query` output.
pub open spec fn output_lines(text: Seq<char>) -> Seq<Seq<char>> {
    crate::text::split_on(text, '\n').map_values(|l: Seq<char>| strip_cr(l))
}

/// A line without its trailing carriage return.
pub open spec fn strip_cr(l: Seq<char>) -> Seq<char> {
    if l.len() > 0 && l.last() == '\r' {
        l.drop_last()
    } else {
        l
    }
}

/// The value `reg query` printed for `name`: that of the first line that
/// holds it.
pub open spec fn reg_query_value(lines: Seq<Seq<char>>, name: Seq<char>) -> Option<Seq<char>>
    decreases lines.len(),
{
    if lines.len() == 0 {
        None
    } else {
        match reg_query_value(lines.drop_last(), name) {
            Some(v) => Some(v),
            None => reg_value(crate::version::words(lines.last()), name),
        }
    }
}

fn join_words_exec(ws: &[Vec<char>], from: usize) -> (r: Vec<char>)
    requires
        from <= ws@.len(),
    ensures
        r@ == join_words(ws@.skip(from as int).map_values(|w: Vec<char>| w@)),
{
    let mut out: Vec<char> = Vec::new();
    let mut i = from;
    assert(ws@.skip(from as int).take(0).map_values(|w: Vec<char>| w@) =~= Seq::<Seq<char>>::empty());
    while i < ws.len()
        invariant
            from <= i <= ws@.len(),
            out@ == join_words(ws@.subrange(from as int, i as int).map_values(|w: Vec<char>| w@)),
        decreases ws@.len() - i,
    {
        let ghost pre = ws@.subrange(from as int, i as int).map_values(|w: Vec<char>| w@);
        let ghost nxt = ws@.subrange(from as int, i + 1).map_values(|w: Vec<char>| w@);
        assert(nxt.drop_last() =~= pre);
        assert(nxt.last() == ws@[i as int]@);
        if i > from {
            push_char_vec(&mut out, ' ');
        }
        let ghost before = out@;
        let w = &ws[i];
        let mut j: usize = 0;
        while j < w.len()
            invariant
                j <= w@.len(),
                out@ == before + w@.take(j as int),
            decreases w@.len() - j,
        {
            out.push(w[j]);
            j += 1;
            assert(out@ =~= before + w@.take(j as int));
        }
        assert(w@.take(w@.len() as int) =~= w@);
        i += 1;
        if i == from + 1 {
            assert(nxt.len() == 1);
            assert(out@ =~= nxt[0]);
        } else {
            assert(out@ =~= join_words(pre) + seq![' '] + nxt.last());
        }
    }
    assert(ws@.subrange(from as int, ws@.len() as int) =~= ws@.skip(from as int));
    out
}

fn push_char_vec(v: &mut Vec<char>, c: char)
    ensures
        final(v)@ == old(v)@.push(c),
{
    v.push(c);
}

/// Finds the value `reg query` printed for `name` in its output.
pub fn reg_query_lookup(text: &str, name: &str) -> (r: Option<String>)
    ensures
        match reg_query_value(output_lines(text@), name@) {
            Some(v) => r matches Some(s) && s@ == v,
            None => r is None,
        },
{
    let cs = chars_of(text);
    let nm = chars_of(name);
    let pieces = crate::text::split_chars(&cs, '\n');
    let ghost ls = output_lines(text@);
    let mut i: usize = 0;
    while i < pieces.len()
        invariant
            i <= pieces@.len(),
            cs@ == text@,
            nm@ == name@,
            pieces@.len() == crate::text::split_on(cs@, '\n').len(),
            forall|k: int| 0 <= k < pieces@.len() ==> #[trigger] pieces@[k]@ == crate::text::split_on(cs@, '\n')[k],
            ls == output_lines(text@),
            ls.len() == pieces@.len(),
            reg_query_value(ls.take(i as int), name@) is None,
        decreases pieces@.len() - i,
    {
        let p = &pieces[i];
        let line = if p.len() > 0 && p[p.len() - 1] == '\r' {
            slice_chars(p, 0, p.len() - 1)
        } else {
            slice_chars(p, 0, p.len())
        };
        assert(line@ =~= strip_cr(pieces@[i as int]@));
        assert(line@ == ls[i as int]);
        assert(ls.take(i + 1).drop_last() =~= ls.take(i as int));
        let words = crate::version::whitespace_words(&line);
        if words.len() >= 3 && chars_eq(&words[0], &nm) {
            let v = join_words_exec(&words, 2);
            proof {
                let wv = words@.map_values(|w: Vec<char>| w@);
                assert(wv =~= crate::version::words(line@));
                assert(wv.skip(2) =~= words@.skip(2).map_values(|w: Vec<char>| w@));
                assert(wv[0] == words@[0]@);
                assert(reg_value(crate::version::words(ls[i as int]), name@) == Some(v@));
                assert(ls.take(i + 1).last() == ls[i as int]);
                assert(reg_query_value(ls.take(i + 1), name@) == Some(v@));
                lemma_prefix_value(ls, name@, i as int + 1);
            }
            return Some(string_of(&v));
        }
        i += 1;
    }
    assert(ls.take(i as int) =~= ls);
    None
}

proof fn lemma_prefix_value(ls: Seq<Seq<char>>, name: Seq<char>, k: int)
    requires
        0 <= k <= ls.len(),
        reg_query_value(ls.take(k), name) is Some,
    ensures
        reg_query_value(ls, name) == reg_query_value(ls.take(k), name),
    decreases ls.len() - k,
{
    if k < ls.len() {
        assert(ls.take(k + 1).drop_last() =~= ls.take(k));
        lemma_prefix_value(ls, name, k + 1);
    } else {
        assert(ls.take(k) =~= ls);
    }
}

fn chars_eq(a: &[char], b: &[char]) -> (r: bool)
    ensures
        r == (a@ == b@),
{
    if a.len() != b.len() {
        return false;
    }
    let mut i: usize = 0;
    while i < a.len()
        invariant
            i <= a@.len(),
            a@.len() == b@.len(),
            forall|k: int| 0 <= k < i ==> a@[k] == b@[k],
        decreases a@.len() - i,
    {
        if a[i] != b[i] {
            return false;
        }
        i += 1;
    }
    assert(a@ =~= b@);
    true
}

/// `s` ends with `p`.
pub open spec fn ends_with(s: Seq<char>, p: Seq<char>) -> bool {
    s.len() >= p.len() && s.skip(s.len() - p.len()) == p
}

/// Whether the `ProxyEnable` value reads as on.
pub fn proxy_enabled(enable: &str) -> (r: bool)
    ensures
        r == (enable@ == "0x1"@ || ends_with(enable@, "0x1"@)),
{
    let cs = chars_of(enable);
    let p = chars_of("0x1");
    let exact = str_eq(enable, "0x1");
    let tail = cs.len() >= p.len() && crate::text::occurs_at_index(&cs, cs.len() - p.len(), &p);
    assert(tail == ends_with(enable@, "0x1"@)) by {
        if cs@.len() >= p@.len() {
            assert(cs@.skip(cs@.len() - p@.len()) =~= cs@.subrange(cs@.len() - p@.len(), cs@.len() as int));
        }
    }
    exact || tail
}

/// ASCII letters lower-cased, everything else kept (as `to_ascii_lowercase`).
pub open spec fn ascii_lower(s: Seq<char>) -> Seq<char> {
    s.map_values(|c: char| if 'A' <= c <= 'Z' { ((c as u32) + 32) as char } else { c })
}

pub(crate) fn ascii_lower_chars(s: &[char]) -> (r: Vec<char>)
    ensures
        r@ == ascii_lower(s@),
{
    let mut out: Vec<char> = Vec::new();
    let mut i: usize = 0;
    while i < s.len()
        invariant
            i <= s@.len(),
            out@ == ascii_lower(s@.take(i as int)),
        decreases s@.len() - i,
    {
        let c = s[i];
        let d = if 'A' <= c && c <= 'Z' { char_from_ascii((c as u8) + 32) } else { c };
        out.push(d);
        i += 1;
        assert(out@ =~= ascii_lower(s@.take(i as int)));
    }
    assert(s@.take(s@.len() as int) =~= s@);
    out
}

fn char_from_ascii(b: u8) -> (c: char)
    requires
        b < 128,
    ensures
        c as u32 == b as u32,
{
    b as char
}

/// The first `scheme=address` segment of a `;`-separated proxy list whose
/// scheme (trimmed, ASCII lower-cased) is `http`, `https` or `all`: its
/// trimmed address.
pub open spec fn first_proxy_segment(segs: Seq<Seq<char>>) -> Option<Seq<char>>
    decreases segs.len(),
{
    if segs.len() == 0 {
        None
    } else {
        let seg = segs[0];
        match crate::sub::find_char(seg, '=') {
            Some(e) => {
                let scheme = ascii_lower(trim(seg.take(e)));
                if scheme == "http"@ || scheme == "https"@ || scheme == "all"@ {
                    Some(trim(seg.skip(e + 1)))
                } else {
                    first_proxy_segment(segs.skip(1))
                }
            },
            None => first_proxy_segment(segs.skip(1)),
        }
    }
}

/// The proxy `host:port` named by a `ProxyServer` value: the value itself
/// (trimmed), or for a per-scheme list the first HTTP(S) or catch-all
/// address; nothing when that is empty.
pub open spec fn proxy_host_port(server: Seq<char>) -> Option<Seq<char>> {
    let hp = if contains_seq(server, seq!['=']) {
        first_proxy_segment(crate::text::split_on(server, ';'))
    } else {
        Some(trim(server))
    };
    match hp {
        Some(h) => if h.len() > 0 {
            Some(h)
        } else {
            None
        },
        None => None,
    }
}

/// The proxy address an HTTP client takes: `http://` added unless the
/// address has a scheme.
pub open spec fn proxy_url_text(hp: Seq<char>) -> Seq<char> {
    if crate::engine::starts_with(hp, "http://"@) || crate::engine::starts_with(hp, "https://"@) {
        hp
    } else {
        "http://"@ + hp
    }
}

fn proxy_segment_pick(segs: &Vec<Vec<char>>, from: usize) -> (r: Option<Vec<char>>)
    requires
        from <= segs@.len(),
    ensures
        match first_proxy_segment(segs@.skip(from as int).map_values(|v: Vec<char>| v@)) {
            Some(h) => r matches Some(x) && x@ == h,
            None => r is None,
        },
    decreases segs@.len() - from,
{
    let ghost ss = segs@.skip(from as int).map_values(|v: Vec<char>| v@);
    if from == segs.len() {
        assert(ss.len() == 0);
        return None;
    }
    assert(ss[0] == segs@[from as int]@);
    assert(ss.skip(1) =~= segs@.skip(from + 1).map_values(|v: Vec<char>| v@));
    let seg = &segs[from];
    proof {
        crate::text::lemma_find_first(seg@, seq!['=']);
    }
    let eq = ['='];
    assert(eq@ =~= seq!['=']);
    match crate::text::find_seq(seg, &eq) {
        Some(e) => {
            assert(crate::text::occurs_at(seg@, seq!['='], e as int));
            assert(e + 1 <= seg@.len());
            let sl = seg.len();
            assert(e + 1 <= sl);
            let head = slice_chars(seg, 0, e);
            let scheme = ascii_lower_chars(&trim_chars(&head));
            assert(head@ =~= seg@.take(e as int));
            let ss2 = string_of(&scheme);
            if str_eq(ss2.as_str(), "http") || str_eq(ss2.as_str(), "https") || str_eq(ss2.as_str(), "all") {
                let tail = slice_chars(seg, e + 1, seg.len());
                assert(tail@ =~= seg@.skip(e + 1));
                Some(trim_chars(&tail))
            } else {
                proxy_segment_pick(segs, from + 1)
            }
        },
        None => proxy_segment_pick(segs, from + 1),
    }
}

/// Reads the proxy `host:port` from a `ProxyServer` value.
pub fn proxy_host_port_of(server: &str) -> (r: Option<String>)
    ensures
        match proxy_host_port(server@) {
            Some(h) => r matches Some(x) && x@ == h,
            None => r is None,
        },
{
    let cs = chars_of(server);
    let eq = ['='];
    assert(eq@ =~= seq!['=']);
    let hp = if contains_chars(&cs, &eq) {
        let segs = crate::text::split_chars(&cs, ';');
        assert(segs@.skip(0).map_values(|v: Vec<char>| v@) =~= crate::text::split_on(cs@, ';'));
        proxy_segment_pick(&segs, 0)
    } else {
        Some(trim_chars(&cs))
    };
    match hp {
        Some(h) => if h.len() > 0 {
            Some(string_of(&h))
        } else {
            None
        },
        None => None,
    }
}

/// The proxy address for a `host:port`.
pub fn proxy_url(host_port: &str) -> (r: String)
    ensures
        r@ == proxy_url_text(host_port@),
{
    let cs = chars_of(host_port);
    let a = chars_of("http://");
    let b = chars_of("https://");
    let sa = crate::text::occurs_at_index(&cs, 0, &a);
    let sb = crate::text::occurs_at_index(&cs, 0, &b);
    assert(sa == crate::engine::starts_with(host_port@, "http://"@)) by {
        assert(cs@.take(a@.len() as int) =~= cs@.subrange(0, a@.len() as int));
    }
    assert(sb == crate::engine::starts_with(host_port@, "https://"@)) by {
        assert(cs@.take(b@.len() as int) =~= cs@.subrange(0, b@.len() as int));
    }
    if sa || sb {
        string_of(&cs)
    } else {
        let mut u = string_of(&a);
        push_str_chars(&mut u, &cs);
        u
    }
}

/// The bypass entries of a `;`-separated `ProxyOverride`: trimmed, without
/// empty ones and `<local>`, in order.
pub open spec fn override_entries(segs: Seq<Seq<char>>) -> Seq<Seq<char>>
    decreases segs.len(),
{
    if segs.len() == 0 {
        Seq::empty()
    } else {
        let prev = override_entries(segs.drop_last());
        let t = trim(segs.last());
        if t.len() > 0 && t != "<local>"@ {
            prev.push(t)
        } else {
            prev
        }
    }
}

/// The loop-back hosts that must bypass the proxy.
pub open spec fn loopback_hosts() -> Seq<Seq<char>> {
    seq!["127.0.0.1"@, "localhost"@, "::1"@]
}

/// `list` with each loop-back host appended, in order, unless present.
pub open spec fn with_loopback(list: Seq<Seq<char>>, k: int) -> Seq<Seq<char>>
    decreases k,
{
    if k <= 0 {
        list
    } else {
        let prev = with_loopback(list, k - 1);
        if prev.contains(loopback_hosts()[k - 1]) {
            prev
        } else {
            prev.push(loopback_hosts()[k - 1])
        }
    }
}

/// Items joined by `,`.
pub open spec fn join_commas(ws: Seq<Seq<char>>) -> Seq<char>
    decreases ws.len(),
{
    if ws.len() == 0 {
        Seq::empty()
    } else if ws.len() == 1 {
        ws[0]
    } else {
        join_commas(ws.drop_last()) + seq![','] + ws.last()
    }
}

/// The `NO_PROXY` value for a `ProxyOverride`: its entries, then the
/// loop-back hosts it lacks, joined by commas.
pub open spec fn no_proxy_text(overrides: Seq<char>) -> Seq<char> {
    join_commas(with_loopback(override_entries(crate::text::split_on(overrides, ';')), 3))
}

fn contains_entry(list: &Vec<Vec<char>>, e: &Vec<char>) -> (r: bool)
    ensures
        r == list@.map_values(|v: Vec<char>| v@).contains(e@),
{
    let ghost lv = list@.map_values(|v: Vec<char>| v@);
    let mut i: usize = 0;
    while i < list.len()
        invariant
            i <= list@.len(),
            lv == list@.map_values(|v: Vec<char>| v@),
            forall|k: int| 0 <= k < i ==> lv[k] != e@,
        decreases list@.len() - i,
    {
        if chars_eq(&list[i], e) {
            assert(lv[i as int] == e@);
            return true;
        }
        i += 1;
    }
    false
}

/// Builds the `NO_PROXY` value from a `ProxyOverride` value.
pub fn no_proxy_list(overrides: &str) -> (r: String)
    ensures
        r@ == no_proxy_text(overrides@),
{
    let cs = chars_of(overrides);
    let segs = crate::text::split_chars(&cs, ';');
    let ghost sv = crate::text::split_on(cs@, ';');
    let mut list: Vec<Vec<char>> = Vec::new();
    let local = chars_of("<local>");
    let mut i: usize = 0;
    while i < segs.len()
        invariant
            i <= segs@.len(),
            segs@.len() == sv.len(),
            sv == crate::text::split_on(cs@, ';'),
            local@ == "<local>"@,
            forall|k: int| 0 <= k < segs@.len() ==> #[trigger] segs@[k]@ == sv[k],
            list@.map_values(|v: Vec<char>| v@) == override_entries(sv.take(i as int)),
        decreases segs@.len() - i,
    {
        assert(sv.take(i + 1).drop_last() =~= sv.take(i as int));
        assert(sv.take(i + 1).last() == segs@[i as int]@);
        let t = trim_chars(&segs[i]);
        if t.len() > 0 && !chars_eq(&t, &local) {
            let ghost before = list@;
            list.push(t);
            assert(list@.map_values(|v: Vec<char>| v@) =~= before.map_values(|v: Vec<char>| v@).push(list@.last()@));
        }
        i += 1;
    }
    assert(sv.take(segs@.len() as int) =~= sv);
    let hosts = [chars_of("127.0.0.1"), chars_of("localhost"), chars_of("::1")];
    let ghost base = list@.map_values(|v: Vec<char>| v@);
    let mut k: usize = 0;
    while k < 3
        invariant
            k <= 3,
            hosts@.len() == 3,
            forall|j: int| 0 <= j < 3 ==> #[trigger] hosts@[j]@ == loopback_hosts()[j],
            list@.map_values(|v: Vec<char>| v@) == with_loopback(base, k as int),
        decreases 3 - k,
    {
        let h = &hosts[k];
        if !contains_entry(&list, h) {
            let ghost before = list@;
            list.push(slice_chars(h, 0, h.len()));
            assert(list@.map_values(|v: Vec<char>| v@) =~= before.map_values(|v: Vec<char>| v@).push(h@)) by {
                assert(h@.subrange(0, h@.len() as int) =~= h@);
            }
        }
        k += 1;
    }
    let mut out: Vec<char> = Vec::new();
    let ghost lv = list@.map_values(|v: Vec<char>| v@);
    let mut j: usize = 0;
    while j < list.len()
        invariant
            j <= list@.len(),
            lv == list@.map_values(|v: Vec<char>| v@),
            out@ == join_commas(lv.take(j as int)),
        decreases list@.len() - j,
    {
        assert(lv.take(j + 1).drop_last() =~= lv.take(j as int));
        if j > 0 {
            out.push(',');
        }
        let ghost before = out@;
        let w = &list[j];
        let mut t: usize = 0;
        while t < w.len()
            invariant
                t <= w@.len(),
                out@ == before + w@.take(t as int),
            decreases w@.len() - t,
        {
            out.push(w[t]);
            t += 1;
            assert(out@ =~= before + w@.take(t as int));
        }
        assert(w@.take(w@.len() as int) =~= w@);
        assert(lv.take(j + 1).last() == w@);
        j += 1;
        if j == 1 {
            assert(out@ =~= lv.take(1)[0]);
        } else {
            assert(out@ =~= join_commas(lv.take(j - 1)) + seq![','] + lv.take(j as int).last());
        }
    }
    assert(lv.take(list@.len() as int) =~= lv);
    string_of(&out)
}

/// Log file `i` is listed before log file `j` (positions in the directory
/// listing): newer first, ties in listing order.
pub open spec fn log_before(modified: Seq<i64>, i: int, j: int) -> bool {
    modified[i] > modified[j] || (modified[i] == modified[j] && i < j)
}

/// `order` lists each of `0..n` once, in the order `before` gives.
pub open spec fn is_listing(order: Seq<usize>, n: int, before: spec_fn(int, int) -> bool) -> bool {
    &&& order.len() == n
    &&& forall|k: int| 0 <= k < n ==> #[trigger] order[k] < n
    &&& forall|k: int, l: int| 0 <= k < l < n ==> before(order[k] as int, order[l] as int)
}

/// Orders positions by a strict total order given as `before`: selection of
/// the first remaining position each time.
fn order_positions(n: usize, modified: &Vec<i64>) -> (r: Vec<usize>)
    requires
        modified@.len() == n,
    ensures
        is_listing(r@, n as int, |i: int, j: int| log_before(modified@, i, j)),
{
    let ghost bf = |i: int, j: int| log_before(modified@, i, j);
    let mut taken: Vec<bool> = Vec::new();
    let mut t: usize = 0;
    while t < n
        invariant
            t <= n,
            taken@.len() == t,
            forall|k: int| 0 <= k < t ==> !taken@[k],
        decreases n - t,
    {
        taken.push(false);
        t += 1;
    }
    let mut out: Vec<usize> = Vec::new();
    while out.len() < n
        invariant
            out@.len() <= n,
            taken@.len() == n,
            modified@.len() == n,
            bf == (|i: int, j: int| log_before(modified@, i, j)),
            forall|k: int| 0 <= k < out@.len() ==> #[trigger] out@[k] < n && taken@[out@[k] as int],
            forall|k: int, l: int| 0 <= k < l < out@.len() ==> bf(out@[k] as int, out@[l] as int),
            forall|k: int, x: int| 0 <= k < out@.len() && 0 <= x < n && !taken@[x] ==> bf(out@[k] as int, x),
            forall|x: int| 0 <= x < n && taken@[x] ==> exists|k: int| 0 <= k < out@.len() && out@[k] == x,
        decreases n - out@.len(),
    {
        let mut best: usize = n;
        let mut i: usize = 0;
        while i < n
            invariant
                i <= n,
                taken@.len() == n,
                    modified@.len() == n,
                best == n || (best < i && !taken@[best as int]),
                best < n ==> forall|x: int| 0 <= x < i && !taken@[x] && x != best ==> log_before(modified@, best as int, x),
                best == n ==> forall|x: int| 0 <= x < i ==> taken@[x],
            decreases n - i,
        {
            if !taken[i] {
                if best == n {
                    best = i;
                } else {
                    let better = modified[i] > modified[best];
                    if better {
                        best = i;
                    }
                }
            }
            i += 1;
        }
        if best == n {
            assert forall|x: int| 0 <= x < n implies taken@[x] by {}
            proof {
                lemma_all_taken_count(out@, taken@, n as int);
            }
            assert(false);
        }
        let ghost before_out = out@;
        let ghost before_taken = taken@;
        out.push(best);
        taken.set(best, true);
        assert forall|x: int| 0 <= x < n && taken@[x] implies exists|k: int| 0 <= k < out@.len() && out@[k] == x by {
            if x == best {
                assert(out@[out@.len() - 1] == x);
            } else {
                assert(before_taken[x]);
                let k = choose|k: int| 0 <= k < before_out.len() && before_out[k] == x;
                assert(out@[k] == x);
            }
        }
    }
    out
}

proof fn lemma_all_taken_count(out: Seq<usize>, taken: Seq<bool>, n: int)
    requires
        0 <= n,
        taken.len() == n,
        forall|x: int| 0 <= x < n ==> taken[x],
        forall|x: int| 0 <= x < n && taken[x] ==> exists|k: int| 0 <= k < out.len() && out[k] == x,
        forall|k: int| 0 <= k < out.len() ==> out[k] < n,
    ensures
        out.len() >= n,
{
    let f = |x: int| choose|k: int| 0 <= k < out.len() && out[k] == x;
    let s = Set::new(|x: int| 0 <= x < n);
    let t = Set::new(|k: int| 0 <= k < out.len());
    assert forall|x: int| s.contains(x) implies t.contains(f(x)) by {
        assert(taken[x]);
        assert(exists|k: int| 0 <= k < out.len() && out[k] == x);
    }
    assert forall|x: int, y: int| s.contains(x) && s.contains(y) && f(x) == f(y) implies x == y by {
        assert(taken[x]);
        assert(taken[y]);
        assert(exists|k: int| 0 <= k < out.len() && out[k] == x);
        assert(exists|k: int| 0 <= k < out.len() && out[k] == y);
        assert(out[f(x)] == x);
        assert(out[f(y)] == y);
    }
    vstd::set_lib::lemma_int_range(0, n);
    vstd::set_lib::lemma_int_range(0, out.len() as int);
    assert(s =~= vstd::set_lib::set_int_range(0, n));
    assert(t =~= vstd::set_lib::set_int_range(0, out.len() as int));
    let m = s.map(f);
    assert(vstd::relations::injective_on(f, s));
    vstd::set_lib::lemma_map_size(s, m, f);
    assert(m.subset_of(t)) by {
        assert forall|y: int| m.contains(y) implies t.contains(y) by {
            let x = choose|x: int| s.contains(x) && f(x) == y;
        }
    }
    vstd::set_lib::lemma_len_subset(m, t);
}

/// The order in which log files are listed, as positions in the directory
/// listing: newest first, ties in listing order.
pub fn log_listing_order(names: &[String], modified: &[i64]) -> (r: Vec<usize>)
    requires
        names@.len() == modified@.len(),
    ensures
        is_listing(r@, names@.len() as int, |i: int, j: int| log_before(modified@, i, j)),
{
    let mut mods: Vec<i64> = Vec::new();
    let mut i: usize = 0;
    while i < modified.len()
        invariant
            i <= modified@.len(),
            mods@ == modified@.take(i as int),
        decreases modified@.len() - i,
    {
        mods.push(modified[i]);
        i += 1;
        assert(mods@ =~= modified@.take(i as int));
    }
    assert(modified@.take(i as int) =~= modified@);
    order_positions(modified.len(), &mods)
}

/// The first byte shown of a log of `len` bytes with a cap of `max_kb`
/// kilobytes (512 when none is given): the last `cap` bytes, at most all of
/// them.
pub open spec fn log_tail_start(len: int, max_kb: Option<u64>) -> int {
    let cap: int = match max_kb {
        Some(k) => k * 1024,
        None => 524288,
    };
    if len > cap {
        len - cap
    } else {
        0
    }
}

/// Where the shown tail of a log starts.
pub fn log_tail_from(len: usize, max_kb: Option<u64>) -> (r: usize)
    requires
        max_kb matches Some(k) ==> k * 1024 <= u64::MAX,
    ensures
        r == log_tail_start(len as int, max_kb),
{
    let cap: u64 = match max_kb {
        Some(k) => k * 1024,
        None => 512 * 1024,
    };
    if len as u64 > cap {
        len - cap as usize
    } else {
        0
    }
}

/// Whether `list` holds `e`.
pub fn contains_entry_pub(list: &Vec<Vec<char>>, e: &Vec<char>) -> (r: bool)
    ensures
        r == list@.map_values(|v: Vec<char>| v@).contains(e@),
{
    contains_entry(list, e)
}

/// Words joined by single spaces.
pub fn join_words_pub(ws: &Vec<Vec<char>>) -> (r: Vec<char>)
    ensures
        r@ == join_words(ws@.map_values(|w: Vec<char>| w@)),
{
    let r = join_words_exec(ws, 0);
    assert(ws@.skip(0) =~= ws@);
    r
}

/// The log listing is newest first, ties in directory order, and names
/// every file once.
pub proof fn law_logs_newest_first(order: Seq<usize>, modified: Seq<i64>)
    requires
        is_listing(order, modified.len() as int, |i: int, j: int| log_before(modified, i, j)),
    ensures
        forall|k: int, l: int| 0 <= k < l < order.len() ==> modified[#[trigger] order[k] as int] >= modified[#[trigger] order[l] as int],
        forall|k: int, l: int| 0 <= k < l < order.len() && modified[#[trigger] order[k] as int] == modified[#[trigger] order[l] as int]
            ==> order[k] < order[l],
        forall|k: int, l: int| 0 <= k < l < order.len() ==> #[trigger] order[k] != #[trigger] order[l],
{
    assert forall|k: int, l: int| 0 <= k < l < order.len() implies modified[#[trigger] order[k] as int] >= modified[#[trigger] order[l] as int] by {
        assert(log_before(modified, order[k] as int, order[l] as int));
    }
    assert forall|k: int, l: int| 0 <= k < l < order.len() && modified[#[trigger] order[k] as int] == modified[#[trigger] order[l] as int]
        implies order[k] < order[l] by {
        assert(log_before(modified, order[k] as int, order[l] as int));
    }
    assert forall|k: int, l: int| 0 <= k < l < order.len() implies #[trigger] order[k] != #[trigger] order[l] by {
        assert(log_before(modified, order[k] as int, order[l] as int));
    }
}

/// The shown tail of a log is its last `cap` bytes (512 KB when no cap is
/// given), or all of it when it is shorter.
pub proof fn law_log_tail_is_capped(len: nat, max_kb: Option<u64>)
    ensures
        0 <= log_tail_start(len as int, max_kb) <= len,
        len - log_tail_start(len as int, max_kb) == ({
            let cap: int = match max_kb {
                Some(k) => k * 1024,
                None => 524288int,
            };
            if len < cap { len as int } else { cap }
        }),
{
}

} // verus!
