//! Version strings: comparing release tags, reading the version that
//! `mihomo -v` prints, and naming the release asset for a platform.

use vstd::prelude::*;

use crate::text::{str_eq, chars_of, dec_value, is_ascii_digit, is_white_space, is_whitespace_char, string_of};

verus! {

/// The maximal runs of characters satisfying `p`, in order.
pub open spec fn runs_of(s: Seq<char>, p: spec_fn(char) -> bool) -> Seq<Seq<char>>
    decreases s.len(),
{
    if s.len() == 0 {
        Seq::empty()
    } else {
        let g = runs_of(s.drop_last(), p);
        if !p(s.last()) {
            g
        } else if s.len() >= 2 && p(s[s.len() - 2]) {
            g.update(g.len() - 1, g.last().push(s.last()))
        } else {
            g.push(seq![s.last()])
        }
    }
}

/// The runs of ASCII digits of `s`.
pub open spec fn digit_runs(s: Seq<char>) -> Seq<Seq<char>> {
    runs_of(s, |c: char| is_ascii_digit(c))
}

/// The white-space separated words of `s` (as `str::split_whitespace`).
pub open spec fn words(s: Seq<char>) -> Seq<Seq<char>> {
    runs_of(s, |c: char| !is_white_space(c))
}

/// `s` without its leading `v` characters (as `trim_start_matches('v')`).
pub open spec fn strip_v(s: Seq<char>) -> Seq<char>
    decreases s.len(),
{
    if s.len() > 0 && s[0] == 'v' {
        strip_v(s.drop_first())
    } else {
        s
    }
}

/// The values of the groups that fit in a `u32` (larger ones fail to parse
/// and are skipped).
pub open spec fn fitting_values(gs: Seq<Seq<char>>) -> Seq<u32>
    decreases gs.len(),
{
    if gs.len() == 0 {
        Seq::empty()
    } else {
        let p = fitting_values(gs.drop_last());
        if dec_value(gs.last()) <= u32::MAX {
            p.push(dec_value(gs.last()) as u32)
        } else {
            p
        }
    }
}

/// The numeric components of a version string: leading `v`s dropped, then the
/// runs of digits that fit in a `u32`.
pub open spec fn version_numbers(s: Seq<char>) -> Seq<u32> {
    fitting_values(digit_runs(strip_v(s)))
}

/// Component `i`, or zero past the end.
pub open spec fn component(v: Seq<u32>, i: int) -> int {
    if 0 <= i < v.len() {
        v[i] as int
    } else {
        0
    }
}

/// Compares component lists from index `i`, missing components counting as 0.
pub open spec fn order_from(a: Seq<u32>, b: Seq<u32>, i: int) -> int
    decreases (if a.len() > b.len() { a.len() as int } else { b.len() as int }) - i,
{
    if i < 0 || (i >= a.len() && i >= b.len()) {
        0
    } else if component(a, i) > component(b, i) {
        1
    } else if component(a, i) < component(b, i) {
        -1
    } else {
        order_from(a, b, i + 1)
    }
}

/// `1`, `-1` or `0` as version `a` is newer than, older than or equal to `b`.
pub open spec fn spec_compare_version(a: Seq<char>, b: Seq<char>) -> int {
    order_from(version_numbers(a), version_numbers(b), 0)
}

fn strip_v_start(s: &[char]) -> (r: usize)
    ensures
        r <= s@.len(),
        strip_v(s@) == s@.skip(r as int),
{
    let mut i: usize = 0;
    assert(s@.skip(0) =~= s@);
    while i < s.len() && s[i] == 'v'
        invariant
            i <= s@.len(),
            strip_v(s@) == strip_v(s@.skip(i as int)),
        decreases s@.len() - i,
    {
        assert(s@.skip(i as int).drop_first() =~= s@.skip(i + 1));
        i += 1;
    }
    assert(!(s@.skip(i as int).len() > 0 && s@.skip(i as int)[0] == 'v'));
    i
}

proof fn lemma_runs_nonempty_last(s: Seq<char>, p: spec_fn(char) -> bool)
    requires
        s.len() > 0,
        p(s.last()),
    ensures
        runs_of(s, p).len() > 0,
        runs_of(s, p).last().len() > 0,
        runs_of(s, p).last().last() == s.last(),
    decreases s.len(),
{
    if s.len() >= 2 && p(s[s.len() - 2]) {
        assert(s.drop_last().last() == s[s.len() - 2]);
        lemma_runs_nonempty_last(s.drop_last(), p);
    }
}

proof fn lemma_dec_monotone(g: Seq<char>, c: char)
    requires
        is_ascii_digit(c),
    ensures
        dec_value(g.push(c)) >= dec_value(g),
        dec_value(g.push(c)) == dec_value(g) * 10 + (c as int - '0' as int),
{
    assert(g.push(c).drop_last() =~= g);
}

/// The numeric components of a version string.
pub fn version_numbers_of(s: &str) -> (r: Vec<u32>)
    ensures
        r@ == version_numbers(s@),
{
    let cs = chars_of(s);
    let start = strip_v_start(&cs);
    let ghost t = cs@.skip(start as int);
    let mut out: Vec<u32> = Vec::new();
    let mut cur: u64 = 0;
    let mut over = false;
    let mut in_run = false;
    let mut i = start;
    let ghost pd = |c: char| is_ascii_digit(c);
    while i < cs.len()
        invariant
            start <= i <= cs@.len(),
            t == cs@.skip(start as int),
            pd == (|c: char| is_ascii_digit(c)),
            in_run == (i > start && is_ascii_digit(cs@[i - 1])),
            in_run ==> (over <==> dec_value(runs_of(t.take(i - start), pd).last()) > u32::MAX),
            in_run && !over ==> cur == dec_value(runs_of(t.take(i - start), pd).last()),
            in_run ==> out@ == fitting_values(runs_of(t.take(i - start), pd).drop_last()),
            !in_run ==> out@ == fitting_values(runs_of(t.take(i - start), pd)),
        decreases cs@.len() - i,
    {
        let c = cs[i];
        let ghost pre = t.take(i - start);
        let ghost nxt = t.take(i + 1 - start);
        assert(nxt.drop_last() =~= pre);
        assert(nxt.last() == c);
        if '0' <= c && c <= '9' {
            let d = (c as u32 - 48) as u64;
            if in_run {
                assert(nxt.len() >= 2 && nxt[nxt.len() - 2] == cs@[i - 1]);
                proof {
                    lemma_runs_nonempty_last(pre, pd);
                    lemma_dec_monotone(runs_of(pre, pd).last(), c);
                    assert(runs_of(nxt, pd) == runs_of(pre, pd).update(
                        runs_of(pre, pd).len() - 1,
                        runs_of(pre, pd).last().push(c),
                    ));
                    assert(runs_of(nxt, pd).last() == runs_of(pre, pd).last().push(c));
                    assert(runs_of(nxt, pd).drop_last() =~= runs_of(pre, pd).drop_last());
                }
                if !over {
                    cur = cur * 10 + d;
                    if cur > 0xffff_ffff {
                        over = true;
                    }
                }
            } else {
                proof {
                    if nxt.len() >= 2 {
                        assert(nxt[nxt.len() - 2] == cs@[i - 1]);
                    }
                    assert(runs_of(nxt, pd) == runs_of(pre, pd).push(seq![c]));
                    assert(runs_of(nxt, pd).drop_last() =~= runs_of(pre, pd));
                    assert(seq![c].drop_last() =~= Seq::<char>::empty());
                    lemma_dec_monotone(Seq::<char>::empty(), c);
                    assert(Seq::<char>::empty().push(c) =~= seq![c]);
                    assert(dec_value(Seq::<char>::empty()) == 0);
                }
                cur = d;
                over = false;
                in_run = true;
            }
        } else {
            if in_run {
                proof {
                    lemma_runs_nonempty_last(pre, pd);
                    assert(runs_of(pre, pd) =~= runs_of(pre, pd).drop_last().push(runs_of(pre, pd).last()));
                }
                if !over {
                    out.push(cur as u32);
                }
            }
            in_run = false;
        }
        i += 1;
    }
    assert(t.take(i - start) =~= t);
    if in_run {
        proof {
            lemma_runs_nonempty_last(t, pd);
            assert(runs_of(t, pd) =~= runs_of(t, pd).drop_last().push(runs_of(t, pd).last()));
        }
        if !over {
            out.push(cur as u32);
        }
    }
    out
}

/// Compares two version strings component by component.
pub fn compare_version(a: &str, b: &str) -> (r: i32)
    ensures
        r as int == spec_compare_version(a@, b@),
{
    let va = version_numbers_of(a);
    let vb = version_numbers_of(b);
    let n = if va.len() > vb.len() { va.len() } else { vb.len() };
    let mut i: usize = 0;
    while i < n
        invariant
            va@ == version_numbers(a@),
            vb@ == version_numbers(b@),
            n == if va@.len() > vb@.len() { va@.len() } else { vb@.len() },
            i <= n,
            order_from(va@, vb@, 0) == order_from(va@, vb@, i as int),
        decreases n - i,
    {
        let x: u32 = if i < va.len() { va[i] } else { 0 };
        let y: u32 = if i < vb.len() { vb[i] } else { 0 };
        if x > y {
            return 1;
        }
        if x < y {
            return -1;
        }
        i += 1;
    }
    0
}

proof fn lemma_order_antisym(a: Seq<u32>, b: Seq<u32>, i: int)
    ensures
        order_from(a, b, i) == -order_from(b, a, i),
    decreases (if a.len() > b.len() { a.len() as int } else { b.len() as int }) - i,
{
    if !(i < 0 || (i >= a.len() && i >= b.len())) && component(a, i) == component(b, i) {
        lemma_order_antisym(a, b, i + 1);
    }
}

proof fn lemma_order_refl(a: Seq<u32>, i: int)
    ensures
        order_from(a, a, i) == 0,
    decreases a.len() - i,
{
    if !(i < 0 || i >= a.len()) {
        lemma_order_refl(a, i + 1);
    }
}

proof fn lemma_order_trans(a: Seq<u32>, b: Seq<u32>, c: Seq<u32>, i: int)
    requires
        0 <= i,
        order_from(a, b, i) == 1,
        order_from(b, c, i) == 1,
    ensures
        order_from(a, c, i) == 1,
    decreases (if a.len() > b.len() { if a.len() > c.len() { a.len() as int } else { c.len() as int } } else {
        if b.len() > c.len() { b.len() as int } else { c.len() as int }
    }) - i,
{
    if component(a, i) == component(b, i) && component(b, i) == component(c, i) {
        lemma_order_trans(a, b, c, i + 1);
    }
}

/// Swapping the arguments of `compare_version` negates the answer.
pub proof fn law_compare_version_antisymmetric(a: Seq<char>, b: Seq<char>)
    ensures
        spec_compare_version(a, b) == -spec_compare_version(b, a),
{
    lemma_order_antisym(version_numbers(a), version_numbers(b), 0);
}

/// Every version compares equal to itself.
pub proof fn law_compare_version_reflexive(a: Seq<char>)
    ensures
        spec_compare_version(a, a) == 0,
{
    lemma_order_refl(version_numbers(a), 0);
}

/// "Newer than" is transitive.
pub proof fn law_compare_version_transitive(a: Seq<char>, b: Seq<char>, c: Seq<char>)
    requires
        spec_compare_version(a, b) == 1,
        spec_compare_version(b, c) == 1,
    ensures
        spec_compare_version(a, c) == 1,
{
    lemma_order_trans(version_numbers(a), version_numbers(b), version_numbers(c), 0);
}

/// The result is always -1, 0 or 1.
pub proof fn law_compare_version_sign(a: Seq<char>, b: Seq<char>)
    ensures
        -1 <= spec_compare_version(a, b) <= 1,
{
    lemma_order_range(version_numbers(a), version_numbers(b), 0);
}

proof fn lemma_order_range(a: Seq<u32>, b: Seq<u32>, i: int)
    ensures
        -1 <= order_from(a, b, i) <= 1,
    decreases (if a.len() > b.len() { a.len() as int } else { b.len() as int }) - i,
{
    if !(i < 0 || (i >= a.len() && i >= b.len())) && component(a, i) == component(b, i) {
        lemma_order_range(a, b, i + 1);
    }
}

/// A newer release is available when both versions are known and the latest
/// tag compares newer than the local version.
pub fn update_available(latest: &str, local: &str) -> (r: bool)
    ensures
        r == (latest@.len() > 0 && local@.len() > 0 && spec_compare_version(latest@, local@) > 0),
{
    !latest.is_empty() && !local.is_empty() && compare_version(latest, local) > 0
}

/// The white-space separated words of `s`.
pub fn whitespace_words(s: &[char]) -> (r: Vec<Vec<char>>)
    ensures
        r@.len() == words(s@).len(),
        forall|i: int| 0 <= i < r@.len() ==> #[trigger] r@[i]@ == words(s@)[i],
{
    let ghost pw = |c: char| !is_white_space(c);
    let mut out: Vec<Vec<char>> = Vec::new();
    let mut cur: Vec<char> = Vec::new();
    let mut in_word = false;
    let mut i: usize = 0;
    while i < s.len()
        invariant
            i <= s@.len(),
            pw == (|c: char| !is_white_space(c)),
            in_word == (i > 0 && !is_white_space(s@[i - 1])),
            in_word ==> out@.len() + 1 == runs_of(s@.take(i as int), pw).len(),
            in_word ==> cur@ == runs_of(s@.take(i as int), pw).last(),
            !in_word ==> out@.len() == runs_of(s@.take(i as int), pw).len(),
            forall|j: int| 0 <= j < out@.len() ==> #[trigger] out@[j]@ == runs_of(s@.take(i as int), pw)[j],
        decreases s@.len() - i,
    {
        let c = s[i];
        let ghost pre = s@.take(i as int);
        let ghost nxt = s@.take(i + 1);
        assert(nxt.drop_last() =~= pre);
        assert(nxt.last() == c);
        if !is_whitespace_char(c) {
            if in_word {
                assert(nxt[nxt.len() - 2] == s@[i - 1]);
                proof {
                    lemma_runs_nonempty_last(pre, pw);
                }
                assert(runs_of(nxt, pw) == runs_of(pre, pw).update(
                    runs_of(pre, pw).len() - 1,
                    runs_of(pre, pw).last().push(c),
                ));
                cur.push(c);
            } else {
                proof {
                    if nxt.len() >= 2 {
                        assert(nxt[nxt.len() - 2] == s@[i - 1]);
                    }
                }
                assert(runs_of(nxt, pw) == runs_of(pre, pw).push(seq![c]));
                cur = Vec::new();
                cur.push(c);
                assert(cur@ =~= seq![c]);
                in_word = true;
            }
        } else {
            if in_word {
                proof {
                    lemma_runs_nonempty_last(pre, pw);
                }
                out.push(cur);
                cur = Vec::new();
            }
            in_word = false;
        }
        i += 1;
    }
    assert(s@.take(i as int) =~= s@);
    if in_word {
        out.push(cur);
    }
    out
}

/// Characters a version tag is made of.
pub open spec fn is_version_char(c: char) -> bool {
    ('0' <= c <= '9') || ('a' <= c <= 'z') || ('A' <= c <= 'Z') || c == '.' || c == '-'
}

/// The longest prefix of `s` made of version characters.
pub open spec fn version_prefix_len(s: Seq<char>) -> nat
    decreases s.len(),
{
    if s.len() > 0 && is_version_char(s[0]) {
        1 + version_prefix_len(s.drop_first())
    } else {
        0
    }
}

/// A word that looks like a version: `v`, at least four bytes, a digit after
/// the `v` and a dot somewhere after it.
pub open spec fn looks_like_version(w: Seq<char>) -> bool {
    &&& w.len() > 0 && w[0] == 'v'
    &&& vstd::utf8::encode_utf8(w).len() >= 4
    &&& w.len() > 1 && is_ascii_digit(w[1])
    &&& crate::text::contains_seq(w.skip(1), seq!['.'])
}

/// The version in the first word, from index `i` on, that looks like a
/// version and whose version-character prefix is at least four long.
pub open spec fn first_version_from(ws: Seq<Seq<char>>, i: int) -> Seq<char>
    decreases ws.len() - i,
{
    if i < 0 || i >= ws.len() {
        Seq::empty()
    } else if looks_like_version(ws[i]) && version_prefix_len(ws[i]) >= 4 {
        ws[i].take(version_prefix_len(ws[i]) as int)
    } else {
        first_version_from(ws, i + 1)
    }
}

/// The version printed by `mihomo -v` (for instance `v1.19.29` out of
/// `Mihomo Meta v1.19.29 windows amd64 ...`); empty when there is none.
pub open spec fn cli_version(s: Seq<char>) -> Seq<char> {
    first_version_from(words(s), 0)
}

fn version_prefix(w: &Vec<char>) -> (r: usize)
    ensures
        r == version_prefix_len(w@),
        r <= w@.len(),
{
    let mut i: usize = 0;
    assert(w@.skip(0) =~= w@);
    while i < w.len() && (('0' <= w[i] && w[i] <= '9') || ('a' <= w[i] && w[i] <= 'z') || ('A' <= w[i]
        && w[i] <= 'Z') || w[i] == '.' || w[i] == '-')
        invariant
            i <= w@.len(),
            version_prefix_len(w@) == i + version_prefix_len(w@.skip(i as int)),
        decreases w@.len() - i,
    {
        assert(w@.skip(i as int).drop_first() =~= w@.skip(i + 1));
        i += 1;
    }
    i
}

/// Reads the version out of the text that `mihomo -v` printed.
pub fn parse_mihomo_cli_version(s: &str) -> (r: String)
    ensures
        r@ == cli_version(s@),
{
    let cs = chars_of(s);
    let ws = whitespace_words(&cs);
    let mut i: usize = 0;
    while i < ws.len()
        invariant
            i <= ws@.len(),
            ws@.len() == words(s@).len(),
            cs@ == s@,
            forall|j: int| 0 <= j < ws@.len() ==> #[trigger] ws@[j]@ == words(s@)[j],
            cli_version(s@) == first_version_from(words(s@), i as int),
        decreases ws@.len() - i,
    {
        let w = &ws[i];
        assert(w@ == words(s@)[i as int]);
        let ws_str = string_of(w.as_slice());
        let wl = ws_str.as_str().as_bytes().len();
        assert(wl == vstd::utf8::encode_utf8(w@).len());
        let mut ok = w.len() > 1 && w[0] == 'v' && wl >= 4 && '0' <= w[1] && w[1] <= '9';
        if ok {
            let rest = crate::text::slice_chars(w.as_slice(), 1, w.len());
            assert(rest@ == w@.skip(1));
            let dot = vec!['.'];
            assert(dot@ =~= seq!['.']);
            ok = crate::text::contains_chars(&rest, &dot);
        }
        assert(ok == looks_like_version(w@));
        if ok {
            let n = version_prefix(w);
            if n >= 4 {
                let v = crate::text::slice_chars(w.as_slice(), 0, n);
                assert(v@ =~= w@.take(n as int));
                return string_of(&v);
            }
        }
        i += 1;
    }
    String::new()
}

/// The kernel's executable name on a platform.
pub fn mihomo_exe_name(windows: bool) -> (r: &'static str)
    ensures
        windows ==> r@ == "mihomo.exe"@,
        !windows ==> r@ == "mihomo"@,
{
    if windows {
        "mihomo.exe"
    } else {
        "mihomo"
    }
}

/// The release asset prefix and whether it is a zip (otherwise gzip) for an
/// operating system and CPU architecture, as Rust names them.
pub open spec fn asset_kind(os: Seq<char>, arch: Seq<char>) -> Option<(Seq<char>, bool)> {
    if os == "windows"@ && arch == "x86_64"@ {
        Some(("mihomo-windows-amd64-"@, true))
    } else if os == "windows"@ && arch == "aarch64"@ {
        Some(("mihomo-windows-arm64-"@, true))
    } else if os == "linux"@ && arch == "x86_64"@ {
        Some(("mihomo-linux-amd64-"@, false))
    } else if os == "linux"@ && arch == "aarch64"@ {
        Some(("mihomo-linux-arm64-"@, false))
    } else if os == "macos"@ && arch == "x86_64"@ {
        Some(("mihomo-darwin-amd64-"@, false))
    } else if os == "macos"@ && arch == "aarch64"@ {
        Some(("mihomo-darwin-arm64-"@, false))
    } else {
        None
    }
}

/// The file name of the kernel release asset for a platform and tag, and
/// whether it is a zip archive; `None` for platforms without a build.
pub fn mihomo_asset_name(os: &str, arch: &str, tag: &str) -> (r: Option<(String, bool)>)
    ensures
        match asset_kind(os@, arch@) {
            Some(k) => r matches Some(a) && a.0@ == k.0 + tag@ + (if k.1 { ".zip"@ } else { ".gz"@ }) && a.1 == k.1,
            None => r is None,
        },
{
    let (prefix, zip): (&str, bool) = if str_eq(os, "windows") && str_eq(arch, "x86_64") {
        ("mihomo-windows-amd64-", true)
    } else if str_eq(os, "windows") && str_eq(arch, "aarch64") {
        ("mihomo-windows-arm64-", true)
    } else if str_eq(os, "linux") && str_eq(arch, "x86_64") {
        ("mihomo-linux-amd64-", false)
    } else if str_eq(os, "linux") && str_eq(arch, "aarch64") {
        ("mihomo-linux-arm64-", false)
    } else if str_eq(os, "macos") && str_eq(arch, "x86_64") {
        ("mihomo-darwin-amd64-", false)
    } else if str_eq(os, "macos") && str_eq(arch, "aarch64") {
        ("mihomo-darwin-arm64-", false)
    } else {
        return None;
    };
    let mut name = String::from_str(prefix);
    name.append(tag);
    if zip {
        name.append(".zip");
    } else {
        name.append(".gz");
    }
    Some((name, zip))
}

/// The error shown while the first check of a release is still running.
pub fn pending_check_error(latest: &str, error: &str, checked_before: bool) -> (r: String)
    ensures
        latest@.len() == 0 && error@.len() == 0 && !checked_before ==> r@ == "正在检查..."@,
        !(latest@.len() == 0 && error@.len() == 0 && !checked_before) ==> r@ == error@,
{
    if latest.is_empty() && error.is_empty() && !checked_before {
        String::from_str("正在检查...")
    } else {
        String::from_str(error)
    }
}

proof fn lemma_runs_push(s: Seq<char>, c: char)
    ensures
        runs_of(s.push(c), |c: char| is_ascii_digit(c)) == ({
            let g = runs_of(s, |c: char| is_ascii_digit(c));
            if !is_ascii_digit(c) {
                g
            } else if s.len() >= 1 && is_ascii_digit(s.last()) {
                g.update(g.len() - 1, g.last().push(c))
            } else {
                g.push(seq![c])
            }
        }),
{
    let t = s.push(c);
    assert(t.drop_last() =~= s);
    assert(t.last() == c);
    if s.len() >= 1 {
        assert(t[t.len() - 2] == s.last());
    }
}

proof fn lemma_dec2(a: char, b: char)
    ensures
        dec_value(seq![a, b]) == dec_value(seq![a]) * 10 + ((b as int) - ('0' as int)) as nat,
        dec_value(seq![a]) == ((a as int) - ('0' as int)) as nat,
{
    assert(seq![a, b].drop_last() =~= seq![a]);
    assert(seq![a].drop_last() =~= Seq::<char>::empty());
    assert(dec_value(Seq::<char>::empty()) == 0);
    assert(seq![a].last() == a);
    assert(seq![a, b].last() == b);
}

/// The numbers of `1.19.29`, `1.19.3`, `1.2` and `1.2.0`.
proof fn lemma_example_numbers()
    ensures
        fitting_values(digit_runs(seq!['1', '.', '1', '9', '.', '2', '9'])) == seq![1u32, 19u32, 29u32],
        fitting_values(digit_runs(seq!['1', '.', '1', '9', '.', '3'])) == seq![1u32, 19u32, 3u32],
        fitting_values(digit_runs(seq!['1', '.', '2'])) == seq![1u32, 2u32],
        fitting_values(digit_runs(seq!['1', '.', '2', '.', '0'])) == seq![1u32, 2u32, 0u32],
{
    let e = Seq::<char>::empty();
    assert(runs_of(e, |c: char| is_ascii_digit(c)) == Seq::<Seq<char>>::empty());
    lemma_runs_push(e, '1');
    assert(e.push('1') =~= seq!['1']);
    let r1 = seq![seq!['1']];
    assert(digit_runs(seq!['1']) =~= r1);
    lemma_runs_push(seq!['1'], '.');
    assert(seq!['1'].push('.') =~= seq!['1', '.']);
    assert(digit_runs(seq!['1', '.']) =~= r1);
    lemma_runs_push(seq!['1', '.'], '1');
    assert(seq!['1', '.'].push('1') =~= seq!['1', '.', '1']);
    assert(digit_runs(seq!['1', '.', '1']) =~= seq![seq!['1'], seq!['1']]);
    lemma_runs_push(seq!['1', '.'], '2');
    assert(seq!['1', '.'].push('2') =~= seq!['1', '.', '2']);
    assert(digit_runs(seq!['1', '.', '2']) =~= seq![seq!['1'], seq!['2']]);
    lemma_runs_push(seq!['1', '.', '2'], '.');
    assert(seq!['1', '.', '2'].push('.') =~= seq!['1', '.', '2', '.']);
    assert(digit_runs(seq!['1', '.', '2', '.']) =~= seq![seq!['1'], seq!['2']]);
    lemma_runs_push(seq!['1', '.', '2', '.'], '0');
    assert(seq!['1', '.', '2', '.'].push('0') =~= seq!['1', '.', '2', '.', '0']);
    assert(digit_runs(seq!['1', '.', '2', '.', '0']) =~= seq![seq!['1'], seq!['2'], seq!['0']]);
    lemma_runs_push(seq!['1', '.', '1'], '9');
    assert(seq!['1', '.', '1'].push('9') =~= seq!['1', '.', '1', '9']);
    assert(seq!['1'].push('9') =~= seq!['1', '9']);
    assert(seq![seq!['1'], seq!['1']].update(1, seq!['1'].push('9')) =~= seq![seq!['1'], seq!['1', '9']]);
    assert(digit_runs(seq!['1', '.', '1', '9']) =~= seq![seq!['1'], seq!['1', '9']]);
    lemma_runs_push(seq!['1', '.', '1', '9'], '.');
    assert(seq!['1', '.', '1', '9'].push('.') =~= seq!['1', '.', '1', '9', '.']);
    assert(digit_runs(seq!['1', '.', '1', '9', '.']) =~= seq![seq!['1'], seq!['1', '9']]);
    lemma_runs_push(seq!['1', '.', '1', '9', '.'], '3');
    assert(seq!['1', '.', '1', '9', '.'].push('3') =~= seq!['1', '.', '1', '9', '.', '3']);
    assert(digit_runs(seq!['1', '.', '1', '9', '.', '3']) =~= seq![seq!['1'], seq!['1', '9'], seq!['3']]);
    lemma_runs_push(seq!['1', '.', '1', '9', '.'], '2');
    assert(seq!['1', '.', '1', '9', '.'].push('2') =~= seq!['1', '.', '1', '9', '.', '2']);
    assert(digit_runs(seq!['1', '.', '1', '9', '.', '2']) =~= seq![seq!['1'], seq!['1', '9'], seq!['2']]);
    lemma_runs_push(seq!['1', '.', '1', '9', '.', '2'], '9');
    assert(seq!['1', '.', '1', '9', '.', '2'].push('9') =~= seq!['1', '.', '1', '9', '.', '2', '9']);
    assert(seq!['2'].push('9') =~= seq!['2', '9']);
    assert(seq![seq!['1'], seq!['1', '9'], seq!['2']].update(2, seq!['2'].push('9')) =~= seq![
        seq!['1'],
        seq!['1', '9'],
        seq!['2', '9'],
    ]);
    assert(digit_runs(seq!['1', '.', '1', '9', '.', '2', '9']) =~= seq![seq!['1'], seq!['1', '9'], seq!['2', '9']]);
    lemma_dec2('1', '9');
    lemma_dec2('2', '9');
    lemma_dec2('3', '3');
    lemma_dec2('2', '2');
    lemma_dec2('0', '0');
    assert(dec_value(seq!['1', '9']) == 19);
    assert(dec_value(seq!['2', '9']) == 29);
    let g1 = seq![seq!['1'], seq!['1', '9'], seq!['2', '9']];
    assert(g1.drop_last() =~= seq![seq!['1'], seq!['1', '9']]);
    assert(g1.drop_last().drop_last() =~= seq![seq!['1']]);
    assert(g1.drop_last().drop_last().drop_last() =~= Seq::<Seq<char>>::empty());
    assert(dec_value(seq!['1']) == 1);
    assert(dec_value(seq!['2']) == 2);
    assert(dec_value(seq!['3']) == 3);
    assert(dec_value(seq!['0']) == 0);
    assert(fitting_values(Seq::<Seq<char>>::empty()) == Seq::<u32>::empty());
    assert(seq![seq!['1']].last() == seq!['1']);
    assert(fitting_values(seq![seq!['1']]) =~= seq![1u32]);
    assert(seq![seq!['1'], seq!['1', '9']].last() == seq!['1', '9']);
    assert(fitting_values(seq![seq!['1'], seq!['1', '9']]) =~= seq![1u32, 19u32]);
    assert(g1.last() == seq!['2', '9']);
    assert(fitting_values(g1) =~= seq![1u32, 19u32, 29u32]);
    let g2 = seq![seq!['1'], seq!['1', '9'], seq!['3']];
    assert(g2.drop_last() =~= seq![seq!['1'], seq!['1', '9']]);
    assert(g2.last() == seq!['3']);
    assert(fitting_values(g2) =~= seq![1u32, 19u32, 3u32]);
    let g3 = seq![seq!['1'], seq!['2']];
    assert(g3.drop_last() =~= seq![seq!['1']]);
    assert(g3.drop_last().drop_last() =~= Seq::<Seq<char>>::empty());
    assert(g3.last() == seq!['2']);
    assert(fitting_values(g3) =~= seq![1u32, 2u32]);
    let g4 = seq![seq!['1'], seq!['2'], seq!['0']];
    assert(g4.drop_last() =~= g3);
    assert(g4.last() == seq!['0']);
    assert(fitting_values(g4) =~= seq![1u32, 2u32, 0u32]);
}

/// The worked examples of the version order: `v1.19.29` is newer than
/// `v1.19.3`, and `1.2` equals `1.2.0`.
pub proof fn law_compare_version_examples()
    ensures
        spec_compare_version("v1.19.29"@, "v1.19.3"@) == 1,
        spec_compare_version("1.2"@, "1.2.0"@) == 0,
{
    reveal_strlit("v1.19.29");
    reveal_strlit("v1.19.3");
    reveal_strlit("1.2");
    reveal_strlit("1.2.0");
    let a = "v1.19.29"@;
    let b = "v1.19.3"@;
    let c = "1.2"@;
    let d = "1.2.0"@;
    assert(a =~= seq!['v', '1', '.', '1', '9', '.', '2', '9']);
    assert(b =~= seq!['v', '1', '.', '1', '9', '.', '3']);
    assert(c =~= seq!['1', '.', '2']);
    assert(d =~= seq!['1', '.', '2', '.', '0']);
    let sa = seq!['1', '.', '1', '9', '.', '2', '9'];
    let sb = seq!['1', '.', '1', '9', '.', '3'];
    assert(a.drop_first() =~= sa);
    assert(b.drop_first() =~= sb);
    assert(strip_v(sa) == sa);
    assert(strip_v(sb) == sb);
    assert(strip_v(a) == sa);
    assert(strip_v(b) == sb);
    assert(strip_v(c) == c);
    assert(strip_v(d) == d);
    lemma_example_numbers();
    let va = seq![1u32, 19u32, 29u32];
    let vb = seq![1u32, 19u32, 3u32];
    assert(order_from(va, vb, 2) == 1);
    assert(order_from(va, vb, 1) == 1);
    assert(order_from(va, vb, 0) == 1);
    let vc = seq![1u32, 2u32];
    let vd = seq![1u32, 2u32, 0u32];
    assert(order_from(vc, vd, 3) == 0);
    assert(order_from(vc, vd, 2) == 0);
    assert(order_from(vc, vd, 1) == 0);
    assert(order_from(vc, vd, 0) == 0);
}

/// The operating-system part of a release asset name: `darwin` for macOS.
pub open spec fn os_tag(os: Seq<char>) -> Option<Seq<char>> {
    if os == "windows"@ {
        Some("windows"@)
    } else if os == "linux"@ {
        Some("linux"@)
    } else if os == "macos"@ {
        Some("darwin"@)
    } else {
        None
    }
}

/// The CPU part of a release asset name: `amd64` for x86_64, `arm64` for
/// aarch64.
pub open spec fn arch_tag(arch: Seq<char>) -> Option<Seq<char>> {
    if arch == "x86_64"@ {
        Some("amd64"@)
    } else if arch == "aarch64"@ {
        Some("arm64"@)
    } else {
        None
    }
}

/// A release asset is named for the platform given: `mihomo-`, the system
/// part, `-`, the CPU part, `-`; zipped exactly on Windows; none for a system
/// or CPU without a build.
pub proof fn law_asset_names_the_platform(os: Seq<char>, arch: Seq<char>)
    ensures
        match (os_tag(os), arch_tag(arch)) {
            (Some(o), Some(a)) => asset_kind(os, arch) == Some(("mihomo-"@ + o + "-"@ + a + "-"@, os == "windows"@)),
            _ => asset_kind(os, arch) is None,
        },
{
    reveal_strlit("windows");
    reveal_strlit("linux");
    reveal_strlit("macos");
    reveal_strlit("darwin");
    reveal_strlit("x86_64");
    reveal_strlit("aarch64");
    reveal_strlit("amd64");
    reveal_strlit("arm64");
    reveal_strlit("mihomo-");
    reveal_strlit("-");
    reveal_strlit("mihomo-windows-amd64-");
    reveal_strlit("mihomo-windows-arm64-");
    reveal_strlit("mihomo-linux-amd64-");
    reveal_strlit("mihomo-linux-arm64-");
    reveal_strlit("mihomo-darwin-amd64-");
    reveal_strlit("mihomo-darwin-arm64-");
    assert("windows"@[0] != "linux"@[0]);
    assert("windows"@ != "linux"@);
    assert("windows"@[0] != "macos"@[0]);
    assert("windows"@ != "macos"@);
    assert("linux"@ != "macos"@);
    assert("x86_64"@[0] != "aarch64"@[0]);
    assert("x86_64"@ != "aarch64"@);
    assert("mihomo-"@ + "windows"@ + "-"@ + "amd64"@ + "-"@ =~= "mihomo-windows-amd64-"@);
    assert("mihomo-"@ + "windows"@ + "-"@ + "arm64"@ + "-"@ =~= "mihomo-windows-arm64-"@);
    assert("mihomo-"@ + "linux"@ + "-"@ + "amd64"@ + "-"@ =~= "mihomo-linux-amd64-"@);
    assert("mihomo-"@ + "linux"@ + "-"@ + "arm64"@ + "-"@ =~= "mihomo-linux-arm64-"@);
    assert("mihomo-"@ + "darwin"@ + "-"@ + "amd64"@ + "-"@ =~= "mihomo-darwin-amd64-"@);
    assert("mihomo-"@ + "darwin"@ + "-"@ + "arm64"@ + "-"@ =~= "mihomo-darwin-arm64-"@);
}

} // verus!
