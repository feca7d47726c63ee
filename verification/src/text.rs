//! Character-sequence helpers shared by the other modules: decimal formatting,
//! Unicode whitespace, trimming and substring search.

use vstd::prelude::*;

verus! {

/// The ASCII digit for a value below ten.
pub open spec fn digit_char(d: int) -> char {
    (('0' as int) + d) as char
}

/// Decimal digits of a natural number, most significant first, with no leading zeros.
pub open spec fn digits_of(n: nat) -> Seq<char>
    decreases n,
{
    if n < 10 {
        seq![digit_char(n as int)]
    } else {
        digits_of(n / 10).push(digit_char((n % 10) as int))
    }
}

/// `n` zero characters.
pub open spec fn zeros(n: int) -> Seq<char>
    decreases n,
{
    if n <= 0 {
        Seq::empty()
    } else {
        zeros(n - 1).push('0')
    }
}

/// How `format!` zero-pads an integer to a width: the sign (if negative), then
/// zeros up to the width, then the decimal digits of the magnitude.
pub open spec fn fmt_padded(v: int, width: nat) -> Seq<char> {
    let sign: Seq<char> = if v < 0 { seq!['-'] } else { Seq::empty() };
    let mag = if v < 0 { (-v) as nat } else { v as nat };
    let body = digits_of(mag);
    sign + zeros(width - sign.len() - body.len()) + body
}

/// How `format!` renders an integer with no width.
pub open spec fn fmt_int(v: int) -> Seq<char> {
    fmt_padded(v, 0)
}

/// The characters of a string slice, in order.
#[verifier::external_body]
pub(crate) fn chars_of(s: &str) -> (v: Vec<char>)
    ensures
        v@ == s@,
{
    s.chars().collect()
}

/// The string made of the given characters, in order.
#[verifier::external_body]
pub(crate) fn string_of(v: &[char]) -> (s: String)
    ensures
        s@ == v@,
{
    v.iter().collect()
}

/// Whether two string slices hold the same characters.
#[verifier::external_body]
pub(crate) fn str_eq(a: &str, b: &str) -> (r: bool)
    ensures
        r == (a@ == b@),
{
    a == b
}

/// Appends one character to a string.
#[verifier::external_body]
pub(crate) fn push_char(s: &mut String, c: char)
    ensures
        final(s)@ == old(s)@.push(c),
{
    s.push(c);
}

/// Appends the given characters to a string, in order.
pub fn push_str_chars(out: &mut String, cs: &[char])
    ensures
        final(out)@ == old(out)@ + cs@,
{
    let ghost o = out@;
    let mut i: usize = 0;
    while i < cs.len()
        invariant
            i <= cs@.len(),
            out@ == o + cs@.subrange(0, i as int),
        decreases cs@.len() - i,
    {
        push_char(out, cs[i]);
        i = i + 1;
        assert(out@ =~= o + cs@.subrange(0, i as int));
    }
    assert(cs@.subrange(0, cs@.len() as int) =~= cs@);
}

fn push_digits(out: &mut String, n: u64)
    ensures
        final(out)@ == old(out)@ + digits_of(n as nat),
    decreases n,
{
    if n >= 10 {
        push_digits(out, n / 10);
    }
    let d = (n % 10) as u8;
    let c = (48u8 + d) as char;
    assert(c == digit_char(d as int));
    push_char(out, c);
}

proof fn lemma_digits_len_pos(n: nat)
    ensures
        digits_of(n).len() >= 1,
    decreases n,
{
    if n >= 10 {
        lemma_digits_len_pos(n / 10);
    }
}

spec fn p10(k: nat) -> nat
    decreases k,
{
    if k == 0 {
        1
    } else {
        10 * p10((k - 1) as nat)
    }
}

proof fn lemma_digits_len_le(n: nat, k: nat)
    requires
        k >= 1,
        n < p10(k),
    ensures
        digits_of(n).len() <= k,
    decreases n,
{
    if n >= 10 {
        assert(k >= 2) by {
            if k == 1 {
                assert(p10(1) == 10) by {
                    reveal_with_fuel(p10, 2);
                }
            }
        }
        assert(n / 10 < p10((k - 1) as nat));
        lemma_digits_len_le(n / 10, (k - 1) as nat);
    }
}

proof fn lemma_u64_digits(n: u64)
    ensures
        digits_of(n as nat).len() <= 20,
{
    assert(p10(20) == 100000000000000000000) by {
        reveal_with_fuel(p10, 21);
    }
    lemma_digits_len_le(n as nat, 20);
}

proof fn lemma_zeros_len(n: int)
    ensures
        zeros(n).len() == if n <= 0 { 0 } else { n },
    decreases n,
{
    if n > 0 {
        lemma_zeros_len(n - 1);
    }
}

fn push_signed_padded(out: &mut String, neg: bool, mag: u64, width: usize)
    ensures
        final(out)@ == old(out)@ + fmt_padded(if neg { -(mag as int) } else { mag as int }, width as nat),
{
    let ghost start = out@;
    let ghost v: int = if neg { -(mag as int) } else { mag as int };
    let neg = neg && mag != 0;
    let mut digits = String::new();
    push_digits(&mut digits, mag);
    let dl = digits.unicode_len();
    let sl: usize = if neg { 1 } else { 0 };
    proof {
        lemma_u64_digits(mag);
    }
    if neg {
        push_char(out, '-');
    }
    let mut k: usize = sl + dl;
    let ghost pre = out@;
    while k < width
        invariant
            sl + dl <= k,
            k <= sl + dl || k <= width,
            out@ == pre + zeros(k - sl - dl),
        decreases width - k,
    {
        push_char(out, '0');
        k += 1;
    }
    out.append(digits.as_str());
    proof {
        let sign: Seq<char> = if neg { seq!['-'] } else { Seq::empty() };
        assert(pre == start + sign);
        assert(digits@ == digits_of(mag as nat));
        lemma_zeros_len(width - sl - dl);
        assert((start + sign) + zeros(k - sl - dl) + digits@ =~= start + (sign + zeros(
            width - sign.len() - digits@.len(),
        ) + digits@));
        assert(v < 0 <==> neg);
    }
}

/// Appends `v` zero-padded to `width` characters the way `format!` pads integers.
pub fn push_int_padded(out: &mut String, v: i64, width: usize)
    ensures
        final(out)@ == old(out)@ + fmt_padded(v as int, width as nat),
{
    let neg = v < 0;
    let mag: u64 = if neg { (0i128 - v as i128) as u64 } else { v as u64 };
    push_signed_padded(out, neg, mag, width);
}

/// Appends `v` zero-padded to `width` characters the way `format!` pads integers.
pub fn push_u64_padded(out: &mut String, v: u64, width: usize)
    ensures
        final(out)@ == old(out)@ + fmt_padded(v as int, width as nat),
{
    push_signed_padded(out, false, v, width);
}

/// Appends `v` in plain decimal.
pub fn push_int(out: &mut String, v: i64)
    ensures
        final(out)@ == old(out)@ + fmt_int(v as int),
{
    push_int_padded(out, v, 0);
}

/// `s` cut at every `sep`: the pieces between separators, in order (an empty
/// text gives one empty piece, as `str::split` does).
pub open spec fn split_on(s: Seq<char>, sep: char) -> Seq<Seq<char>>
    decreases s.len(),
{
    if s.len() == 0 {
        seq![Seq::empty()]
    } else {
        let init = split_on(s.drop_last(), sep);
        if s.last() == sep {
            init.push(Seq::empty())
        } else {
            init.update(init.len() - 1, init.last().push(s.last()))
        }
    }
}

pub(crate) proof fn lemma_split_on_nonempty(s: Seq<char>, sep: char)
    ensures
        split_on(s, sep).len() >= 1,
    decreases s.len(),
{
    if s.len() > 0 {
        lemma_split_on_nonempty(s.drop_last(), sep);
    }
}

/// The pieces of `s` between occurrences of `sep`.
pub fn split_chars(s: &[char], sep: char) -> (r: Vec<Vec<char>>)
    ensures
        r@.len() == split_on(s@, sep).len(),
        forall|i: int| 0 <= i < r@.len() ==> #[trigger] r@[i]@ == split_on(s@, sep)[i],
{
    let mut parts: Vec<Vec<char>> = Vec::new();
    let mut cur: Vec<char> = Vec::new();
    let mut i: usize = 0;
    while i < s.len()
        invariant
            i <= s@.len(),
            parts@.len() + 1 == split_on(s@.take(i as int), sep).len(),
            forall|j: int| 0 <= j < parts@.len() ==> #[trigger] parts@[j]@ == split_on(s@.take(i as int), sep)[j],
            cur@ == split_on(s@.take(i as int), sep).last(),
        decreases s@.len() - i,
    {
        proof {
            lemma_split_on_nonempty(s@.take(i as int), sep);
            assert(s@.take(i as int + 1).drop_last() =~= s@.take(i as int));
        }
        let c = s[i];
        if c == sep {
            parts.push(cur);
            cur = Vec::new();
        } else {
            cur.push(c);
        }
        i += 1;
    }
    parts.push(cur);
    assert(s@.take(i as int) =~= s@);
    parts
}

pub open spec fn is_ascii_digit(c: char) -> bool {
    '0' <= c <= '9'
}

pub open spec fn all_ascii_digits(s: Seq<char>) -> bool {
    forall|i: int| 0 <= i < s.len() ==> is_ascii_digit(#[trigger] s[i])
}

/// The value of a string of decimal digits.
pub open spec fn dec_value(s: Seq<char>) -> nat
    decreases s.len(),
{
    if s.len() == 0 {
        0
    } else {
        dec_value(s.drop_last()) * 10 + ((s.last() as int) - ('0' as int)) as nat
    }
}

proof fn lemma_dec_step(g: Seq<char>, c: char)
    requires
        is_ascii_digit(c),
    ensures
        dec_value(g.push(c)) >= dec_value(g),
        dec_value(g.push(c)) == dec_value(g) * 10 + (c as int - '0' as int),
{
    assert(g.push(c).drop_last() =~= g);
}

/// How `str::parse::<i32>` reads a string: an optional `+` or `-`, then one
/// or more ASCII digits whose value fits in `i32`; anything else is an error.
pub open spec fn spec_parse_i32(s: Seq<char>) -> Option<i32> {
    let signed = s.len() > 0 && (s[0] == '+' || s[0] == '-');
    let neg = s.len() > 0 && s[0] == '-';
    let digits = if signed { s.skip(1) } else { s };
    let v: int = if neg { -(dec_value(digits) as int) } else { dec_value(digits) as int };
    if digits.len() == 0 || !all_ascii_digits(digits) || v < i32::MIN || v > i32::MAX {
        None
    } else {
        Some(v as i32)
    }
}

/// Parses a decimal `i32` as `str::parse` does.
pub fn parse_i32_chars(s: &[char]) -> (r: Option<i32>)
    ensures
        r == spec_parse_i32(s@),
{
    let signed = s.len() > 0 && (s[0] == '+' || s[0] == '-');
    let neg = s.len() > 0 && s[0] == '-';
    let start: usize = if signed { 1 } else { 0 };
    let ghost digits = if signed { s@.skip(1) } else { s@ };
    assert(digits =~= s@.skip(start as int));
    if start >= s.len() {
        return None;
    }
    let mut v: i64 = 0;
    let mut over = false;
    let mut i = start;
    while i < s.len()
        invariant
            start <= i <= s@.len(),
            digits == s@.skip(start as int),
            digits == (if s@.len() > 0 && (s@[0] == '+' || s@[0] == '-') { s@.skip(1) } else { s@ }),
            all_ascii_digits(s@.subrange(start as int, i as int)),
            !over ==> v == dec_value(s@.subrange(start as int, i as int)),
            !over ==> v <= 0x8000_0000,
            over ==> dec_value(s@.subrange(start as int, i as int)) > 0x8000_0000,
            0 <= v,
        decreases s@.len() - i,
    {
        let c = s[i];
        if c < '0' || c > '9' {
            assert(!all_ascii_digits(digits)) by {
                assert(digits[i - start] == c);
                assert(!is_ascii_digit(digits[i - start]));
            }
            return None;
        }
        proof {
            assert(s@.subrange(start as int, i + 1) =~= s@.subrange(start as int, i as int).push(c));
            lemma_dec_step(s@.subrange(start as int, i as int), c);
        }
        if !over {
            let nv = v * 10 + (c as i64 - 48);
            if nv > 0x8000_0000 {
                over = true;
                v = 0;
            } else {
                v = nv;
            }
        }
        i += 1;
    }
    assert(s@.subrange(start as int, s@.len() as int) =~= digits);
    if over {
        return None;
    }
    if neg {
        Some((0 - v) as i32)
    } else if v > 0x7fff_ffff {
        None
    } else {
        Some(v as i32)
    }
}

/// `n` occurs in `h` starting at index `i`.
pub open spec fn occurs_at(h: Seq<char>, n: Seq<char>, i: int) -> bool {
    0 <= i && i + n.len() <= h.len() && h.subrange(i, i + n.len()) == n
}

/// The first index at or after `i` where `n` occurs in `h`.
pub open spec fn find_from(h: Seq<char>, n: Seq<char>, i: int) -> Option<int>
    decreases h.len() + 1 - i,
{
    if i < 0 || i + n.len() > h.len() {
        None
    } else if occurs_at(h, n, i) {
        Some(i)
    } else {
        find_from(h, n, i + 1)
    }
}

/// The first index where `n` occurs in `h` (as `str::find`, counted in characters).
pub open spec fn find_first(h: Seq<char>, n: Seq<char>) -> Option<int> {
    find_from(h, n, 0)
}

/// `h` contains `n` (as `str::contains`).
pub open spec fn contains_seq(h: Seq<char>, n: Seq<char>) -> bool {
    find_first(h, n) is Some
}

proof fn lemma_find_from_bounds(h: Seq<char>, n: Seq<char>, i: int)
    ensures
        find_from(h, n, i) matches Some(k) ==> (i <= k && occurs_at(h, n, k)),
    decreases h.len() + 1 - i,
{
    if !(i < 0 || i + n.len() > h.len()) && !occurs_at(h, n, i) {
        lemma_find_from_bounds(h, n, i + 1);
    }
}

/// `find_first` finds an occurrence, and there is none before it.
pub proof fn lemma_find_first(h: Seq<char>, n: Seq<char>)
    ensures
        find_first(h, n) matches Some(k) ==> occurs_at(h, n, k),
{
    lemma_find_from_bounds(h, n, 0);
}

/// The first index where `n` occurs in `h`.
pub fn find_seq(h: &[char], n: &[char]) -> (r: Option<usize>)
    ensures
        r matches Some(k) ==> find_first(h@, n@) == Some(k as int),
        r is None ==> find_first(h@, n@) is None,
{
    let hl = h.len();
    let nl = n.len();
    if nl > hl {
        return None;
    }
    let mut i: usize = 0;
    while i <= hl - nl
        invariant
            hl == h@.len(),
            nl == n@.len(),
            nl <= hl,
            i <= hl - nl + 1,
            find_first(h@, n@) == find_from(h@, n@, i as int),
        decreases hl - i,
    {
        let mut j: usize = 0;
        let mut ok = true;
        while j < nl
            invariant
                hl == h@.len(),
                nl == n@.len(),
                i + nl <= hl,
                j <= nl,
                ok == (forall|t: int| 0 <= t < j ==> h@[i + t] == n@[t]),
            decreases nl - j,
        {
            if h[i + j] != n[j] {
                ok = false;
            }
            j += 1;
        }
        if ok {
            assert(h@.subrange(i as int, i + nl) =~= n@);
            return Some(i);
        }
        assert(!occurs_at(h@, n@, i as int)) by {
            if occurs_at(h@, n@, i as int) {
                assert forall|t: int| 0 <= t < nl implies h@[i + t] == n@[t] by {
                    assert(h@.subrange(i as int, i + nl)[t] == h@[i + t]);
                }
            }
        }
        i += 1;
    }
    None
}

/// Whether `n` occurs in `h` at index `i`.
pub fn occurs_at_index(h: &[char], i: usize, n: &[char]) -> (r: bool)
    ensures
        r == occurs_at(h@, n@, i as int),
{
    if i > h.len() || h.len() - i < n.len() {
        return false;
    }
    let mut j: usize = 0;
    while j < n.len()
        invariant
            i + n@.len() <= h@.len(),
            h@.len() == h.len(),
            j <= n@.len(),
            forall|t: int| 0 <= t < j ==> h@[i + t] == n@[t],
        decreases n@.len() - j,
    {
        assert(i + j < h.len());
        if h[i + j] != n[j] {
            assert(h@.subrange(i as int, i + n@.len())[j as int] == h@[i + j]);
            return false;
        }
        j += 1;
    }
    assert(h@.subrange(i as int, i + n@.len()) =~= n@);
    true
}

/// Whether `n` occurs in `h`.
pub fn contains_chars(h: &[char], n: &[char]) -> (r: bool)
    ensures
        r == contains_seq(h@, n@),
{
    find_seq(h, n).is_some()
}

/// The last index of `c` in `s` (as `str::rfind` with a character).
pub open spec fn rfind_char(s: Seq<char>, c: char) -> Option<int>
    decreases s.len(),
{
    if s.len() == 0 {
        None
    } else if s.last() == c {
        Some(s.len() - 1)
    } else {
        rfind_char(s.drop_last(), c)
    }
}

/// The last index of `c` in `s`.
pub fn rfind_char_in(s: &[char], c: char) -> (r: Option<usize>)
    ensures
        r matches Some(k) ==> rfind_char(s@, c) == Some(k as int),
        r is None ==> rfind_char(s@, c) is None,
{
    let mut i: usize = s.len();
    assert(s@.take(i as int) =~= s@);
    while i > 0
        invariant
            i <= s@.len(),
            rfind_char(s@, c) == rfind_char(s@.take(i as int), c),
        decreases i,
    {
        assert(s@.take(i as int).drop_last() =~= s@.take(i - 1));
        if s[i - 1] == c {
            return Some(i - 1);
        }
        i -= 1;
    }
    None
}

/// The characters of `s[a..b]`.
pub fn slice_chars(s: &[char], a: usize, b: usize) -> (r: Vec<char>)
    requires
        a <= b <= s@.len(),
    ensures
        r@ == s@.subrange(a as int, b as int),
{
    let mut out: Vec<char> = Vec::new();
    let mut i = a;
    while i < b
        invariant
            a <= i <= b,
            b <= s@.len(),
            out@ == s@.subrange(a as int, i as int),
        decreases b - i,
    {
        out.push(s[i]);
        i += 1;
        assert(out@ =~= s@.subrange(a as int, i as int));
    }
    out
}

/// Unicode `White_Space` (what `char::is_whitespace` tests).
pub open spec fn is_white_space(c: char) -> bool {
    ('\u{9}' <= c <= '\u{d}') || c == ' ' || c == '\u{85}' || c == '\u{a0}' || c == '\u{1680}'
        || ('\u{2000}' <= c <= '\u{200a}') || c == '\u{2028}' || c == '\u{2029}' || c == '\u{202f}'
        || c == '\u{205f}' || c == '\u{3000}'
}

/// Whether a character is Unicode white space.
pub fn is_whitespace_char(c: char) -> (r: bool)
    ensures
        r == is_white_space(c),
{
    ('\u{9}' <= c && c <= '\u{d}') || c == ' ' || c == '\u{85}' || c == '\u{a0}' || c == '\u{1680}'
        || ('\u{2000}' <= c && c <= '\u{200a}') || c == '\u{2028}' || c == '\u{2029}' || c == '\u{202f}'
        || c == '\u{205f}' || c == '\u{3000}'
}

/// How many leading characters of `s` are white space.
pub open spec fn leading_ws(s: Seq<char>) -> nat
    decreases s.len(),
{
    if s.len() > 0 && is_white_space(s[0]) {
        1 + leading_ws(s.drop_first())
    } else {
        0
    }
}

/// How many trailing characters of `s` are white space.
pub open spec fn trailing_ws(s: Seq<char>) -> nat
    decreases s.len(),
{
    if s.len() > 0 && is_white_space(s.last()) {
        1 + trailing_ws(s.drop_last())
    } else {
        0
    }
}

/// `s` without leading white space (`str::trim_start`).
pub open spec fn trim_start(s: Seq<char>) -> Seq<char> {
    s.skip(leading_ws(s) as int)
}

/// `s` without trailing white space (`str::trim_end`).
pub open spec fn trim_end(s: Seq<char>) -> Seq<char> {
    s.take(s.len() - trailing_ws(s))
}

/// `s` without leading and trailing white space (`str::trim`).
pub open spec fn trim(s: Seq<char>) -> Seq<char> {
    trim_end(trim_start(s))
}

proof fn lemma_leading_ws(s: Seq<char>, i: int)
    requires
        0 <= i <= s.len(),
        forall|j: int| 0 <= j < i ==> is_white_space(#[trigger] s[j]),
    ensures
        leading_ws(s) >= i,
        leading_ws(s) <= s.len(),
        i < s.len() && !is_white_space(s[i]) ==> leading_ws(s) == i,
        i == s.len() ==> leading_ws(s) == s.len(),
    decreases i,
{
    if i > 0 {
        assert forall|j: int| 0 <= j < i - 1 implies is_white_space(#[trigger] s.drop_first()[j]) by {
            assert(s.drop_first()[j] == s[j + 1]);
        }
        lemma_leading_ws(s.drop_first(), i - 1);
    } else {
        lemma_leading_ws_le(s);
    }
}

proof fn lemma_leading_ws_le(s: Seq<char>)
    ensures
        leading_ws(s) <= s.len(),
    decreases s.len(),
{
    if s.len() > 0 && is_white_space(s[0]) {
        lemma_leading_ws_le(s.drop_first());
    }
}

proof fn lemma_trailing_ws(s: Seq<char>, k: int)
    requires
        0 <= k <= s.len(),
        forall|j: int| s.len() - k <= j < s.len() ==> is_white_space(#[trigger] s[j]),
    ensures
        trailing_ws(s) >= k,
        trailing_ws(s) <= s.len(),
        k < s.len() && !is_white_space(s[s.len() - k - 1]) ==> trailing_ws(s) == k,
        k == s.len() ==> trailing_ws(s) == s.len(),
    decreases k,
{
    if k > 0 {
        assert forall|j: int| s.drop_last().len() - (k - 1) <= j < s.drop_last().len() implies is_white_space(
            #[trigger] s.drop_last()[j],
        ) by {
            assert(s.drop_last()[j] == s[j]);
        }
        lemma_trailing_ws(s.drop_last(), k - 1);
    } else {
        lemma_trailing_ws_le(s);
    }
}

proof fn lemma_trailing_ws_le(s: Seq<char>)
    ensures
        trailing_ws(s) <= s.len(),
    decreases s.len(),
{
    if s.len() > 0 && is_white_space(s.last()) {
        lemma_trailing_ws_le(s.drop_last());
    }
}

/// The bounds `(a, b)` such that `s[a..b]` is `s` trimmed.
pub fn trim_bounds(s: &[char]) -> (r: (usize, usize))
    ensures
        r.0 <= r.1 <= s@.len(),
        r.0 == leading_ws(s@),
        s@.subrange(r.0 as int, r.1 as int) == trim(s@),
{
    let n = s.len();
    let mut a: usize = 0;
    while a < n && is_whitespace_char(s[a])
        invariant
            a <= n == s@.len(),
            forall|j: int| 0 <= j < a ==> is_white_space(#[trigger] s@[j]),
        decreases n - a,
    {
        a += 1;
    }
    proof {
        lemma_leading_ws(s@, a as int);
    }
    let ghost t = s@.skip(a as int);
    let mut b: usize = n;
    while b > a && is_whitespace_char(s[b - 1])
        invariant
            a <= b <= n == s@.len(),
            forall|j: int| b <= j < n ==> is_white_space(#[trigger] s@[j]),
        decreases b,
    {
        b -= 1;
    }
    proof {
        assert forall|j: int| t.len() - (n - b) <= j < t.len() implies is_white_space(#[trigger] t[j]) by {
            assert(t[j] == s@[j + a]);
        }
        if b > a {
            assert(t[t.len() - (n - b) - 1] == s@[b - 1]);
        }
        lemma_trailing_ws(t, (n - b) as int);
        assert(s@.subrange(a as int, b as int) =~= t.take(t.len() - (n - b)));
    }
    (a, b)
}

/// The characters of `s` trimmed of Unicode white space at both ends.
pub fn trim_chars(s: &[char]) -> (r: Vec<char>)
    ensures
        r@ == trim(s@),
{
    let (a, b) = trim_bounds(s);
    slice_chars(s, a, b)
}

/// The characters of `s` without leading Unicode white space.
pub fn trim_start_chars(s: &[char]) -> (r: Vec<char>)
    ensures
        r@ == trim_start(s@),
{
    let (a, _) = trim_bounds(s);
    proof {
        lemma_leading_ws_le(s@);
    }
    slice_chars(s, a, s.len())
}

/// `s` lower-cased by `str::to_lowercase` (Unicode lower-case mapping).
pub uninterp spec fn lowercase(s: Seq<char>) -> Seq<char>;

/// Lower-cases with `str::to_lowercase`.
#[verifier::external_body]
pub(crate) fn to_lowercase(s: &str) -> (r: String)
    ensures
        r@ == lowercase(s@),
{
    s.to_lowercase()
}

/// What `String::from_utf8_lossy` makes of a byte string: valid UTF-8 is
/// decoded, invalid sequences become U+FFFD.
pub uninterp spec fn utf8_lossy(b: Seq<u8>) -> Seq<char>;

/// Decodes bytes with `String::from_utf8_lossy`; valid UTF-8 comes back as it is.
#[verifier::external_body]
pub(crate) fn from_utf8_lossy(b: &[u8]) -> (r: String)
    ensures
        r@ == utf8_lossy(b@),
        vstd::utf8::valid_utf8(b@) ==> r@ == vstd::utf8::decode_utf8(b@),
{
    String::from_utf8_lossy(b).into_owned()
}

/// Decodes bytes with `String::from_utf8`: `Some` exactly for valid UTF-8.
#[verifier::external_body]
pub(crate) fn from_utf8(b: Vec<u8>) -> (r: Option<String>)
    ensures
        r is Some <==> vstd::utf8::valid_utf8(b@),
        r matches Some(s) ==> s@ == vstd::utf8::decode_utf8(b@),
{
    String::from_utf8(b).ok()
}

} // verus!
