//! The history list: result files grouped by name, newest first.

use vstd::prelude::*;

use crate::host::ascii_lower;
use crate::text::{chars_of, str_eq, string_of};

verus! {

/// A file found in the results directory: its stem, extension, path, size in
/// bytes and modification time in milliseconds.
#[derive(Debug)]
pub struct HistoryFile {
    pub stem: String,
    pub ext: String,
    pub path: String,
    pub size: u64,
    pub modified_ms: i64,
}

/// One entry of the history list: a result name with its log and image.
#[derive(Debug)]
pub struct HistoryItem {
    pub name: String,
    pub log_path: Option<String>,
    pub image_path: Option<String>,
    pub size: u64,
    pub modified_ms: i64,
}

/// `a` comes before `b` in code-point order (a proper prefix comes first).
pub open spec fn lex_less(a: Seq<char>, b: Seq<char>) -> bool
    decreases a.len(),
{
    if a.len() == 0 {
        b.len() > 0
    } else if b.len() == 0 {
        false
    } else if a[0] != b[0] {
        a[0] < b[0]
    } else {
        lex_less(a.skip(1), b.skip(1))
    }
}

proof fn lemma_lex_transitive(a: Seq<char>, b: Seq<char>, c: Seq<char>)
    requires
        lex_less(a, b),
        lex_less(b, c),
    ensures
        lex_less(a, c),
    decreases a.len(),
{
    if a.len() > 0 && b.len() > 0 && c.len() > 0 && a[0] == b[0] && b[0] == c[0] {
        lemma_lex_transitive(a.skip(1), b.skip(1), c.skip(1));
    }
}

proof fn lemma_lex_total(a: Seq<char>, b: Seq<char>)
    requires
        a != b,
    ensures
        lex_less(a, b) || lex_less(b, a),
    decreases a.len(),
{
    if a.len() > 0 && b.len() > 0 && a[0] == b[0] {
        if a.skip(1) == b.skip(1) {
            assert(a =~= seq![a[0]] + a.skip(1));
            assert(b =~= seq![b[0]] + b.skip(1));
        }
        lemma_lex_total(a.skip(1), b.skip(1));
    } else if a.len() == 0 && b.len() == 0 {
        assert(a =~= b);
    }
}

/// Compares two names in code-point order.
fn lex_less_exec(a: &[char], b: &[char]) -> (r: bool)
    ensures
        r == lex_less(a@, b@),
{
    let mut i: usize = 0;
    assert(a@.skip(0) =~= a@);
    assert(b@.skip(0) =~= b@);
    while i < a.len() && i < b.len()
        invariant
            i <= a@.len(),
            i <= b@.len(),
            lex_less(a@, b@) == lex_less(a@.skip(i as int), b@.skip(i as int)),
        decreases a@.len() - i,
    {
        if a[i] != b[i] {
            assert(a@.skip(i as int)[0] == a@[i as int]);
            assert(b@.skip(i as int)[0] == b@[i as int]);
            return a[i] < b[i];
        }
        assert(a@.skip(i as int)[0] == a@[i as int]);
        assert(b@.skip(i as int)[0] == b@[i as int]);
        assert(a@.skip(i as int).skip(1) =~= a@.skip(i + 1));
        assert(b@.skip(i as int).skip(1) =~= b@.skip(i + 1));
        i += 1;
    }
    i == a.len() && i < b.len()
}

/// A log file, by its extension (any case).
pub open spec fn is_log_ext(e: Seq<char>) -> bool {
    ascii_lower(e) == "log"@
}

/// An image file, by its extension (any case).
pub open spec fn is_png_ext(e: Seq<char>) -> bool {
    ascii_lower(e) == "png"@
}

/// The files the history lists: logs and images.
pub open spec fn kept(f: HistoryFile) -> bool {
    is_log_ext(f.ext@) || is_png_ext(f.ext@)
}

/// Some listed file has this stem.
pub open spec fn has_stem(fs: Seq<HistoryFile>, stem: Seq<char>) -> bool {
    exists|k: int| 0 <= k < fs.len() && kept(#[trigger] fs[k]) && fs[k].stem@ == stem
}

/// The path of the last log (`log`) or image (`!log`) file with this stem.
pub open spec fn last_path(fs: Seq<HistoryFile>, stem: Seq<char>, log: bool) -> Option<Seq<char>>
    decreases fs.len(),
{
    if fs.len() == 0 {
        None
    } else {
        let f = fs.last();
        if f.stem@ == stem && (if log { is_log_ext(f.ext@) } else { is_png_ext(f.ext@) }) {
            Some(f.path@)
        } else {
            last_path(fs.drop_last(), stem, log)
        }
    }
}

/// The total size of the listed files with this stem.
pub open spec fn stem_size(fs: Seq<HistoryFile>, stem: Seq<char>) -> int
    decreases fs.len(),
{
    if fs.len() == 0 {
        0
    } else {
        let f = fs.last();
        stem_size(fs.drop_last(), stem) + if kept(f) && f.stem@ == stem { f.size as int } else { 0 }
    }
}

/// The latest modification time of the listed files with this stem (never
/// below 0).
pub open spec fn stem_modified(fs: Seq<HistoryFile>, stem: Seq<char>) -> int
    decreases fs.len(),
{
    if fs.len() == 0 {
        0
    } else {
        let f = fs.last();
        let m = stem_modified(fs.drop_last(), stem);
        if kept(f) && f.stem@ == stem && f.modified_ms > m {
            f.modified_ms as int
        } else {
            m
        }
    }
}

/// The total size of all files.
pub open spec fn total_size(fs: Seq<HistoryFile>) -> int
    decreases fs.len(),
{
    if fs.len() == 0 {
        0
    } else {
        total_size(fs.drop_last()) + fs.last().size
    }
}

/// The view of an optional path.
pub open spec fn opt_view(o: Option<String>) -> Option<Seq<char>> {
    match o {
        Some(s) => Some(s@),
        None => None,
    }
}

/// `it` is the history entry of its name among the files.
pub open spec fn item_of(fs: Seq<HistoryFile>, it: HistoryItem) -> bool {
    &&& has_stem(fs, it.name@)
    &&& opt_view(it.log_path) == last_path(fs, it.name@, true)
    &&& opt_view(it.image_path) == last_path(fs, it.name@, false)
    &&& it.size == stem_size(fs, it.name@)
    &&& it.modified_ms == stem_modified(fs, it.name@)
}

/// Entry `a` is listed before entry `b`: newer first, then by name.
pub open spec fn listed_before(a: HistoryItem, b: HistoryItem) -> bool {
    a.modified_ms > b.modified_ms || (a.modified_ms == b.modified_ms && lex_less(a.name@, b.name@))
}

proof fn lemma_sizes_bounded(fs: Seq<HistoryFile>, stem: Seq<char>)
    ensures
        0 <= stem_size(fs, stem) <= total_size(fs),
        0 <= stem_modified(fs, stem),
    decreases fs.len(),
{
    if fs.len() > 0 {
        lemma_sizes_bounded(fs.drop_last(), stem);
    }
}

proof fn lemma_total_prefix(fs: Seq<HistoryFile>, i: int)
    requires
        0 <= i <= fs.len(),
    ensures
        total_size(fs.take(i)) <= total_size(fs),
    decreases fs.len() - i,
{
    if i < fs.len() {
        lemma_total_prefix(fs, i + 1);
        assert(fs.take(i + 1).drop_last() =~= fs.take(i));
    } else {
        assert(fs.take(i) =~= fs);
    }
}

proof fn lemma_no_stem(fs: Seq<HistoryFile>, stem: Seq<char>)
    requires
        !has_stem(fs, stem),
    ensures
        stem_size(fs, stem) == 0,
        stem_modified(fs, stem) == 0,
        last_path(fs, stem, true) is None,
        last_path(fs, stem, false) is None,
    decreases fs.len(),
{
    if fs.len() > 0 {
        let p = fs.drop_last();
        assert(!has_stem(p, stem)) by {
            if has_stem(p, stem) {
                let k = choose|k: int| 0 <= k < p.len() && kept(#[trigger] p[k]) && p[k].stem@ == stem;
                assert(fs[k] == p[k]);
            }
        }
        lemma_no_stem(p, stem);
        assert(!(kept(fs.last()) && fs.last().stem@ == stem)) by {
            if kept(fs.last()) && fs.last().stem@ == stem {
                assert(kept(fs[fs.len() - 1]));
            }
        }
    }
}

fn copy_text(s: &String) -> (r: String)
    ensures
        r@ == s@,
{
    string_of(&chars_of(s.as_str()))
}

fn copy_opt(o: &Option<String>) -> (r: Option<String>)
    ensures
        opt_view(r) == opt_view(*o),
{
    match o {
        Some(s) => Some(copy_text(s)),
        None => None,
    }
}

fn ext_is(ext: &str, want: &str) -> (r: bool)
    ensures
        r == (ascii_lower(ext@) == want@),
{
    let low = crate::host::ascii_lower_chars(&chars_of(ext));
    let s = string_of(&low);
    str_eq(s.as_str(), want)
}

/// Groups the listed files by stem, in order of first appearance.
#[verifier::loop_isolation(false)]
fn group_files(files: &[HistoryFile]) -> (g: Vec<HistoryItem>)
    requires
        total_size(files@) <= u64::MAX,
    ensures
        forall|j: int| 0 <= j < g@.len() ==> item_of(files@, #[trigger] g@[j]),
        forall|s: Seq<char>| has_stem(files@, s) ==> exists|j: int| 0 <= j < g@.len() && (#[trigger] g@[j]).name@ == s,
        forall|j: int, l: int| 0 <= j < l < g@.len() ==> (#[trigger] g@[j]).name@ != (#[trigger] g@[l]).name@,
{
    let mut g: Vec<HistoryItem> = Vec::new();
    let mut i: usize = 0;
    while i < files.len()
        invariant
            i <= files@.len(),
            forall|j: int| 0 <= j < g@.len() ==> item_of(files@.take(i as int), #[trigger] g@[j]),
            forall|s: Seq<char>| has_stem(files@.take(i as int), s) ==> exists|j: int| 0 <= j < g@.len() && (#[trigger] g@[j]).name@ == s,
            forall|j: int, l: int| 0 <= j < l < g@.len() ==> (#[trigger] g@[j]).name@ != (#[trigger] g@[l]).name@,
        decreases files@.len() - i,
    {
        let ghost pre = files@.take(i as int);
        let ghost cur = files@.take(i + 1);
        assert(cur.drop_last() =~= pre);
        assert(cur.last() == files@[i as int]);
        let f = &files[i];
        let is_log = ext_is(f.ext.as_str(), "log");
        let is_png = ext_is(f.ext.as_str(), "png");
        proof {
            reveal_strlit("log");
            reveal_strlit("png");
            lemma_total_prefix(files@, i + 1);
        }
        if is_log || is_png {
            let mut j: usize = 0;
            let mut found = false;
            while j < g.len() && !found
                invariant
                    j <= g@.len(),
                    found ==> j < g@.len() && g@[j as int].name@ == f.stem@,
                    forall|l: int| 0 <= l < j ==> (#[trigger] g@[l]).name@ != f.stem@,
                decreases g@.len() - j + (if found { 0int } else { 1int }),
            {
                if str_eq(g[j].name.as_str(), f.stem.as_str()) {
                    found = true;
                } else {
                    j += 1;
                }
            }
            proof {
                lemma_sizes_bounded(cur, f.stem@);
            }
            if found {
                let ghost old_g = g@;
                let it = &g[j];
                let log_path = if is_log { Some(copy_text(&f.path)) } else { copy_opt(&it.log_path) };
                let image_path = if is_png { Some(copy_text(&f.path)) } else { copy_opt(&it.image_path) };
                let modified_ms = if f.modified_ms > it.modified_ms { f.modified_ms } else { it.modified_ms };
                let item = HistoryItem { name: copy_text(&it.name), log_path, image_path, size: it.size + f.size, modified_ms };
                g.set(j, item);
                assert forall|l: int| 0 <= l < g@.len() implies item_of(cur, #[trigger] g@[l]) by {
                    if l != j {
                        assert(g@[l] == old_g[l]);
                        assert(has_stem(cur, g@[l].name@)) by {
                            let k = choose|k: int| 0 <= k < pre.len() && kept(#[trigger] pre[k]) && pre[k].stem@ == g@[l].name@;
                            assert(cur[k] == pre[k]);
                        }
                    } else {
                        assert(kept(cur[i as int]));
                    }
                }
                assert forall|t: Seq<char>| has_stem(cur, t) implies exists|l: int| 0 <= l < g@.len() && (#[trigger] g@[l]).name@ == t by {
                    if t == f.stem@ {
                        assert(g@[j as int].name@ == t);
                    } else {
                        let k = choose|k: int| 0 <= k < cur.len() && kept(#[trigger] cur[k]) && cur[k].stem@ == t;
                        assert(k < pre.len());
                        assert(pre[k] == cur[k]);
                        assert(has_stem(pre, t));
                        let l = choose|l: int| 0 <= l < old_g.len() && (#[trigger] old_g[l]).name@ == t;
                        assert(g@[l].name@ == t);
                    }
                }
                assert forall|a: int, b: int| 0 <= a < b < g@.len() implies (#[trigger] g@[a]).name@ != (#[trigger] g@[b]).name@ by {
                    assert(old_g[a].name@ != old_g[b].name@);
                }
            } else {
                assert(!has_stem(pre, f.stem@)) by {
                    if has_stem(pre, f.stem@) {
                        let l = choose|l: int| 0 <= l < g@.len() && (#[trigger] g@[l]).name@ == f.stem@;
                    }
                }
                proof {
                    lemma_no_stem(pre, f.stem@);
                }
                let ghost old_g = g@;
                let log_path = if is_log { Some(copy_text(&f.path)) } else { None };
                let image_path = if is_png { Some(copy_text(&f.path)) } else { None };
                let modified_ms = if f.modified_ms > 0 { f.modified_ms } else { 0 };
                g.push(HistoryItem { name: copy_text(&f.stem), log_path, image_path, size: f.size, modified_ms });
                assert forall|l: int| 0 <= l < g@.len() implies item_of(cur, #[trigger] g@[l]) by {
                    if l < old_g.len() {
                        assert(g@[l] == old_g[l]);
                        assert(has_stem(cur, g@[l].name@)) by {
                            let k = choose|k: int| 0 <= k < pre.len() && kept(#[trigger] pre[k]) && pre[k].stem@ == g@[l].name@;
                            assert(cur[k] == pre[k]);
                        }
                    } else {
                        assert(kept(cur[i as int]));
                    }
                }
                assert forall|t: Seq<char>| has_stem(cur, t) implies exists|l: int| 0 <= l < g@.len() && (#[trigger] g@[l]).name@ == t by {
                    if t == f.stem@ {
                        assert(g@[old_g.len() as int].name@ == t);
                    } else {
                        let k = choose|k: int| 0 <= k < cur.len() && kept(#[trigger] cur[k]) && cur[k].stem@ == t;
                        assert(k < pre.len());
                        assert(pre[k] == cur[k]);
                        assert(has_stem(pre, t));
                        let l = choose|l: int| 0 <= l < old_g.len() && (#[trigger] old_g[l]).name@ == t;
                        assert(g@[l].name@ == t);
                    }
                }
                assert forall|a: int, b: int| 0 <= a < b < g@.len() implies (#[trigger] g@[a]).name@ != (#[trigger] g@[b]).name@ by {
                    if b < old_g.len() {
                        assert(old_g[a].name@ != old_g[b].name@);
                    } else {
                        assert(g@[a] == old_g[a]);
                    }
                }
            }
        } else {
            assert forall|l: int| 0 <= l < g@.len() implies item_of(cur, #[trigger] g@[l]) by {
                assert(has_stem(cur, g@[l].name@)) by {
                    let k = choose|k: int| 0 <= k < pre.len() && kept(#[trigger] pre[k]) && pre[k].stem@ == g@[l].name@;
                    assert(cur[k] == pre[k]);
                }
            }
            assert forall|t: Seq<char>| has_stem(cur, t) implies exists|l: int| 0 <= l < g@.len() && (#[trigger] g@[l]).name@ == t by {
                let k = choose|k: int| 0 <= k < cur.len() && kept(#[trigger] cur[k]) && cur[k].stem@ == t;
                assert(k < pre.len());
                assert(pre[k] == cur[k]);
                assert(has_stem(pre, t));
            }
        }
        i += 1;
    }
    assert(files@.take(files@.len() as int) =~= files@);
    g
}

proof fn lemma_before_transitive(a: HistoryItem, b: HistoryItem, c: HistoryItem)
    requires
        listed_before(a, b),
        listed_before(b, c),
    ensures
        listed_before(a, c),
{
    if a.modified_ms == b.modified_ms && b.modified_ms == c.modified_ms {
        lemma_lex_transitive(a.name@, b.name@, c.name@);
    }
}

proof fn lemma_before_total(a: HistoryItem, b: HistoryItem)
    requires
        a.name@ != b.name@,
    ensures
        listed_before(a, b) || listed_before(b, a),
{
    lemma_lex_total(a.name@, b.name@);
}

/// How many flags are still clear.
spec fn count_false(s: Seq<bool>) -> nat
    decreases s.len(),
{
    if s.len() == 0 {
        0
    } else {
        count_false(s.drop_last()) + if s.last() { 0nat } else { 1nat }
    }
}

proof fn lemma_count_update(s: Seq<bool>, i: int)
    requires
        0 <= i < s.len(),
        !s[i],
    ensures
        count_false(s.update(i, true)) + 1 == count_false(s),
    decreases s.len(),
{
    let u = s.update(i, true);
    if i == s.len() - 1 {
        assert(u.drop_last() =~= s.drop_last());
    } else {
        assert(u.drop_last() =~= s.drop_last().update(i, true));
        lemma_count_update(s.drop_last(), i);
    }
}

proof fn lemma_count_zero(s: Seq<bool>)
    requires
        count_false(s) == 0,
    ensures
        forall|x: int| 0 <= x < s.len() ==> s[x],
    decreases s.len(),
{
    if s.len() > 0 {
        lemma_count_zero(s.drop_last());
        assert forall|x: int| 0 <= x < s.len() implies s[x] by {
            if x < s.len() - 1 {
                assert(s.drop_last()[x] == s[x]);
            }
        }
    }
}

proof fn lemma_count_all(s: Seq<bool>)
    requires
        forall|x: int| 0 <= x < s.len() ==> !s[x],
    ensures
        count_false(s) == s.len(),
    decreases s.len(),
{
    if s.len() > 0 {
        lemma_count_all(s.drop_last());
    }
}

proof fn lemma_count_none(s: Seq<bool>)
    requires
        forall|x: int| 0 <= x < s.len() ==> s[x],
    ensures
        count_false(s) == 0,
    decreases s.len(),
{
    if s.len() > 0 {
        lemma_count_none(s.drop_last());
    }
}

/// The two entries show the same.
pub open spec fn same_item(a: HistoryItem, b: HistoryItem) -> bool {
    &&& a.name@ == b.name@
    &&& opt_view(a.log_path) == opt_view(b.log_path)
    &&& opt_view(a.image_path) == opt_view(b.image_path)
    &&& a.size == b.size
    &&& a.modified_ms == b.modified_ms
}

fn copy_item(it: &HistoryItem) -> (r: HistoryItem)
    ensures
        same_item(r, *it),
{
    HistoryItem {
        name: copy_text(&it.name),
        log_path: copy_opt(&it.log_path),
        image_path: copy_opt(&it.image_path),
        size: it.size,
        modified_ms: it.modified_ms,
    }
}

fn before_exec(a: &HistoryItem, b: &HistoryItem) -> (r: bool)
    ensures
        r == listed_before(*a, *b),
{
    if a.modified_ms > b.modified_ms {
        return true;
    }
    a.modified_ms == b.modified_ms && lex_less_exec(&chars_of(a.name.as_str()), &chars_of(b.name.as_str()))
}

/// The history list of the files found in the results directory: one entry
/// per stem of a `.log` or `.png` file (extension in any case), holding the
/// last such log and image, their total size and the latest modification
/// time (not below 0); newest first, then by name in code-point order.
#[verifier::loop_isolation(false)]
pub fn history_items(files: &[HistoryFile]) -> (r: Vec<HistoryItem>)
    requires
        total_size(files@) <= u64::MAX,
    ensures
        forall|k: int| 0 <= k < r@.len() ==> item_of(files@, #[trigger] r@[k]),
        forall|s: Seq<char>| has_stem(files@, s) ==> exists|k: int| 0 <= k < r@.len() && (#[trigger] r@[k]).name@ == s,
        forall|k: int, l: int| 0 <= k < l < r@.len() ==> listed_before(#[trigger] r@[k], #[trigger] r@[l]),
{
    let g = group_files(files);
    let n = g.len();
    let mut taken: Vec<bool> = Vec::new();
    let mut t: usize = 0;
    while t < n
        invariant
            t <= n,
            taken@.len() == t,
            forall|k: int| 0 <= k < t ==> !taken@[k],
        decreases n - t,
    {
        taken.push(false);
        t += 1;
    }
    proof {
        lemma_count_all(taken@);
    }
    let mut out: Vec<HistoryItem> = Vec::new();
    let ghost mut picked: Seq<usize> = Seq::empty();
    while out.len() < n
        invariant
            n == g@.len(),
            taken@.len() == n,
            out@.len() + count_false(taken@) == n,
            out@.len() == picked.len() <= n,
            forall|k: int| 0 <= k < picked.len() ==> #[trigger] picked[k] < n && taken@[picked[k] as int],
            forall|k: int| 0 <= k < out@.len() ==> same_item(#[trigger] out@[k], g@[picked[k] as int]),
            forall|k: int, l: int| 0 <= k < l < picked.len() ==> listed_before(g@[#[trigger] picked[k] as int], g@[#[trigger] picked[l] as int]),
            forall|k: int, x: int| 0 <= k < picked.len() && 0 <= x < n && !taken@[x] ==> listed_before(g@[#[trigger] picked[k] as int], #[trigger] g@[x]),
            forall|x: int| 0 <= x < n && taken@[x] ==> exists|k: int| 0 <= k < picked.len() && picked[k] == x,
        decreases n - out@.len(),
    {
        let mut best: usize = n;
        let mut i: usize = 0;
        while i < n
            invariant
                i <= n,
                n == g@.len(),
                taken@.len() == n,
                best == n || (best < i && !taken@[best as int]),
                best < n ==> forall|x: int| 0 <= x < i && !taken@[x] && x != best ==> listed_before(g@[best as int], #[trigger] g@[x]),
                best == n ==> forall|x: int| 0 <= x < i ==> taken@[x],
            decreases n - i,
        {
            if !taken[i] {
                if best == n {
                    best = i;
                } else {
                    let better = before_exec(&g[i], &g[best]);
                    proof {
                        assert(g@[i as int].name@ != g@[best as int].name@);
                        if better {
                            assert forall|x: int| 0 <= x < i + 1 && !taken@[x] && x != i implies listed_before(g@[i as int], #[trigger] g@[x]) by {
                                if x != best {
                                    lemma_before_transitive(g@[i as int], g@[best as int], g@[x]);
                                }
                            }
                        } else {
                            lemma_before_total(g@[i as int], g@[best as int]);
                        }
                    }
                    if better {
                        best = i;
                    }
                }
            }
            i += 1;
        }
        if best == n {
            proof {
                lemma_count_none(taken@);
            }
            assert(false);
        }
        let ghost old_picked = picked;
        let ghost old_taken = taken@;
        out.push(copy_item(&g[best]));
        proof {
            picked = picked.push(best);
        }
        proof {
            lemma_count_update(taken@, best as int);
        }
        taken.set(best, true);
        assert forall|x: int| 0 <= x < n && taken@[x] implies exists|k: int| 0 <= k < picked.len() && picked[k] == x by {
            if x == best {
                assert(picked[picked.len() - 1] == x);
            } else {
                assert(old_taken[x]);
                let k = choose|k: int| 0 <= k < old_picked.len() && old_picked[k] == x;
                assert(picked[k] == x);
            }
        }
        assert forall|k: int, l: int| 0 <= k < l < picked.len() implies listed_before(g@[#[trigger] picked[k] as int], g@[#[trigger] picked[l] as int]) by {
            if l == picked.len() - 1 {
                assert(!old_taken[best as int]);
                assert(picked[k] == old_picked[k]);
            } else {
                assert(picked[k] == old_picked[k]);
                assert(picked[l] == old_picked[l]);
            }
        }
        assert forall|k: int, x: int| 0 <= k < picked.len() && 0 <= x < n && !taken@[x] implies listed_before(g@[#[trigger] picked[k] as int], #[trigger] g@[x]) by {
            if k == picked.len() - 1 {
                assert(x != best);
            } else {
                assert(picked[k] == old_picked[k]);
                assert(x != best);
                assert(!old_taken[x]);
            }
        }
    }
    assert forall|s: Seq<char>| has_stem(files@, s) implies exists|k: int| 0 <= k < out@.len() && (#[trigger] out@[k]).name@ == s by {
        let j = choose|j: int| 0 <= j < g@.len() && (#[trigger] g@[j]).name@ == s;
        lemma_count_zero(taken@);
        let k = choose|k: int| 0 <= k < picked.len() && picked[k] == j;
        assert(out@[k].name@ == s);
    }
    out
}

proof fn lemma_lex_irreflexive(a: Seq<char>)
    ensures
        !lex_less(a, a),
    decreases a.len(),
{
    if a.len() > 0 {
        lemma_lex_irreflexive(a.skip(1));
    }
}

/// A history list of the files, in history order, names each result once.
pub proof fn law_history_names_distinct(files: Seq<HistoryFile>, r: Seq<HistoryItem>)
    requires
        forall|k: int| 0 <= k < r.len() ==> item_of(files, #[trigger] r[k]),
        forall|k: int, l: int| 0 <= k < l < r.len() ==> listed_before(#[trigger] r[k], #[trigger] r[l]),
    ensures
        forall|k: int, l: int| 0 <= k < l < r.len() ==> (#[trigger] r[k]).name@ != (#[trigger] r[l]).name@,
{
    assert forall|k: int, l: int| 0 <= k < l < r.len() implies (#[trigger] r[k]).name@ != (#[trigger] r[l]).name@ by {
        assert(listed_before(r[k], r[l]));
        assert(item_of(files, r[k]));
        assert(item_of(files, r[l]));
        if r[k].name@ == r[l].name@ {
            lemma_lex_irreflexive(r[k].name@);
        }
    }
}

/// A history list in history order is newest first; entries of one time
/// come in name order.
pub proof fn law_history_newest_first(r: Seq<HistoryItem>)
    requires
        forall|k: int, l: int| 0 <= k < l < r.len() ==> listed_before(#[trigger] r[k], #[trigger] r[l]),
    ensures
        forall|k: int, l: int| 0 <= k < l < r.len() ==> (#[trigger] r[k]).modified_ms >= (#[trigger] r[l]).modified_ms,
        forall|k: int, l: int| 0 <= k < l < r.len() && (#[trigger] r[k]).modified_ms == (#[trigger] r[l]).modified_ms
            ==> lex_less(r[k].name@, r[l].name@),
{
}

} // verus!
