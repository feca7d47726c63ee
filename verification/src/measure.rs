//! The integer side of a node measurement: the fixed bandwidth window and its
//! twenty spark slots, the trimmed latency mean and the geo-lookup block.

use vstd::prelude::*;

use crate::json::{json_member, json_member_of, text_or, text_or_default, JsonField};

verus! {

/// Latency probes per node.
pub const LATENCY_PROBES: usize = 5;
/// Concurrent download connections.
pub const STREAMS: usize = 6;
/// Warm-up before any slot is written, in milliseconds.
pub const WARMUP_MS: u64 = 1000;
/// Length of one spark slot, in milliseconds.
pub const SAMPLE_SLOT_MS: u64 = 500;
/// Number of spark slots of a measurement.
pub const SPARK_SLOTS: usize = 20;
/// Whole measurement window: the warm-up and twenty slots.
pub const MEASURE_MAX_MS: u64 = 11000;
/// Interval between two samples, in milliseconds.
pub const TICK_MS: u64 = 250;

/// The slot that a sample taken `after_ms` milliseconds after the warm-up
/// belongs to, the last slot catching everything later.
pub open spec fn slot_of(after_ms: int) -> int {
    if after_ms / 500 < 19 {
        after_ms / 500
    } else {
        19
    }
}

/// The slot index for a sample taken `after_ms` after the warm-up.
pub fn slot_index(after_ms: u64) -> (r: usize)
    ensures
        r == slot_of(after_ms as int),
        r < 20,
{
    let q = after_ms / SAMPLE_SLOT_MS;
    if q < 19 {
        q as usize
    } else {
        19
    }
}

/// `raw` with the slots from `from` up to, not including, `to` set to `v`.
pub open spec fn filled(raw: Seq<u64>, from: int, to: int, v: u64) -> Seq<u64> {
    Seq::new(raw.len(), |j: int| if from <= j < to { v } else { raw[j] })
}

/// Where the write cursor stands after writing through slot `idx`.
pub open spec fn cursor_after(sample_i: int, idx: int) -> int {
    if sample_i <= idx {
        idx + 1
    } else {
        sample_i
    }
}

/// Writes `v` into every slot from the cursor `sample_i` through slot `idx`
/// and returns the new cursor; slots already written are kept.
pub fn fill_through(raw: &mut [u64; 20], sample_i: usize, idx: usize, v: u64) -> (next: usize)
    requires
        sample_i <= 20,
        idx < 20,
    ensures
        next == cursor_after(sample_i as int, idx as int),
        next <= 20,
        final(raw)@ == filled(old(raw)@, sample_i as int, next as int, v),
{
    let mut i = sample_i;
    let ghost start = raw@;
    while i <= idx && i < 20
        invariant
            sample_i <= i <= 20,
            i <= cursor_after(sample_i as int, idx as int),
            idx < 20,
            raw@.len() == 20,
            start.len() == 20,
            raw@ == filled(start, sample_i as int, i as int, v),
        decreases 20 - i,
    {
        raw[i] = v;
        i = i + 1;
        assert(raw@ =~= filled(start, sample_i as int, i as int, v));
    }
    assert(raw@ =~= filled(start, sample_i as int, i as int, v));
    i
}

/// The index of the first non-zero slot, if any.
pub open spec fn first_nonzero(s: Seq<u64>) -> Option<int>
    decreases s.len(),
{
    if s.len() == 0 {
        None
    } else if s[0] > 0 {
        Some(0)
    } else {
        match first_nonzero(s.drop_first()) {
            Some(k) => Some(k + 1),
            None => None,
        }
    }
}

proof fn lemma_first_nonzero(s: Seq<u64>)
    ensures
        match first_nonzero(s) {
            Some(k) => 0 <= k < s.len() && s[k] > 0 && forall|j: int| 0 <= j < k ==> s[j] == 0,
            None => forall|j: int| 0 <= j < s.len() ==> s[j] == 0,
        },
    decreases s.len(),
{
    if s.len() > 0 && s[0] == 0 {
        lemma_first_nonzero(s.drop_first());
        match first_nonzero(s.drop_first()) {
            Some(k) => {
                assert forall|j: int| 0 <= j < k + 1 implies s[j] == 0 by {
                    if j > 0 {
                        assert(s[j] == s.drop_first()[j - 1]);
                    }
                }
            },
            None => {
                assert forall|j: int| 0 <= j < s.len() implies s[j] == 0 by {
                    if j > 0 {
                        assert(s[j] == s.drop_first()[j - 1]);
                    }
                }
            },
        }
    }
}

/// The slots after leading zeros are replaced by the first non-zero value;
/// unchanged when every slot is zero.
pub open spec fn backfilled(s: Seq<u64>) -> Seq<u64> {
    match first_nonzero(s) {
        Some(k) => filled(s, 0, k, s[k]),
        None => s,
    }
}

/// Fills the leading empty slots with the first measured value, which the
/// first slot right after the warm-up often lacks.
pub fn backfill_leading_zeros(raw: &mut [u64; 20])
    ensures
        final(raw)@ == backfilled(old(raw)@),
{
    proof {
        lemma_first_nonzero(raw@);
    }
    let ghost start = raw@;
    let mut k: usize = 0;
    while k < 20 && raw[k] == 0
        invariant
            k <= 20,
            raw@ == start,
            raw@.len() == 20,
            forall|j: int| 0 <= j < k ==> raw@[j] == 0,
        decreases 20 - k,
    {
        k = k + 1;
    }
    if k < 20 {
        assert(first_nonzero(start) == Some(k as int)) by {
            match first_nonzero(start) {
                Some(f) => {
                    if f < k {
                        assert(start[f] == 0);
                    } else if f > k {
                        assert(start[k as int] == 0);
                    }
                },
                None => {
                    assert(start[k as int] == 0);
                },
            }
        }
        let first = raw[k];
        let _ = fill_through(raw, 0, k, first);
        assert(raw@ =~= filled(start, 0, k as int, start[k as int])) by {
            assert(start[k as int] == first);
        }
    } else {
        assert(first_nonzero(start) is None) by {
            match first_nonzero(start) {
                Some(f) => {
                    assert(start[f] == 0);
                },
                None => {},
            }
        }
    }
}

/// The largest slot value (0 for no slots).
pub open spec fn seq_max(s: Seq<u64>) -> u64
    decreases s.len(),
{
    if s.len() == 0 {
        0
    } else {
        let m = seq_max(s.drop_last());
        if s.last() > m {
            s.last()
        } else {
            m
        }
    }
}

proof fn lemma_seq_max(s: Seq<u64>)
    ensures
        forall|j: int| 0 <= j < s.len() ==> s[j] <= seq_max(s),
        s.len() > 0 ==> exists|j: int| 0 <= j < s.len() && s[j] == seq_max(s),
        s.len() == 0 ==> seq_max(s) == 0,
    decreases s.len(),
{
    if s.len() > 0 {
        lemma_seq_max(s.drop_last());
        assert forall|j: int| 0 <= j < s.len() implies s[j] <= seq_max(s) by {
            if j < s.len() - 1 {
                assert(s[j] == s.drop_last()[j]);
            }
        }
        if s.last() > seq_max(s.drop_last()) {
            assert(s[s.len() - 1] == seq_max(s));
        } else if s.len() > 1 {
            let j = choose|j: int| 0 <= j < s.drop_last().len() && s.drop_last()[j] == seq_max(s.drop_last());
            assert(s[j] == seq_max(s));
        } else {
            assert(s[0] == seq_max(s));
        }
    }
}

/// The peak slot value.
pub fn peak_of(raw: &[u64; 20]) -> (r: u64)
    ensures
        r == seq_max(raw@),
{
    let mut m: u64 = 0;
    let mut i: usize = 0;
    while i < 20
        invariant
            i <= 20,
            raw@.len() == 20,
            m == seq_max(raw@.subrange(0, i as int)),
        decreases 20 - i,
    {
        assert(raw@.subrange(0, i as int + 1).drop_last() =~= raw@.subrange(0, i as int));
        if raw[i] > m {
            m = raw[i];
        }
        i = i + 1;
    }
    assert(raw@.subrange(0, 20) =~= raw@);
    m
}

/// A sample taken when the window is over writes every slot that is still
/// empty: the cursor reaches the twentieth slot.
pub proof fn law_window_end_reaches_last_slot(sample_i: int, elapsed_ms: int)
    requires
        0 <= sample_i < 20,
        elapsed_ms >= MEASURE_MAX_MS,
    ensures
        cursor_after(sample_i, slot_of(elapsed_ms - WARMUP_MS)) == 20,
{
}

/// Back-filling never changes a measured (non-zero) slot, keeps the length,
/// and leaves the first slot non-zero whenever any slot is.
pub proof fn law_backfill_keeps_measured_slots(s: Seq<u64>)
    ensures
        backfilled(s).len() == s.len(),
        forall|j: int| 0 <= j < s.len() && s[j] > 0 ==> backfilled(s)[j] == s[j],
        (exists|j: int| 0 <= j < s.len() && s[j] > 0) ==> backfilled(s)[0] > 0,
{
    lemma_first_nonzero(s);
    match first_nonzero(s) {
        Some(k) => {
            assert forall|j: int| 0 <= j < s.len() && s[j] > 0 implies backfilled(s)[j] == s[j] by {
                assert(j >= k);
            }
        },
        None => {
            assert forall|j: int| 0 <= j < s.len() implies !(s[j] > 0) by {}
        },
    }
}

/// The reported peak is one of the slots, and no slot exceeds it: the peak
/// speed shown is always a value the spark bars show.
pub proof fn law_peak_is_a_slot(s: Seq<u64>)
    requires
        s.len() > 0,
    ensures
        exists|j: int| 0 <= j < s.len() && s[j] == seq_max(s),
        forall|j: int| 0 <= j < s.len() ==> s[j] <= seq_max(s),
{
    lemma_seq_max(s);
}

/// The state of the bandwidth window between two samples.
#[derive(Debug)]
pub struct SampleMeter {
    /// The twenty spark slots, in bytes per second.
    pub raw_speed: [u64; 20],
    /// The next slot to write.
    pub sample_i: usize,
    /// The largest value written to a slot.
    pub peak_raw: u64,
    /// Whether the warm-up is over.
    pub warmup_ended: bool,
    /// Bytes received when the warm-up ended.
    pub bytes_at_warmup_end: u64,
}

impl SampleMeter {
    /// Slots past the cursor are empty, the peak bounds every slot, and
    /// nothing is written before the warm-up ends.
    pub open spec fn wf(&self) -> bool {
        &&& self.sample_i <= 20
        &&& forall|j: int| 0 <= j < 20 ==> #[trigger] self.raw_speed@[j] <= self.peak_raw
        &&& forall|j: int| self.sample_i <= j < 20 ==> #[trigger] self.raw_speed@[j] == 0
        &&& !self.warmup_ended ==> self.sample_i == 0
    }

    /// A window before its first sample.
    pub fn new() -> (r: SampleMeter)
        ensures
            r.wf(),
            r.sample_i == 0,
            r.peak_raw == 0,
            !r.warmup_ended,
            r.bytes_at_warmup_end == 0,
            forall|j: int| 0 <= j < 20 ==> #[trigger] r.raw_speed@[j] == 0,
    {
        SampleMeter { raw_speed: [0u64; 20], sample_i: 0, peak_raw: 0, warmup_ended: false, bytes_at_warmup_end: 0 }
    }

    /// One sample: `elapsed_ms` since the start, `received` bytes so far and
    /// the smoothed rate `v`. The warm-up ends at the first sample at or past
    /// it; afterwards every slot up to the sample's slot gets `v`.
    pub fn on_sample(&mut self, elapsed_ms: u64, received: u64, v: u64)
        requires
            old(self).wf(),
        ensures
            final(self).wf(),
            final(self).warmup_ended == (old(self).warmup_ended || elapsed_ms >= WARMUP_MS),
            final(self).bytes_at_warmup_end == (if !old(self).warmup_ended && elapsed_ms >= WARMUP_MS {
                received
            } else {
                old(self).bytes_at_warmup_end
            }),
            final(self).sample_i == (if final(self).warmup_ended && old(self).sample_i < 20 {
                cursor_after(
                    old(self).sample_i as int,
                    slot_of(if elapsed_ms >= WARMUP_MS { elapsed_ms - WARMUP_MS } else { 0 }),
                )
            } else {
                old(self).sample_i as int
            }),
            final(self).raw_speed@ == filled(old(self).raw_speed@, old(self).sample_i as int, final(self).sample_i as int, v),
            final(self).peak_raw == (if final(self).sample_i > old(self).sample_i && v > old(self).peak_raw {
                v
            } else {
                old(self).peak_raw
            }),
    {
        if !self.warmup_ended && elapsed_ms >= WARMUP_MS {
            self.warmup_ended = true;
            self.bytes_at_warmup_end = received;
        }
        if self.warmup_ended && self.sample_i < 20 {
            let idx = slot_index(elapsed_ms.saturating_sub(WARMUP_MS));
            let old_i = self.sample_i;
            let next = fill_through(&mut self.raw_speed, old_i, idx, v);
            self.sample_i = next;
            if next > old_i && v > self.peak_raw {
                self.peak_raw = v;
            }
        }
    }

    /// Bytes received inside the measured part of the window so far.
    pub fn measured_bytes(&self, received: u64) -> (r: u64)
        ensures
            r == (if self.warmup_ended && received > self.bytes_at_warmup_end {
                received - self.bytes_at_warmup_end
            } else {
                0
            }),
    {
        if self.warmup_ended {
            received.saturating_sub(self.bytes_at_warmup_end)
        } else {
            0
        }
    }

    /// Bytes that count for the final average: after the warm-up, or all of
    /// them when the warm-up never ended.
    pub fn final_measured_bytes(&self, received: u64) -> (r: u64)
        ensures
            r == (if !self.warmup_ended {
                received as int
            } else if received > self.bytes_at_warmup_end {
                received - self.bytes_at_warmup_end
            } else {
                0
            }),
    {
        if self.warmup_ended {
            received.saturating_sub(self.bytes_at_warmup_end)
        } else {
            received
        }
    }

    /// Ends the window. Unless cancelled, the remaining slots get `v` and the
    /// leading empty slots take the first measured value; the peak is then
    /// the largest slot.
    pub fn finish(&mut self, cancelled: bool, v: u64)
        requires
            old(self).wf(),
        ensures
            final(self).warmup_ended == old(self).warmup_ended,
            final(self).bytes_at_warmup_end == old(self).bytes_at_warmup_end,
            cancelled ==> final(self).raw_speed@ == old(self).raw_speed@,
            !cancelled ==> final(self).sample_i == 20,
            !cancelled ==> final(self).raw_speed@ == backfilled(
                filled(old(self).raw_speed@, old(self).sample_i as int, 20, v),
            ),
            final(self).peak_raw == seq_max(final(self).raw_speed@),
    {
        if !cancelled {
            let old_i = self.sample_i;
            let next = fill_through(&mut self.raw_speed, old_i, 19, v);
            self.sample_i = next;
            backfill_leading_zeros(&mut self.raw_speed);
        }
        self.peak_raw = peak_of(&self.raw_speed);
    }

    /// Whether the window is over at `elapsed_ms`.
    pub fn window_over(elapsed_ms: u64) -> (r: bool)
        ensures
            r == (elapsed_ms >= MEASURE_MAX_MS),
    {
        elapsed_ms >= MEASURE_MAX_MS
    }
}

/// A window's outcome as the table shows it: the spark slots, the average and
/// peak rates as text, and the bytes received.
#[derive(Debug)]
pub struct DownloadProgress {
    pub raw_speed: [u64; 20],
    pub avg_speed: String,
    pub max_speed: String,
    pub total_recv_bytes: u64,
}

/// Records the answer `ms` of latency probe `i`: it goes to slot `i` of the
/// raw site pings and is appended to the samples.
pub fn record_probe(rawms: &mut [i32; 10], samples: &mut Vec<i32>, i: usize, ms: i32)
    requires
        i < LATENCY_PROBES,
    ensures
        final(rawms)@ == old(rawms)@.update(i as int, ms),
        final(samples)@ == old(samples)@.push(ms),
{
    rawms[i] = ms;
    samples.push(ms);
}

/// The raw pings shown for a node: the first probes' slots, the rest 0.
pub fn raw_ping_of(rawms: &[i32; 10]) -> (r: [i32; 6])
    ensures
        forall|j: int| 0 <= j < LATENCY_PROBES ==> #[trigger] r@[j] == rawms@[j],
        forall|j: int| LATENCY_PROBES <= j < 6 ==> #[trigger] r@[j] == 0,
{
    let mut r = [0i32; 6];
    let mut j: usize = 0;
    while j < LATENCY_PROBES
        invariant
            j <= LATENCY_PROBES,
            rawms@.len() == 10,
            r@.len() == 6,
            forall|k: int| 0 <= k < j ==> #[trigger] r@[k] == rawms@[k],
            forall|k: int| j <= k < 6 ==> #[trigger] r@[k] == 0,
        decreases LATENCY_PROBES - j,
    {
        r[j] = rawms[j];
        j += 1;
    }
    r
}

/// The largest of the samples (0 when there are none).
pub open spec fn max_sample(s: Seq<i32>) -> int
    decreases s.len(),
{
    if s.len() == 0 {
        0
    } else if s.len() == 1 {
        s[0] as int
    } else {
        let m = max_sample(s.drop_last());
        if s.last() > m {
            s.last() as int
        } else {
            m
        }
    }
}

/// The sum of the samples.
pub open spec fn sum_samples(s: Seq<i32>) -> int
    decreases s.len(),
{
    if s.len() == 0 {
        0
    } else {
        sum_samples(s.drop_last()) + s.last()
    }
}

proof fn lemma_sum_bounds(s: Seq<i32>)
    ensures
        -0x8000_0000 * s.len() <= sum_samples(s) <= 0x7fff_ffff * s.len(),
    decreases s.len(),
{
    if s.len() > 0 {
        lemma_sum_bounds(s.drop_last());
    }
}

/// The latency of a node as a fraction: with three or more samples the worst
/// one is dropped before averaging; `None` without samples.
pub open spec fn latency_fraction(s: Seq<i32>) -> Option<(int, int)> {
    if s.len() == 0 {
        None
    } else if s.len() >= 3 {
        Some((sum_samples(s) - max_sample(s), s.len() - 1))
    } else {
        Some((sum_samples(s), s.len() as int))
    }
}

/// Numerator and denominator of the trimmed latency mean of the samples.
pub fn latency_parts(samples: &[i32]) -> (r: Option<(i64, i64)>)
    requires
        samples@.len() <= 0x7fff_ffff,
    ensures
        match (r, latency_fraction(samples@)) {
            (Some((n, d)), Some((sn, sd))) => n == sn && d == sd,
            (None, None) => true,
            _ => false,
        },
{
    if samples.len() == 0 {
        return None;
    }
    let mut sum: i64 = 0;
    let mut worst: i64 = samples[0] as i64;
    let mut i: usize = 0;
    while i < samples.len()
        invariant
            i <= samples@.len() <= 0x7fff_ffff,
            samples@.len() > 0,
            sum == sum_samples(samples@.subrange(0, i as int)),
            i > 0 ==> worst == max_sample(samples@.subrange(0, i as int)),
            i == 0 ==> worst == samples@[0],
            -0x8000_0000 <= worst <= 0x7fff_ffff,
        decreases samples@.len() - i,
    {
        proof {
            lemma_sum_bounds(samples@.subrange(0, i as int + 1));
            assert(samples@.subrange(0, i as int + 1).drop_last() =~= samples@.subrange(0, i as int));
        }
        sum = sum + samples[i] as i64;
        if i > 0 && samples[i] as i64 > worst {
            worst = samples[i] as i64;
        }
        i = i + 1;
    }
    assert(samples@.subrange(0, samples@.len() as int) =~= samples@);
    proof {
        lemma_sum_bounds(samples@);
    }
    if samples.len() >= 3 {
        Some((sum - worst, (samples.len() - 1) as i64))
    } else {
        Some((sum, samples.len() as i64))
    }
}

/// The address and location of one side of a connection, as a geo lookup
/// reports them.
#[derive(Debug)]
pub struct GeoBlock {
    pub address: String,
    pub info: String,
    pub ip: String,
    pub country: String,
    pub city: String,
    pub organization: String,
    pub country_code: String,
}

/// `N/A`
pub open spec fn na_text() -> Seq<char> {
    seq!['N', '/', 'A']
}

/// `N/A N/A, N/A`
pub open spec fn na_info() -> Seq<char> {
    na_text() + seq![' '] + na_text() + seq![',', ' '] + na_text()
}

/// Whether a block holds exactly the given texts.
pub open spec fn geo_is(
    g: GeoBlock,
    address: Seq<char>,
    info: Seq<char>,
    ip: Seq<char>,
    country: Seq<char>,
    city: Seq<char>,
    organization: Seq<char>,
    country_code: Seq<char>,
) -> bool {
    &&& g.address@ == address
    &&& g.info@ == info
    &&& g.ip@ == ip
    &&& g.country@ == country
    &&& g.city@ == city
    &&& g.organization@ == organization
    &&& g.country_code@ == country_code
}

/// The organization shown: the `organization` member, or `isp` when that
/// member is missing; `N/A` when the one read is not a string.
pub open spec fn org_text(organization: JsonField, isp: JsonField) -> Seq<char> {
    match organization {
        JsonField::Absent => text_or(isp, na_text()),
        _ => text_or(organization, na_text()),
    }
}

/// Whether `g` is the block for the given members of a lookup answer.
pub open spec fn geo_of_members(
    g: GeoBlock,
    fallback: Seq<char>,
    ip: JsonField,
    country: JsonField,
    city: JsonField,
    organization: JsonField,
    isp: JsonField,
    country_code: JsonField,
) -> bool {
    let ip_t = text_or(ip, fallback);
    let country_t = text_or(country, na_text());
    let city_t = text_or(city, na_text());
    let org_t = org_text(organization, isp);
    geo_is(
        g,
        ip_t,
        country_t + seq![' '] + city_t + seq![',', ' '] + org_t,
        ip_t,
        country_t,
        city_t,
        org_t,
        text_or(country_code, Seq::empty()),
    )
}

/// The block for a lookup that gave no answer: the fallback address and
/// `N/A N/A, N/A`.
pub fn geo_unavailable(fallback: &str) -> (g: GeoBlock)
    ensures
        geo_is(g, fallback@, na_info(), Seq::empty(), Seq::empty(), Seq::empty(), Seq::empty(), Seq::empty()),
{
    let mut info = String::new();
    crate::text::push_str_chars(&mut info, &['N', '/', 'A', ' ', 'N', '/', 'A', ',', ' ', 'N', '/', 'A']);
    assert(info@ =~= na_info());
    GeoBlock {
        address: crate::text::string_of(&crate::text::chars_of(fallback)),
        info,
        ip: String::new(),
        country: String::new(),
        city: String::new(),
        organization: String::new(),
        country_code: String::new(),
    }
}

/// The block for the members of a lookup answer: missing or non-string
/// members read as `N/A` (the address as `fallback`, the country code as
/// empty), and the info line is `country city, organization`.
pub fn geo_from_members(
    fallback: &str,
    ip: &JsonField,
    country: &JsonField,
    city: &JsonField,
    organization: &JsonField,
    isp: &JsonField,
    country_code: &JsonField,
) -> (g: GeoBlock)
    ensures
        geo_of_members(g, fallback@, *ip, *country, *city, *organization, *isp, *country_code),
{
    let na = "N/A";
    proof {
        reveal_strlit("N/A");
    }
    assert(na@ =~= na_text());
    let ip_t = text_or_default(ip, fallback);
    let country_t = text_or_default(country, na);
    let city_t = text_or_default(city, na);
    let org_t = match organization {
        JsonField::Absent => text_or_default(isp, na),
        _ => text_or_default(organization, na),
    };
    let mut info = crate::text::string_of(&crate::text::chars_of(country_t.as_str()));
    crate::text::push_char(&mut info, ' ');
    crate::text::push_str_chars(&mut info, &crate::text::chars_of(city_t.as_str()));
    crate::text::push_char(&mut info, ',');
    crate::text::push_char(&mut info, ' ');
    crate::text::push_str_chars(&mut info, &crate::text::chars_of(org_t.as_str()));
    let address = crate::text::string_of(&crate::text::chars_of(ip_t.as_str()));
    proof {
        reveal_strlit("");
    }
    assert(""@ =~= Seq::<char>::empty());
    let cc = text_or_default(country_code, "");
    assert(info@ =~= country_t@ + seq![' '] + city_t@ + seq![',', ' '] + org_t@);
    GeoBlock { address, info, ip: ip_t, country: country_t, city: city_t, organization: org_t, country_code: cc }
}

/// The block for a lookup answer body (`None` when no answer came): the
/// members `ip`, `country`, `city`, `organization` (else `isp`) and
/// `country_code` of the JSON object; a body that is not JSON counts as no
/// answer.
pub fn parse_geo_body(body: Option<&[u8]>, fallback: &str) -> (g: GeoBlock)
    ensures
        match body {
            None => geo_is(g, fallback@, na_info(), Seq::empty(), Seq::empty(), Seq::empty(), Seq::empty(), Seq::empty()),
            Some(b) => match (
                json_member(b@, seq!['i', 'p']),
                json_member(b@, seq!['c', 'o', 'u', 'n', 't', 'r', 'y']),
                json_member(b@, seq!['c', 'i', 't', 'y']),
                json_member(b@, seq!['o', 'r', 'g', 'a', 'n', 'i', 'z', 'a', 't', 'i', 'o', 'n']),
                json_member(b@, seq!['i', 's', 'p']),
                json_member(b@, seq!['c', 'o', 'u', 'n', 't', 'r', 'y', '_', 'c', 'o', 'd', 'e']),
            ) {
                (Ok(ip), Ok(country), Ok(city), Ok(org), Ok(isp), Ok(cc)) => geo_of_members(
                    g,
                    fallback@,
                    ip,
                    country,
                    city,
                    org,
                    isp,
                    cc,
                ),
                _ => geo_is(g, fallback@, na_info(), Seq::empty(), Seq::empty(), Seq::empty(), Seq::empty(), Seq::empty()),
            },
        },
{
    match body {
        None => geo_unavailable(fallback),
        Some(b) => {
            proof {
                reveal_strlit("ip");
                reveal_strlit("country");
                reveal_strlit("city");
                reveal_strlit("organization");
                reveal_strlit("isp");
                reveal_strlit("country_code");
            }
            assert("ip"@ =~= seq!['i', 'p']);
            assert("country"@ =~= seq!['c', 'o', 'u', 'n', 't', 'r', 'y']);
            assert("city"@ =~= seq!['c', 'i', 't', 'y']);
            assert("organization"@ =~= seq!['o', 'r', 'g', 'a', 'n', 'i', 'z', 'a', 't', 'i', 'o', 'n']);
            assert("isp"@ =~= seq!['i', 's', 'p']);
            assert("country_code"@ =~= seq!['c', 'o', 'u', 'n', 't', 'r', 'y', '_', 'c', 'o', 'd', 'e']);
            let ip = json_member_of(b, "ip");
            let country = json_member_of(b, "country");
            let city = json_member_of(b, "city");
            let org = json_member_of(b, "organization");
            let isp = json_member_of(b, "isp");
            let cc = json_member_of(b, "country_code");
            match (ip, country, city, org, isp, cc) {
                (Ok(ip), Ok(country), Ok(city), Ok(org), Ok(isp), Ok(cc)) => {
                    geo_from_members(fallback, &ip, &country, &city, &org, &isp, &cc)
                },
                _ => geo_unavailable(fallback),
            }
        },
    }
}

proof fn lemma_max_sample_bounds(s: Seq<i32>)
    requires
        s.len() > 0,
    ensures
        exists|k: int| 0 <= k < s.len() && s[k] == max_sample(s),
        forall|j: int| 0 <= j < s.len() ==> s[j] <= max_sample(s),
    decreases s.len(),
{
    if s.len() > 1 {
        let p = s.drop_last();
        lemma_max_sample_bounds(p);
        let k = choose|k: int| 0 <= k < p.len() && p[k] == max_sample(p);
        assert(s[k] == p[k]);
        assert forall|j: int| 0 <= j < s.len() implies s[j] <= max_sample(s) by {
            if j < s.len() - 1 {
                assert(s[j] == p[j]);
            }
        }
        if s.last() > max_sample(p) {
            assert(s[s.len() - 1] == max_sample(s));
        }
    } else {
        assert(s[0] == max_sample(s));
    }
}

/// The latency of three or more samples drops the slowest one: the numerator
/// is the sum of all samples less one sample that no sample exceeds, over
/// one fewer samples. One or two samples are averaged whole; no samples
/// give no latency.
pub proof fn law_latency_drops_slowest(s: Seq<i32>)
    ensures
        s.len() == 0 ==> latency_fraction(s) is None,
        1 <= s.len() <= 2 ==> latency_fraction(s) == Some((sum_samples(s), s.len() as int)),
        s.len() >= 3 ==> (latency_fraction(s) matches Some((n, d)) && d == s.len() - 1 && exists|k: int|
            0 <= k < s.len() && n == sum_samples(s) - s[k] && forall|j: int| 0 <= j < s.len() ==> s[j] <= s[k]),
{
    if s.len() >= 3 {
        lemma_max_sample_bounds(s);
        let k = choose|k: int| 0 <= k < s.len() && s[k] == max_sample(s);
        assert(forall|j: int| 0 <= j < s.len() ==> s[j] <= s[k]);
    }
}

/// The sum of samples is additive: nothing for no samples, the sample itself
/// for one, and the sum of the parts for two runs joined.
pub proof fn law_sum_samples_additive(a: Seq<i32>, b: Seq<i32>, x: i32)
    ensures
        sum_samples(Seq::<i32>::empty()) == 0,
        sum_samples(seq![x]) == x,
        sum_samples(a + b) == sum_samples(a) + sum_samples(b),
    decreases b.len(),
{
    assert(seq![x].drop_last() =~= Seq::<i32>::empty());
    assert(sum_samples(Seq::<i32>::empty()) == 0);
    assert(seq![x].last() == x);
    assert(sum_samples(seq![x]) == sum_samples(seq![x].drop_last()) + seq![x].last());
    if b.len() == 0 {
        assert(a + b =~= a);
    } else {
        law_sum_samples_additive(a, b.drop_last(), x);
        assert((a + b).drop_last() =~= a + b.drop_last());
    }
}

} // verus!
