//! Suppression of clipboard echoes: recent operations, by hash, within a sliding time window.

use vstd::prelude::*;
use std::collections::VecDeque;
use sha2::Digest;
use vstd::utf8::encode_utf8;
use crate::bytes_le::{u32_le, push_u32_le, push_bytes};
use crate::formats::{ClipboardFormat, FormatView, format_views};

verus! {

/// Settings of a loop detector.
#[derive(Debug, Clone)]
pub struct LoopDetectionConfig {
    /// How long after an operation an echo of it is suppressed, in milliseconds.
    pub window_ms: u64,
    /// How many operations each history keeps at most.
    pub max_history: usize,
    /// Whether content hashes are recorded and checked.
    pub enable_content_hashing: bool,
}

impl Default for LoopDetectionConfig {
    fn default() -> (r: Self)
        ensures
            r.window_ms == 500,
            r.max_history == 10,
            r.enable_content_hashing,
    {
        LoopDetectionConfig { window_ms: 500, max_history: 10, enable_content_hashing: true }
    }
}

/// The side a clipboard operation came from.
#[derive(Debug, Clone, Copy, PartialEq, Eq, Structural)]
pub enum ClipboardSource {
    /// The remote desktop peer.
    Rdp,
    /// The local clipboard.
    Local,
}

/// The other side.
pub open spec fn opposite_of(s: ClipboardSource) -> ClipboardSource {
    match s {
        ClipboardSource::Rdp => ClipboardSource::Local,
        ClipboardSource::Local => ClipboardSource::Rdp,
    }
}

impl ClipboardSource {
    /// The other side.
    pub fn opposite(self) -> (r: Self)
        ensures
            r == opposite_of(self),
    {
        match self {
            ClipboardSource::Rdp => ClipboardSource::Local,
            ClipboardSource::Local => ClipboardSource::Rdp,
        }
    }
}

/// The lower-case hexadecimal SHA-256 digest of the bytes.
pub uninterp spec fn sha256_hex_of(data: Seq<u8>) -> Seq<char>;

/// Relies on `sha2::Sha256::digest`, printed as lower-case hexadecimal: the digest of the bytes.
#[verifier::external_body]
fn sha256_hex(data: &[u8]) -> (r: String)
    ensures
        r@ == sha256_hex_of(data@),
{
    format!("{:x}", sha2::Sha256::digest(data))
}

/// Relies on `std::time::Instant::now`: a reading of the monotonic clock.
#[verifier::external_body]
fn clock_now() -> (r: std::time::Instant) {
    std::time::Instant::now()
}

/// Relies on `std::time::Instant::elapsed`: whole milliseconds since the reading.
#[verifier::external_body]
fn millis_since(start: &std::time::Instant) -> (r: u64) {
    start.elapsed().as_millis() as u64
}

/// `std::time::Instant`, a reading of the monotonic clock, held opaque.
#[verifier::external_type_specification]
#[verifier::external_body]
pub struct ExInstant(std::time::Instant);

/// A recorded operation: its hash, its side and when it happened.
#[derive(Debug, Clone)]
struct ClipboardOperation {
    hash: String,
    source: ClipboardSource,
    timestamp: u64,
}

/// A recorded operation as a value: hash, side, time in milliseconds.
pub type OperationView = (Seq<char>, ClipboardSource, u64);

/// The bytes hashed for a format list: each id, little-endian, then its name, if any.
pub open spec fn format_hash_input(fs: Seq<FormatView>) -> Seq<u8>
    decreases fs.len(),
{
    if fs.len() == 0 {
        seq![]
    } else {
        format_hash_input(fs.drop_last()) + u32_le(fs.last().0 as int) + match fs.last().1 {
            Some(n) => encode_utf8(n),
            None => seq![],
        }
    }
}

/// The bytes hashed for a MIME type list: each type followed by a zero byte.
pub open spec fn mime_hash_input(ms: Seq<Seq<char>>) -> Seq<u8>
    decreases ms.len(),
{
    if ms.len() == 0 {
        seq![]
    } else {
        mime_hash_input(ms.drop_last()) + encode_utf8(ms.last()) + seq![0u8]
    }
}

/// The hash of a format list.
pub open spec fn formats_hash(fs: Seq<FormatView>) -> Seq<char> {
    sha256_hex_of(format_hash_input(fs))
}

/// The hash of a MIME type list.
pub open spec fn mimes_hash(ms: Seq<Seq<char>>) -> Seq<char> {
    sha256_hex_of(mime_hash_input(ms))
}

/// How long before `now` the time `t` was; zero if `t` is later.
pub open spec fn age(now: u64, t: u64) -> int {
    if now >= t {
        now - t
    } else {
        0
    }
}

/// The history without the operations at its front older than `limit`.
pub open spec fn evict_old(q: Seq<OperationView>, now: u64, limit: int) -> Seq<OperationView>
    decreases q.len(),
{
    if q.len() > 0 && age(now, q[0].2) > limit {
        evict_old(q.drop_first(), now, limit)
    } else {
        q
    }
}

/// The newest `max` operations of the history.
pub open spec fn keep_newest(q: Seq<OperationView>, max: nat) -> Seq<OperationView> {
    if q.len() > max {
        q.skip(q.len() - max)
    } else {
        q
    }
}

/// Maintenance of one history: drop what is older than twice the window, then keep the newest.
pub open spec fn maintained(q: Seq<OperationView>, now: u64, window: u64, max: nat) -> Seq<
    OperationView,
> {
    keep_newest(evict_old(q, now, 2 * window), max)
}

/// The time stamp a new operation gets: the clock reading, or the newest stamp if that is later.
pub open spec fn stamp(q: Seq<OperationView>, now: u64) -> u64 {
    if q.len() > 0 && q.last().2 > now {
        q.last().2
    } else {
        now
    }
}

/// The history with a new operation appended.
pub open spec fn appended(q: Seq<OperationView>, hash: Seq<char>, source: ClipboardSource, now: u64) -> Seq<
    OperationView,
> {
    q.push((hash, source, stamp(q, now)))
}

/// Whether the history, scanned from the newest operation back while operations are within the
/// window, holds one from the other side with this hash.
pub open spec fn echo_in(
    q: Seq<OperationView>,
    hash: Seq<char>,
    current: ClipboardSource,
    now: u64,
    window: u64,
) -> bool
    decreases q.len(),
{
    if q.len() == 0 {
        false
    } else if age(now, q.last().2) > window {
        false
    } else if q.last().1 == opposite_of(current) && q.last().0 == hash {
        true
    } else {
        echo_in(q.drop_last(), hash, current, now, window)
    }
}

/// The time stamps of a history never decrease.
pub open spec fn time_ordered(q: Seq<OperationView>) -> bool {
    forall|i: int, j: int| 0 <= i <= j < q.len() ==> q[i].2 <= q[j].2
}

/// A loop detector as a value: settings, format history, content history.
pub type DetectorView = (u64, nat, bool, Seq<OperationView>, Seq<OperationView>);

/// Tracks recent clipboard operations to tell echoes from new changes.
///
/// Times are milliseconds. The methods ending in `_at` take the time as an argument; the others
/// read the monotonic clock. A time earlier than the newest recorded one counts as that time, so
/// each history stays in time order.
#[derive(Debug)]
pub struct LoopDetector {
    config: LoopDetectionConfig,
    format_history: VecDeque<ClipboardOperation>,
    content_history: VecDeque<ClipboardOperation>,
    epoch: std::time::Instant,
}

/// The value of a recorded operation.
spec fn op_view(o: ClipboardOperation) -> OperationView {
    (o.hash@, o.source, o.timestamp)
}

/// The values of a history.
spec fn ops_view(q: Seq<ClipboardOperation>) -> Seq<OperationView> {
    q.map_values(|o: ClipboardOperation| op_view(o))
}

impl View for LoopDetector {
    type V = DetectorView;

    closed spec fn view(&self) -> DetectorView {
        (
            self.config.window_ms,
            self.config.max_history as nat,
            self.config.enable_content_hashing,
            ops_view(self.format_history@),
            ops_view(self.content_history@),
        )
    }
}

/// Both histories are time-ordered and within the size bound.
pub open spec fn detector_wf(d: DetectorView) -> bool {
    &&& time_ordered(d.3)
    &&& time_ordered(d.4)
    &&& d.3.len() <= d.1
    &&& d.4.len() <= d.1
}

/// The detector after recording an operation into the format history.
pub open spec fn after_format_record(
    d: DetectorView,
    hash: Seq<char>,
    source: ClipboardSource,
    now: u64,
) -> DetectorView {
    (
        d.0,
        d.1,
        d.2,
        maintained(appended(d.3, hash, source, now), now, d.0, d.1),
        maintained(d.4, now, d.0, d.1),
    )
}

/// The detector after recording an operation into the content history.
pub open spec fn after_content_record(
    d: DetectorView,
    hash: Seq<char>,
    source: ClipboardSource,
    now: u64,
) -> DetectorView {
    (
        d.0,
        d.1,
        d.2,
        maintained(d.3, now, d.0, d.1),
        maintained(appended(d.4, hash, source, now), now, d.0, d.1),
    )
}

/// The hash of a format list, as recorded.
fn hash_formats(formats: &[ClipboardFormat]) -> (r: String)
    ensures
        r@ == formats_hash(format_views(formats@)),
{
    let mut data: Vec<u8> = Vec::new();
    let mut i: usize = 0;
    while i < formats.len()
        invariant
            i <= formats@.len(),
            data@ == format_hash_input(format_views(formats@.take(i as int))),
        decreases formats@.len() - i,
    {
        let f = &formats[i];
        push_u32_le(&mut data, f.id);
        match &f.name {
            Some(n) => push_bytes(&mut data, n.as_str().as_bytes()),
            None => {},
        }
        assert(format_views(formats@.take(i + 1)).drop_last() =~= format_views(formats@.take(i as int)));
        i = i + 1;
        assert(data@ =~= format_hash_input(format_views(formats@.take(i as int))));
    }
    assert(formats@.take(i as int) =~= formats@);
    sha256_hex(data.as_slice())
}

/// The characters of each string of a list.
pub open spec fn string_views(ms: Seq<String>) -> Seq<Seq<char>> {
    ms.map_values(|m: String| m@)
}

/// The hash of a MIME type list, as recorded.
fn hash_mime_types(mime_types: &[String]) -> (r: String)
    ensures
        r@ == mimes_hash(string_views(mime_types@)),
{
    let mut data: Vec<u8> = Vec::new();
    let mut i: usize = 0;
    while i < mime_types.len()
        invariant
            i <= mime_types@.len(),
            data@ == mime_hash_input(string_views(mime_types@.take(i as int))),
        decreases mime_types@.len() - i,
    {
        push_bytes(&mut data, mime_types[i].as_str().as_bytes());
        data.push(0u8);
        assert(string_views(mime_types@.take(i + 1)).drop_last() =~= string_views(
            mime_types@.take(i as int),
        ));
        i = i + 1;
        assert(data@ =~= mime_hash_input(string_views(mime_types@.take(i as int))));
    }
    assert(mime_types@.take(i as int) =~= mime_types@);
    sha256_hex(data.as_slice())
}

fn record_operation(q: &mut VecDeque<ClipboardOperation>, hash: String, source: ClipboardSource, now: u64)
    ensures
        ops_view(final(q)@) == appended(ops_view(old(q)@), hash@, source, now),
{
    let n = q.len();
    let mut ts = now;
    if n > 0 && q[n - 1].timestamp > now {
        ts = q[n - 1].timestamp;
    }
    q.push_back(ClipboardOperation { hash, source, timestamp: ts });
    assert(ops_view(final(q)@) =~= appended(ops_view(old(q)@), hash@, source, now));
}

fn older_than(now: u64, t: u64, limit_half: u64) -> (r: bool)
    ensures
        r == (age(now, t) > 2 * limit_half),
{
    let a: u64 = if now >= t {
        now - t
    } else {
        0
    };
    if limit_half > u64::MAX / 2 {
        false
    } else {
        a > 2 * limit_half
    }
}

proof fn lemma_evict_ordered(q: Seq<OperationView>, now: u64, limit: int)
    requires
        time_ordered(q),
    ensures
        time_ordered(evict_old(q, now, limit)),
        evict_old(q, now, limit).len() <= q.len(),
        exists|k: int| 0 <= k <= q.len() && evict_old(q, now, limit) == q.skip(k),
    decreases q.len(),
{
    if q.len() > 0 && age(now, q[0].2) > limit {
        lemma_evict_ordered(q.drop_first(), now, limit);
        let k = choose|k: int|
            0 <= k <= q.drop_first().len() && evict_old(q.drop_first(), now, limit)
                == q.drop_first().skip(k);
        assert(q.drop_first().skip(k) =~= q.skip(k + 1));
    } else {
        assert(q.skip(0) =~= q);
    }
}

/// Runs maintenance on one history.
fn cleanup_queue(q: &mut VecDeque<ClipboardOperation>, now: u64, window_ms: u64, max: usize)
    ensures
        ops_view(final(q)@) == maintained(ops_view(old(q)@), now, window_ms, max as nat),
{
    let ghost limit = 2 * window_ms;
    while q.len() > 0 && older_than(now, q[0].timestamp, window_ms)
        invariant
            evict_old(ops_view(q@), now, limit) == evict_old(ops_view(old(q)@), now, limit),
            limit == 2 * window_ms,
        decreases q@.len(),
    {
        let ghost before = ops_view(q@);
        assert(before[0] == op_view(q@[0]));
        q.pop_front();
        assert(ops_view(q@) =~= before.drop_first());
    }
    assert(q@.len() > 0 ==> ops_view(q@)[0] == op_view(q@[0]));
    let ghost evicted = ops_view(q@);
    assert(evicted == evict_old(ops_view(old(q)@), now, limit));
    while q.len() > max
        invariant
            keep_newest(ops_view(q@), max as nat) == keep_newest(evicted, max as nat),
        decreases q@.len(),
    {
        let ghost before = ops_view(q@);
        q.pop_front();
        assert(ops_view(q@) =~= before.drop_first());
        assert(keep_newest(ops_view(q@), max as nat) =~= keep_newest(before, max as nat));
    }
    assert(keep_newest(ops_view(q@), max as nat) =~= ops_view(q@));
}

fn check_hash_collision(
    q: &VecDeque<ClipboardOperation>,
    hash: &String,
    current: ClipboardSource,
    now: u64,
    window: u64,
) -> (r: bool)
    ensures
        r == echo_in(ops_view(q@), hash@, current, now, window),
{
    let target = current.opposite();
    let mut i: usize = q.len();
    assert(ops_view(q@).take(i as int) =~= ops_view(q@));
    while i > 0
        invariant
            i <= q@.len(),
            target == opposite_of(current),
            echo_in(ops_view(q@), hash@, current, now, window) == echo_in(
                ops_view(q@).take(i as int),
                hash@,
                current,
                now,
                window,
            ),
        decreases i,
    {
        let op = &q[i - 1];
        let ghost pre = ops_view(q@).take(i as int);
        assert(ops_view(q@)[i - 1] == op_view(q@[i - 1]));
        assert(pre.last() == op_view(*op));
        assert(pre.drop_last() =~= ops_view(q@).take(i - 1));
        let a: u64 = if now >= op.timestamp {
            now - op.timestamp
        } else {
            0
        };
        if a > window {
            return false;
        }
        let same_hash = op.hash == *hash;
        assert(same_hash == (pre.last().0 == hash@));
        assert(age(now, pre.last().2) <= window);
        if op.source == target && same_hash {
            assert(pre.last().1 == opposite_of(current));
            assert(echo_in(pre, hash@, current, now, window));
            return true;
        }
        assert(!(pre.last().1 == opposite_of(current) && pre.last().0 == hash@));
        assert(echo_in(pre, hash@, current, now, window) == echo_in(pre.drop_last(), hash@, current, now, window));
        i = i - 1;
    }
    false
}

impl Default for LoopDetector {
    fn default() -> (r: Self)
        ensures
            r@ == (500u64, 10nat, true, Seq::<OperationView>::empty(), Seq::<OperationView>::empty()),
            r.wf(),
    {
        LoopDetector::new()
    }
}

proof fn lemma_maintained(q: Seq<OperationView>, now: u64, window: u64, max: nat)
    requires
        time_ordered(q),
    ensures
        time_ordered(maintained(q, now, window, max)),
        maintained(q, now, window, max).len() <= max,
{
    lemma_evict_ordered(q, now, 2 * window);
    let e = evict_old(q, now, 2 * window);
    if e.len() > max {
        let s = e.skip(e.len() - max);
        assert forall|i: int, j: int| 0 <= i <= j < s.len() implies s[i].2 <= s[j].2 by {
            assert(s[i] == e[i + e.len() - max]);
            assert(s[j] == e[j + e.len() - max]);
        }
    }
}

proof fn lemma_appended_ordered(q: Seq<OperationView>, hash: Seq<char>, source: ClipboardSource, now: u64)
    requires
        time_ordered(q),
    ensures
        time_ordered(appended(q, hash, source, now)),
{
    let a = appended(q, hash, source, now);
    assert forall|i: int, j: int| 0 <= i <= j < a.len() implies a[i].2 <= a[j].2 by {
        if j == q.len() && i < q.len() {
            assert(q[i].2 <= q.last().2);
        }
    }
}

impl LoopDetector {
    /// Both histories are time-ordered and within the size bound.
    pub open spec fn wf(&self) -> bool {
        detector_wf(self@)
    }

    /// A detector with a 500 ms window, ten operations per history, and content hashing on.
    pub fn new() -> (r: Self)
        ensures
            r@ == (500u64, 10nat, true, Seq::<OperationView>::empty(), Seq::<OperationView>::empty()),
            r.wf(),
    {
        Self::with_config(LoopDetectionConfig { window_ms: 500, max_history: 10, enable_content_hashing: true })
    }

    /// A detector with the given settings and empty histories.
    pub fn with_config(config: LoopDetectionConfig) -> (r: Self)
        ensures
            r@ == (
                config.window_ms,
                config.max_history as nat,
                config.enable_content_hashing,
                Seq::<OperationView>::empty(),
                Seq::<OperationView>::empty(),
            ),
            r.wf(),
    {
        let r = LoopDetector {
            config,
            format_history: VecDeque::new(),
            content_history: VecDeque::new(),
            epoch: clock_now(),
        };
        assert(ops_view(r.format_history@) =~= Seq::<OperationView>::empty());
        assert(ops_view(r.content_history@) =~= Seq::<OperationView>::empty());
        r
    }

    /// Milliseconds since the detector was made, by the monotonic clock.
    pub fn now_ms(&self) -> (r: u64) {
        millis_since(&self.epoch)
    }

    /// Runs maintenance on both histories.
    fn cleanup_history(&mut self, now: u64)
        requires
            time_ordered(old(self)@.3),
            time_ordered(old(self)@.4),
        ensures
            final(self)@ == (
                old(self)@.0,
                old(self)@.1,
                old(self)@.2,
                maintained(old(self)@.3, now, old(self)@.0, old(self)@.1),
                maintained(old(self)@.4, now, old(self)@.0, old(self)@.1),
            ),
            final(self).wf(),
    {
        let window = self.config.window_ms;
        let max = self.config.max_history;
        cleanup_queue(&mut self.format_history, now, window, max);
        cleanup_queue(&mut self.content_history, now, window, max);
        proof {
            lemma_maintained(old(self)@.3, now, window, max as nat);
            lemma_maintained(old(self)@.4, now, window, max as nat);
        }
    }

    /// Records a format list offered by `source` at time `now` (milliseconds).
    pub fn record_formats_at(&mut self, formats: &[ClipboardFormat], source: ClipboardSource, now: u64)
        requires
            old(self).wf(),
        ensures
            final(self)@ == after_format_record(
                old(self)@,
                formats_hash(format_views(formats@)),
                source,
                now,
            ),
            final(self).wf(),
    {
        let hash = hash_formats(formats);
        self.record_format_hash_at(hash, source, now);
    }

    /// Records a format-history entry with the given hash from `source` at time `now`.
    pub fn record_format_hash_at(&mut self, hash: String, source: ClipboardSource, now: u64)
        requires
            old(self).wf(),
        ensures
            final(self)@ == after_format_record(old(self)@, hash@, source, now),
            final(self).wf(),
    {
        let ghost h = hash@;
        record_operation(&mut self.format_history, hash, source, now);
        proof {
            lemma_appended_ordered(old(self)@.3, h, source, now);
        }
        self.cleanup_history(now);
    }

    /// Records a format list offered by `source`, now.
    pub fn record_formats(&mut self, formats: &[ClipboardFormat], source: ClipboardSource)
        requires
            old(self).wf(),
        ensures
            exists|t: u64|
                final(self)@ == after_format_record(
                    old(self)@,
                    formats_hash(format_views(formats@)),
                    source,
                    t,
                ),
            final(self).wf(),
    {
        let now = self.now_ms();
        self.record_formats_at(formats, source, now);
    }

    /// Records a MIME type list offered by `source` at time `now`.
    pub fn record_mime_types_at(&mut self, mime_types: &[String], source: ClipboardSource, now: u64)
        requires
            old(self).wf(),
        ensures
            final(self)@ == after_format_record(
                old(self)@,
                mimes_hash(string_views(mime_types@)),
                source,
                now,
            ),
            final(self).wf(),
    {
        let hash = hash_mime_types(mime_types);
        self.record_format_hash_at(hash, source, now);
    }

    /// Records a MIME type list offered by `source`, now.
    pub fn record_mime_types(&mut self, mime_types: &[String], source: ClipboardSource)
        requires
            old(self).wf(),
        ensures
            exists|t: u64|
                final(self)@ == after_format_record(
                    old(self)@,
                    mimes_hash(string_views(mime_types@)),
                    source,
                    t,
                ),
            final(self).wf(),
    {
        let now = self.now_ms();
        self.record_mime_types_at(mime_types, source, now);
    }

    /// Records content from `source` at time `now`; does nothing when content hashing is off.
    pub fn record_content_at(&mut self, data: &[u8], source: ClipboardSource, now: u64)
        requires
            old(self).wf(),
        ensures
            !old(self)@.2 ==> final(self)@ == old(self)@,
            old(self)@.2 ==> final(self)@ == after_content_record(
                old(self)@,
                sha256_hex_of(data@),
                source,
                now,
            ),
            final(self).wf(),
    {
        if !self.config.enable_content_hashing {
            return;
        }
        let hash = sha256_hex(data);
        self.record_content_hash_at(hash, source, now);
    }

    /// Records a content-history entry with the given hash from `source` at time `now`.
    pub fn record_content_hash_at(&mut self, hash: String, source: ClipboardSource, now: u64)
        requires
            old(self).wf(),
        ensures
            final(self)@ == after_content_record(old(self)@, hash@, source, now),
            final(self).wf(),
    {
        let ghost h = hash@;
        record_operation(&mut self.content_history, hash, source, now);
        proof {
            lemma_appended_ordered(old(self)@.4, h, source, now);
        }
        self.cleanup_history(now);
    }

    /// Records content from `source`, now; does nothing when content hashing is off.
    pub fn record_content(&mut self, data: &[u8], source: ClipboardSource)
        requires
            old(self).wf(),
        ensures
            !old(self)@.2 ==> final(self)@ == old(self)@,
            old(self)@.2 ==> exists|t: u64|
                final(self)@ == after_content_record(old(self)@, sha256_hex_of(data@), source, t),
            final(self).wf(),
    {
        let now = self.now_ms();
        self.record_content_at(data, source, now);
    }

    /// Whether sending these formats from the local side at time `now` would echo a recent
    /// remote offer of the same formats.
    pub fn would_cause_loop_at(&self, formats: &[ClipboardFormat], now: u64) -> (r: bool)
        ensures
            r == echo_in(
                self@.3,
                formats_hash(format_views(formats@)),
                ClipboardSource::Local,
                now,
                self@.0,
            ),
    {
        let hash = hash_formats(formats);
        self.format_hash_echo_at(&hash, ClipboardSource::Local, now)
    }

    /// Whether the format history, scanned back from its newest entry within the window at time
    /// `now`, holds an entry with this hash from the side opposite to `current`.
    pub fn format_hash_echo_at(&self, hash: &String, current: ClipboardSource, now: u64) -> (r: bool)
        ensures
            r == echo_in(self@.3, hash@, current, now, self@.0),
    {
        check_hash_collision(&self.format_history, hash, current, now, self.config.window_ms)
    }

    /// Whether the content history, scanned back from its newest entry within the window at time
    /// `now`, holds an entry with this hash from the side opposite to `current`.
    pub fn content_hash_echo_at(&self, hash: &String, current: ClipboardSource, now: u64) -> (r: bool)
        ensures
            r == echo_in(self@.4, hash@, current, now, self@.0),
    {
        check_hash_collision(&self.content_history, hash, current, now, self.config.window_ms)
    }

    /// Whether sending these formats from the local side now would echo a recent remote offer.
    pub fn would_cause_loop(&self, formats: &[ClipboardFormat]) -> (r: bool)
        ensures
            exists|t: u64|
                r == echo_in(
                    self@.3,
                    formats_hash(format_views(formats@)),
                    ClipboardSource::Local,
                    t,
                    self@.0,
                ),
    {
        let now = self.now_ms();
        self.would_cause_loop_at(formats, now)
    }

    /// Whether sending these MIME types from the remote side at time `now` would echo a recent
    /// local offer of the same types.
    pub fn would_cause_loop_mime_at(&self, mime_types: &[String], now: u64) -> (r: bool)
        ensures
            r == echo_in(
                self@.3,
                mimes_hash(string_views(mime_types@)),
                ClipboardSource::Rdp,
                now,
                self@.0,
            ),
    {
        let hash = hash_mime_types(mime_types);
        self.format_hash_echo_at(&hash, ClipboardSource::Rdp, now)
    }

    /// Whether sending these MIME types from the remote side now would echo a recent local offer.
    pub fn would_cause_loop_mime(&self, mime_types: &[String]) -> (r: bool)
        ensures
            exists|t: u64|
                r == echo_in(
                    self@.3,
                    mimes_hash(string_views(mime_types@)),
                    ClipboardSource::Rdp,
                    t,
                    self@.0,
                ),
    {
        let now = self.now_ms();
        self.would_cause_loop_mime_at(mime_types, now)
    }

    /// Whether content from `source` at time `now` would echo recent content from the other side;
    /// always false when content hashing is off.
    pub fn would_cause_content_loop_at(&self, data: &[u8], source: ClipboardSource, now: u64) -> (r:
        bool)
        ensures
            !self@.2 ==> !r,
            self@.2 ==> r == echo_in(self@.4, sha256_hex_of(data@), source, now, self@.0),
    {
        if !self.config.enable_content_hashing {
            return false;
        }
        let hash = sha256_hex(data);
        self.content_hash_echo_at(&hash, source, now)
    }

    /// Whether content from `source` now would echo recent content from the other side.
    pub fn would_cause_content_loop(&self, data: &[u8], source: ClipboardSource) -> (r: bool)
        ensures
            !self@.2 ==> !r,
            self@.2 ==> exists|t: u64|
                r == echo_in(self@.4, sha256_hex_of(data@), source, t, self@.0),
    {
        let now = self.now_ms();
        self.would_cause_content_loop_at(data, source, now)
    }

    /// The hash that content is recorded under.
    pub fn compute_hash(data: &[u8]) -> (r: String)
        ensures
            r@ == sha256_hex_of(data@),
    {
        sha256_hex(data)
    }

    /// Forgets every recorded operation.
    pub fn clear(&mut self)
        ensures
            final(self)@ == (
                old(self)@.0,
                old(self)@.1,
                old(self)@.2,
                Seq::<OperationView>::empty(),
                Seq::<OperationView>::empty(),
            ),
            final(self).wf(),
    {
        self.format_history.clear();
        self.content_history.clear();
        assert(ops_view(self.format_history@) =~= Seq::<OperationView>::empty());
        assert(ops_view(self.content_history@) =~= Seq::<OperationView>::empty());
    }
}

} // verus!
