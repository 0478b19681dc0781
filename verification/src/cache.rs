//! The cache manager's pure core: the metadata record and its on-disk JSON
//! form, the time-to-live freshness decision, the write plan of a fetch, and
//! the one-shot disclaimer latch.
//!
//! Reading, writing and fetching are the caller's business; everything here
//! is a function from plain values to plain values.

use vstd::prelude::*;

use crate::text::{copy_bytes, matches_at_bytes, starts_with_bytes, subrange_bytes};
use crate::timestamp::{
    epoch_of_datetime, parse_timestamp, render_timestamp, ts_render, valid_datetime, DateTime,
    MAX_EPOCH,
};

verus! {

/// The cache may serve data this old, in seconds, before a fetch is forced.
pub const TTL_SECONDS: i64 = 86400;

/// The cache metadata record: when the corpus was last fetched, and the
/// upstream revision embedded in the corpus written alongside it.
pub struct CacheMetadata {
    pub last_fetched: i64,
    pub data_version: Vec<u8>,
}

/// A version string the record can carry verbatim: free of quote bytes.
pub open spec fn version_ok(v: Seq<u8>) -> bool {
    forall|i: int| 0 <= i < v.len() ==> v[i] != 34
}

/// The opening of the record, up to the timestamp value.
pub open spec fn meta_prefix() -> Seq<u8> {
    seq![123u8, 34u8, 108u8, 97u8, 115u8, 116u8, 95u8, 102u8, 101u8, 116u8, 99u8, 104u8, 101u8, 100u8, 34u8, 58u8, 34u8]
}

/// The middle of the record, between the timestamp and the version value.
pub open spec fn meta_middle() -> Seq<u8> {
    seq![34u8, 44u8, 34u8, 100u8, 97u8, 116u8, 97u8, 95u8, 118u8, 101u8, 114u8, 115u8, 105u8, 111u8, 110u8, 34u8, 58u8, 34u8]
}

/// The closing of the record.
pub open spec fn meta_suffix() -> Seq<u8> {
    seq![34u8, 125u8]
}

/// The serialized record around a rendered timestamp and a version string.
pub open spec fn meta_render(ts: Seq<u8>, ver: Seq<u8>) -> Seq<u8> {
    meta_prefix() + ts + meta_middle() + ver + meta_suffix()
}

/// Serializes a metadata record. The timestamp is written in the canonical
/// `YYYY-MM-DDTHH:MM:SSZ` form; the version string is written verbatim, so
/// it may not carry quote bytes.
pub fn format_metadata(m: &CacheMetadata) -> (r: Vec<u8>)
    requires
        0 <= m.last_fetched <= MAX_EPOCH,
        version_ok(m.data_version@),
    ensures
        exists|dt: DateTime|
            valid_datetime(dt) && epoch_of_datetime(dt) == m.last_fetched && r@ == meta_render(
                ts_render(dt),
                m.data_version@,
            ),
{
    let mut r: Vec<u8> = vec![123u8, 34u8, 108u8, 97u8, 115u8, 116u8, 95u8, 102u8, 101u8, 116u8, 99u8, 104u8, 101u8, 100u8, 34u8, 58u8, 34u8];
    proof {
        assert(r@ =~= meta_prefix());
    }
    let ts = render_timestamp(m.last_fetched);
    let ghost dt = choose|dt: DateTime|
        valid_datetime(dt) && epoch_of_datetime(dt) == m.last_fetched && ts@ == ts_render(dt);
    crate::text::append_bytes(&mut r, &ts);
    let mid: Vec<u8> = vec![34u8, 44u8, 34u8, 100u8, 97u8, 116u8, 97u8, 95u8, 118u8, 101u8, 114u8, 115u8, 105u8, 111u8, 110u8, 34u8, 58u8, 34u8];
    proof {
        assert(mid@ =~= meta_middle());
    }
    crate::text::append_bytes(&mut r, &mid);
    crate::text::append_bytes(&mut r, &m.data_version);
    r.push(34);
    r.push(125);
    proof {
        assert(r@ =~= meta_render(ts_render(dt), m.data_version@));
    }
    r
}

/// What a serialized record looks like, piece by piece.
proof fn lemma_meta_render_shape(ts: Seq<u8>, ver: Seq<u8>)
    requires
        ts.len() == 20,
    ensures
        meta_render(ts, ver).len() == 57 + ver.len(),
        meta_render(ts, ver).subrange(0, 17) == meta_prefix(),
        meta_render(ts, ver).subrange(17, 37) == ts,
        meta_render(ts, ver).subrange(37, 55) == meta_middle(),
        meta_render(ts, ver).subrange(55, 55 + ver.len() as int) == ver,
        meta_render(ts, ver)[55 + ver.len() as int] == 34,
        meta_render(ts, ver)[56 + ver.len() as int] == 125,
        forall|j: int|
            55 <= j < 55 + ver.len() ==> meta_render(ts, ver)[j] == ver[j - 55],
{
    let s = meta_render(ts, ver);
    assert(s.subrange(0, 17) =~= meta_prefix());
    assert(s.subrange(17, 37) =~= ts);
    assert(s.subrange(37, 55) =~= meta_middle());
    assert(s.subrange(55, 55 + ver.len() as int) =~= ver);
}

/// Deserializes a metadata record. Succeeds exactly on the strings that
/// `meta_render` gives some valid timestamp and quote-free version string.
#[verifier::rlimit(100)]
pub fn parse_metadata(s: &Vec<u8>) -> (r: Option<CacheMetadata>)
    ensures
        match r {
            Some(m) => {
                &&& 0 <= m.last_fetched <= MAX_EPOCH
                &&& version_ok(m.data_version@)
                &&& exists|dt: DateTime|
                    valid_datetime(dt) && epoch_of_datetime(dt) == m.last_fetched && s@
                        == meta_render(ts_render(dt), m.data_version@)
            },
            None => forall|dt: DateTime, ver: Seq<u8>|
                valid_datetime(dt) && version_ok(ver) ==> s@ != meta_render(ts_render(dt), ver),
        },
{
    let prefix: Vec<u8> = vec![123u8, 34u8, 108u8, 97u8, 115u8, 116u8, 95u8, 102u8, 101u8, 116u8, 99u8, 104u8, 101u8, 100u8, 34u8, 58u8, 34u8];
    proof {
        assert(prefix@ =~= meta_prefix());
    }
    let middle: Vec<u8> = vec![34u8, 44u8, 34u8, 100u8, 97u8, 116u8, 97u8, 95u8, 118u8, 101u8, 114u8, 115u8, 105u8, 111u8, 110u8, 34u8, 58u8, 34u8];
    proof {
        assert(middle@ =~= meta_middle());
    }
    if s.len() < 57 {
        proof {
            assert forall|dt: DateTime, ver: Seq<u8>|
                valid_datetime(dt) && version_ok(ver) implies s@ != meta_render(
                ts_render(dt),
                ver,
            ) by {
                crate::timestamp::lemma_ts_render_len(dt);
                lemma_meta_render_shape(ts_render(dt), ver);
            }
        }
        return None;
    }
    if !starts_with_bytes(s, &prefix) {
        proof {
            assert forall|dt: DateTime, ver: Seq<u8>|
                valid_datetime(dt) && version_ok(ver) implies s@ != meta_render(
                ts_render(dt),
                ver,
            ) by {
                crate::timestamp::lemma_ts_render_len(dt);
                lemma_meta_render_shape(ts_render(dt), ver);
                if s@ == meta_render(ts_render(dt), ver) {
                    assert(s@.take(17) == meta_render(ts_render(dt), ver).subrange(0, 17));
                }
            }
        }
        return None;
    }
    let ts = subrange_bytes(s, 17, 37);
    let parsed = parse_timestamp(&ts);
    if parsed.is_none() {
        proof {
            assert forall|dt: DateTime, ver: Seq<u8>|
                valid_datetime(dt) && version_ok(ver) implies s@ != meta_render(
                ts_render(dt),
                ver,
            ) by {
                crate::timestamp::lemma_ts_render_len(dt);
                lemma_meta_render_shape(ts_render(dt), ver);
            }
        }
        return None;
    }
    let e = parsed.unwrap();
    if !matches_at_bytes(s, &middle, 37) {
        proof {
            assert forall|dt: DateTime, ver: Seq<u8>|
                valid_datetime(dt) && version_ok(ver) implies s@ != meta_render(
                ts_render(dt),
                ver,
            ) by {
                crate::timestamp::lemma_ts_render_len(dt);
                lemma_meta_render_shape(ts_render(dt), ver);
            }
        }
        return None;
    }
    let mut i: usize = 55;
    while i < s.len() && s[i] != 34
        invariant
            55 <= i <= s@.len(),
            forall|j: int| 55 <= j < i ==> s@[j] != 34,
        decreases s.len() - i,
    {
        i = i + 1;
    }
    if i != s.len() - 2 || s[i + 1] != 125 {
        proof {
            assert forall|dt: DateTime, ver: Seq<u8>|
                valid_datetime(dt) && version_ok(ver) implies s@ != meta_render(
                ts_render(dt),
                ver,
            ) by {
                crate::timestamp::lemma_ts_render_len(dt);
                lemma_meta_render_shape(ts_render(dt), ver);
                if s@ == meta_render(ts_render(dt), ver) {
                    assert(s@[55 + ver.len() as int] == 34);
                    assert(i <= 55 + ver.len() as int);
                    assert(55 + ver.len() as int <= i);
                }
            }
        }
        return None;
    }
    let ver = subrange_bytes(s, 55, i);
    let m = CacheMetadata { last_fetched: e, data_version: ver };
    proof {
        let dt = choose|dt: DateTime|
            valid_datetime(dt) && epoch_of_datetime(dt) == e && ts@ == ts_render(dt);
        crate::timestamp::lemma_ts_render_len(dt);
        lemma_meta_render_shape(ts_render(dt), m.data_version@);
        assert(s@ =~= meta_render(ts_render(dt), m.data_version@));
    }
    Some(m)
}

/// Writing a record and reading it back yields the same fetch time and the
/// same version string.
pub fn metadata_round_trip(m: &CacheMetadata) -> (r: Option<CacheMetadata>)
    requires
        0 <= m.last_fetched <= MAX_EPOCH,
        version_ok(m.data_version@),
    ensures
        match r {
            Some(m2) => m2.last_fetched == m.last_fetched && m2.data_version@
                == m.data_version@,
            None => false,
        },
{
    let bytes = format_metadata(m);
    let r = parse_metadata(&bytes);
    proof {
        let dt1 = choose|dt: DateTime|
            valid_datetime(dt) && epoch_of_datetime(dt) == m.last_fetched && bytes@
                == meta_render(ts_render(dt), m.data_version@);
        crate::timestamp::lemma_ts_render_len(dt1);
        lemma_meta_render_shape(ts_render(dt1), m.data_version@);
        match &r {
            Some(m2) => {
                let dt2 = choose|dt: DateTime|
                    valid_datetime(dt) && epoch_of_datetime(dt) == m2.last_fetched && bytes@
                        == meta_render(ts_render(dt), m2.data_version@);
                crate::timestamp::lemma_ts_render_len(dt2);
                lemma_meta_render_shape(ts_render(dt2), m2.data_version@);
                assert(bytes@.len() == 57 + m.data_version@.len());
                assert(bytes@.len() == 57 + m2.data_version@.len());
                assert(m2.data_version@ == bytes@.subrange(
                    55,
                    55 + m2.data_version@.len() as int,
                ));
                assert(m.data_version@ == m2.data_version@);
                assert(bytes@.subrange(17, 37) == ts_render(dt1));
                assert(bytes@.subrange(17, 37) == ts_render(dt2));
                crate::timestamp::lemma_render_injective(dt1, dt2);
            },
            None => {
                assert(false);
            },
        }
    }
    r
}


/// A record this much older than `now` is stale.
pub open spec fn is_stale(last_fetched: int, now: int) -> bool {
    now - last_fetched > TTL_SECONDS
}

/// Decides whether the corpus must be fetched before it is served: yes when
/// the metadata file is absent or does not parse, when the data file is
/// missing, or when the record is older than the time-to-live.
pub fn needs_fetch(meta_text: Option<&Vec<u8>>, data_exists: bool, now: i64) -> (r: bool)
    ensures
        match meta_text {
            None => r == true,
            Some(s) => {
                &&& (forall|dt: DateTime, ver: Seq<u8>|
                    valid_datetime(dt) && version_ok(ver) ==> s@ != meta_render(
                        ts_render(dt),
                        ver,
                    )) ==> r == true
                &&& forall|dt: DateTime, ver: Seq<u8>|
                    valid_datetime(dt) && version_ok(ver) && s@ == meta_render(ts_render(dt), ver)
                        ==> r == (is_stale(epoch_of_datetime(dt), now as int) || !data_exists)
            },
        },
{
    match meta_text {
        None => true,
        Some(s) => {
            let parsed = parse_metadata(s);
            match parsed {
                None => true,
                Some(m) => {
                    proof {
                        let dtp = choose|dt: DateTime|
                            valid_datetime(dt) && epoch_of_datetime(dt) == m.last_fetched && s@
                                == meta_render(ts_render(dt), m.data_version@);
                        crate::timestamp::lemma_ts_render_len(dtp);
                        lemma_meta_render_shape(ts_render(dtp), m.data_version@);
                        assert forall|dt: DateTime, ver: Seq<u8>|
                            valid_datetime(dt) && version_ok(ver) && s@ == meta_render(
                                ts_render(dt),
                                ver,
                            ) implies epoch_of_datetime(dt) == m.last_fetched by {
                            crate::timestamp::lemma_ts_render_len(dt);
                            lemma_meta_render_shape(ts_render(dt), ver);
                            assert(ts_render(dt) == s@.subrange(17, 37));
                            assert(ts_render(dtp) == s@.subrange(17, 37));
                            crate::timestamp::lemma_render_injective(dt, dtp);
                        }
                    }
                    now > m.last_fetched + TTL_SECONDS || !data_exists
                },
            }
        },
    }
}

/// What the clock read and what it decided.
pub struct FreshnessDecision {
    pub now: i64,
    pub fetch: bool,
}

/// Relies on `chrono::Utc::now`: the current time as whole seconds since the
/// epoch. Nothing is assumed of the clock's value.
#[verifier::external_body]
fn now_epoch_seconds() -> i64 {
    chrono::Utc::now().timestamp()
}

/// Reads the clock and decides whether the corpus must be fetched, as
/// `needs_fetch` does at the clock's current value, which is returned
/// alongside for the caller's later writes.
pub fn cache_decision(meta_text: Option<&Vec<u8>>, data_exists: bool) -> (r: FreshnessDecision)
    ensures
        match meta_text {
            None => r.fetch == true,
            Some(s) => {
                &&& (forall|dt: DateTime, ver: Seq<u8>|
                    valid_datetime(dt) && version_ok(ver) ==> s@ != meta_render(
                        ts_render(dt),
                        ver,
                    )) ==> r.fetch == true
                &&& forall|dt: DateTime, ver: Seq<u8>|
                    valid_datetime(dt) && version_ok(ver) && s@ == meta_render(ts_render(dt), ver)
                        ==> r.fetch == (is_stale(epoch_of_datetime(dt), r.now as int)
                        || !data_exists)
            },
        },
{
    let now = now_epoch_seconds();
    let fetch = needs_fetch(meta_text, data_exists, now);
    FreshnessDecision { now, fetch }
}

/// The two whole-file writes after a successful fetch.
pub struct FetchWrite {
    pub data_file: Vec<u8>,
    pub metadata_file: Vec<u8>,
}

/// The write plan after a successful fetch: the raw response body verbatim
/// as the data file, and a fresh metadata record carrying the fetch time and
/// the upstream revision embedded in the fetched corpus.
pub fn fetch_outputs(body: &Vec<u8>, rev: &Vec<u8>, now: i64) -> (r: FetchWrite)
    requires
        0 <= now <= MAX_EPOCH,
        version_ok(rev@),
    ensures
        r.data_file@ == body@,
        exists|dt: DateTime|
            valid_datetime(dt) && epoch_of_datetime(dt) == now && r.metadata_file@ == meta_render(
                ts_render(dt),
                rev@,
            ),
{
    let meta = CacheMetadata { last_fetched: now, data_version: copy_bytes(rev) };
    FetchWrite { data_file: copy_bytes(body), metadata_file: format_metadata(&meta) }
}

/// The one-shot disclaimer latch, as the presence of a sentinel file in the
/// cache directory.
pub struct DisclaimerState {
    pub sentinel_present: bool,
}

/// The disclaimer is shown exactly while the sentinel file is absent.
pub open spec fn should_show_spec(s: DisclaimerState) -> bool {
    !s.sentinel_present
}

/// Marking the disclaimer shown creates the sentinel file; marking it again
/// changes nothing.
pub open spec fn mark_spec(s: DisclaimerState) -> DisclaimerState {
    DisclaimerState { sentinel_present: true }
}

impl DisclaimerState {
    /// Whether the one-time disclaimer is still owed.
    pub fn should_show_disclaimer(&self) -> (r: bool)
        ensures
            r == should_show_spec(*self),
    {
        !self.sentinel_present
    }

    /// Latches the disclaimer as shown.
    pub fn mark_disclaimer_shown(&mut self)
        ensures
            *final(self) == mark_spec(*old(self)),
    {
        self.sentinel_present = true;
    }
}

/// The latch is one-shot: once marked shown the disclaimer is never owed
/// again, however often it is marked; on a clean cache directory it is owed.
pub proof fn lemma_disclaimer_latch(s: DisclaimerState)
    ensures
        !should_show_spec(mark_spec(s)),
        mark_spec(mark_spec(s)) == mark_spec(s),
        should_show_spec(DisclaimerState { sentinel_present: false }),
{
}

} // verus!
