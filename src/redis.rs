//! The keyspace engine: string keys with optional expiry instants, and
//! per-subscriber message queues fed by channel broadcasts.

use crate::clock::wall_clock_ms;
use std::collections::VecDeque;
use vstd::prelude::*;

verus! {

/// Milliseconds since the Unix epoch.
pub type Timestamp = u128;

/// The handle of one subscriber queue.
pub type RcvHandle = usize;

/// A stored value together with the instant after which it is gone.
pub struct TimedValue {
    pub value: String,
    /// `None`: never expires.
    pub expired_at: Option<Timestamp>,
}

/// What a key maps to, as seen by contracts.
pub ghost struct RecordView {
    pub value: Seq<char>,
    pub expires_at: Option<u128>,
}

/// One subscriber as seen by contracts: the channel it listens to, the
/// messages waiting in its queue, and every message ever delivered to it.
pub ghost struct SubscriberView {
    pub channel: Seq<char>,
    pub pending: Seq<Seq<char>>,
    pub received: Seq<Seq<char>>,
}

/// The abstract state of the engine.
pub ghost struct RedisView {
    pub kvs: Map<Seq<char>, RecordView>,
    pub subs: Seq<SubscriberView>,
}

/// Whether a record with expiry `exp` is gone at instant `now`: the
/// instant of expiry itself is past it.
pub open spec fn is_expired(exp: Option<u128>, now: u128) -> bool {
    match exp {
        Some(t) => now >= t,
        None => false,
    }
}

/// The expiry stored for an absolute instant where `0` means "never".
pub open spec fn expiry_of(exp_at: u128) -> Option<u128> {
    if exp_at == 0 {
        None
    } else {
        Some(exp_at)
    }
}

/// The absolute instant for a time-to-live taken at `now` (`0`: never).
pub open spec fn deadline_after(ttl: u128, now: u128) -> u128 {
    if ttl == 0 {
        0
    } else if now + ttl > u128::MAX {
        u128::MAX
    } else {
        (now + ttl) as u128
    }
}

impl RedisView {
    /// The value a read of `k` at `now` observes.
    pub open spec fn live(self, k: Seq<char>, now: u128) -> Option<Seq<char>> {
        if self.kvs.contains_key(k) && !is_expired(self.kvs[k].expires_at, now) {
            Some(self.kvs[k].value)
        } else {
            None
        }
    }

    /// The state after a read of `k` at `now`: an expired record is dropped.
    pub open spec fn after_read(self, k: Seq<char>, now: u128) -> RedisView {
        if self.kvs.contains_key(k) && is_expired(self.kvs[k].expires_at, now) {
            RedisView { kvs: self.kvs.remove(k), ..self }
        } else {
            self
        }
    }

    /// The state after storing `v` under `k` with absolute expiry `exp_at`.
    pub open spec fn after_set(self, k: Seq<char>, v: Seq<char>, exp_at: u128) -> RedisView {
        RedisView {
            kvs: self.kvs.insert(k, RecordView { value: v, expires_at: expiry_of(exp_at) }),
            ..self
        }
    }
}

/// The character sequence held by an optional string.
pub open spec fn opt_view(o: Option<String>) -> Option<Seq<char>> {
    match o {
        Some(s) => Some(s@),
        None => None,
    }
}

pub open spec fn record_of(tv: TimedValue) -> RecordView {
    RecordView { value: tv.value@, expires_at: tv.expired_at }
}

/// The engine.
pub struct Redis {
    kvs: Vec<(String, TimedValue)>,
    index: Ghost<Map<Seq<char>, RecordView>>,
    channels: Vec<String>,
    queues: Vec<VecDeque<String>>,
    received: Ghost<Seq<Seq<Seq<char>>>>,
}

impl View for Redis {
    type V = RedisView;

    closed spec fn view(&self) -> RedisView {
        RedisView {
            kvs: self.index@,
            subs: Seq::new(
                self.channels@.len(),
                |h: int|
                    SubscriberView {
                        channel: self.channels@[h]@,
                        pending: msgs(self.queues@[h]),
                        received: self.received@[h],
                    },
            ),
        }
    }
}

impl Redis {
    /// The internal consistency of the engine.
    pub closed spec fn wf(&self) -> bool {
        &&& forall|i: int, j: int|
            0 <= i < j < self.kvs@.len() ==> #[trigger] self.kvs@[i].0@ != #[trigger] self.kvs@[j].0@
        &&& forall|i: int|
            0 <= i < self.kvs@.len() ==> {
                &&& self.index@.contains_key(#[trigger] self.kvs@[i].0@)
                &&& self.index@[self.kvs@[i].0@] == record_of(self.kvs@[i].1)
            }
        &&& forall|k: Seq<char>|
            #[trigger] self.index@.contains_key(k) ==> exists|i: int|
                0 <= i < self.kvs@.len() && #[trigger] self.kvs@[i].0@ == k
        &&& self.queues@.len() == self.channels@.len()
        &&& self.received@.len() == self.channels@.len()
        &&& forall|h: int|
            0 <= h < self.channels@.len() ==> is_suffix(
                msgs(self.queues@[h]),
                #[trigger] self.received@[h],
            )
    }

    pub fn new() -> (r: Self)
        ensures
            r.wf(),
            r@.kvs == Map::<Seq<char>, RecordView>::empty(),
            r@.subs == Seq::<SubscriberView>::empty(),
    {
        let r = Redis {
            kvs: Vec::new(),
            index: Ghost(Map::empty()),
            channels: Vec::new(),
            queues: Vec::new(),
            received: Ghost(Seq::empty()),
        };
        assert(r@.subs =~= Seq::<SubscriberView>::empty());
        r
    }

    /// The position of `key` in the entry list.
    fn find(&self, key: &str) -> (r: Option<usize>)
        requires
            self.wf(),
        ensures
            match r {
                Some(i) => i < self.kvs@.len() && self.kvs@[i as int].0@ == key@,
                None => !self@.kvs.contains_key(key@),
            },
    {
        let k = key.to_owned();
        let mut i: usize = 0;
        while i < self.kvs.len()
            invariant
                self.wf(),
                k@ == key@,
                i <= self.kvs@.len(),
                forall|j: int| 0 <= j < i ==> #[trigger] self.kvs@[j].0@ != key@,
            decreases self.kvs@.len() - i,
        {
            if self.kvs[i].0 == k {
                return Some(i);
            }
            i += 1;
        }
        None
    }
}


impl Redis {
    /// Whether a record with expiry `ts` is gone at instant `now`.
    pub fn expired(ts: Option<Timestamp>, now: Timestamp) -> (r: bool)
        ensures
            r == is_expired(ts, now),
    {
        match ts {
            Some(t) => now >= t,
            None => false,
        }
    }

    pub(crate) fn channel_count(&self) -> (r: usize)
        ensures
            r == self@.subs.len(),
    {
        self.channels.len()
    }

    /// Drops the entry at position `i`.
    fn remove_at(&mut self, i: usize)
        requires
            old(self).wf(),
            i < old(self).kvs@.len(),
        ensures
            final(self).wf(),
            final(self)@ == (RedisView {
                kvs: old(self)@.kvs.remove(old(self).kvs@[i as int].0@),
                ..old(self)@
            }),
    {
        let ghost k = self.kvs@[i as int].0@;
        let ghost old_kvs = self.kvs@;
        self.kvs.remove(i);
        self.index = Ghost(self.index@.remove(k));
        assert forall|j: int| 0 <= j < self.kvs@.len() implies {
            &&& self.index@.contains_key(#[trigger] self.kvs@[j].0@)
            &&& self.index@[self.kvs@[j].0@] == record_of(self.kvs@[j].1)
        } by {
            if j < i {
                assert(self.kvs@[j] == old_kvs[j]);
            } else {
                assert(self.kvs@[j] == old_kvs[j + 1]);
            }
        }
        assert forall|x: Seq<char>| #[trigger] self.index@.contains_key(x) implies exists|j: int|
            0 <= j < self.kvs@.len() && #[trigger] self.kvs@[j].0@ == x by {
            let j = choose|j: int| 0 <= j < old_kvs.len() && #[trigger] old_kvs[j].0@ == x;
            if j < i {
                assert(self.kvs@[j] == old_kvs[j]);
            } else {
                assert(self.kvs@[j - 1] == old_kvs[j]);
            }
        }
        assert forall|a: int, b: int|
            0 <= a < b < self.kvs@.len() implies #[trigger] self.kvs@[a].0@
            != #[trigger] self.kvs@[b].0@ by {
            let a0 = if a < i { a } else { a + 1 };
            let b0 = if b < i { b } else { b + 1 };
            assert(self.kvs@[a] == old_kvs[a0]);
            assert(self.kvs@[b] == old_kvs[b0]);
            assert(old_kvs[a0].0@ != old_kvs[b0].0@);
        }
    }

    /// Reads `key` as of instant `now`; an expired record is removed.
    pub fn get_at(&mut self, key: &str, now: Timestamp) -> (r: Option<String>)
        requires
            old(self).wf(),
        ensures
            final(self).wf(),
            opt_view(r) == old(self)@.live(key@, now),
            final(self)@ == old(self)@.after_read(key@, now),
    {
        match self.find(key) {
            None => None,
            Some(i) => {
                if Self::expired(self.kvs[i].1.expired_at, now) {
                    self.remove_at(i);
                    None
                } else {
                    Some(self.kvs[i].1.value.clone())
                }
            },
        }
    }

    /// Stores the record `tv` under `key`, replacing any record.
    fn put(&mut self, key: &str, tv: TimedValue)
        requires
            old(self).wf(),
        ensures
            final(self).wf(),
            final(self)@ == (RedisView {
                kvs: old(self)@.kvs.insert(key@, record_of(tv)),
                ..old(self)@
            }),
    {
        let ghost rec = record_of(tv);
        let ghost old_kvs = self.kvs@;
        match self.find(key) {
            Some(i) => {
                self.kvs[i].1 = tv;
                self.index = Ghost(self.index@.insert(key@, rec));
                assert forall|j: int| 0 <= j < self.kvs@.len() implies {
                    &&& self.index@.contains_key(#[trigger] self.kvs@[j].0@)
                    &&& self.index@[self.kvs@[j].0@] == record_of(self.kvs@[j].1)
                } by {
                    if j != i {
                        assert(self.kvs@[j] == old_kvs[j]);
                        assert(old_kvs[j].0@ != old_kvs[i as int].0@);
                    }
                }
                assert forall|x: Seq<char>| #[trigger] self.index@.contains_key(x) implies exists|j: int|
                    0 <= j < self.kvs@.len() && #[trigger] self.kvs@[j].0@ == x by {
                    if x != key@ {
                        let j = choose|j: int| 0 <= j < old_kvs.len() && #[trigger] old_kvs[j].0@ == x;
                        assert(self.kvs@[j].0@ == old_kvs[j].0@);
                    } else {
                        assert(self.kvs@[i as int].0@ == x);
                    }
                }
                assert forall|a: int, b: int|
                    0 <= a < b < self.kvs@.len() implies #[trigger] self.kvs@[a].0@
                    != #[trigger] self.kvs@[b].0@ by {
                    assert(self.kvs@[a].0@ == old_kvs[a].0@);
                    assert(self.kvs@[b].0@ == old_kvs[b].0@);
                }
            },
            None => {
                self.kvs.push((key.to_owned(), tv));
                self.index = Ghost(self.index@.insert(key@, rec));
                let ghost n = old_kvs.len() as int;
                assert forall|j: int| 0 <= j < self.kvs@.len() implies {
                    &&& self.index@.contains_key(#[trigger] self.kvs@[j].0@)
                    &&& self.index@[self.kvs@[j].0@] == record_of(self.kvs@[j].1)
                } by {
                    if j < n {
                        assert(self.kvs@[j] == old_kvs[j]);
                        assert(old(self).index@.contains_key(old_kvs[j].0@));
                    }
                }
                assert forall|x: Seq<char>| #[trigger] self.index@.contains_key(x) implies exists|j: int|
                    0 <= j < self.kvs@.len() && #[trigger] self.kvs@[j].0@ == x by {
                    if x != key@ {
                        let j = choose|j: int| 0 <= j < old_kvs.len() && #[trigger] old_kvs[j].0@ == x;
                        assert(self.kvs@[j] == old_kvs[j]);
                    } else {
                        assert(self.kvs@[n].0@ == x);
                    }
                }
                assert forall|a: int, b: int|
                    0 <= a < b < self.kvs@.len() implies #[trigger] self.kvs@[a].0@
                    != #[trigger] self.kvs@[b].0@ by {
                    assert(self.kvs@[a] == old_kvs[a]);
                    if b < n {
                        assert(self.kvs@[b] == old_kvs[b]);
                    } else {
                        assert(old(self).index@.contains_key(old_kvs[a].0@));
                    }
                }
            },
        }
        assert(self@.kvs =~= old(self)@.kvs.insert(key@, record_of(tv)));
    }

    /// Stores `value` under `key` with absolute expiry `exp_at` (`0`: never),
    /// replacing any record.
    pub fn set_at(&mut self, key: &str, value: &str, exp_at: Timestamp)
        requires
            old(self).wf(),
        ensures
            final(self).wf(),
            final(self)@ == old(self)@.after_set(key@, value@, exp_at),
    {
        let tv = TimedValue {
            value: value.to_owned(),
            expired_at: if exp_at == 0 {
                None
            } else {
                Some(exp_at)
            },
        };
        self.put(key, tv);
    }

    /// Stores `value` under `key`, expiring `ttl` milliseconds after `now`
    /// (`0`: never).
    pub fn set_after_at(&mut self, key: &str, value: &str, ttl: u128, now: Timestamp)
        requires
            old(self).wf(),
        ensures
            final(self).wf(),
            final(self)@ == old(self)@.after_set(key@, value@, deadline_after(ttl, now)),
    {
        let exp_at = if ttl == 0 {
            0
        } else {
            now.saturating_add(ttl)
        };
        self.set_at(key, value, exp_at);
    }

    /// Removes `key`; tells whether a record was there.
    pub fn del(&mut self, key: &str) -> (r: bool)
        requires
            old(self).wf(),
        ensures
            final(self).wf(),
            r == old(self)@.kvs.contains_key(key@),
            final(self)@ == (RedisView { kvs: old(self)@.kvs.remove(key@), ..old(self)@ }),
    {
        match self.find(key) {
            Some(i) => {
                self.remove_at(i);
                true
            },
            None => {
                assert(self@.kvs =~= self@.kvs.remove(key@));
                false
            },
        }
    }
}


/// Why `fetch` returned no message.
#[derive(PartialEq, Eq, Structural, Debug, Clone, Copy)]
pub enum FetchError {
    /// The queue holds no message right now.
    Empty,
    /// No subscriber has this handle.
    UnknownHandle,
}

/// The number of subscribers in `subs` that listen to `ch`.
pub open spec fn subscriber_count(subs: Seq<SubscriberView>, ch: Seq<char>) -> nat
    decreases subs.len(),
{
    if subs.len() == 0 {
        0
    } else {
        subscriber_count(subs.drop_last(), ch) + if subs.last().channel == ch {
            1nat
        } else {
            0nat
        }
    }
}

/// A subscriber after `m` was broadcast on `ch`.
pub open spec fn deliver(s: SubscriberView, ch: Seq<char>, m: Seq<char>) -> SubscriberView {
    if s.channel == ch {
        SubscriberView { pending: s.pending.push(m), received: s.received.push(m), ..s }
    } else {
        s
    }
}

impl RedisView {
    /// The state after `m` was broadcast on `ch`.
    pub open spec fn after_broadcast(self, ch: Seq<char>, m: Seq<char>) -> RedisView {
        RedisView { subs: self.subs.map_values(|s: SubscriberView| deliver(s, ch, m)), ..self }
    }
}

pub proof fn lemma_suffix_push(s: Seq<Seq<char>>, full: Seq<Seq<char>>, x: Seq<char>)
    requires
        is_suffix(s, full),
    ensures
        is_suffix(s.push(x), full.push(x)),
{
    assert(s.push(x) =~= full.push(x).subrange(
        full.push(x).len() - s.push(x).len(),
        full.push(x).len() as int,
    ));
}

impl Redis {
    /// Opens a new subscriber queue on `channel_name`; its handle is the
    /// number of subscribers opened before.
    pub fn add_subscriber(&mut self, channel_name: &str) -> (r: RcvHandle)
        requires
            old(self).wf(),
            old(self)@.subs.len() < usize::MAX,
        ensures
            final(self).wf(),
            r == old(self)@.subs.len(),
            final(self)@ == (RedisView {
                subs: old(self)@.subs.push(
                    SubscriberView {
                        channel: channel_name@,
                        pending: Seq::empty(),
                        received: Seq::empty(),
                    },
                ),
                ..old(self)@
            }),
    {
        let hd = self.channels.len();
        self.channels.push(channel_name.to_owned());
        self.queues.push(VecDeque::new());
        self.received = Ghost(self.received@.push(Seq::empty()));
        assert(msgs(self.queues@[hd as int]) =~= Seq::<Seq<char>>::empty());
        assert forall|h: int| 0 <= h < self.channels@.len() implies is_suffix(
            msgs(self.queues@[h]),
            #[trigger] self.received@[h],
        ) by {
            if h < hd {
                assert(self.queues@[h] == old(self).queues@[h]);
                assert(self.received@[h] == old(self).received@[h]);
            } else {
                assert(self.received@[h].subrange(0, 0) =~= Seq::<Seq<char>>::empty());
            }
        }
        assert(self@.subs =~= old(self)@.subs.push(
            SubscriberView { channel: channel_name@, pending: Seq::empty(), received: Seq::empty() },
        ));
        hd
    }

    /// Takes the oldest waiting message off the queue of `hd`, without waiting.
    pub fn fetch(&mut self, hd: RcvHandle) -> (r: Result<String, FetchError>)
        requires
            old(self).wf(),
        ensures
            final(self).wf(),
            hd >= old(self)@.subs.len() ==> r == Err::<String, FetchError>(FetchError::UnknownHandle)
                && final(self)@ == old(self)@,
            hd < old(self)@.subs.len() && old(self)@.subs[hd as int].pending.len() == 0 ==> r
                == Err::<String, FetchError>(FetchError::Empty) && final(self)@ == old(self)@,
            hd < old(self)@.subs.len() && old(self)@.subs[hd as int].pending.len() > 0 ==> {
                let s = old(self)@.subs[hd as int];
                &&& r matches Ok(m) && m@ == s.pending[0]
                &&& final(self)@ == (RedisView {
                    subs: old(self)@.subs.update(
                        hd as int,
                        SubscriberView { pending: s.pending.drop_first(), ..s },
                    ),
                    ..old(self)@
                })
            },
    {
        if hd >= self.queues.len() {
            return Err(FetchError::UnknownHandle);
        }
        let ghost before = self.queues@[hd as int];
        match self.queues[hd].pop_front() {
            None => {
                assert(self@.subs =~= old(self)@.subs);
                Err(FetchError::Empty)
            },
            Some(m) => {
                let ghost s = old(self)@.subs[hd as int];
                assert(msgs(self.queues@[hd as int]) =~= msgs(before).drop_first());
                assert forall|h: int| 0 <= h < self.channels@.len() implies is_suffix(
                    msgs(self.queues@[h]),
                    #[trigger] self.received@[h],
                ) by {
                    if h == hd {
                        let full = self.received@[h];
                        let p = msgs(before);
                        assert(p.drop_first() =~= full.subrange(
                            full.len() - p.drop_first().len(),
                            full.len() as int,
                        ));
                    } else {
                        assert(self.queues@[h] == old(self).queues@[h]);
                    }
                }
                assert(self@.subs =~= old(self)@.subs.update(
                    hd as int,
                    SubscriberView { pending: s.pending.drop_first(), ..s },
                ));
                Ok(m)
            },
        }
    }

    /// Appends `content` to the queue of every subscriber of `channel_name`;
    /// returns how many there are.
    pub fn broadcast(&mut self, channel_name: &str, content: &str) -> (r: usize)
        requires
            old(self).wf(),
        ensures
            final(self).wf(),
            r == subscriber_count(old(self)@.subs, channel_name@),
            final(self)@ == old(self)@.after_broadcast(channel_name@, content@),
    {
        let ch = channel_name.to_owned();
        let ghost subs0 = old(self)@.subs;
        let mut cnt: usize = 0;
        let mut h: usize = 0;
        while h < self.channels.len()
            invariant
                old(self).wf(),
                ch@ == channel_name@,
                subs0 == old(self)@.subs,
                subs0.len() == self.channels@.len(),
                h <= self.channels@.len(),
                self.channels == old(self).channels,
                self.kvs == old(self).kvs,
                self.index == old(self).index,
                self.received == old(self).received,
                self.queues@.len() == old(self).queues@.len(),
                cnt <= h,
                cnt == subscriber_count(subs0.take(h as int), channel_name@),
                forall|j: int|
                    0 <= j < h ==> #[trigger] msgs(self.queues@[j]) == if self.channels@[j]@
                        == channel_name@ {
                        msgs(old(self).queues@[j]).push(content@)
                    } else {
                        msgs(old(self).queues@[j])
                    },
                forall|j: int|
                    h <= j < self.queues@.len() ==> #[trigger] self.queues@[j] == old(self).queues@[j],
            decreases self.channels@.len() - h,
        {
            assert(subs0.take(h + 1).drop_last() =~= subs0.take(h as int));
            if self.channels[h] == ch {
                let ghost q0 = self.queues@[h as int];
                self.queues[h].push_back(content.to_owned());
                assert(msgs(self.queues@[h as int]) =~= msgs(q0).push(content@));
                cnt += 1;
            }
            h += 1;
        }
        assert(subs0.take(h as int) =~= subs0);
        let ghost rec0 = self.received@;
        self.received = Ghost(
            Seq::new(
                rec0.len(),
                |j: int|
                    if self.channels@[j]@ == channel_name@ {
                        rec0[j].push(content@)
                    } else {
                        rec0[j]
                    },
            ),
        );
        assert forall|j: int| 0 <= j < self.channels@.len() implies is_suffix(
            msgs(self.queues@[j]),
            #[trigger] self.received@[j],
        ) by {
            assert(is_suffix(msgs(old(self).queues@[j]), rec0[j]));
            if self.channels@[j]@ == channel_name@ {
                lemma_suffix_push(
                    msgs(old(self).queues@[j]),
                    rec0[j],
                    content@,
                );
            }
        }
        assert(self@.subs =~= old(self)@.after_broadcast(channel_name@, content@).subs);
        cnt
    }
}


/// One keyspace entry in a snapshot: key, value and expiry.
pub type SnapshotEntry = (String, String, Option<Timestamp>);

/// The plain content of snapshot entries.
pub open spec fn entries_view(es: Seq<SnapshotEntry>) -> Seq<(Seq<char>, Seq<char>, Option<u128>)> {
    es.map_values(|e: SnapshotEntry| (e.0@, e.1@, e.2))
}

/// The keyspace that loading `es` in order builds: a later entry for a key
/// replaces an earlier one.
pub open spec fn load_map(es: Seq<(Seq<char>, Seq<char>, Option<u128>)>) -> Map<Seq<char>, RecordView>
    decreases es.len(),
{
    if es.len() == 0 {
        Map::empty()
    } else {
        load_map(es.drop_last()).insert(
            es.last().0,
            RecordView { value: es.last().1, expires_at: es.last().2 },
        )
    }
}

/// The MessagePack encoding that `rmp_serde::to_vec` gives a list of entries.
pub uninterp spec fn msgpack_entries(es: Seq<(Seq<char>, Seq<char>, Option<u128>)>) -> Seq<u8>;

/// Text short enough for a 32-bit MessagePack length: under 2^30
/// characters, so under 2^32 UTF-8 bytes.
pub open spec fn short_text(s: Seq<char>) -> bool {
    s.len() < 0x4000_0000
}

/// A list of entries whose lengths MessagePack's 32-bit length fields hold:
/// fewer than 2^32 entries, each key and value short.
pub open spec fn encodable(es: Seq<(Seq<char>, Seq<char>, Option<u128>)>) -> bool {
    &&& es.len() < 0x1_0000_0000
    &&& forall|i: int| 0 <= i < es.len() ==> short_text(#[trigger] es[i].0) && short_text(es[i].1)
}

/// A keyspace whose snapshot is encodable.
pub open spec fn kvs_encodable(m: Map<Seq<char>, RecordView>) -> bool {
    &&& m.dom().len() < 0x1_0000_0000
    &&& forall|k: Seq<char>| #[trigger] m.contains_key(k) ==> short_text(k) && short_text(m[k].value)
}

/// `b` encodes an encodable list of entries whose loading builds the
/// keyspace `m`.
pub open spec fn is_snapshot_of(b: Seq<u8>, m: Map<Seq<char>, RecordView>) -> bool {
    exists|es: Seq<(Seq<char>, Seq<char>, Option<u128>)>|
        #[trigger] msgpack_entries(es) == b && encodable(es) && load_map(es) == m
}

/// Every encodable list of entries that `b` encodes loads into the keyspace `m`.
pub open spec fn restores_to(b: Seq<u8>, m: Map<Seq<char>, RecordView>) -> bool {
    forall|es: Seq<(Seq<char>, Seq<char>, Option<u128>)>|
        #[trigger] msgpack_entries(es) == b && encodable(es) ==> load_map(es) == m
}

/// Loading entries with distinct keys gives one record per entry.
pub proof fn lemma_load_map_dom(es: Seq<(Seq<char>, Seq<char>, Option<u128>)>)
    requires
        forall|i: int, j: int| 0 <= i < j < es.len() ==> #[trigger] es[i].0 != #[trigger] es[j].0,
    ensures
        load_map(es).dom().finite(),
        load_map(es).dom().len() == es.len(),
        forall|k: Seq<char>| #[trigger] load_map(es).contains_key(k) <==> exists|i: int|
            0 <= i < es.len() && es[i].0 == k,
    decreases es.len(),
{
    if es.len() == 0 {
        assert(load_map(es).dom() =~= Set::<Seq<char>>::empty());
    } else {
        let p = es.drop_last();
        assert forall|i: int, j: int| 0 <= i < j < p.len() implies #[trigger] p[i].0 != #[trigger] p[j].0 by {
            assert(p[i] == es[i] && p[j] == es[j]);
        }
        lemma_load_map_dom(p);
        let k = es.last().0;
        assert(!load_map(p).contains_key(k)) by {
            if load_map(p).contains_key(k) {
                let i = choose|i: int| 0 <= i < p.len() && p[i].0 == k;
                assert(es[i].0 != es[es.len() - 1].0);
            }
        }
        assert(load_map(es).dom() =~= load_map(p).dom().insert(k));
        assert forall|x: Seq<char>| #[trigger] load_map(es).contains_key(x) <==> exists|i: int|
            0 <= i < es.len() && es[i].0 == x by {
            if load_map(p).contains_key(x) {
                let i = choose|i: int| 0 <= i < p.len() && p[i].0 == x;
                assert(es[i].0 == x);
            }
            if exists|i: int| 0 <= i < es.len() && es[i].0 == x {
                let i = choose|i: int| 0 <= i < es.len() && es[i].0 == x;
                if i < p.len() {
                    assert(p[i].0 == x);
                }
            }
        }
    }
}

/// Relies on `rmp_serde::to_vec`: the MessagePack encoding of the entries,
/// `None` where the encoder reports an error.
#[verifier::external_body]
fn encode_entries(es: &Vec<SnapshotEntry>) -> (r: Option<Vec<u8>>)
    ensures
        r matches Some(b) ==> b@ == msgpack_entries(entries_view(es@)),
{
    rmp_serde::to_vec(es).ok()
}

/// `r` holds a decoded list of entries whose content is `es`.
pub open spec fn decoded_as(r: Option<Vec<SnapshotEntry>>, es: Seq<(Seq<char>, Seq<char>, Option<u128>)>) -> bool {
    r matches Some(v) && entries_view(v@) == es
}

/// Relies on `rmp_serde::from_slice`: bytes that `rmp_serde::to_vec` made
/// from a list of entries decode to that same list, where the list's and
/// the strings' lengths fit the 32-bit length fields that `rmp` writes.
#[verifier::external_body]
fn decode_entries(b: &[u8]) -> (r: Option<Vec<SnapshotEntry>>)
    ensures
        forall|es: Seq<(Seq<char>, Seq<char>, Option<u128>)>|
            #[trigger] msgpack_entries(es) == b@ && encodable(es) ==> decoded_as(r, es),
{
    rmp_serde::from_slice(b).ok()
}

impl Redis {
    /// Reads `key` at the current wall-clock time.
    pub fn get(&mut self, key: &str) -> (r: Option<String>)
        requires
            old(self).wf(),
        ensures
            final(self).wf(),
            exists|now: u128|
                opt_view(r) == old(self)@.live(key@, now) && final(self)@ == old(self)@.after_read(
                    key@,
                    now,
                ),
    {
        let now = wall_clock_ms();
        self.get_at(key, now)
    }

    /// Stores `value` under `key`, expiring `exp_after` milliseconds from the
    /// current wall-clock time (`0`: never).
    pub fn set_after(&mut self, key: &str, value: &str, exp_after: u128)
        requires
            old(self).wf(),
        ensures
            final(self).wf(),
            exists|now: u128|
                final(self)@ == old(self)@.after_set(key@, value@, deadline_after(exp_after, now)),
    {
        let now = wall_clock_ms();
        self.set_after_at(key, value, exp_after, now)
    }

    /// The keyspace as a list of entries, one per key.
    pub fn snapshot_entries(&self) -> (r: Vec<SnapshotEntry>)
        requires
            self.wf(),
        ensures
            load_map(entries_view(r@)) == self@.kvs,
            kvs_encodable(self@.kvs) ==> encodable(entries_view(r@)),
    {
        let mut out: Vec<SnapshotEntry> = Vec::new();
        let mut i: usize = 0;
        while i < self.kvs.len()
            invariant
                self.wf(),
                i <= self.kvs@.len(),
                out@.len() == i,
                forall|k: Seq<char>|
                    #[trigger] load_map(entries_view(out@)).contains_key(k) <==> exists|j: int|
                        0 <= j < i && #[trigger] self.kvs@[j].0@ == k,
                forall|j: int|
                    0 <= j < i ==> load_map(entries_view(out@))[#[trigger] self.kvs@[j].0@]
                        == record_of(self.kvs@[j].1),
                forall|j: int|
                    0 <= j < i ==> #[trigger] entries_view(out@)[j].0 == self.kvs@[j].0@
                        && entries_view(out@)[j].1 == self.kvs@[j].1.value@,
            decreases self.kvs@.len() - i,
        {
            let e = &self.kvs[i];
            let entry: SnapshotEntry = (e.0.clone(), e.1.value.clone(), e.1.expired_at);
            let ghost before = out@;
            out.push(entry);
            assert(entries_view(out@).drop_last() =~= entries_view(before));
            assert forall|j: int| 0 <= j < i + 1 implies #[trigger] entries_view(out@)[j].0 == self.kvs@[j].0@
                && entries_view(out@)[j].1 == self.kvs@[j].1.value@ by {
                if j < i {
                    assert(entries_view(out@)[j] == entries_view(before)[j]);
                }
            }
            let ghost m = load_map(entries_view(out@));
            assert forall|j: int| 0 <= j < i + 1 implies m[#[trigger] self.kvs@[j].0@]
                == record_of(self.kvs@[j].1) by {
                if j < i {
                    assert(self.kvs@[j].0@ != self.kvs@[i as int].0@);
                }
            }
            assert forall|k: Seq<char>| #[trigger] m.contains_key(k) implies exists|j: int|
                0 <= j < i + 1 && #[trigger] self.kvs@[j].0@ == k by {
                if k == self.kvs@[i as int].0@ {
                    assert(self.kvs@[i as int].0@ == k);
                }
            }
            i += 1;
        }
        assert(load_map(entries_view(out@)) =~= self@.kvs);
        let ghost ev = entries_view(out@);
        assert forall|a: int, b: int| 0 <= a < b < ev.len() implies #[trigger] ev[a].0 != #[trigger] ev[b].0 by {
            assert(self.kvs@[a].0@ != self.kvs@[b].0@);
        }
        proof {
            lemma_load_map_dom(ev);
        }
        assert(kvs_encodable(self@.kvs) ==> encodable(ev)) by {
            if kvs_encodable(self@.kvs) {
                assert forall|j: int| 0 <= j < ev.len() implies short_text(#[trigger] ev[j].0) && short_text(ev[j].1) by {
                    assert(self.index@.contains_key(self.kvs@[j].0@));
                    assert(self@.kvs.contains_key(ev[j].0));
                }
            }
        }
        out
    }

    /// Replaces the keyspace with the one that loading `es` in order builds;
    /// subscribers stay.
    pub fn restore_entries(&mut self, es: Vec<SnapshotEntry>)
        requires
            old(self).wf(),
        ensures
            final(self).wf(),
            final(self)@ == (RedisView { kvs: load_map(entries_view(es@)), ..old(self)@ }),
    {
        self.kvs = Vec::new();
        self.index = Ghost(Map::empty());
        assert(entries_view(es@.take(0)) =~= Seq::empty());
        let mut i: usize = 0;
        while i < es.len()
            invariant
                self.wf(),
                i <= es@.len(),
                self@ == (RedisView { kvs: load_map(entries_view(es@.take(i as int))), ..old(self)@ }),
            decreases es@.len() - i,
        {
            let e = &es[i];
            let tv = TimedValue { value: e.1.clone(), expired_at: e.2 };
            self.put(e.0.as_str(), tv);
            assert(entries_view(es@.take(i + 1)).drop_last() =~= entries_view(es@.take(i as int)));
            i += 1;
        }
        assert(es@.take(i as int) =~= es@);
    }

    /// The keyspace, MessagePack-encoded; `None` where the encoder failed
    /// (it reports a failed allocation as an error).
    pub fn serialize(&self) -> (r: Option<Vec<u8>>)
        requires
            self.wf(),
        ensures
            r matches Some(b) ==> (kvs_encodable(self@.kvs) ==> is_snapshot_of(b@, self@.kvs)),
    {
        let es = self.snapshot_entries();
        let r = encode_entries(&es);
        if let Some(b) = &r {
            assert(msgpack_entries(entries_view(es@)) == b@);
        }
        r
    }

    /// Replaces the keyspace with the one that `data` encodes, leaving the
    /// subscribers alone; tells whether `data` could be decoded. Where it
    /// could not, nothing changes.
    pub fn deserialize(&mut self, data: Vec<u8>) -> (r: bool)
        requires
            old(self).wf(),
        ensures
            final(self).wf(),
            final(self)@.subs == old(self)@.subs,
            !r ==> final(self)@ == old(self)@,
            r ==> exists|es: Seq<(Seq<char>, Seq<char>, Option<u128>)>|
                final(self)@.kvs == #[trigger] load_map(es),
            (exists|es: Seq<(Seq<char>, Seq<char>, Option<u128>)>|
                #[trigger] msgpack_entries(es) == data@ && encodable(es)) ==> r,
            restores_to(data@, final(self)@.kvs),
    {
        let dec = decode_entries(data.as_slice());
        let ghost d = dec;
        match dec {
            Some(es) => {
                self.restore_entries(es);
                assert forall|x: Seq<(Seq<char>, Seq<char>, Option<u128>)>|
                    #[trigger] msgpack_entries(x) == data@ && encodable(x) implies load_map(x) == self@.kvs by {
                    assert(decoded_as(d, x));
                }
                true
            },
            None => false,
        }
    }

    /// Called when a node joins the cluster; the keyspace is unaffected.
    pub fn new_node(&mut self)
        ensures
            *final(self) == *old(self),
    {
    }
}


impl RedisView {
    /// Each subscriber's waiting messages are the latest of those delivered to it.
    pub open spec fn subs_ok(self) -> bool {
        forall|h: int| 0 <= h < self.subs.len() ==> is_suffix(#[trigger] self.subs[h].pending, self.subs[h].received)
    }
}

/// A well-formed engine keeps every subscriber's queue a suffix of what was
/// delivered to it.
pub proof fn lemma_wf_subs(r: &Redis)
    requires
        r.wf(),
    ensures
        r@.subs_ok(),
{
    assert forall|h: int| 0 <= h < r@.subs.len() implies is_suffix(
        #[trigger] r@.subs[h].pending,
        r@.subs[h].received,
    ) by {
        assert(is_suffix(msgs(r.queues@[h]), r.received@[h]));
    }
}

/// Once the clock has reached a key's expiry, a read of the key finds
/// nothing, the read drops the record, and every later read finds nothing.
pub proof fn lemma_expired_key_is_gone(v: RedisView, k: Seq<char>, t: u128, now: u128, later: u128)
    requires
        v.kvs.contains_key(k),
        v.kvs[k].expires_at == Some(t),
        now >= t,
    ensures
        v.live(k, now) == None::<Seq<char>>,
        !v.after_read(k, now).kvs.contains_key(k),
        v.after_read(k, now).live(k, later) == None::<Seq<char>>,
{
}

/// Decoding a snapshot of a keyspace gives that keyspace back: the same
/// keys, each with the same value and expiry.
pub proof fn lemma_snapshot_round_trip(
    b: Seq<u8>,
    m: Map<Seq<char>, RecordView>,
    restored: Map<Seq<char>, RecordView>,
)
    requires
        is_snapshot_of(b, m),
        restores_to(b, restored),
    ensures
        restored == m,
{
    let es = choose|es: Seq<(Seq<char>, Seq<char>, Option<u128>)>|
        #[trigger] msgpack_entries(es) == b && encodable(es) && load_map(es) == m;
}

/// A subscriber handle is fresh: handles given out from states with fewer
/// subscribers differ from it.
pub proof fn lemma_handles_unique(v1: RedisView, r1: nat, v2: RedisView, r2: nat)
    requires
        r1 == v1.subs.len(),
        r2 == v2.subs.len(),
        v1.subs.len() < v2.subs.len(),
    ensures
        r1 != r2,
{
}

/// A message that FETCH can take off a subscriber's queue was delivered to
/// that subscriber, which happens only by a broadcast on its channel after
/// it subscribed.
pub proof fn lemma_fetched_was_delivered(v: RedisView, h: int)
    requires
        v.subs_ok(),
        0 <= h < v.subs.len(),
        v.subs[h].pending.len() > 0,
    ensures
        v.subs[h].received.contains(v.subs[h].pending[0]),
{
    let s = v.subs[h];
    let n = s.received.len() - s.pending.len();
    assert(s.pending[0] == s.received.subrange(n, s.received.len() as int)[0]);
    assert(s.received[n] == s.pending[0]);
}

/// The messages waiting in a queue.
pub open spec fn msgs(q: VecDeque<String>) -> Seq<Seq<char>> {
    q@.map_values(|m: String| m@)
}

/// `s` is what is left of `full` after some prefix was taken off.
pub open spec fn is_suffix(s: Seq<Seq<char>>, full: Seq<Seq<char>>) -> bool {
    &&& s.len() <= full.len()
    &&& s == full.subrange(full.len() - s.len(), full.len() as int)
}

} // verus!
