//! The usage ledger: launch counts and times by key, and frecency.
//!
//! Frecency is `launch_count × multiplier`, the multiplier falling with the
//! whole days since the last launch (2.0, 1.5, 1.0, 0.5, 0.25). Every
//! multiplier is a multiple of 0.25, so frecency is kept exactly in quarter
//! points: four times its value, as an integer.

use vstd::prelude::*;
use crate::text::{chars_of, has_prefix, starts_with, string_from_chars};

verus! {

/// Seconds in one day.
pub const SECS_PER_DAY: u64 = 86400;

/// How often and how lately one item was launched.
#[derive(Clone, Copy, Debug, PartialEq, Eq, Structural)]
pub struct AppUsage {
    pub launch_count: u32,
    /// Seconds since the Unix epoch of the latest launch.
    pub last_launched: Option<i64>,
}

/// The record of a key that was never launched.
pub open spec fn zero_usage() -> AppUsage {
    AppUsage { launch_count: 0, last_launched: None }
}

impl Default for AppUsage {
    fn default() -> (r: AppUsage)
        ensures
            r == zero_usage(),
    {
        AppUsage { launch_count: 0, last_launched: None }
    }
}

/// One key of the ledger with its record.
pub struct UsageEntry {
    pub key: String,
    pub usage: AppUsage,
}

/// Whole days in `elapsed` seconds, truncated toward zero.
pub open spec fn whole_days(elapsed: int) -> int {
    if elapsed >= 0 {
        elapsed / (SECS_PER_DAY as int)
    } else {
        -((-elapsed) / (SECS_PER_DAY as int))
    }
}

/// The recency multiplier of an age in whole days, in quarters
/// (2.0, 1.5, 1.0, 0.5 and 0.25 become 8, 6, 4, 2 and 1).
pub open spec fn recency_quarters(days: int) -> int {
    if days < 1 {
        8
    } else if days < 7 {
        6
    } else if days < 30 {
        4
    } else if days < 90 {
        2
    } else {
        1
    }
}

/// Frecency of a record at time `now`, in quarter points: four times
/// `launch_count × multiplier`, and zero for a record never launched.
pub open spec fn frecency_quarters(u: AppUsage, now: int) -> int {
    match u.last_launched {
        None => 0,
        Some(t) => u.launch_count * recency_quarters(whole_days(now - t)),
    }
}

/// The record of `key` in `m`, a missing key counting as a zero record.
pub open spec fn usage_in(m: Map<Seq<char>, AppUsage>, key: Seq<char>) -> AppUsage {
    if m.contains_key(key) {
        m[key]
    } else {
        zero_usage()
    }
}

/// The ledger after one launch of `key` at time `now`.
pub open spec fn recorded(m: Map<Seq<char>, AppUsage>, key: Seq<char>, now: int) -> Map<
    Seq<char>,
    AppUsage,
> {
    m.insert(
        key,
        AppUsage {
            launch_count: (usage_in(m, key).launch_count + 1) as u32,
            last_launched: Some(now as i64),
        },
    )
}

/// The prefix that puts filesystem paths in a key space of their own.
pub open spec fn path_key_prefix() -> Seq<char> {
    seq!['p', 'a', 't', 'h', ':']
}

/// The ledger key of a launched filesystem path.
pub open spec fn path_key(path: Seq<char>) -> Seq<char> {
    path_key_prefix() + path
}

pub fn path_key_prefix_chars() -> (r: Vec<char>)
    ensures
        r@ == path_key_prefix(),
{
    let r = vec!['p', 'a', 't', 'h', ':'];
    assert(r@ =~= path_key_prefix());
    r
}

/// Builds the ledger key of a filesystem path.
pub fn path_key_of(path: &str) -> (r: String)
    ensures
        r@ == path_key(path@),
{
    let mut cs = path_key_prefix_chars();
    let mut rest = chars_of(path);
    cs.append(&mut rest);
    string_from_chars(&cs)
}

/// The recency multiplier, in quarters, of a launch at `last` seen at `now`.
fn recency_multiplier(now: i64, last: i64) -> (r: u64)
    ensures
        r == recency_quarters(whole_days(now - last)),
{
    if now < last {
        assert((last - now) / (SECS_PER_DAY as int) >= 0) by (nonlinear_arith)
            requires last - now > 0;
        8
    } else {
        let elapsed: u64 = (now as i128 - last as i128) as u64;
        let days = elapsed / SECS_PER_DAY;
        if days < 1 {
            8
        } else if days < 7 {
            6
        } else if days < 30 {
            4
        } else if days < 90 {
            2
        } else {
            1
        }
    }
}

/// The usage ledger: launch counts and times by key, each key once.
pub struct Database {
    entries: Vec<UsageEntry>,
    ledger: Ghost<Map<Seq<char>, AppUsage>>,
}

impl View for Database {
    type V = Map<Seq<char>, AppUsage>;

    closed spec fn view(&self) -> Map<Seq<char>, AppUsage> {
        self.ledger@
    }
}

impl Database {
    pub closed spec fn wf(&self) -> bool {
        &&& forall|i: int, j: int|
            0 <= i < j < self.entries@.len() ==> #[trigger] self.entries@[i].key@
                != #[trigger] self.entries@[j].key@
        &&& forall|i: int|
            0 <= i < self.entries@.len() ==> #[trigger] self.ledger@.contains_key(
                self.entries@[i].key@,
            ) && self.ledger@[self.entries@[i].key@] == self.entries@[i].usage
        &&& forall|k: Seq<char>|
            #[trigger] self.ledger@.contains_key(k) ==> exists|i: int|
                0 <= i < self.entries@.len() && #[trigger] self.entries@[i].key@ == k
    }

    /// An empty ledger.
    pub fn new() -> (r: Database)
        ensures
            r.wf(),
            r@ == Map::<Seq<char>, AppUsage>::empty(),
    {
        Database { entries: Vec::new(), ledger: Ghost(Map::empty()) }
    }

    /// Position of `key` among the entries, if it is there.
    fn find(&self, key: &[char]) -> (r: Option<usize>)
        requires
            self.wf(),
        ensures
            match r {
                Some(i) => i < self.entries@.len() && self.entries@[i as int].key@ == key@,
                None => !self@.contains_key(key@),
            },
    {
        let mut i: usize = 0;
        while i < self.entries.len()
            invariant
                self.wf(),
                i <= self.entries@.len(),
                forall|j: int| 0 <= j < i ==> self.entries@[j].key@ != key@,
            decreases self.entries@.len() - i,
        {
            let k = chars_of(self.entries[i].key.as_str());
            if k.len() == key.len() && starts_with(&k, key) {
                assert(k@ =~= key@);
                return Some(i);
            }
            assert(k@.len() == key@.len() ==> k@.take(k@.len() as int) =~= k@);
            i = i + 1;
        }
        None
    }

    /// The record of `app_name`, a zero record where it was never launched.
    pub fn get_usage(&self, app_name: &str) -> (r: AppUsage)
        requires
            self.wf(),
        ensures
            r == usage_in(self@, app_name@),
    {
        let key = chars_of(app_name);
        match self.find(&key) {
            Some(i) => self.entries[i].usage,
            None => AppUsage { launch_count: 0, last_launched: None },
        }
    }

    /// Sets the record of `key`, adding the key where it is missing.
    pub fn set_usage(&mut self, key: &str, usage: AppUsage)
        requires
            old(self).wf(),
        ensures
            final(self).wf(),
            final(self)@ == old(self)@.insert(key@, usage),
    {
        let cs = chars_of(key);
        let ghost m = self.ledger@;
        match self.find(&cs) {
            Some(i) => {
                let k = self.entries[i].key.clone();
                self.entries.set(i, UsageEntry { key: k, usage });
                assert(self.entries@[i as int].key@ == key@);
                self.ledger = Ghost(m.insert(key@, usage));
                assert forall|k2: Seq<char>| #[trigger]
                    self.ledger@.contains_key(k2) implies exists|j: int|
                    0 <= j < self.entries@.len() && #[trigger] self.entries@[j].key@ == k2 by {
                    if k2 != key@ {
                        let j = choose|j: int|
                            0 <= j < self.entries@.len() && #[trigger] old(self).entries@[j].key@
                                == k2;
                        assert(self.entries@[j].key@ == k2);
                    } else {
                        assert(self.entries@[i as int].key@ == k2);
                    }
                }
            },
            None => {
                let k = string_from_chars(&cs);
                self.entries.push(UsageEntry { key: k, usage });
                self.ledger = Ghost(m.insert(key@, usage));
                assert forall|j: int| 0 <= j < old(self).entries@.len() implies #[trigger] self.entries@[j].key@ != key@ by {
                    assert(old(self).ledger@.contains_key(old(self).entries@[j].key@));
                }
                assert forall|k2: Seq<char>| #[trigger]
                    self.ledger@.contains_key(k2) implies exists|j: int|
                    0 <= j < self.entries@.len() && #[trigger] self.entries@[j].key@ == k2 by {
                    if k2 != key@ {
                        let j = choose|j: int|
                            0 <= j < old(self).entries@.len() && #[trigger] old(
                                self,
                            ).entries@[j].key@ == k2;
                        assert(self.entries@[j].key@ == k2);
                    } else {
                        assert(self.entries@[old(self).entries@.len() as int].key@ == k2);
                    }
                }
            },
        }
    }

    /// Counts one launch of `app_name` at time `now` (seconds since the epoch).
    pub fn record_launch_at(&mut self, app_name: &str, now: i64)
        requires
            old(self).wf(),
            usage_in(old(self)@, app_name@).launch_count < u32::MAX,
        ensures
            final(self).wf(),
            final(self)@ == recorded(old(self)@, app_name@, now as int),
    {
        let u = self.get_usage(app_name);
        self.set_usage(app_name, AppUsage { launch_count: u.launch_count + 1, last_launched: Some(now) });
    }

    /// Frecency of `app_name` at time `now`, in quarter points (four times
    /// the frecency score).
    pub fn calculate_frecency(&self, app_name: &str, now: i64) -> (r: u64)
        requires
            self.wf(),
        ensures
            r == frecency_quarters(usage_in(self@, app_name@), now as int),
    {
        let u = self.get_usage(app_name);
        match u.last_launched {
            None => 0,
            Some(t) => {
                let mult = recency_multiplier(now, t);
                u.launch_count as u64 * mult
            },
        }
    }

    /// The records of all keys, each key once.
    pub fn entries(&self) -> (r: &[UsageEntry])
        requires
            self.wf(),
        ensures
            forall|i: int, j: int| 0 <= i < j < r@.len() ==> r@[i].key@ != r@[j].key@,
            forall|i: int|
                0 <= i < r@.len() ==> #[trigger] self@.contains_key(r@[i].key@)
                    && self@[r@[i].key@] == r@[i].usage,
            forall|k: Seq<char>|
                #[trigger] self@.contains_key(k) ==> exists|i: int|
                    0 <= i < r@.len() && #[trigger] r@[i].key@ == k,
    {
        let r = self.entries.as_slice();
        assert forall|i: int| 0 <= i < r@.len() implies #[trigger] self@.contains_key(r@[i].key@)
            && self@[r@[i].key@] == r@[i].usage by {
            assert(self.ledger@.contains_key(self.entries@[i].key@));
        }
        r
    }

    /// The launched filesystem paths, with the `path:` prefix taken off,
    /// and their records; each path once.
    pub fn get_frequent_paths(&self) -> (r: Vec<(String, AppUsage)>)
        requires
            self.wf(),
        ensures
            forall|i: int, j: int| 0 <= i < j < r@.len() ==> r@[i].0@ != r@[j].0@,
            forall|i: int|
                0 <= i < r@.len() ==> #[trigger] self@.contains_key(path_key(r@[i].0@))
                    && self@[path_key(r@[i].0@)] == r@[i].1,
            forall|k: Seq<char>|
                #[trigger] self@.contains_key(k) && has_prefix(k, path_key_prefix()) ==> exists|
                    i: int,
                | 0 <= i < r@.len() && #[trigger] path_key(r@[i].0@) == k,
    {
        let prefix = path_key_prefix_chars();
        let mut r: Vec<(String, AppUsage)> = Vec::new();
        let ghost mut idx: Seq<int> = Seq::empty();
        let mut i: usize = 0;
        while i < self.entries.len()
            invariant
                self.wf(),
                prefix@ == path_key_prefix(),
                i <= self.entries@.len(),
                idx.len() == r@.len(),
                forall|a: int, b: int| 0 <= a < b < idx.len() ==> idx[a] < idx[b],
                forall|a: int|
                    0 <= a < idx.len() ==> 0 <= #[trigger] idx[a] < i && self.entries@[idx[a]].key@
                        == path_key(r@[a].0@) && self.entries@[idx[a]].usage == r@[a].1,
                forall|j: int|
                    0 <= j < i && has_prefix(#[trigger] self.entries@[j].key@, path_key_prefix())
                        ==> exists|a: int| 0 <= a < idx.len() && idx[a] == j,
            decreases self.entries@.len() - i,
        {
            let mut k = chars_of(self.entries[i].key.as_str());
            let ghost old_idx = idx;
            if starts_with(&k, &prefix) {
                let ghost kk = k@;
                let rest = k.split_off(5);
                assert(kk =~= path_key(rest@));
                let p = string_from_chars(&rest);
                r.push((p, self.entries[i].usage));
                proof {
                    idx = idx.push(i as int);
                }
                assert(idx[idx.len() - 1] == i);
            }
            assert forall|j: int|
                0 <= j < i + 1 && has_prefix(#[trigger] self.entries@[j].key@, path_key_prefix())
                    implies exists|a: int| 0 <= a < idx.len() && idx[a] == j by {
                if j < i {
                    let a = choose|a: int| 0 <= a < old_idx.len() && old_idx[a] == j;
                    assert(idx[a] == j);
                } else {
                    assert(idx[idx.len() - 1] == j);
                }
            }
            i = i + 1;
        }
        assert forall|a: int| 0 <= a < r@.len() implies #[trigger] self@.contains_key(path_key(r@[a].0@))
            && self@[path_key(r@[a].0@)] == r@[a].1 by {
            assert(self.ledger@.contains_key(self.entries@[idx[a]].key@));
        }
        assert forall|a: int, b: int| 0 <= a < b < r@.len() implies r@[a].0@ != r@[b].0@ by {
            assert(self.entries@[idx[a]].key@ != self.entries@[idx[b]].key@);
            if r@[a].0@ == r@[b].0@ {
                assert(path_key(r@[a].0@) == path_key(r@[b].0@));
            }
        }
        assert forall|k: Seq<char>|
            #[trigger] self@.contains_key(k) && has_prefix(k, path_key_prefix()) implies exists|
                a: int,
            | 0 <= a < r@.len() && #[trigger] path_key(r@[a].0@) == k by {
            let j = choose|j: int| 0 <= j < self.entries@.len() && #[trigger] self.entries@[j].key@ == k;
            let a = choose|a: int| 0 <= a < idx.len() && idx[a] == j;
            assert(path_key(r@[a].0@) == k);
        }
        r
    }
    /// Counts one launch of `app_name` now, and returns the time used.
    pub fn record_launch(&mut self, app_name: &str) -> (now: i64)
        requires
            old(self).wf(),
            usage_in(old(self)@, app_name@).launch_count < u32::MAX,
        ensures
            final(self).wf(),
            final(self)@ == recorded(old(self)@, app_name@, now as int),
            usage_in(final(self)@, app_name@) == (AppUsage {
                launch_count: (usage_in(old(self)@, app_name@).launch_count + 1) as u32,
                last_launched: Some(now),
            }),
    {
        let now = crate::clock::now_timestamp();
        self.record_launch_at(app_name, now);
        now
    }

    /// Counts one launch of the filesystem path `path` at time `now`, under
    /// its `path:` key.
    pub fn record_path_launch_at(&mut self, path: &str, now: i64)
        requires
            old(self).wf(),
            usage_in(old(self)@, path_key(path@)).launch_count < u32::MAX,
        ensures
            final(self).wf(),
            final(self)@ == recorded(old(self)@, path_key(path@), now as int),
    {
        let key = path_key_of(path);
        self.record_launch_at(key.as_str(), now);
    }

    /// Counts one launch of the filesystem path `path` now, and returns the
    /// time used.
    pub fn record_path_launch(&mut self, path: &str) -> (now: i64)
        requires
            old(self).wf(),
            usage_in(old(self)@, path_key(path@)).launch_count < u32::MAX,
        ensures
            final(self).wf(),
            final(self)@ == recorded(old(self)@, path_key(path@), now as int),
    {
        let now = crate::clock::now_timestamp();
        self.record_path_launch_at(path, now);
        now
    }
}

/// A key that was never launched has frecency zero, whatever the time.
pub proof fn lemma_unrecorded_frecency_is_zero(m: Map<Seq<char>, AppUsage>, key: Seq<char>, now: int)
    requires
        !m.contains_key(key),
    ensures
        frecency_quarters(usage_in(m, key), now) == 0,
{
}

/// For a fixed record, frecency never grows as time goes on.
pub proof fn lemma_frecency_non_increasing(u: AppUsage, now1: int, now2: int)
    requires
        now1 <= now2,
    ensures
        frecency_quarters(u, now2) <= frecency_quarters(u, now1),
{
    if let Some(t) = u.last_launched {
        let e1 = now1 - t;
        let e2 = now2 - t;
        if e1 >= 0 {
            vstd::arithmetic::div_mod::lemma_div_is_ordered(e1, e2, SECS_PER_DAY as int);
        } else {
            assert((-e1) / (SECS_PER_DAY as int) >= 0) by (nonlinear_arith)
                requires -e1 > 0;
        }
        let m1 = recency_quarters(whole_days(e1));
        let m2 = recency_quarters(whole_days(e2));
        assert(m2 <= m1);
        let c = u.launch_count as int;
        assert(c * m2 <= c * m1) by (nonlinear_arith)
            requires c >= 0, m2 <= m1;
    }
}

/// Two launches of one key add two to its count and leave the time of the
/// second one; other keys keep their records.
pub proof fn lemma_record_twice(m: Map<Seq<char>, AppUsage>, key: Seq<char>, t1: i64, t2: i64)
    requires
        usage_in(m, key).launch_count + 2 <= u32::MAX,
    ensures
        usage_in(recorded(recorded(m, key, t1 as int), key, t2 as int), key) == (AppUsage {
            launch_count: (usage_in(m, key).launch_count + 2) as u32,
            last_launched: Some(t2),
        }),
        forall|k: Seq<char>|
            k != key ==> usage_in(recorded(recorded(m, key, t1 as int), key, t2 as int), k)
                == usage_in(m, k),
{
}

/// Right after a launch, the key's frecency is positive.
pub proof fn lemma_recorded_frecency_positive(m: Map<Seq<char>, AppUsage>, key: Seq<char>, now: i64)
    requires
        usage_in(m, key).launch_count < u32::MAX,
    ensures
        frecency_quarters(usage_in(recorded(m, key, now as int), key), now as int) > 0,
{
    let c = usage_in(recorded(m, key, now as int), key).launch_count as int;
    assert(c >= 1);
    assert(whole_days(0) == 0);
    assert(c * 8 > 0) by (nonlinear_arith)
        requires c >= 1;
}

} // verus!
