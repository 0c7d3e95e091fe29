//! When each task was last run, to tell whether it has to be run again.

use crate::paths::{joined, path_join};
use crate::text::str_eq;
use std::time::{SystemTime, UNIX_EPOCH};
use vstd::prelude::*;

verus! {

/// The nanoseconds that make up a second.
pub const NANOS_PER_SEC: u32 = 1_000_000_000;

/// A point in time: whole seconds since the start of 1970, and the
/// nanoseconds beyond them, which are less than a second.
#[derive(Copy, Clone, PartialEq, Eq, Debug)]
pub struct Timestamp {
    secs: u64,
    nanos: u32,
}

impl Timestamp {
    #[verifier::type_invariant]
    spec fn nanos_fit(self) -> bool {
        self.nanos < NANOS_PER_SEC
    }

    /// The whole seconds since the start of 1970.
    pub closed spec fn spec_secs(self) -> u64 {
        self.secs
    }

    /// The nanoseconds beyond the whole seconds.
    pub closed spec fn spec_nanos(self) -> u32 {
        self.nanos
    }

    /// The nanoseconds since the start of 1970.
    pub open spec fn since_epoch(self) -> nat {
        (self.spec_secs() * NANOS_PER_SEC + self.spec_nanos()) as nat
    }

    /// This point in time is not later than `other`.
    pub open spec fn le(self, other: Timestamp) -> bool {
        self.since_epoch() <= other.since_epoch()
    }

    /// The point in time `nanos` nanoseconds after `secs` seconds since the
    /// start of 1970; none where the nanoseconds are a second or more.
    pub fn new(secs: u64, nanos: u32) -> (r: Option<Timestamp>)
        ensures
            match r {
                Some(t) => nanos < NANOS_PER_SEC && t.spec_secs() == secs && t.spec_nanos() == nanos,
                None => nanos >= NANOS_PER_SEC,
            },
    {
        if nanos < NANOS_PER_SEC {
            Some(Timestamp { secs, nanos })
        } else {
            None
        }
    }

    /// The whole seconds since the start of 1970.
    pub fn secs(&self) -> (r: u64)
        ensures
            r == self.spec_secs(),
    {
        self.secs
    }

    /// The nanoseconds beyond the whole seconds, which are less than a second.
    pub fn nanos(&self) -> (r: u32)
        ensures
            r == self.spec_nanos(),
            r < NANOS_PER_SEC,
    {
        proof {
            use_type_invariant(self);
        }
        self.nanos
    }

    /// Whether this point in time is not later than `other`.
    pub fn at_most(&self, other: &Timestamp) -> (r: bool)
        ensures
            r == self.le(*other),
    {
        proof {
            use_type_invariant(self);
            use_type_invariant(other);
            assert(self.secs < other.secs ==> self.secs * NANOS_PER_SEC + NANOS_PER_SEC <= other.secs
                * NANOS_PER_SEC) by (nonlinear_arith);
            assert(other.secs < self.secs ==> other.secs * NANOS_PER_SEC + NANOS_PER_SEC <= self.secs
                * NANOS_PER_SEC) by (nonlinear_arith);
        }
        self.secs < other.secs || (self.secs == other.secs && self.nanos <= other.nanos)
    }
}

/// `std::time::SystemTime::now`, as the whole seconds since the start of
/// 1970 and the nanoseconds beyond them, which by the documentation of
/// `Duration::subsec_nanos` are less than a second. What else comes back
/// depends on the clock, so nothing more is said of it.
#[verifier::external_body]
fn current_time() -> (now: (u64, u32))
    ensures
        now.1 < NANOS_PER_SEC,
{
    let since = SystemTime::now().duration_since(UNIX_EPOCH).unwrap_or_default();
    (since.as_secs(), since.subsec_nanos())
}

/// The map that a list of entries stands for: each key with the time of its
/// last entry.
pub open spec fn entries_map(entries: Seq<(String, Timestamp)>) -> Map<Seq<char>, Timestamp>
    decreases entries.len(),
{
    if entries.len() == 0 {
        Map::empty()
    } else {
        entries_map(entries.drop_last()).insert(entries.last().0@, entries.last().1)
    }
}

/// No two entries share a key.
pub open spec fn distinct_keys(entries: Seq<(String, Timestamp)>) -> bool {
    forall|i: int, j: int| 0 <= i < j < entries.len() ==> (#[trigger] entries[i]).0@ != (#[trigger] entries[j]).0@
}

/// Every recorded time is not earlier than the times of `mtimes` that are known.
pub open spec fn all_at_most(mtimes: Seq<Option<Timestamp>>, stored: Timestamp) -> bool {
    forall|i: int| 0 <= i < mtimes.len() && (#[trigger] mtimes[i]) is Some ==> mtimes[i]->0.le(stored)
}

/// Data structure for tracking when commands were last executed.
pub struct Fingerprints {
    fingerprints: Vec<(String, Timestamp)>,
}

impl View for Fingerprints {
    type V = Map<Seq<char>, Timestamp>;

    closed spec fn view(&self) -> Map<Seq<char>, Timestamp> {
        entries_map(self.fingerprints@)
    }
}

proof fn lemma_entries_map(entries: Seq<(String, Timestamp)>)
    requires
        distinct_keys(entries),
    ensures
        forall|i: int|
            0 <= i < entries.len() ==>
                entries_map(entries).contains_key((#[trigger] entries[i]).0@) && entries_map(entries)[entries[i].0@] == entries[i].1,
        forall|k: Seq<char>|
            #[trigger] entries_map(entries).contains_key(k) ==>
                exists|i: int| 0 <= i < entries.len() && (#[trigger] entries[i]).0@ == k,
    decreases entries.len(),
{
    if entries.len() > 0 {
        let rest = entries.drop_last();
        assert(distinct_keys(rest)) by {
            assert forall|i: int, j: int| 0 <= i < j < rest.len() implies (#[trigger] rest[i]).0@ != (#[trigger] rest[j]).0@ by {
                assert(rest[i] == entries[i]);
                assert(rest[j] == entries[j]);
            }
        }
        lemma_entries_map(rest);
        assert forall|i: int|
            0 <= i < entries.len() implies
            entries_map(entries).contains_key((#[trigger] entries[i]).0@) && entries_map(entries)[entries[i].0@] == entries[i].1 by {
            if i < rest.len() {
                assert(rest[i] == entries[i]);
                assert(entries[i].0@ != entries[entries.len() - 1].0@);
            }
        }
        assert forall|k: Seq<char>|
            #[trigger] entries_map(entries).contains_key(k) implies
            exists|i: int| 0 <= i < entries.len() && (#[trigger] entries[i]).0@ == k by {
            if k == entries.last().0@ {
                assert(entries[entries.len() - 1].0@ == k);
            } else {
                assert(entries_map(rest).contains_key(k));
                let i = choose|i: int| 0 <= i < rest.len() && (#[trigger] rest[i]).0@ == k;
                assert(rest[i] == entries[i]);
                assert(entries[i].0@ == k);
            }
        }
    }
}

proof fn lemma_entries_map_update(entries: Seq<(String, Timestamp)>, i: int, e: (String, Timestamp))
    requires
        0 <= i < entries.len(),
        entries[i].0@ == e.0@,
        distinct_keys(entries),
    ensures
        entries_map(entries.update(i, e)) == entries_map(entries).insert(e.0@, e.1),
        distinct_keys(entries.update(i, e)),
    decreases entries.len(),
{
    let u = entries.update(i, e);
    let rest = entries.drop_last();
    if i == entries.len() - 1 {
        assert(u.drop_last() =~= rest);
        assert(entries_map(u) =~= entries_map(entries).insert(e.0@, e.1));
    } else {
        assert(u.drop_last() =~= rest.update(i, e));
        assert(distinct_keys(rest)) by {
            assert forall|a: int, b: int| 0 <= a < b < rest.len() implies (#[trigger] rest[a]).0@ != (#[trigger] rest[b]).0@ by {
                assert(rest[a] == entries[a]);
                assert(rest[b] == entries[b]);
            }
        }
        lemma_entries_map_update(rest, i, e);
        assert(entries[i].0@ != entries[entries.len() - 1].0@);
        assert(entries_map(u) =~= entries_map(entries).insert(e.0@, e.1));
    }
    assert forall|a: int, b: int| 0 <= a < b < u.len() implies (#[trigger] u[a]).0@ != (#[trigger] u[b]).0@ by {
        assert(entries[a].0@ != entries[b].0@);
    }
}

impl Fingerprints {
    /// Each key is recorded once.
    pub closed spec fn wf(&self) -> bool {
        distinct_keys(self.fingerprints@)
    }

    /// A record without times.
    pub fn new() -> (r: Self)
        ensures
            r@ == Map::<Seq<char>, Timestamp>::empty(),
            r.wf(),
    {
        Fingerprints { fingerprints: Vec::new() }
    }

    fn position(&self, key: &str) -> (r: Option<usize>)
        requires
            self.wf(),
        ensures
            match r {
                Some(i) => i < self.fingerprints@.len() && self.fingerprints@[i as int].0@ == key@ && self@.contains_key(key@)
                    && self@[key@] == self.fingerprints@[i as int].1,
                None => !self@.contains_key(key@) && forall|i: int| 0 <= i < self.fingerprints@.len() ==> (#[trigger] self.fingerprints@[i]).0@ != key@,
            },
    {
        let mut i: usize = 0;
        while i < self.fingerprints.len()
            invariant
                i <= self.fingerprints@.len(),
                self.wf(),
                forall|k: int| 0 <= k < i ==> (#[trigger] self.fingerprints@[k]).0@ != key@,
            decreases self.fingerprints.len() - i,
        {
            if str_eq(self.fingerprints[i].0.as_str(), key) {
                proof {
                    lemma_entries_map(self.fingerprints@);
                }
                return Some(i);
            }
            i += 1;
        }
        proof {
            lemma_entries_map(self.fingerprints@);
        }
        None
    }

    /// The time recorded for `key`, if there is one.
    pub fn get(&self, key: &str) -> (r: Option<Timestamp>)
        requires
            self.wf(),
        ensures
            r == (if self@.contains_key(key@) {
                Some(self@[key@])
            } else {
                None
            }),
    {
        match self.position(key) {
            Some(i) => Some(self.fingerprints[i].1),
            None => None,
        }
    }

    /// Returns true if there is a recorded time for `key`, and none of the
    /// files is known to have been modified after it. `mtimes` holds, for each
    /// file, when it was modified, where that could be told.
    pub fn can_skip(&self, key: &str, mtimes: &Vec<Option<Timestamp>>) -> (r: bool)
        requires
            self.wf(),
        ensures
            r == (self@.contains_key(key@) && all_at_most(mtimes@, self@[key@])),
    {
        match self.get(key) {
            None => false,
            Some(stored) => {
                let mut i: usize = 0;
                while i < mtimes.len()
                    invariant
                        i <= mtimes.len(),
                        self@.contains_key(key@),
                        self@[key@] == stored,
                        forall|k: int| 0 <= k < i && (#[trigger] mtimes@[k]) is Some ==> mtimes@[k]->0.le(stored),
                    decreases mtimes.len() - i,
                {
                    match &mtimes[i] {
                        Some(time) => {
                            if !time.at_most(&stored) {
                                proof {
                                    assert(mtimes@[i as int] is Some && !mtimes@[i as int]->0.le(stored));
                                }
                                return false;
                            }
                        },
                        None => {},
                    }
                    i += 1;
                }
                true
            },
        }
    }

    /// Sets the time recorded for `key` to `time`.
    pub fn set_time(&mut self, key: String, time: Timestamp)
        requires
            old(self).wf(),
        ensures
            final(self).wf(),
            final(self)@ == old(self)@.insert(key@, time),
    {
        match self.position(key.as_str()) {
            Some(i) => {
                proof {
                    lemma_entries_map_update(self.fingerprints@, i as int, (key, time));
                }
                self.fingerprints.set(i, (key, time));
            },
            None => {
                let ghost before = self.fingerprints@;
                self.fingerprints.push((key, time));
                proof {
                    assert(self.fingerprints@.drop_last() =~= before);
                    assert forall|a: int, b: int|
                        0 <= a < b < self.fingerprints@.len() implies
                        (#[trigger] self.fingerprints@[a]).0@ != (#[trigger] self.fingerprints@[b]).0@ by {
                        assert(self.fingerprints@[a] == before[a]);
                        if b < before.len() {
                            assert(self.fingerprints@[b] == before[b]);
                        }
                    }
                }
            },
        }
    }

    /// Sets the time recorded for `key` to the current time.
    pub fn update_time(&mut self, key: String)
        requires
            old(self).wf(),
        ensures
            final(self).wf(),
            final(self)@.contains_key(key@),
            final(self)@.dom() == old(self)@.dom().insert(key@),
            forall|k: Seq<char>| k != key@ && old(self)@.contains_key(k) ==> final(self)@[k] == old(self)@[k],
    {
        let (secs, nanos) = current_time();
        self.set_time(key, Timestamp { secs, nanos });
    }

    /// The file in which the times of the workspace at `root` are kept.
    pub fn file_path(root: &str) -> (r: String)
        ensures
            r@ == joined(joined(root@, "node_modules"@), ".depot-fingerprints.json"@),
    {
        let modules = path_join(root, "node_modules");
        path_join(modules.as_str(), ".depot-fingerprints.json")
    }

    /// The recorded times, one entry for each key.
    pub fn entries(&self) -> (r: &Vec<(String, Timestamp)>)
        ensures
            entries_map(r@) == self@,
            distinct_keys(r@) == self.wf(),
    {
        &self.fingerprints
    }

    /// The times that a list of entries records; of two entries for one key,
    /// the later one counts.
    pub fn from_entries(entries: Vec<(String, Timestamp)>) -> (r: Self)
        ensures
            r.wf(),
            r@ == entries_map(entries@),
    {
        let mut out = Fingerprints::new();
        let mut i: usize = 0;
        while i < entries.len()
            invariant
                i <= entries.len(),
                out.wf(),
                out@ == entries_map(entries@.take(i as int)),
            decreases entries.len() - i,
        {
            proof {
                assert(entries@.take(i + 1).drop_last() =~= entries@.take(i as int));
            }
            out.set_time(entries[i].0.clone(), entries[i].1);
            i += 1;
        }
        proof {
            assert(entries@.take(entries@.len() as int) =~= entries@);
        }
        out
    }

    /// Whether two records hold the same times for the same keys.
    pub fn same_as(&self, other: &Fingerprints) -> (r: bool)
        requires
            self.wf(),
            other.wf(),
        ensures
            r == (self@ == other@),
    {
        if self.fingerprints.len() != other.fingerprints.len() {
            proof {
                lemma_same_size(self.fingerprints@, other.fingerprints@);
            }
            return false;
        }
        let mut i: usize = 0;
        while i < self.fingerprints.len()
            invariant
                i <= self.fingerprints@.len(),
                self.wf(),
                other.wf(),
                forall|k: int|
                    0 <= k < i ==>
                        other@.contains_key((#[trigger] self.fingerprints@[k]).0@) && other@[self.fingerprints@[k].0@] == self.fingerprints@[k].1,
            decreases self.fingerprints.len() - i,
        {
            let found = other.get(self.fingerprints[i].0.as_str());
            proof {
                lemma_entries_map(self.fingerprints@);
            }
            match found {
                Some(time) => {
                    if !(time.secs == self.fingerprints[i].1.secs && time.nanos == self.fingerprints[i].1.nanos) {
                        return false;
                    }
                },
                None => {
                    return false;
                },
            }
            i += 1;
        }
        proof {
            lemma_entries_map(self.fingerprints@);
            lemma_entries_map(other.fingerprints@);
            lemma_same_size(self.fingerprints@, other.fingerprints@);
            lemma_contained_same_size(self.fingerprints@, other.fingerprints@);
            assert(self@ =~= other@);
        }
        true
    }
}

/// Lists of distinct keys that stand for the same map are equally long.
proof fn lemma_same_size(a: Seq<(String, Timestamp)>, b: Seq<(String, Timestamp)>)
    requires
        distinct_keys(a),
        distinct_keys(b),
    ensures
        entries_map(a) == entries_map(b) ==> a.len() == b.len(),
        entries_map(a).dom().finite(),
        entries_map(a).dom().len() == a.len(),
{
    lemma_dom_size(a);
    lemma_dom_size(b);
}

proof fn lemma_dom_size(a: Seq<(String, Timestamp)>)
    requires
        distinct_keys(a),
    ensures
        entries_map(a).dom().finite(),
        entries_map(a).dom().len() == a.len(),
    decreases a.len(),
{
    if a.len() > 0 {
        let rest = a.drop_last();
        assert(distinct_keys(rest)) by {
            assert forall|i: int, j: int| 0 <= i < j < rest.len() implies (#[trigger] rest[i]).0@ != (#[trigger] rest[j]).0@ by {
                assert(rest[i] == a[i]);
                assert(rest[j] == a[j]);
            }
        }
        lemma_dom_size(rest);
        lemma_entries_map(rest);
        assert(!entries_map(rest).contains_key(a.last().0@)) by {
            if entries_map(rest).contains_key(a.last().0@) {
                let i = choose|i: int| 0 <= i < rest.len() && (#[trigger] rest[i]).0@ == a.last().0@;
                assert(a[i].0@ == a[a.len() - 1].0@);
            }
        }
        assert(entries_map(a).dom() =~= entries_map(rest).dom().insert(a.last().0@));
    } else {
        assert(entries_map(a).dom() =~= Set::empty());
    }
}

/// A map that lies within another map of the same size is that map.
proof fn lemma_contained_same_size(a: Seq<(String, Timestamp)>, b: Seq<(String, Timestamp)>)
    requires
        distinct_keys(a),
        distinct_keys(b),
        a.len() == b.len(),
        forall|k: Seq<char>|
            #[trigger] entries_map(a).contains_key(k) ==>
                entries_map(b).contains_key(k) && entries_map(b)[k] == entries_map(a)[k],
    ensures
        entries_map(a) == entries_map(b),
{
    lemma_dom_size(a);
    lemma_dom_size(b);
    let da = entries_map(a).dom();
    let db = entries_map(b).dom();
    assert(da.subset_of(db));
    vstd::set_lib::lemma_subset_equality(da, db);
    assert(entries_map(a) =~= entries_map(b));
}

/// What was saved can be read back: the entries of a record stand for the
/// record's own map.
pub proof fn lemma_round_trip(saved: Fingerprints, loaded: Fingerprints)
    requires
        saved.wf(),
        loaded@ == entries_map(saved.entries_of()),
    ensures
        loaded@ == saved@,
{
}

impl Fingerprints {
    /// The entries that `entries` hands out.
    pub closed spec fn entries_of(&self) -> Seq<(String, Timestamp)> {
        self.fingerprints@
    }
}

} // verus!
