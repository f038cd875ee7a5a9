//! Negative lookup cache: remembers paths that are known not to exist, so
//! that repeated lookups of a missing name (as `git status` makes them) are
//! answered locally until a time-to-live runs out.
//!
//! Instants are kept as nanoseconds on the monotonic clock, counted from the
//! moment the cache was made. The decisions (`insert_at`, `is_negative_at`,
//! `evict_expired_at`) take that reading as an argument and are exact; the
//! methods without `_at` read the clock and pass the reading on.
use vstd::prelude::*;
use std::time::{Duration, Instant};
use crate::text::{chars_of, chars_eq};

verus! {

#[verifier::external_type_specification]
#[verifier::external_body]
pub struct ExInstant(Instant);

/// What `Duration::as_nanos` gives for a duration: its whole length in
/// nanoseconds.
pub uninterp spec fn duration_as_nanos(d: Duration) -> u128;

/// `Instant::now`: a reading of the monotonic clock. Nothing is promised of
/// the value.
#[verifier::external_body]
fn instant_now() -> Instant {
    Instant::now()
}

/// `Instant::elapsed`: the time since `since`, zero if the clock reads
/// earlier. It depends on the clock, so nothing is promised of it.
#[verifier::external_body]
fn elapsed_since(since: &Instant) -> Duration {
    since.elapsed()
}

/// `Duration::as_nanos`: the length of `d` in nanoseconds, named by
/// `duration_as_nanos`.
#[verifier::external_body]
fn duration_nanos(d: &Duration) -> (n: u128)
    ensures
        n == duration_as_nanos(*d),
{
    d.as_nanos()
}

// ── The model ────────────────────────────────────────────────────────────────

/// Whether an entry recorded at `inserted` is still in force at `now`: the
/// time elapsed (zero if `now` is earlier) is below the time-to-live.
pub open spec fn entry_live(inserted: u128, now: u128, ttl: u128) -> bool {
    (if now >= inserted { now - inserted } else { 0 }) < ttl
}

/// Whether `path` counts as absent in the cache `m` at `now`.
pub open spec fn negative_in(m: Map<Seq<char>, u128>, path: Seq<char>, now: u128, ttl: u128) -> bool {
    m.contains_key(path) && entry_live(m[path], now, ttl)
}

/// The entries of `m` still in force at `now`.
pub open spec fn live_entries(m: Map<Seq<char>, u128>, now: u128, ttl: u128) -> Map<Seq<char>, u128> {
    Map::new(
        |k: Seq<char>| m.contains_key(k) && entry_live(m[k], now, ttl),
        |k: Seq<char>| m[k],
    )
}

/// Whether the association list `s` has an entry for `k`.
pub open spec fn assoc_has(s: Seq<(Seq<char>, u128)>, k: Seq<char>) -> bool {
    exists|i: int| 0 <= i < s.len() && s[i].0 == k
}

/// The map that an association list stands for.
pub open spec fn assoc_map(s: Seq<(Seq<char>, u128)>) -> Map<Seq<char>, u128> {
    Map::new(
        |k: Seq<char>| assoc_has(s, k),
        |k: Seq<char>| s[choose|i: int| 0 <= i < s.len() && s[i].0 == k].1,
    )
}

/// The association list held in a vector of character keys.
pub open spec fn entries_model(s: Seq<(Vec<char>, u128)>) -> Seq<(Seq<char>, u128)> {
    s.map_values(|e: (Vec<char>, u128)| (e.0@, e.1))
}

/// The two entries are the same (equality of pairs, kept out of the
/// extensional reading that contracts give to `==`).
pub open spec fn same_entry(x: (Seq<char>, u128), y: (Seq<char>, u128)) -> bool {
    x == y
}

/// No key occurs twice in `s`.
pub open spec fn distinct_keys(s: Seq<(Seq<char>, u128)>) -> bool {
    forall|i: int, j: int| 0 <= i < j < s.len() ==> s[i].0 != s[j].0
}

proof fn lemma_assoc_entry(s: Seq<(Seq<char>, u128)>, i: int)
    requires
        distinct_keys(s),
        0 <= i < s.len(),
    ensures
        assoc_map(s).contains_key(s[i].0),
        assoc_map(s)[s[i].0] == s[i].1,
{
    assert(assoc_has(s, s[i].0));
    let j = choose|j: int| 0 <= j < s.len() && s[j].0 == s[i].0;
    if j != i {
        if j < i {
            assert(s[j].0 != s[i].0);
        } else {
            assert(s[i].0 != s[j].0);
        }
    }
}

/// The entries of `s` still in force at `now`, in order.
pub open spec fn keep_live(s: Seq<(Seq<char>, u128)>, now: u128, ttl: u128) -> Seq<(Seq<char>, u128)>
    decreases s.len(),
{
    if s.len() == 0 {
        seq![]
    } else {
        let r = keep_live(s.drop_last(), now, ttl);
        if entry_live(s.last().1, now, ttl) {
            r.push(s.last())
        } else {
            r
        }
    }
}

/// Every entry that `keep_live` keeps is an entry of `s` in force.
proof fn lemma_keep_live_sound(s: Seq<(Seq<char>, u128)>, now: u128, ttl: u128)
    ensures
        forall|j: int|
            0 <= j < keep_live(s, now, ttl).len() ==> exists|a: int|
                0 <= a < s.len() && same_entry(s[a], #[trigger] keep_live(s, now, ttl)[j]) && entry_live(s[a].1, now, ttl),
    decreases s.len(),
{
    if s.len() > 0 {
        let p = s.drop_last();
        lemma_keep_live_sound(p, now, ttl);
        let r = keep_live(p, now, ttl);
        let k = keep_live(s, now, ttl);
        let n = p.len() as int;
        if entry_live(s.last().1, now, ttl) {
            assert(k == r.push(s.last()));
        } else {
            assert(k == r);
        }
        assert forall|j: int| 0 <= j < k.len() implies exists|a: int|
            0 <= a < s.len() && same_entry(s[a], #[trigger] k[j]) && entry_live(s[a].1, now, ttl) by {
            if j < r.len() {
                assert(k[j] == r[j]);
                let w = choose|w: int| 0 <= w < p.len() && same_entry(p[w], #[trigger] keep_live(p, now, ttl)[j]) && entry_live(p[w].1, now, ttl);
                assert(s[w] == p[w]);
                assert(same_entry(s[w], k[j]));
            } else {
                assert(same_entry(s[n], k[j]));
            }
        }
    } else {
        assert(keep_live(s, now, ttl).len() == 0);
    }
}

/// Every entry of `s` in force is kept by `keep_live`.
proof fn lemma_keep_live_complete(s: Seq<(Seq<char>, u128)>, now: u128, ttl: u128)
    ensures
        forall|a: int|
            0 <= a < s.len() && entry_live(s[a].1, now, ttl) ==> exists|j: int|
                0 <= j < keep_live(s, now, ttl).len() && same_entry(keep_live(s, now, ttl)[j], #[trigger] s[a]),
    decreases s.len(),
{
    if s.len() > 0 {
        let p = s.drop_last();
        lemma_keep_live_complete(p, now, ttl);
        let r = keep_live(p, now, ttl);
        let k = keep_live(s, now, ttl);
        let n = p.len() as int;
        assert forall|a: int| 0 <= a < s.len() && entry_live(s[a].1, now, ttl) implies exists|j: int|
            0 <= j < k.len() && same_entry(k[j], #[trigger] s[a]) by {
            if a < n {
                assert(s[a] == p[a]);
                let j = choose|j: int| 0 <= j < r.len() && same_entry(keep_live(p, now, ttl)[j], #[trigger] p[a]);
                assert(k[j] == r[j]);
                assert(same_entry(k[j], s[a]));
            } else {
                assert(same_entry(k[r.len() as int], s[a]));
            }
        }
    }
}

/// `keep_live` keeps no key twice where `s` has none twice.
proof fn lemma_keep_live_distinct(s: Seq<(Seq<char>, u128)>, now: u128, ttl: u128)
    requires
        distinct_keys(s),
    ensures
        distinct_keys(keep_live(s, now, ttl)),
    decreases s.len(),
{
    if s.len() > 0 {
        let p = s.drop_last();
        assert(distinct_keys(p)) by {
            assert forall|a: int, b: int| 0 <= a < b < p.len() implies p[a].0 != p[b].0 by {
                assert(s[a].0 != s[b].0);
            }
        }
        lemma_keep_live_distinct(p, now, ttl);
        lemma_keep_live_sound(p, now, ttl);
        let r = keep_live(p, now, ttl);
        let k = keep_live(s, now, ttl);
        let n = p.len() as int;
        if entry_live(s.last().1, now, ttl) {
            assert forall|a: int, b: int| 0 <= a < b < k.len() implies k[a].0 != k[b].0 by {
                if b == r.len() {
                    assert(k[a] == r[a]);
                    let w = choose|w: int| 0 <= w < p.len() && same_entry(p[w], #[trigger] keep_live(p, now, ttl)[a]) && entry_live(p[w].1, now, ttl);
                    assert(s[w].0 != s[n].0);
                } else {
                    assert(k[a] == r[a] && k[b] == r[b]);
                }
            }
        }
    }
}

/// Thread-free negative cache with a time-to-live.
pub struct NegativeCache {
    entries: Vec<(Vec<char>, u128)>,
    ttl_nanos: u128,
    origin: Instant,
    history: Ghost<Seq<CacheStep>>,
}

impl View for NegativeCache {
    type V = Map<Seq<char>, u128>;

    /// The recorded paths, each with the clock reading at which it was
    /// recorded.
    closed spec fn view(&self) -> Map<Seq<char>, u128> {
        assoc_map(self.model())
    }
}

impl NegativeCache {
    spec fn model(&self) -> Seq<(Seq<char>, u128)> {
        entries_model(self.entries@)
    }

    /// The time-to-live, in nanoseconds.
    pub closed spec fn ttl(&self) -> u128 {
        self.ttl_nanos
    }

    /// The calls made on the cache since `new`, in order, as steps.
    pub closed spec fn steps(&self) -> Seq<CacheStep> {
        self.history@
    }

    /// The entries hold each path at most once, and are what the calls made
    /// since `new` leave.
    pub closed spec fn wf(&self) -> bool {
        &&& distinct_keys(self.model())
        &&& assoc_map(self.model()) == after_steps(Map::empty(), self.history@, self.ttl_nanos)
    }

    /// An empty cache whose entries live for `ttl`.
    pub fn new(ttl: Duration) -> (r: Self)
        ensures
            r.wf(),
            r@ == Map::<Seq<char>, u128>::empty(),
            r.ttl() == duration_as_nanos(ttl),
            r.steps() == Seq::<CacheStep>::empty(),
    {
        let r = NegativeCache {
            entries: Vec::new(),
            ttl_nanos: duration_nanos(&ttl),
            origin: instant_now(),
            history: Ghost(Seq::empty()),
        };
        assert(r@ =~= Map::<Seq<char>, u128>::empty());
        r
    }

    /// A reading of the monotonic clock, in nanoseconds since the cache was
    /// made.
    pub fn now_nanos(&self) -> u128 {
        let d = elapsed_since(&self.origin);
        duration_nanos(&d)
    }

    fn find(&self, key: &[char]) -> (r: Option<usize>)
        ensures
            r matches Some(i) ==> i < self.model().len() && self.model()[i as int].0 == key@,
            r is None ==> !assoc_has(self.model(), key@),
    {
        let mut i: usize = 0;
        while i < self.entries.len()
            invariant
                i <= self.entries@.len(),
                self.model().len() == self.entries@.len(),
                forall|j: int| 0 <= j < i ==> self.model()[j].0 != key@,
            decreases self.entries@.len() - i,
        {
            if chars_eq(self.entries[i].0.as_slice(), key) {
                return Some(i);
            }
            i = i + 1;
        }
        None
    }

    /// Records at `now` that `path` does not exist.
    pub fn insert_at(&mut self, path: &str, now: u128)
        requires
            old(self).wf(),
        ensures
            final(self).wf(),
            final(self)@ == old(self)@.insert(path@, now),
            final(self).ttl() == old(self).ttl(),
            final(self).steps() == old(self).steps().push(CacheStep::Insert(path@, now)),
    {
        let key = chars_of(path);
        let ghost old_model = self.model();
        let ghost steps = self.history@.push(CacheStep::Insert(path@, now));
        assert(steps.drop_last() =~= self.history@);
        self.history = Ghost(steps);
        match self.find(key.as_slice()) {
            Some(i) => {
                self.entries.set(i, (key, now));
                let ghost new_model = self.model();
                assert(new_model =~= old_model.update(i as int, (path@, now)));
                assert(distinct_keys(new_model)) by {
                    assert forall|a: int, b: int| 0 <= a < b < new_model.len() implies new_model[a].0
                        != new_model[b].0 by {
                        assert(old_model[a].0 != old_model[b].0);
                    }
                }
                assert(self@ =~= old(self)@.insert(path@, now)) by {
                    assert forall|k: Seq<char>| #[trigger] self@.contains_key(k) implies old(self)@.insert(
                        path@,
                        now,
                    ).contains_key(k) && self@[k] == old(self)@.insert(path@, now)[k] by {
                        let j = choose|j: int| 0 <= j < new_model.len() && new_model[j].0 == k;
                        lemma_assoc_entry(new_model, j);
                        if j != i {
                            lemma_assoc_entry(old_model, j);
                        }
                    }
                    assert forall|k: Seq<char>| #[trigger] old(self)@.insert(path@, now).contains_key(k)
                        implies self@.contains_key(k) by {
                        if k == path@ {
                            lemma_assoc_entry(new_model, i as int);
                        } else {
                            let j = choose|j: int| 0 <= j < old_model.len() && old_model[j].0 == k;
                            assert(new_model[j].0 == k);
                        }
                    }
                }
            },
            None => {
                self.entries.push((key, now));
                let ghost new_model = self.model();
                let ghost n = old_model.len() as int;
                assert(new_model =~= old_model.push((path@, now)));
                assert(distinct_keys(new_model)) by {
                    assert forall|a: int, b: int| 0 <= a < b < new_model.len() implies new_model[a].0
                        != new_model[b].0 by {
                        if b == n {
                            assert(old_model[a].0 != path@);
                        } else {
                            assert(old_model[a].0 != old_model[b].0);
                        }
                    }
                }
                assert(self@ =~= old(self)@.insert(path@, now)) by {
                    assert forall|k: Seq<char>| #[trigger] self@.contains_key(k) implies old(self)@.insert(
                        path@,
                        now,
                    ).contains_key(k) && self@[k] == old(self)@.insert(path@, now)[k] by {
                        let j = choose|j: int| 0 <= j < new_model.len() && new_model[j].0 == k;
                        lemma_assoc_entry(new_model, j);
                        if j != n {
                            lemma_assoc_entry(old_model, j);
                        }
                    }
                    assert forall|k: Seq<char>| #[trigger] old(self)@.insert(path@, now).contains_key(k)
                        implies self@.contains_key(k) by {
                        if k == path@ {
                            lemma_assoc_entry(new_model, n);
                        } else {
                            let j = choose|j: int| 0 <= j < old_model.len() && old_model[j].0 == k;
                            assert(new_model[j].0 == k);
                        }
                    }
                }
            },
        }
    }

    /// Whether `path` is known to be absent at `now`: it was recorded and
    /// its time-to-live has not run out.
    pub fn is_negative_at(&self, path: &str, now: u128) -> (b: bool)
        requires
            self.wf(),
        ensures
            b == negative_in(self@, path@, now, self.ttl()),
    {
        let key = chars_of(path);
        match self.find(key.as_slice()) {
            Some(i) => {
                proof {
                    lemma_assoc_entry(self.model(), i as int);
                }
                let t = self.entries[i].1;
                let elapsed: u128 = if now >= t { now - t } else { 0 };
                elapsed < self.ttl_nanos
            },
            None => false,
        }
    }

    /// Forgets `path` (it has been created).
    pub fn remove(&mut self, path: &str)
        requires
            old(self).wf(),
        ensures
            final(self).wf(),
            final(self)@ == old(self)@.remove(path@),
            final(self).ttl() == old(self).ttl(),
            final(self).steps() == old(self).steps().push(CacheStep::Remove(path@)),
    {
        let key = chars_of(path);
        let ghost old_model = self.model();
        let ghost steps = self.history@.push(CacheStep::Remove(path@));
        assert(steps.drop_last() =~= self.history@);
        self.history = Ghost(steps);
        match self.find(key.as_slice()) {
            Some(i) => {
                self.entries.remove(i);
                let ghost new_model = self.model();
                assert(new_model =~= old_model.remove(i as int));
                assert(distinct_keys(new_model)) by {
                    assert forall|a: int, b: int| 0 <= a < b < new_model.len() implies new_model[a].0
                        != new_model[b].0 by {
                        if a < i && b < i {
                            assert(old_model[a].0 != old_model[b].0);
                        } else if a < i {
                            assert(old_model[a].0 != old_model[b + 1].0);
                        } else {
                            assert(old_model[a + 1].0 != old_model[b + 1].0);
                        }
                    }
                }
                assert(self@ =~= old(self)@.remove(path@)) by {
                    assert forall|k: Seq<char>| #[trigger] self@.contains_key(k) implies old(self)@.remove(
                        path@,
                    ).contains_key(k) && self@[k] == old(self)@.remove(path@)[k] by {
                        let j = choose|j: int| 0 <= j < new_model.len() && new_model[j].0 == k;
                        lemma_assoc_entry(new_model, j);
                        if j < i {
                            lemma_assoc_entry(old_model, j);
                            assert(old_model[j].0 != old_model[i as int].0);
                        } else {
                            lemma_assoc_entry(old_model, j + 1);
                            assert(old_model[i as int].0 != old_model[j + 1].0);
                        }
                    }
                    assert forall|k: Seq<char>| #[trigger] old(self)@.remove(path@).contains_key(k)
                        implies self@.contains_key(k) by {
                        let j = choose|j: int| 0 <= j < old_model.len() && old_model[j].0 == k;
                        if j < i {
                            assert(new_model[j].0 == k);
                        } else {
                            assert(j != i);
                            assert(new_model[j - 1].0 == k);
                        }
                    }
                }
            },
            None => {
                assert(self@ =~= old(self)@.remove(path@));
            },
        }
    }

    /// Drops every entry whose time-to-live has run out at `now`.
    pub fn evict_expired_at(&mut self, now: u128)
        requires
            old(self).wf(),
        ensures
            final(self).wf(),
            final(self)@ == live_entries(old(self)@, now, old(self).ttl()),
            final(self).ttl() == old(self).ttl(),
            final(self).steps() == old(self).steps().push(CacheStep::Evict(now)),
    {
        let ghost old_model = self.model();
        let ghost steps = self.history@.push(CacheStep::Evict(now));
        assert(steps.drop_last() =~= self.history@);
        self.history = Ghost(steps);
        let ttl = self.ttl_nanos;
        let mut kept: Vec<(Vec<char>, u128)> = Vec::new();
        let mut i: usize = 0;
        while i < self.entries.len()
            invariant
                i <= self.entries@.len(),
                self.model() == old_model,
                self.ttl_nanos == ttl,
                old_model.len() == self.entries@.len(),
                entries_model(kept@) == keep_live(old_model.take(i as int), now, ttl),
            decreases self.entries@.len() - i,
        {
            let t = self.entries[i].1;
            let elapsed: u128 = if now >= t { now - t } else { 0 };
            let ghost before = entries_model(kept@);
            assert(old_model.take(i + 1).drop_last() =~= old_model.take(i as int));
            if elapsed < ttl {
                let key = self.entries[i].0.clone();
                assert(key@ =~= self.entries[i as int].0@);
                kept.push((key, t));
                assert(entries_model(kept@) =~= before.push(old_model[i as int]));
            }
            i = i + 1;
        }
        assert(old_model.take(old_model.len() as int) =~= old_model);
        let ghost kept_model = entries_model(kept@);
        self.entries = kept;
        assert(self.model() == kept_model);
        proof {
            lemma_keep_live_sound(old_model, now, ttl);
            lemma_keep_live_complete(old_model, now, ttl);
            lemma_keep_live_distinct(old_model, now, ttl);
        }
        let ghost target = live_entries(old(self)@, now, ttl);
        assert(self@ =~= target) by {
            assert forall|k: Seq<char>| #[trigger] self@.contains_key(k) implies target.contains_key(k)
                && self@[k] == target[k] by {
                let j = choose|j: int| 0 <= j < kept_model.len() && kept_model[j].0 == k;
                lemma_assoc_entry(kept_model, j);
                let a = choose|a: int|
                    0 <= a < old_model.len() && same_entry(old_model[a], #[trigger] kept_model[j]) && entry_live(
                        old_model[a].1,
                        now,
                        ttl,
                    );
                lemma_assoc_entry(old_model, a);
            }
            assert forall|k: Seq<char>| #[trigger] target.contains_key(k) implies self@.contains_key(k) by {
                let a = choose|a: int| 0 <= a < old_model.len() && old_model[a].0 == k;
                lemma_assoc_entry(old_model, a);
                let j = choose|j: int| 0 <= j < kept_model.len() && same_entry(kept_model[j], #[trigger] old_model[a]);
                assert(kept_model[j].0 == k);
            }
        }
    }

    /// Records that `path` does not exist, at the clock's present reading.
    pub fn insert(&mut self, path: &str)
        requires
            old(self).wf(),
        ensures
            final(self).wf(),
            exists|t: u128|
                final(self)@ == old(self)@.insert(path@, t) && final(self).steps() == old(self).steps().push(
                    CacheStep::Insert(path@, t),
                ),
            final(self).ttl() == old(self).ttl(),
    {
        let now = self.now_nanos();
        self.insert_at(path, now);
    }

    /// Whether `path` is known to be absent and its time-to-live has not run
    /// out, at the clock's present reading.
    pub fn is_negative(&self, path: &str) -> (b: bool)
        requires
            self.wf(),
        ensures
            exists|now: u128| b == negative_in(self@, path@, now, self.ttl()),
            b ==> self@.contains_key(path@),
    {
        let now = self.now_nanos();
        self.is_negative_at(path, now)
    }

    /// Drops every entry whose time-to-live has run out, at the clock's
    /// present reading.
    pub fn evict_expired(&mut self)
        requires
            old(self).wf(),
        ensures
            final(self).wf(),
            exists|now: u128|
                final(self)@ == live_entries(old(self)@, now, old(self).ttl()) && final(self).steps() == old(
                    self,
                ).steps().push(CacheStep::Evict(now)),
            final(self).ttl() == old(self).ttl(),
    {
        let now = self.now_nanos();
        self.evict_expired_at(now);
    }
}

// ── Laws ─────────────────────────────────────────────────────────────────────

/// A path just recorded at `t` counts as absent at `now` exactly while less
/// than the time-to-live has passed since `t`.
pub proof fn lemma_insert_then_negative(m: Map<Seq<char>, u128>, path: Seq<char>, t: u128, now: u128, ttl: u128)
    ensures
        negative_in(m.insert(path, t), path, now, ttl) == entry_live(t, now, ttl),
        now == t && ttl > 0 ==> negative_in(m.insert(path, t), path, now, ttl),
{
}

/// Once removed, a path no longer counts as absent, whatever the clock reads.
pub proof fn lemma_remove_clears(m: Map<Seq<char>, u128>, path: Seq<char>, now: u128, ttl: u128)
    ensures
        !negative_in(m.remove(path), path, now, ttl),
{
}

/// Recording one path leaves the answer for every other path unchanged.
pub proof fn lemma_insert_other(m: Map<Seq<char>, u128>, path: Seq<char>, other: Seq<char>, t: u128, now: u128, ttl: u128)
    requires
        other != path,
    ensures
        negative_in(m.insert(path, t), other, now, ttl) == negative_in(m, other, now, ttl),
{
}

/// Evicting at `now` changes no answer given at `now`, and leaves only
/// entries still in force.
pub proof fn lemma_evict_keeps_answers(m: Map<Seq<char>, u128>, path: Seq<char>, now: u128, ttl: u128)
    ensures
        negative_in(live_entries(m, now, ttl), path, now, ttl) == negative_in(m, path, now, ttl),
        forall|k: Seq<char>| #[trigger] live_entries(m, now, ttl).contains_key(k) ==> negative_in(m, k, now, ttl),
{
}

/// An entry that has run out stays run out as the clock moves on.
pub proof fn lemma_expiry_is_final(inserted: u128, now: u128, later: u128, ttl: u128)
    requires
        now <= later,
        !entry_live(inserted, now, ttl),
    ensures
        !entry_live(inserted, later, ttl),
{
}

/// One step that a cache goes through: recording a path at a time,
/// forgetting a path, or evicting at a time.
pub enum CacheStep {
    Insert(Seq<char>, u128),
    Remove(Seq<char>),
    Evict(u128),
}

/// The entries after `steps`, taken in order from `m`, as `insert_at`,
/// `remove` and `evict_expired_at` change them.
pub open spec fn after_steps(m: Map<Seq<char>, u128>, steps: Seq<CacheStep>, ttl: u128) -> Map<Seq<char>, u128>
    decreases steps.len(),
{
    if steps.len() == 0 {
        m
    } else {
        let before = after_steps(m, steps.drop_last(), ttl);
        match steps.last() {
            CacheStep::Insert(p, t) => before.insert(p, t),
            CacheStep::Remove(p) => before.remove(p),
            CacheStep::Evict(t) => live_entries(before, t, ttl),
        }
    }
}

/// When `path` was last recorded in `steps`, unless it was forgotten since.
pub open spec fn last_recorded(steps: Seq<CacheStep>, path: Seq<char>) -> Option<u128>
    decreases steps.len(),
{
    if steps.len() == 0 {
        None
    } else {
        match steps.last() {
            CacheStep::Insert(p, t) => if p == path {
                Some(t)
            } else {
                last_recorded(steps.drop_last(), path)
            },
            CacheStep::Remove(p) => if p == path {
                None
            } else {
                last_recorded(steps.drop_last(), path)
            },
            CacheStep::Evict(_) => last_recorded(steps.drop_last(), path),
        }
    }
}

/// Every time in `steps` is at most `now` (a clock that does not go back).
pub open spec fn steps_before(steps: Seq<CacheStep>, now: u128) -> bool {
    forall|i: int|
        0 <= i < steps.len() ==> match #[trigger] steps[i] {
            CacheStep::Insert(_, t) => t <= now,
            CacheStep::Remove(_) => true,
            CacheStep::Evict(t) => t <= now,
        }
}

proof fn lemma_steps_track(steps: Seq<CacheStep>, path: Seq<char>, now: u128, ttl: u128)
    requires
        steps_before(steps, now),
    ensures
        after_steps(Map::empty(), steps, ttl).contains_key(path) ==> last_recorded(steps, path) == Some(
            after_steps(Map::empty(), steps, ttl)[path],
        ),
        last_recorded(steps, path) matches Some(t) ==> (after_steps(Map::empty(), steps, ttl).contains_key(path)
            && after_steps(Map::empty(), steps, ttl)[path] == t) || !entry_live(t, now, ttl),
    decreases steps.len(),
{
    if steps.len() > 0 {
        let prev = steps.drop_last();
        assert forall|i: int| 0 <= i < prev.len() implies match #[trigger] prev[i] {
            CacheStep::Insert(_, t) => t <= now,
            CacheStep::Remove(_) => true,
            CacheStep::Evict(t) => t <= now,
        } by {
            assert(prev[i] == steps[i]);
        }
        lemma_steps_track(prev, path, now, ttl);
        let last = steps[steps.len() - 1];
        assert(steps.last() == last);
        match last {
            CacheStep::Evict(e) => {
                assert(e <= now);
                if let Some(t) = last_recorded(prev, path) {
                    if !entry_live(t, e, ttl) {
                        lemma_expiry_is_final(t, e, now, ttl);
                    }
                }
            },
            _ => {},
        }
    }
}

/// Over any sequence of steps on a new cache, with a clock that never reads
/// later than `now`, a path counts as absent at `now` exactly when it was
/// recorded and not forgotten since, and less than the time-to-live has
/// passed since it was last recorded. Evictions change no answer.
pub proof fn lemma_negative_after_steps(steps: Seq<CacheStep>, path: Seq<char>, now: u128, ttl: u128)
    requires
        steps_before(steps, now),
    ensures
        negative_in(after_steps(Map::empty(), steps, ttl), path, now, ttl) == match last_recorded(steps, path) {
            Some(t) => entry_live(t, now, ttl),
            None => false,
        },
        ttl == 0 ==> !negative_in(after_steps(Map::empty(), steps, ttl), path, now, ttl),
{
    lemma_steps_track(steps, path, now, ttl);
}

/// Over any sequence of calls on a cache made by `new`, its entries are
/// what the steps of those calls leave; and where no time given to
/// `insert_at` or `evict_expired_at` is later than `now`, a path counts as
/// absent at `now` exactly when it was recorded and not forgotten since, and
/// less than the time-to-live has passed since it was last recorded. So a
/// zero time-to-live answers every lookup with "not known absent".
pub proof fn lemma_cache_answers(c: &NegativeCache, path: Seq<char>, now: u128)
    requires
        c.wf(),
        steps_before(c.steps(), now),
    ensures
        c@ == after_steps(Map::empty(), c.steps(), c.ttl()),
        negative_in(c@, path, now, c.ttl()) == match last_recorded(c.steps(), path) {
            Some(t) => entry_live(t, now, c.ttl()),
            None => false,
        },
        c.ttl() == 0 ==> !negative_in(c@, path, now, c.ttl()),
{
    lemma_negative_after_steps(c.steps(), path, now, c.ttl());
}

} // verus!
