//! The transaction verification cache: outcomes of verification kept by
//! transaction fingerprint and epoch, bounded, with the least recently used
//! entry leaving first.

use vstd::prelude::*;

verus! {

/// What verifying a transaction gave.
#[derive(Clone, Copy, Debug, PartialEq, Eq, Structural)]
pub struct Outcome {
    pub fee: u64,
    pub cycles: u64,
    pub valid: bool,
}

/// One cached outcome with its key.
#[derive(Clone, Copy, Debug, PartialEq, Eq, Structural)]
pub struct CacheEntry {
    pub fingerprint: u64,
    pub epoch: u64,
    pub outcome: Outcome,
}

/// The entry at place `i` has this key.
pub open spec fn key_at(entries: Seq<CacheEntry>, i: int, fingerprint: u64, epoch: u64) -> bool {
    0 <= i < entries.len() && entries[i].fingerprint == fingerprint && entries[i].epoch == epoch
}

/// Some entry has this key.
pub open spec fn has_key(entries: Seq<CacheEntry>, fingerprint: u64, epoch: u64) -> bool {
    exists|i: int| key_at(entries, i, fingerprint, epoch)
}

/// A place that holds this key, where there is one.
pub open spec fn place_of(entries: Seq<CacheEntry>, fingerprint: u64, epoch: u64) -> int {
    choose|i: int| key_at(entries, i, fingerprint, epoch)
}

/// No key is held twice.
pub open spec fn unique_keys(entries: Seq<CacheEntry>) -> bool {
    forall|i: int, j: int|
        0 <= i < j < entries.len() ==> !(entries[i].fingerprint == entries[j].fingerprint
            && entries[i].epoch == entries[j].epoch)
}

/// The outcome cached under a key.
pub open spec fn cached(entries: Seq<CacheEntry>, fingerprint: u64, epoch: u64) -> Option<Outcome> {
    if has_key(entries, fingerprint, epoch) {
        Some(entries[place_of(entries, fingerprint, epoch)].outcome)
    } else {
        None
    }
}

/// The entries after a key was used: its entry has moved to the recent end.
pub open spec fn touched(entries: Seq<CacheEntry>, fingerprint: u64, epoch: u64) -> Seq<CacheEntry> {
    if has_key(entries, fingerprint, epoch) {
        let i = place_of(entries, fingerprint, epoch);
        entries.remove(i).push(entries[i])
    } else {
        entries
    }
}

/// The entries after `entry` was put into a cache of `capacity`: an entry of
/// the same key is replaced; otherwise, where the cache is full, the least
/// recently used entry leaves. The new entry stands at the recent end.
pub open spec fn inserted(entries: Seq<CacheEntry>, capacity: usize, entry: CacheEntry) -> Seq<
    CacheEntry,
> {
    if capacity == 0 {
        entries
    } else if has_key(entries, entry.fingerprint, entry.epoch) {
        entries.remove(place_of(entries, entry.fingerprint, entry.epoch)).push(entry)
    } else if entries.len() >= capacity {
        entries.remove(0).push(entry)
    } else {
        entries.push(entry)
    }
}

/// With unique keys, a place that holds a key is the place of that key.
pub proof fn lemma_place_unique(entries: Seq<CacheEntry>, i: int, fingerprint: u64, epoch: u64)
    requires
        unique_keys(entries),
        key_at(entries, i, fingerprint, epoch),
    ensures
        has_key(entries, fingerprint, epoch),
        place_of(entries, fingerprint, epoch) == i,
{
    let p = place_of(entries, fingerprint, epoch);
    assert(key_at(entries, p, fingerprint, epoch));
    if p < i {
        assert(!(entries[p].fingerprint == entries[i].fingerprint && entries[p].epoch
            == entries[i].epoch));
    } else if i < p {
        assert(!(entries[i].fingerprint == entries[p].fingerprint && entries[i].epoch
            == entries[p].epoch));
    }
}

/// Removing an entry keeps the keys unique, and the removed key is gone.
pub proof fn lemma_remove_keeps_unique(entries: Seq<CacheEntry>, i: int)
    requires
        unique_keys(entries),
        0 <= i < entries.len(),
    ensures
        unique_keys(entries.remove(i)),
        !has_key(entries.remove(i), entries[i].fingerprint, entries[i].epoch),
        entries.remove(i).len() == entries.len() - 1,
{
    let rest = entries.remove(i);
    assert forall|a: int, b: int| 0 <= a < b < rest.len() implies !(rest[a].fingerprint
        == rest[b].fingerprint && rest[a].epoch == rest[b].epoch) by {
        let a0 = if a < i { a } else { a + 1 };
        let b0 = if b < i { b } else { b + 1 };
        assert(rest[a] == entries[a0] && rest[b] == entries[b0]);
        assert(0 <= a0 < b0 < entries.len());
    }
    assert forall|k: int| !key_at(rest, k, entries[i].fingerprint, entries[i].epoch) by {
        if 0 <= k < rest.len() {
            let k0 = if k < i { k } else { k + 1 };
            assert(rest[k] == entries[k0]);
            if k0 < i {
                assert(0 <= k0 < i < entries.len());
            } else {
                assert(0 <= i < k0 < entries.len());
            }
        }
    }
}

/// Adding an entry whose key is not held keeps the keys unique.
pub proof fn lemma_push_keeps_unique(entries: Seq<CacheEntry>, entry: CacheEntry)
    requires
        unique_keys(entries),
        !has_key(entries, entry.fingerprint, entry.epoch),
    ensures
        unique_keys(entries.push(entry)),
        key_at(entries.push(entry), entries.len() as int, entry.fingerprint, entry.epoch),
{
    let more = entries.push(entry);
    assert forall|a: int, b: int| 0 <= a < b < more.len() implies !(more[a].fingerprint
        == more[b].fingerprint && more[a].epoch == more[b].epoch) by {
        if b == entries.len() {
            assert(!key_at(entries, a, entry.fingerprint, entry.epoch));
        }
    }
}

/// Putting an entry in keeps the keys unique and the cache within its
/// capacity.
pub proof fn lemma_inserted_wf(entries: Seq<CacheEntry>, capacity: usize, entry: CacheEntry)
    requires
        unique_keys(entries),
        entries.len() <= capacity,
    ensures
        unique_keys(inserted(entries, capacity, entry)),
        inserted(entries, capacity, entry).len() <= capacity,
        capacity > 0 ==> key_at(
            inserted(entries, capacity, entry),
            inserted(entries, capacity, entry).len() - 1,
            entry.fingerprint,
            entry.epoch,
        ),
{
    if capacity == 0 {
    } else if has_key(entries, entry.fingerprint, entry.epoch) {
        let i = place_of(entries, entry.fingerprint, entry.epoch);
        assert(key_at(entries, i, entry.fingerprint, entry.epoch));
        lemma_remove_keeps_unique(entries, i);
        lemma_push_keeps_unique(entries.remove(i), entry);
    } else if entries.len() >= capacity {
        lemma_remove_keeps_unique(entries, 0);
        let rest = entries.remove(0);
        assert forall|k: int| !key_at(rest, k, entry.fingerprint, entry.epoch) by {
            if 0 <= k < rest.len() {
                assert(rest[k] == entries[k + 1]);
                assert(!key_at(entries, k + 1, entry.fingerprint, entry.epoch));
            }
        }
        lemma_push_keeps_unique(rest, entry);
    } else {
        lemma_push_keeps_unique(entries, entry);
    }
}

/// A lookup that follows an insert of the same key finds the inserted
/// outcome, in any cache that can hold at least one entry.
pub proof fn lemma_lookup_after_insert(entries: Seq<CacheEntry>, capacity: usize, entry: CacheEntry)
    requires
        unique_keys(entries),
        entries.len() <= capacity,
        capacity > 0,
    ensures
        cached(inserted(entries, capacity, entry), entry.fingerprint, entry.epoch) == Some(
            entry.outcome,
        ),
{
    lemma_inserted_wf(entries, capacity, entry);
    let after = inserted(entries, capacity, entry);
    lemma_place_unique(after, after.len() - 1, entry.fingerprint, entry.epoch);
    assert(after[after.len() - 1] == entry);
}

/// An insert leaves every other key's outcome as it was, unless that key's
/// entry was the one to leave a full cache.
pub proof fn lemma_insert_keeps_others(
    entries: Seq<CacheEntry>,
    capacity: usize,
    entry: CacheEntry,
    fingerprint: u64,
    epoch: u64,
)
    requires
        unique_keys(entries),
        entries.len() <= capacity,
        !(fingerprint == entry.fingerprint && epoch == entry.epoch),
        has_key(entries, entry.fingerprint, entry.epoch) || entries.len() < capacity,
    ensures
        cached(inserted(entries, capacity, entry), fingerprint, epoch) == cached(
            entries,
            fingerprint,
            epoch,
        ),
{
    lemma_inserted_wf(entries, capacity, entry);
    let after = inserted(entries, capacity, entry);
    if has_key(entries, fingerprint, epoch) {
        let i = place_of(entries, fingerprint, epoch);
        assert(key_at(entries, i, fingerprint, epoch));
        if has_key(entries, entry.fingerprint, entry.epoch) {
            let r = place_of(entries, entry.fingerprint, entry.epoch);
            assert(key_at(entries, r, entry.fingerprint, entry.epoch));
            let i2 = if i < r { i } else { i - 1 };
            assert(after[i2] == entries[i]);
            lemma_place_unique(after, i2, fingerprint, epoch);
        } else {
            assert(after[i] == entries[i]);
            lemma_place_unique(after, i, fingerprint, epoch);
        }
    } else {
        assert forall|k: int| !key_at(after, k, fingerprint, epoch) by {
            if 0 <= k < after.len() - 1 {
                if has_key(entries, entry.fingerprint, entry.epoch) {
                    let r = place_of(entries, entry.fingerprint, entry.epoch);
                    assert(key_at(entries, r, entry.fingerprint, entry.epoch));
                    let k0 = if k < r { k } else { k + 1 };
                    assert(after[k] == entries[k0]);
                    assert(!key_at(entries, k0, fingerprint, epoch));
                } else {
                    assert(after[k] == entries[k]);
                    assert(!key_at(entries, k, fingerprint, epoch));
                }
            }
        }
    }
}

/// The entries that outlive a sweep of `epoch`, in their order.
pub open spec fn swept(entries: Seq<CacheEntry>, epoch: u64) -> Seq<CacheEntry>
    decreases entries.len(),
{
    if entries.len() == 0 {
        entries
    } else if entries.last().epoch == epoch {
        swept(entries.drop_last(), epoch)
    } else {
        swept(entries.drop_last(), epoch).push(entries.last())
    }
}

/// A sweep keeps only entries that were held, none of the swept epoch, and
/// every entry of another epoch; it keeps the keys unique.
pub proof fn lemma_swept(entries: Seq<CacheEntry>, epoch: u64)
    requires
        unique_keys(entries),
    ensures
        unique_keys(swept(entries, epoch)),
        swept(entries, epoch).len() <= entries.len(),
        forall|k: int|
            0 <= k < swept(entries, epoch).len() ==> (#[trigger] swept(entries, epoch)[k]).epoch
                != epoch && entries.contains(swept(entries, epoch)[k]),
        forall|i: int|
            0 <= i < entries.len() && (#[trigger] entries[i]).epoch != epoch ==> swept(
                entries,
                epoch,
            ).contains(entries[i]),
    decreases entries.len(),
{
    if entries.len() > 0 {
        let front = entries.drop_last();
        let last = entries.last();
        assert forall|a: int, b: int| 0 <= a < b < front.len() implies !(front[a].fingerprint
            == front[b].fingerprint && front[a].epoch == front[b].epoch) by {
            assert(front[a] == entries[a] && front[b] == entries[b]);
        }
        lemma_swept(front, epoch);
        let kept = swept(front, epoch);
        let out = swept(entries, epoch);
        assert forall|k: int| 0 <= k < kept.len() implies entries.contains(#[trigger] kept[k]) by {
            let j = choose|j: int| 0 <= j < front.len() && front[j] == kept[k];
            assert(entries[j] == kept[k]);
        }
        if last.epoch != epoch {
            assert forall|k: int| !key_at(kept, k, last.fingerprint, last.epoch) by {
                if 0 <= k < kept.len() {
                    let j = choose|j: int| 0 <= j < front.len() && front[j] == kept[k];
                    assert(entries[j] == kept[k]);
                    assert(0 <= j < entries.len() - 1 < entries.len());
                }
            }
            lemma_push_keeps_unique(kept, last);
            assert(out[out.len() - 1] == last);
            assert(entries[entries.len() - 1] == last);
            assert forall|k: int| 0 <= k < out.len() implies (#[trigger] out[k]).epoch != epoch
                && entries.contains(out[k]) by {
                if k < kept.len() {
                    assert(out[k] == kept[k]);
                }
            }
        }
        assert forall|i: int| 0 <= i < entries.len() && (#[trigger] entries[i]).epoch
            != epoch implies out.contains(entries[i]) by {
            if i < front.len() {
                assert(front[i] == entries[i]);
                let k = choose|k: int| 0 <= k < kept.len() && kept[k] == front[i];
                assert(out[k] == entries[i]);
            } else {
                assert(out[out.len() - 1] == entries[i]);
            }
        }
    }
}

/// After a sweep of an epoch no key of that epoch is cached.
pub proof fn lemma_swept_epoch_gone(entries: Seq<CacheEntry>, fingerprint: u64, epoch: u64)
    requires
        unique_keys(entries),
    ensures
        cached(swept(entries, epoch), fingerprint, epoch).is_none(),
{
    lemma_swept(entries, epoch);
    if has_key(swept(entries, epoch), fingerprint, epoch) {
        let k = place_of(swept(entries, epoch), fingerprint, epoch);
        assert(key_at(swept(entries, epoch), k, fingerprint, epoch));
        assert(swept(entries, epoch)[k].epoch != epoch);
    }
}

/// The cache. Its entries stand in order of use, the least recently used
/// first.
pub struct VerifyCache {
    entries: Vec<CacheEntry>,
    capacity: usize,
}

impl View for VerifyCache {
    type V = Seq<CacheEntry>;

    closed spec fn view(&self) -> Seq<CacheEntry> {
        self.entries@
    }
}

impl VerifyCache {
    /// The most entries that the cache holds.
    pub closed spec fn spec_capacity(&self) -> usize {
        self.capacity
    }

    /// The cache's invariant: no key twice, no more entries than the capacity.
    pub open spec fn wf(&self) -> bool {
        unique_keys(self@) && self@.len() <= self.spec_capacity()
    }

    /// An empty cache for `capacity` entries.
    pub fn new(capacity: usize) -> (cache: VerifyCache)
        ensures
            cache@ == Seq::<CacheEntry>::empty(),
            cache.spec_capacity() == capacity,
            cache.wf(),
    {
        VerifyCache { entries: Vec::new(), capacity }
    }

    /// The most entries that the cache holds.
    pub fn capacity(&self) -> (n: usize)
        ensures
            n == self.spec_capacity(),
    {
        self.capacity
    }

    /// Number of entries held.
    pub fn len(&self) -> (n: usize)
        ensures
            n == self@.len(),
    {
        self.entries.len()
    }

    fn find(&self, fingerprint: u64, epoch: u64) -> (place: Option<usize>)
        requires
            self.wf(),
        ensures
            match place {
                Some(i) => has_key(self@, fingerprint, epoch) && place_of(self@, fingerprint, epoch)
                    == i && i < self@.len(),
                None => !has_key(self@, fingerprint, epoch),
            },
    {
        let mut i: usize = 0;
        while i < self.entries.len()
            invariant
                i <= self.entries.len(),
                self.wf(),
                forall|k: int| 0 <= k < i ==> !key_at(self@, k, fingerprint, epoch),
            decreases self.entries.len() - i,
        {
            if self.entries[i].fingerprint == fingerprint && self.entries[i].epoch == epoch {
                proof {
                    lemma_place_unique(self@, i as int, fingerprint, epoch);
                }
                return Some(i);
            }
            i += 1;
        }
        None
    }

    /// Returns the outcome cached under the key and counts the key as used.
    pub fn lookup(&mut self, fingerprint: u64, epoch: u64) -> (outcome: Option<Outcome>)
        requires
            old(self).wf(),
        ensures
            final(self).wf(),
            final(self).spec_capacity() == old(self).spec_capacity(),
            outcome == cached(old(self)@, fingerprint, epoch),
            final(self)@ == touched(old(self)@, fingerprint, epoch),
    {
        match self.find(fingerprint, epoch) {
            None => None,
            Some(i) => {
                let entry = self.entries.remove(i);
                proof {
                    lemma_remove_keeps_unique(old(self)@, i as int);
                    lemma_push_keeps_unique(self@, entry);
                }
                self.entries.push(entry);
                Some(entry.outcome)
            },
        }
    }

    /// Caches `outcome` under the key: see [`inserted`].
    pub fn insert(&mut self, fingerprint: u64, epoch: u64, outcome: Outcome)
        requires
            old(self).wf(),
        ensures
            final(self).wf(),
            final(self).spec_capacity() == old(self).spec_capacity(),
            final(self)@ == inserted(
                old(self)@,
                old(self).spec_capacity(),
                (CacheEntry { fingerprint, epoch, outcome }),
            ),
    {
        let entry = CacheEntry { fingerprint, epoch, outcome };
        proof {
            lemma_inserted_wf(old(self)@, self.capacity, entry);
        }
        if self.capacity == 0 {
            return ;
        }
        match self.find(fingerprint, epoch) {
            Some(i) => {
                self.entries.remove(i);
            },
            None => {
                if self.entries.len() >= self.capacity {
                    self.entries.remove(0);
                }
            },
        }
        self.entries.push(entry);
    }
    /// Drops every entry of `epoch`, as is done when the consensus rules of
    /// that epoch change. The other entries keep their order.
    pub fn invalidate_epoch(&mut self, epoch: u64)
        requires
            old(self).wf(),
        ensures
            final(self).wf(),
            final(self).spec_capacity() == old(self).spec_capacity(),
            final(self)@ == swept(old(self)@, epoch),
    {
        let mut kept: Vec<CacheEntry> = Vec::new();
        let mut i: usize = 0;
        while i < self.entries.len()
            invariant
                i <= self.entries.len(),
                kept@ == swept(self.entries@.take(i as int), epoch),
            decreases self.entries.len() - i,
        {
            let entry = self.entries[i];
            proof {
                let next = self.entries@.take(i + 1);
                assert(next.drop_last() =~= self.entries@.take(i as int));
                assert(next.last() == entry);
            }
            if entry.epoch != epoch {
                kept.push(entry);
            }
            i += 1;
        }
        proof {
            assert(self.entries@.take(i as int) =~= self.entries@);
            lemma_swept(old(self)@, epoch);
        }
        self.entries = kept;
    }
}

/// What a caller that needs the outcome of a key is told.
#[derive(Clone, Copy, Debug, PartialEq, Eq, Structural)]
pub enum Claim {
    /// The outcome is cached.
    Hit(Outcome),
    /// Nobody is verifying this key: the caller does, and hands the outcome in.
    Compute,
    /// Somebody else is verifying this key: the caller waits and asks again.
    Wait,
}

/// The answer to a claim, given the cached entries and the keys under
/// verification.
pub open spec fn claim_of(
    entries: Seq<CacheEntry>,
    pending: Seq<(u64, u64)>,
    fingerprint: u64,
    epoch: u64,
) -> Claim {
    match cached(entries, fingerprint, epoch) {
        Some(outcome) => Claim::Hit(outcome),
        None => if pending.contains((fingerprint, epoch)) {
            Claim::Wait
        } else {
            Claim::Compute
        },
    }
}

/// The keys under verification after a claim: the claimed key joins them
/// where the caller was told to compute.
pub open spec fn pending_after_claim(
    entries: Seq<CacheEntry>,
    pending: Seq<(u64, u64)>,
    fingerprint: u64,
    epoch: u64,
) -> Seq<(u64, u64)> {
    if claim_of(entries, pending, fingerprint, epoch) == Claim::Compute {
        pending.push((fingerprint, epoch))
    } else {
        pending
    }
}

/// The keys under verification without `key`.
pub open spec fn without_key(pending: Seq<(u64, u64)>, key: (u64, u64)) -> Seq<(u64, u64)> {
    if pending.contains(key) {
        pending.remove(pending.index_of(key))
    } else {
        pending
    }
}

/// Removing a key from keys that hold none twice leaves the other keys, none
/// of them twice, and not the removed one.
pub proof fn lemma_without_key(pending: Seq<(u64, u64)>, key: (u64, u64))
    requires
        pending.no_duplicates(),
    ensures
        without_key(pending, key).no_duplicates(),
        !without_key(pending, key).contains(key),
        forall|other: (u64, u64)|
            other != key ==> without_key(pending, key).contains(other) == pending.contains(other),
{
    if pending.contains(key) {
        let i = pending.index_of(key);
        let rest = pending.remove(i);
        assert forall|a: int, b: int| 0 <= a < rest.len() && 0 <= b < rest.len() && a != b implies rest[a]
            != rest[b] by {
            let a0 = if a < i { a } else { a + 1 };
            let b0 = if b < i { b } else { b + 1 };
            assert(rest[a] == pending[a0] && rest[b] == pending[b0]);
        }
        assert forall|k: int| 0 <= k < rest.len() implies rest[k] != key by {
            let k0 = if k < i { k } else { k + 1 };
            assert(rest[k] == pending[k0]);
        }
        assert forall|other: (u64, u64)| other != key implies rest.contains(other)
            == pending.contains(other) by {
            if pending.contains(other) {
                let j = pending.index_of(other);
                let j2 = if j < i { j } else { j - 1 };
                assert(rest[j2] == other);
            }
            if rest.contains(other) {
                let k = rest.index_of(other);
                let k0 = if k < i { k } else { k + 1 };
                assert(pending[k0] == other);
            }
        }
    }
}

/// A key is never handed out for verification twice: once a claim was told
/// to compute, every further claim of that key waits until the outcome is
/// handed in or the verification is abandoned.
pub proof fn lemma_claim_computes_once(
    entries: Seq<CacheEntry>,
    pending: Seq<(u64, u64)>,
    fingerprint: u64,
    epoch: u64,
)
    requires
        claim_of(entries, pending, fingerprint, epoch) == Claim::Compute,
    ensures
        claim_of(
            touched(entries, fingerprint, epoch),
            pending_after_claim(entries, pending, fingerprint, epoch),
            fingerprint,
            epoch,
        ) == Claim::Wait,
{
    let after = pending_after_claim(entries, pending, fingerprint, epoch);
    assert(after[after.len() - 1] == (fingerprint, epoch));
}

/// Once a verification was abandoned, a key that is not cached can be
/// claimed for verification again.
pub proof fn lemma_claim_after_abandon(
    entries: Seq<CacheEntry>,
    pending: Seq<(u64, u64)>,
    fingerprint: u64,
    epoch: u64,
)
    requires
        pending.no_duplicates(),
        cached(entries, fingerprint, epoch).is_none(),
    ensures
        claim_of(entries, without_key(pending, (fingerprint, epoch)), fingerprint, epoch)
            == Claim::Compute,
{
    lemma_without_key(pending, (fingerprint, epoch));
}

/// The keys whose verification is under way.
pub struct InFlight {
    keys: Vec<(u64, u64)>,
}

impl View for InFlight {
    type V = Seq<(u64, u64)>;

    closed spec fn view(&self) -> Seq<(u64, u64)> {
        self.keys@
    }
}

impl InFlight {
    /// The invariant: no key is under verification twice.
    pub open spec fn wf(&self) -> bool {
        self@.no_duplicates()
    }

    /// No verification under way.
    pub fn new() -> (flight: InFlight)
        ensures
            flight@ == Seq::<(u64, u64)>::empty(),
            flight.wf(),
    {
        InFlight { keys: Vec::new() }
    }

    fn find(&self, fingerprint: u64, epoch: u64) -> (place: Option<usize>)
        requires
            self.wf(),
        ensures
            match place {
                Some(i) => self@.contains((fingerprint, epoch)) && self@.index_of((fingerprint, epoch))
                    == i && i < self@.len(),
                None => !self@.contains((fingerprint, epoch)),
            },
    {
        let mut i: usize = 0;
        while i < self.keys.len()
            invariant
                i <= self.keys.len(),
                self.wf(),
                forall|k: int| 0 <= k < i ==> self@[k] != (fingerprint, epoch),
            decreases self.keys.len() - i,
        {
            if self.keys[i].0 == fingerprint && self.keys[i].1 == epoch {
                proof {
                    assert(self@[i as int] == (fingerprint, epoch));
                    assert(self@.contains((fingerprint, epoch)));
                    let j = self@.index_of((fingerprint, epoch));
                    assert(0 <= j < self@.len() && self@[j] == (fingerprint, epoch));
                    assert(j == i);
                }
                return Some(i);
            }
            i += 1;
        }
        None
    }

    /// Asks for the outcome of a key. A cached outcome is returned and the
    /// key counts as used; otherwise the caller is told to verify, or to wait
    /// for the caller that already does.
    pub fn claim(&mut self, cache: &mut VerifyCache, fingerprint: u64, epoch: u64) -> (claim: Claim)
        requires
            old(self).wf(),
            old(cache).wf(),
        ensures
            final(self).wf(),
            final(cache).wf(),
            final(cache).spec_capacity() == old(cache).spec_capacity(),
            claim == claim_of(old(cache)@, old(self)@, fingerprint, epoch),
            final(cache)@ == touched(old(cache)@, fingerprint, epoch),
            final(self)@ == pending_after_claim(old(cache)@, old(self)@, fingerprint, epoch),
    {
        match cache.lookup(fingerprint, epoch) {
            Some(outcome) => Claim::Hit(outcome),
            None => match self.find(fingerprint, epoch) {
                Some(_) => Claim::Wait,
                None => {
                    self.keys.push((fingerprint, epoch));
                    Claim::Compute
                },
            },
        }
    }

    /// Hands in the outcome of a verification: it is cached, and the key is
    /// no longer under verification.
    pub fn complete(&mut self, cache: &mut VerifyCache, fingerprint: u64, epoch: u64, outcome: Outcome)
        requires
            old(self).wf(),
            old(cache).wf(),
        ensures
            final(self).wf(),
            final(cache).wf(),
            final(cache).spec_capacity() == old(cache).spec_capacity(),
            final(cache)@ == inserted(
                old(cache)@,
                old(cache).spec_capacity(),
                (CacheEntry { fingerprint, epoch, outcome }),
            ),
            final(self)@ == without_key(old(self)@, (fingerprint, epoch)),
    {
        self.abandon(fingerprint, epoch);
        cache.insert(fingerprint, epoch, outcome);
    }

    /// Gives a verification up without an outcome: the key is no longer under
    /// verification, and the next caller may verify it.
    pub fn abandon(&mut self, fingerprint: u64, epoch: u64)
        requires
            old(self).wf(),
        ensures
            final(self).wf(),
            final(self)@ == without_key(old(self)@, (fingerprint, epoch)),
    {
        proof {
            lemma_without_key(self@, (fingerprint, epoch));
        }
        match self.find(fingerprint, epoch) {
            Some(i) => {
                self.keys.remove(i);
            },
            None => {},
        }
    }
}

} // verus!
