use vstd::prelude::*;

verus! {

/// Failures of the acknowledgement correlator.
#[derive(Clone, Copy, Debug, PartialEq, Eq, Structural)]
pub enum AckMapError {
    /// A brand-new key was inserted while the table was at capacity.
    Full,
    /// A collaborator failure with no more specific mapping.
    Generic,
    /// A value was inserted for a key whose previous value is still
    /// unconsumed.
    IdUsed,
}

/// Per-key transient state: either a delivered, unconsumed value, or the
/// resumption handle of the single suspended waiter. Never both.
#[derive(Clone, Debug)]
pub enum AckEntry<V, W> {
    Value(V),
    Waiter(W),
}

/// One scheduling attempt of a waiter: either the delivered value, removed
/// from the table, or the instruction to stay suspended.
#[derive(Clone, Debug, PartialEq, Eq)]
pub enum Ack<V> {
    Ready(V),
    Pending,
}

/// Bounded, fixed-capacity map from an outstanding request id to either a
/// delivered value or a single suspended waiter, keyed by 16-bit message id.
/// `V` is the delivered value; `W` is an opaque resumption handle (a waker,
/// a parked thread, a task id) that the host uses to resume exactly the
/// execution that suspended.
///
/// Every operation is a single atomic step over the table; a host that
/// shares the correlator between executions wraps each call in its own
/// mutual-exclusion scope.
pub struct AckMap<V, W> {
    slots: Vec<(u16, AckEntry<V, W>)>,
    capacity: usize,
}

/// Index of the first (and under distinctness only) entry keyed `k`, or -1.
pub open spec fn key_index<V, W>(s: Seq<(u16, AckEntry<V, W>)>, k: u16) -> int
    decreases s.len(),
{
    if s.len() == 0 {
        -1
    } else if s[0].0 == k {
        0
    } else {
        let r = key_index(s.drop_first(), k);
        if r == -1 {
            -1
        } else {
            r + 1
        }
    }
}

/// The entry stored under key `k`, if any.
pub open spec fn spec_lookup<V, W>(s: Seq<(u16, AckEntry<V, W>)>, k: u16) -> Option<
    AckEntry<V, W>,
> {
    if key_index(s, k) >= 0 {
        Some(s[key_index(s, k)].1)
    } else {
        None
    }
}

/// No two entries share a key.
pub open spec fn distinct_keys<V, W>(s: Seq<(u16, AckEntry<V, W>)>) -> bool {
    forall|i: int, j: int|
        0 <= i < j < s.len() ==> (#[trigger] s[i]).0 != (#[trigger] s[j]).0
}

/// The table and the result after `insert(k, v)`:
/// an unconsumed value under `k` rejects the insertion with `IdUsed`; a
/// suspended waiter is replaced by the value and handed out to be resumed; a
/// new key stores the value, or fails with `Full` at capacity.
pub open spec fn spec_insert<V, W>(
    s: Seq<(u16, AckEntry<V, W>)>,
    capacity: nat,
    k: u16,
    v: V,
) -> (Seq<(u16, AckEntry<V, W>)>, Result<Option<W>, AckMapError>) {
    let i = key_index(s, k);
    if i >= 0 {
        match s[i].1 {
            AckEntry::Value(_) => (s, Err(AckMapError::IdUsed)),
            AckEntry::Waiter(w) => (s.update(i, (k, AckEntry::Value(v))), Ok(Some(w))),
        }
    } else if s.len() < capacity {
        (s.push((k, AckEntry::Value(v))), Ok(None))
    } else {
        (s, Err(AckMapError::Full))
    }
}

/// The table and the result after one scheduling attempt `wait(k, w)`:
/// a present value is removed and returned exactly once; otherwise the
/// attempt records `w` as the key's single suspended waiter and stays
/// pending, or fails with `Full` when the key is new and the table is at
/// capacity.
pub open spec fn spec_wait<V, W>(
    s: Seq<(u16, AckEntry<V, W>)>,
    capacity: nat,
    k: u16,
    w: W,
) -> (Seq<(u16, AckEntry<V, W>)>, Result<Ack<V>, AckMapError>) {
    let i = key_index(s, k);
    if i >= 0 {
        match s[i].1 {
            AckEntry::Value(v) => (s.remove(i), Ok(Ack::Ready(v))),
            AckEntry::Waiter(_) => (s.update(i, (k, AckEntry::Waiter(w))), Ok(Ack::Pending)),
        }
    } else if s.len() < capacity {
        (s.push((k, AckEntry::Waiter(w))), Ok(Ack::Pending))
    } else {
        (s, Err(AckMapError::Full))
    }
}

/// Any entry keyed `k` decides `key_index`, and `key_index` is `-1` exactly
/// when no entry carries `k`.
proof fn lemma_key_index_properties<V, W>(s: Seq<(u16, AckEntry<V, W>)>, k: u16)
    requires
        distinct_keys(s),
    ensures
        (key_index(s, k) == -1) <==> (forall|i: int|
            0 <= i < s.len() ==> (#[trigger] s[i]).0 != k),
        key_index(s, k) != -1 ==> 0 <= key_index(s, k) < s.len() && s[key_index(s, k)].0 == k,
        forall|i: int| 0 <= i < s.len() && (#[trigger] s[i]).0 == k ==> key_index(s, k) == i,
    decreases s.len(),
{
    if s.len() > 0 {
        let t = s.drop_first();
        assert(forall|j: int| 0 <= j < t.len() ==> #[trigger] t[j] == s[j + 1]);
        lemma_key_index_properties(t, k);
        if s[0].0 == k {
            assert forall|i: int|
                0 <= i < s.len() && (#[trigger] s[i]).0 == k implies key_index(s, k) == i by {
                if i > 0 {
                    assert(s[0].0 != s[i].0);
                }
            }
        } else {
            assert forall|i: int|
                0 <= i < s.len() && (#[trigger] s[i]).0 == k implies key_index(s, k) == i by {
                assert(t[i - 1] == s[i]);
            }
        }
    }
}

/// `spec_insert` keeps the table's invariant, never grows it past capacity,
/// and changes only the entry under the inserted key.
pub proof fn lemma_insert_invariant<V, W>(
    s: Seq<(u16, AckEntry<V, W>)>,
    capacity: nat,
    k: u16,
    v: V,
)
    requires
        distinct_keys(s),
        s.len() <= capacity,
    ensures
        distinct_keys(spec_insert(s, capacity, k, v).0),
        spec_insert(s, capacity, k, v).0.len() <= capacity,
        forall|k2: u16|
            k2 != k ==> #[trigger] spec_lookup(spec_insert(s, capacity, k, v).0, k2)
                == spec_lookup(s, k2),
{
    lemma_key_index_properties(s, k);
    let i = key_index(s, k);
    if i >= 0 {
        match s[i].1 {
            AckEntry::Value(_) => {},
            AckEntry::Waiter(_) => {
                lemma_update_frame(s, i, (k, AckEntry::Value(v)));
            },
        }
    } else if s.len() < capacity {
        lemma_push_frame(s, (k, AckEntry::Value(v)));
    }
}

/// `spec_wait` keeps the table's invariant, never grows it past capacity,
/// and changes only the entry under the waited key.
pub proof fn lemma_wait_invariant<V, W>(s: Seq<(u16, AckEntry<V, W>)>, capacity: nat, k: u16, w: W)
    requires
        distinct_keys(s),
        s.len() <= capacity,
    ensures
        distinct_keys(spec_wait(s, capacity, k, w).0),
        spec_wait(s, capacity, k, w).0.len() <= capacity,
        forall|k2: u16|
            k2 != k ==> #[trigger] spec_lookup(spec_wait(s, capacity, k, w).0, k2) == spec_lookup(
                s,
                k2,
            ),
{
    lemma_key_index_properties(s, k);
    let i = key_index(s, k);
    if i >= 0 {
        match s[i].1 {
            AckEntry::Value(_) => {
                lemma_remove_frame(s, i);
            },
            AckEntry::Waiter(_) => {
                lemma_update_frame(s, i, (k, AckEntry::Waiter(w)));
            },
        }
    } else if s.len() < capacity {
        lemma_push_frame(s, (k, AckEntry::Waiter(w)));
    }
}

/// Updating the entry at a key's own index leaves every other key's lookup
/// unchanged and keeps keys distinct.
proof fn lemma_update_frame<V, W>(s: Seq<(u16, AckEntry<V, W>)>, i: int, e: (u16, AckEntry<V, W>))
    requires
        distinct_keys(s),
        0 <= i < s.len(),
        e.0 == s[i].0,
    ensures
        distinct_keys(s.update(i, e)),
        spec_lookup(s.update(i, e), e.0) == Some(e.1),
        forall|k2: u16|
            k2 != e.0 ==> #[trigger] spec_lookup(s.update(i, e), k2) == spec_lookup(s, k2),
{
    let f = s.update(i, e);
    assert(forall|j: int| 0 <= j < s.len() && j != i ==> #[trigger] f[j] == s[j]);
    assert(f[i] == e);
    assert forall|a: int, b: int| 0 <= a < b < f.len() implies (#[trigger] f[a]).0 != (
    #[trigger] f[b]).0 by {
        assert(f[a].0 == s[a].0 && f[b].0 == s[b].0);
    }
    lemma_key_index_properties(s, e.0);
    lemma_key_index_properties(f, e.0);
    assert forall|k2: u16| k2 != e.0 implies #[trigger] spec_lookup(f, k2) == spec_lookup(
        s,
        k2,
    ) by {
        lemma_key_index_properties(s, k2);
        lemma_key_index_properties(f, k2);
        if key_index(s, k2) >= 0 {
            let j = key_index(s, k2);
            assert(j != i);
            assert(f[j].0 == k2);
            assert(key_index(f, k2) == j);
        } else {
            assert forall|j: int| 0 <= j < f.len() implies (#[trigger] f[j]).0 != k2 by {
                if j != i {
                    assert(f[j] == s[j]);
                }
            }
        }
    }
}

/// Appending an entry under a fresh key leaves every other key's lookup
/// unchanged and keeps keys distinct.
proof fn lemma_push_frame<V, W>(s: Seq<(u16, AckEntry<V, W>)>, e: (u16, AckEntry<V, W>))
    requires
        distinct_keys(s),
        key_index(s, e.0) == -1,
    ensures
        distinct_keys(s.push(e)),
        spec_lookup(s.push(e), e.0) == Some(e.1),
        forall|k2: u16| k2 != e.0 ==> #[trigger] spec_lookup(s.push(e), k2) == spec_lookup(s, k2),
{
    let f = s.push(e);
    lemma_key_index_properties(s, e.0);
    assert(forall|j: int| 0 <= j < s.len() ==> #[trigger] f[j] == s[j]);
    assert(f[s.len() as int] == e);
    assert forall|a: int, b: int| 0 <= a < b < f.len() implies (#[trigger] f[a]).0 != (
    #[trigger] f[b]).0 by {
        if b < s.len() {
            assert(f[a].0 == s[a].0 && f[b].0 == s[b].0);
        } else {
            assert(f[a] == s[a]);
            assert(s[a].0 != e.0);
        }
    }
    lemma_key_index_properties(f, e.0);
    assert forall|k2: u16| k2 != e.0 implies #[trigger] spec_lookup(f, k2) == spec_lookup(
        s,
        k2,
    ) by {
        lemma_key_index_properties(s, k2);
        lemma_key_index_properties(f, k2);
        if key_index(s, k2) >= 0 {
            let j = key_index(s, k2);
            assert(f[j].0 == k2);
        } else {
            assert forall|j: int| 0 <= j < f.len() implies (#[trigger] f[j]).0 != k2 by {
                if j < s.len() {
                    assert(f[j] == s[j]);
                }
            }
        }
    }
}

/// Removing a key's entry leaves every other key's lookup unchanged and
/// keeps keys distinct.
proof fn lemma_remove_frame<V, W>(s: Seq<(u16, AckEntry<V, W>)>, i: int)
    requires
        distinct_keys(s),
        0 <= i < s.len(),
    ensures
        distinct_keys(s.remove(i)),
        spec_lookup(s.remove(i), s[i].0) is None,
        forall|k2: u16|
            k2 != s[i].0 ==> #[trigger] spec_lookup(s.remove(i), k2) == spec_lookup(s, k2),
{
    let f = s.remove(i);
    s.remove_ensures(i);
    assert forall|a: int, b: int| 0 <= a < b < f.len() implies (#[trigger] f[a]).0 != (
    #[trigger] f[b]).0 by {
        let sa = if a < i {
            a
        } else {
            a + 1
        };
        let sb = if b < i {
            b
        } else {
            b + 1
        };
        assert(f[a] == s[sa] && f[b] == s[sb]);
    }
    lemma_key_index_properties(s, s[i].0);
    lemma_key_index_properties(f, s[i].0);
    assert forall|j: int| 0 <= j < f.len() implies (#[trigger] f[j]).0 != s[i].0 by {
        if j < i {
            assert(f[j] == s[j]);
        } else {
            assert(f[j] == s[j + 1]);
        }
    }
    assert forall|k2: u16| k2 != s[i].0 implies #[trigger] spec_lookup(f, k2) == spec_lookup(
        s,
        k2,
    ) by {
        lemma_key_index_properties(s, k2);
        lemma_key_index_properties(f, k2);
        if key_index(s, k2) >= 0 {
            let j = key_index(s, k2);
            assert(j != i);
            if j < i {
                assert(f[j] == s[j]);
                assert(key_index(f, k2) == j);
            } else {
                assert(f[j - 1] == s[j]);
                assert(key_index(f, k2) == j - 1);
            }
        } else {
            assert forall|j: int| 0 <= j < f.len() implies (#[trigger] f[j]).0 != k2 by {
                if j < i {
                    assert(f[j] == s[j]);
                } else {
                    assert(f[j] == s[j + 1]);
                }
            }
        }
    }
}

impl<V, W> AckMap<V, W> {
    /// The table's abstract content: its entries in insertion order.
    pub closed spec fn entries(self) -> Seq<(u16, AckEntry<V, W>)> {
        self.slots@
    }

    /// The fixed capacity the table was created with.
    pub closed spec fn spec_capacity(self) -> nat {
        self.capacity as nat
    }

    /// The table's invariant: bounded, one entry per key.
    pub open spec fn wf(self) -> bool {
        &&& distinct_keys(self.entries())
        &&& self.entries().len() <= self.spec_capacity()
    }

    /// An empty table that will hold at most `capacity` outstanding keys.
    pub fn new(capacity: usize) -> (r: Self)
        ensures
            r.wf(),
            r.entries() == Seq::<(u16, AckEntry<V, W>)>::empty(),
            r.spec_capacity() == capacity,
    {
        AckMap { slots: Vec::new(), capacity }
    }

    /// Index of the entry keyed `key`, if any.
    fn find(&self, key: u16) -> (r: Option<usize>)
        requires
            self.wf(),
        ensures
            match r {
                Some(i) => key_index(self.entries(), key) == i && i < self.entries().len()
                    && self.entries()[i as int].0 == key,
                None => key_index(self.entries(), key) == -1,
            },
    {
        proof {
            lemma_key_index_properties(self.entries(), key);
        }
        let mut i: usize = 0;
        while i < self.slots.len()
            invariant
                self.wf(),
                i <= self.slots.len(),
                self.entries().len() == self.slots@.len(),
                forall|j: int| 0 <= j < i ==> (#[trigger] self.entries()[j]).0 != key,
            decreases self.slots.len() - i,
        {
            proof {
                assert(self.entries()[i as int] == self.slots@[i as int]);
                lemma_key_index_properties(self.entries(), key);
            }
            if self.slots[i].0 == key {
                return Some(i);
            }
            i += 1;
        }
        None
    }

    /// Delivers `value` for the outstanding request `key`: stored for a
    /// later `wait`, or handed to the already-suspended waiter, whose
    /// resumption handle is returned for the caller to resume. A still
    /// unconsumed previous value is never overwritten (`IdUsed`), and a
    /// brand-new key at capacity is refused (`Full`) rather than silently
    /// dropped.
    pub fn insert(&mut self, key: u16, value: V) -> (r: Result<Option<W>, AckMapError>)
        requires
            old(self).wf(),
        ensures
            final(self).wf(),
            final(self).spec_capacity() == old(self).spec_capacity(),
            final(self).entries() == spec_insert(
                old(self).entries(),
                old(self).spec_capacity(),
                key,
                value,
            ).0,
            r == spec_insert(old(self).entries(), old(self).spec_capacity(), key, value).1,
    {
        proof {
            lemma_key_index_properties(self.entries(), key);
            lemma_insert_invariant(self.entries(), self.spec_capacity(), key, value);
        }
        match self.find(key) {
            Some(i) => {
                let is_value = match &self.slots[i].1 {
                    AckEntry::Value(_) => true,
                    AckEntry::Waiter(_) => false,
                };
                if is_value {
                    Err(AckMapError::IdUsed)
                } else {
                    let ghost s = self.slots@;
                    let old_entry = self.slots.remove(i);
                    self.slots.insert(i, (key, AckEntry::Value(value)));
                    proof {
                        s.remove_ensures(i as int);
                        assert(self.slots@ =~= s.update(i as int, (key, AckEntry::Value(value))));
                    }
                    match old_entry.1 {
                        AckEntry::Waiter(w) => Ok(Some(w)),
                        AckEntry::Value(_) => Err(AckMapError::Generic),
                    }
                }
            },
            None => {
                if self.slots.len() < self.capacity {
                    self.slots.push((key, AckEntry::Value(value)));
                    Ok(None)
                } else {
                    Err(AckMapError::Full)
                }
            },
        }
    }

    /// One scheduling attempt for the outstanding request `key`: consumes
    /// and returns a delivered value exactly once, or records `waiter` as
    /// the key's single resumption handle and stays pending. A brand-new
    /// key at capacity is refused (`Full`).
    pub fn wait(&mut self, key: u16, waiter: W) -> (r: Result<Ack<V>, AckMapError>)
        requires
            old(self).wf(),
        ensures
            final(self).wf(),
            final(self).spec_capacity() == old(self).spec_capacity(),
            final(self).entries() == spec_wait(
                old(self).entries(),
                old(self).spec_capacity(),
                key,
                waiter,
            ).0,
            r == spec_wait(old(self).entries(), old(self).spec_capacity(), key, waiter).1,
    {
        proof {
            lemma_key_index_properties(self.entries(), key);
            lemma_wait_invariant(self.entries(), self.spec_capacity(), key, waiter);
        }
        match self.find(key) {
            Some(i) => {
                let is_value = match &self.slots[i].1 {
                    AckEntry::Value(_) => true,
                    AckEntry::Waiter(_) => false,
                };
                if is_value {
                    let ghost s = self.slots@;
                    let entry = self.slots.remove(i);
                    match entry.1 {
                        AckEntry::Value(v) => Ok(Ack::Ready(v)),
                        AckEntry::Waiter(_) => Err(AckMapError::Generic),
                    }
                } else {
                    let ghost s = self.slots@;
                    self.slots.remove(i);
                    self.slots.insert(i, (key, AckEntry::Waiter(waiter)));
                    proof {
                        s.remove_ensures(i as int);
                        assert(self.slots@ =~= s.update(i as int, (key, AckEntry::Waiter(waiter))));
                    }
                    Ok(Ack::Pending)
                }
            },
            None => {
                if self.slots.len() < self.capacity {
                    self.slots.push((key, AckEntry::Waiter(waiter)));
                    Ok(Ack::Pending)
                } else {
                    Err(AckMapError::Full)
                }
            },
        }
    }
}

/// A `wait(k)` issued before `insert(k, v)` suspends, is resumed by exactly
/// the recorded handle when the value arrives, and its next scheduling
/// attempt consumes `v` exactly once: the key is gone afterwards and a
/// further attempt suspends again instead of seeing the value twice.
pub proof fn lemma_wait_before_insert_resolves<V, W>(
    s: Seq<(u16, AckEntry<V, W>)>,
    capacity: nat,
    k: u16,
    w: W,
    v: V,
    w2: W,
)
    requires
        distinct_keys(s),
        s.len() < capacity,
        spec_lookup(s, k) is None,
    ensures
        spec_wait(s, capacity, k, w).1 == Ok::<Ack<V>, AckMapError>(Ack::Pending),
        spec_insert(spec_wait(s, capacity, k, w).0, capacity, k, v).1 == Ok::<
            Option<W>,
            AckMapError,
        >(Some(w)),
        spec_wait(
            spec_insert(spec_wait(s, capacity, k, w).0, capacity, k, v).0,
            capacity,
            k,
            w2,
        ).1 == Ok::<Ack<V>, AckMapError>(Ack::Ready(v)),
        spec_lookup(
            spec_wait(
                spec_insert(spec_wait(s, capacity, k, w).0, capacity, k, v).0,
                capacity,
                k,
                w2,
            ).0,
            k,
        ) is None,
{
    lemma_key_index_properties(s, k);
    let s1 = spec_wait(s, capacity, k, w).0;
    lemma_push_frame(s, (k, AckEntry::Waiter(w)));
    assert(s1 == s.push((k, AckEntry::Waiter(w))));
    lemma_key_index_properties(s1, k);
    assert(s1[s.len() as int].0 == k);
    let i1 = key_index(s1, k);
    assert(i1 == s.len());
    let s2 = spec_insert(s1, capacity, k, v).0;
    lemma_update_frame(s1, i1, (k, AckEntry::Value(v)));
    assert(s2 == s1.update(i1, (k, AckEntry::Value(v))));
    lemma_key_index_properties(s2, k);
    assert(s2[i1].0 == k);
    let i2 = key_index(s2, k);
    assert(i2 == i1);
    assert(s2[i2].1 == AckEntry::<V, W>::Value(v));
    let s3 = spec_wait(s2, capacity, k, w2).0;
    assert(s3 == s2.remove(i2));
    lemma_remove_frame(s2, i2);
}

/// An `insert(k, v)` issued before any `wait(k)` resumes nobody and makes
/// the next `wait(k)` consume `v` at once, without suspending.
pub proof fn lemma_insert_before_wait_resolves<V, W>(
    s: Seq<(u16, AckEntry<V, W>)>,
    capacity: nat,
    k: u16,
    v: V,
    w: W,
)
    requires
        distinct_keys(s),
        s.len() < capacity,
        spec_lookup(s, k) is None,
    ensures
        spec_insert(s, capacity, k, v).1 == Ok::<Option<W>, AckMapError>(None),
        spec_wait(spec_insert(s, capacity, k, v).0, capacity, k, w).1 == Ok::<
            Ack<V>,
            AckMapError,
        >(Ack::Ready(v)),
        spec_lookup(spec_wait(spec_insert(s, capacity, k, v).0, capacity, k, w).0, k) is None,
{
    lemma_key_index_properties(s, k);
    let s1 = spec_insert(s, capacity, k, v).0;
    lemma_push_frame(s, (k, AckEntry::Value(v)));
    assert(s1 == s.push((k, AckEntry::Value(v))));
    lemma_key_index_properties(s1, k);
    assert(s1[s.len() as int].0 == k);
    let i1 = key_index(s1, k);
    assert(i1 == s.len());
    assert(s1[i1].1 == AckEntry::<V, W>::Value(v));
    let s2 = spec_wait(s1, capacity, k, w).0;
    assert(s2 == s1.remove(i1));
    lemma_remove_frame(s1, i1);
}

/// Inserting for a key whose previous value is still unconsumed is rejected
/// with `IdUsed` and leaves the table untouched: a duplicate or colliding
/// acknowledgement can never overwrite an answer a request still expects.
pub proof fn lemma_duplicate_insert_rejected<V, W>(
    s: Seq<(u16, AckEntry<V, W>)>,
    capacity: nat,
    k: u16,
    v1: V,
    v2: V,
)
    requires
        distinct_keys(s),
        spec_lookup(s, k) == Some(AckEntry::<V, W>::Value(v1)),
    ensures
        spec_insert(s, capacity, k, v2).1 == Err::<Option<W>, AckMapError>(AckMapError::IdUsed),
        spec_insert(s, capacity, k, v2).0 == s,
{
    lemma_key_index_properties(s, k);
}

} // verus!
