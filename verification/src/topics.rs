use vstd::prelude::*;
use crate::message::{byte_len, MAX_TOPIC_LEN};
use crate::mqttsn::{MqttSnClientError, TopicIdType};

verus! {

/// Fixed number of topic records the alias store can hold.
pub const TOPIC_CAPACITY: usize = 32;

/// One live record: a topic name bound to an alias kind and a numeric id.
struct TopicRecord {
    name: String,
    kind: TopicIdType,
    id: u16,
}

/// Bounded associative store mapping topic names to (alias kind, numeric id),
/// keyed primarily by name and secondarily by id. At most one live record per
/// name and per id.
pub struct Topics {
    store: Vec<TopicRecord>,
}

/// Looks a name up in a record sequence: the first record whose name matches.
pub open spec fn seq_lookup_name(
    s: Seq<(Seq<char>, TopicIdType, u16)>,
    name: Seq<char>,
) -> Option<(TopicIdType, u16)>
    decreases s.len(),
{
    if s.len() == 0 {
        None
    } else if s[0].0 == name {
        Some((s[0].1, s[0].2))
    } else {
        seq_lookup_name(s.drop_first(), name)
    }
}

/// Looks a numeric id up in a record sequence: the first record whose id
/// matches, giving its name.
pub open spec fn seq_lookup_id(s: Seq<(Seq<char>, TopicIdType, u16)>, id: u16) -> Option<
    Seq<char>,
>
    decreases s.len(),
{
    if s.len() == 0 {
        None
    } else if s[0].2 == id {
        Some(s[0].0)
    } else {
        seq_lookup_id(s.drop_first(), id)
    }
}

/// No two records share a name, and no two records share an id.
pub open spec fn distinct_records(s: Seq<(Seq<char>, TopicIdType, u16)>) -> bool {
    forall|i: int, j: int|
        0 <= i < j < s.len() ==> (#[trigger] s[i]).0 != (#[trigger] s[j]).0 && s[i].2 != s[j].2
}

/// A name lookup is `None` exactly when no record carries the name, and any
/// record carrying the name decides the lookup (distinctness makes it the
/// only one).
proof fn lemma_lookup_name_properties(s: Seq<(Seq<char>, TopicIdType, u16)>, name: Seq<char>)
    requires
        distinct_records(s),
    ensures
        (seq_lookup_name(s, name) is None) <==> (forall|k: int|
            0 <= k < s.len() ==> (#[trigger] s[k]).0 != name),
        forall|k: int|
            0 <= k < s.len() && (#[trigger] s[k]).0 == name ==> seq_lookup_name(s, name) == Some(
                (s[k].1, s[k].2),
            ),
    decreases s.len(),
{
    if s.len() > 0 {
        let t = s.drop_first();
        assert(forall|j: int| 0 <= j < t.len() ==> #[trigger] t[j] == s[j + 1]);
        lemma_lookup_name_properties(t, name);
        if s[0].0 == name {
            assert forall|k: int|
                0 <= k < s.len() && (#[trigger] s[k]).0 == name implies seq_lookup_name(s, name)
                == Some((s[k].1, s[k].2)) by {
                if k > 0 {
                    assert(s[0].0 != s[k].0);
                }
            }
        } else {
            assert forall|k: int|
                0 <= k < s.len() && (#[trigger] s[k]).0 == name implies seq_lookup_name(s, name)
                == Some((s[k].1, s[k].2)) by {
                assert(t[k - 1] == s[k]);
            }
        }
    }
}

/// The id-lookup counterpart of `lemma_lookup_name_properties`.
proof fn lemma_lookup_id_properties(s: Seq<(Seq<char>, TopicIdType, u16)>, id: u16)
    requires
        distinct_records(s),
    ensures
        (seq_lookup_id(s, id) is None) <==> (forall|k: int|
            0 <= k < s.len() ==> (#[trigger] s[k]).2 != id),
        forall|k: int|
            0 <= k < s.len() && (#[trigger] s[k]).2 == id ==> seq_lookup_id(s, id) == Some(s[k].0),
    decreases s.len(),
{
    if s.len() > 0 {
        let t = s.drop_first();
        assert(forall|j: int| 0 <= j < t.len() ==> #[trigger] t[j] == s[j + 1]);
        lemma_lookup_id_properties(t, id);
        if s[0].2 == id {
            assert forall|k: int|
                0 <= k < s.len() && (#[trigger] s[k]).2 == id implies seq_lookup_id(s, id) == Some(
                s[k].0,
            ) by {
                if k > 0 {
                    assert(s[0].2 != s[k].2);
                }
            }
        } else {
            assert forall|k: int|
                0 <= k < s.len() && (#[trigger] s[k]).2 == id implies seq_lookup_id(s, id) == Some(
                s[k].0,
            ) by {
                assert(t[k - 1] == s[k]);
            }
        }
    }
}

/// `m` is `o` with its (unique) record carrying `id` removed, or `o` itself
/// when none carried it.
spec fn removed_matching_id(
    o: Seq<(Seq<char>, TopicIdType, u16)>,
    m: Seq<(Seq<char>, TopicIdType, u16)>,
    id: u16,
) -> bool {
    if exists|k: int| 0 <= k < o.len() && (#[trigger] o[k]).2 == id {
        exists|k: int| 0 <= k < o.len() && (#[trigger] o[k]).2 == id && m == o.remove(k)
    } else {
        m == o
    }
}

/// `b` is `m` with its (unique) record carrying `name` removed, or `m` itself
/// when none carried it.
spec fn removed_matching_name(
    m: Seq<(Seq<char>, TopicIdType, u16)>,
    b: Seq<(Seq<char>, TopicIdType, u16)>,
    name: Seq<char>,
) -> bool {
    if exists|k: int| 0 <= k < m.len() && (#[trigger] m[k]).0 == name {
        exists|k: int| 0 <= k < m.len() && (#[trigger] m[k]).0 == name && b == m.remove(k)
    } else {
        b == m
    }
}

/// Evicting the id's record keeps the others: `m` is distinct, free of `id`,
/// a subset of `o`, and every record of `o` not carrying `id` survives.
proof fn lemma_evict_id(
    o: Seq<(Seq<char>, TopicIdType, u16)>,
    m: Seq<(Seq<char>, TopicIdType, u16)>,
    id: u16,
)
    requires
        distinct_records(o),
        removed_matching_id(o, m, id),
    ensures
        distinct_records(m),
        m.len() <= o.len(),
        forall|i: int| 0 <= i < m.len() ==> (#[trigger] m[i]).2 != id,
        forall|i: int| 0 <= i < m.len() ==> o.contains(#[trigger] m[i]),
        forall|j: int| 0 <= j < o.len() && (#[trigger] o[j]).2 != id ==> m.contains(o[j]),
{
    if exists|k: int| 0 <= k < o.len() && (#[trigger] o[k]).2 == id {
        let k = choose|k: int| 0 <= k < o.len() && (#[trigger] o[k]).2 == id && m == o.remove(k);
        o.remove_ensures(k);
        assert forall|i: int| 0 <= i < m.len() implies (#[trigger] m[i]).2 != id by {
            if i < k {
                assert(m[i] == o[i]);
            } else {
                assert(m[i] == o[i + 1]);
            }
        }
        assert forall|i: int| 0 <= i < m.len() implies o.contains(#[trigger] m[i]) by {
            assert(m[i] == o.remove(k)[i]);
            if i < k {
                assert(o[i] == m[i]);
            } else {
                assert(o[i + 1] == m[i]);
            }
        }
        assert forall|j: int| 0 <= j < o.len() && (#[trigger] o[j]).2 != id implies m.contains(
            o[j],
        ) by {
            if j < k {
                assert(m[j] == o.remove(k)[j]);
                assert(m[j] == o[j]);
            } else {
                assert(j != k);
                assert(m[j - 1] == o.remove(k)[j - 1]);
                assert(m[j - 1] == o[j]);
            }
        }
        assert forall|i: int, j: int| 0 <= i < j < m.len() implies (#[trigger] m[i]).0 != (
        #[trigger] m[j]).0 && m[i].2 != m[j].2 by {
            let oi = if i < k {
                i
            } else {
                i + 1
            };
            let oj = if j < k {
                j
            } else {
                j + 1
            };
            assert(m[i] == o[oi]);
            assert(m[j] == o[oj]);
        }
    } else {
        assert forall|i: int| 0 <= i < m.len() implies o.contains(#[trigger] m[i]) by {
            assert(o[i] == m[i]);
        }
        assert forall|j: int| 0 <= j < o.len() && (#[trigger] o[j]).2 != id implies m.contains(
            o[j],
        ) by {
            assert(m[j] == o[j]);
        }
    }
}

/// The name counterpart of `lemma_evict_id`.
proof fn lemma_evict_name(
    m: Seq<(Seq<char>, TopicIdType, u16)>,
    b: Seq<(Seq<char>, TopicIdType, u16)>,
    name: Seq<char>,
)
    requires
        distinct_records(m),
        removed_matching_name(m, b, name),
    ensures
        distinct_records(b),
        b.len() <= m.len(),
        forall|i: int| 0 <= i < b.len() ==> (#[trigger] b[i]).0 != name,
        forall|i: int| 0 <= i < b.len() ==> m.contains(#[trigger] b[i]),
        forall|j: int| 0 <= j < m.len() && (#[trigger] m[j]).0 != name ==> b.contains(m[j]),
{
    if exists|k: int| 0 <= k < m.len() && (#[trigger] m[k]).0 == name {
        let k = choose|k: int| 0 <= k < m.len() && (#[trigger] m[k]).0 == name && b == m.remove(k);
        m.remove_ensures(k);
        assert forall|i: int| 0 <= i < b.len() implies (#[trigger] b[i]).0 != name by {
            if i < k {
                assert(b[i] == m[i]);
            } else {
                assert(b[i] == m[i + 1]);
            }
        }
        assert forall|i: int| 0 <= i < b.len() implies m.contains(#[trigger] b[i]) by {
            assert(b[i] == m.remove(k)[i]);
            if i < k {
                assert(m[i] == b[i]);
            } else {
                assert(m[i + 1] == b[i]);
            }
        }
        assert forall|j: int| 0 <= j < m.len() && (#[trigger] m[j]).0 != name implies b.contains(
            m[j],
        ) by {
            if j < k {
                assert(b[j] == m.remove(k)[j]);
                assert(b[j] == m[j]);
            } else {
                assert(j != k);
                assert(b[j - 1] == m.remove(k)[j - 1]);
                assert(b[j - 1] == m[j]);
            }
        }
        assert forall|i: int, j: int| 0 <= i < j < b.len() implies (#[trigger] b[i]).0 != (
        #[trigger] b[j]).0 && b[i].2 != b[j].2 by {
            let mi = if i < k {
                i
            } else {
                i + 1
            };
            let mj = if j < k {
                j
            } else {
                j + 1
            };
            assert(b[i] == m[mi]);
            assert(b[j] == m[mj]);
        }
    } else {
        assert forall|i: int| 0 <= i < b.len() implies m.contains(#[trigger] b[i]) by {
            assert(m[i] == b[i]);
        }
        assert forall|j: int| 0 <= j < m.len() && (#[trigger] m[j]).0 != name implies b.contains(
            m[j],
        ) by {
            assert(b[j] == m[j]);
        }
    }
}

/// What the final record sequence of an insertion holds: the new record at
/// the end; before it, exactly the old records that carried neither the
/// inserted name nor the inserted id.
#[verifier::rlimit(60)]
#[verifier::spinoff_prover]
proof fn lemma_contents_after_insert(
    o: Seq<(Seq<char>, TopicIdType, u16)>,
    m: Seq<(Seq<char>, TopicIdType, u16)>,
    b: Seq<(Seq<char>, TopicIdType, u16)>,
    f: Seq<(Seq<char>, TopicIdType, u16)>,
    name: Seq<char>,
    kind: TopicIdType,
    id: u16,
)
    requires
        distinct_records(o),
        removed_matching_id(o, m, id),
        removed_matching_name(m, b, name),
        f == b.push((name, kind, id)),
    ensures
        distinct_records(f),
        f.len() == b.len() + 1,
        f[f.len() - 1] == (name, kind, id),
        forall|i: int|
            0 <= i < f.len() - 1 ==> (#[trigger] f[i]).0 != name && f[i].2 != id,
        forall|i: int| 0 <= i < f.len() - 1 ==> o.contains(#[trigger] f[i]),
        forall|j: int|
            0 <= j < o.len() && (#[trigger] o[j]).0 != name && o[j].2 != id ==> f.contains(o[j]),
{
    lemma_evict_id(o, m, id);
    lemma_evict_name(m, b, name);
    assert(forall|i: int| 0 <= i < b.len() ==> #[trigger] f[i] == b[i]);
    assert forall|i: int| 0 <= i < f.len() - 1 implies (#[trigger] f[i]).0 != name && f[i].2
        != id by {
        assert(f[i] == b[i]);
        assert(m.contains(b[i]));
        let x = choose|x: int| 0 <= x < m.len() && m[x] == b[i];
        assert(m[x].2 != id);
    }
    assert forall|i: int| 0 <= i < f.len() - 1 implies o.contains(#[trigger] f[i]) by {
        assert(f[i] == b[i]);
        assert(m.contains(b[i]));
        let x = choose|x: int| 0 <= x < m.len() && m[x] == b[i];
        assert(o.contains(m[x]));
    }
    assert forall|j: int|
        0 <= j < o.len() && (#[trigger] o[j]).0 != name && o[j].2 != id implies f.contains(
        o[j],
    ) by {
        assert(m.contains(o[j]));
        let i1 = choose|i: int| 0 <= i < m.len() && m[i] == o[j];
        assert(m[i1].0 != name);
        assert(b.contains(m[i1]));
        let i2 = choose|i: int| 0 <= i < b.len() && b[i] == m[i1];
        assert(f[i2] == o[j]);
    }
    assert forall|i: int, j: int| 0 <= i < j < f.len() implies (#[trigger] f[i]).0 != (
    #[trigger] f[j]).0 && f[i].2 != f[j].2 by {
        if j < f.len() - 1 {
            assert(f[i] == b[i] && f[j] == b[j]);
        } else {
            assert(f[i] == b[i]);
        }
    }
}

/// The two keys of a well-formed store always agree on its live records:
/// whenever a name reads `(kind, id)`, the id reads that name back, and
/// whenever an id reads a name, that name reads a record carrying the id.
/// Together with what `insert` ensures — a successful insertion is readable
/// by both keys, and an existing binding keeps both its readings under any
/// later insertion that collides with neither its name nor its id — a
/// registered topic record answers both lookups until an id collision
/// evicts it.
pub proof fn lemma_lookup_keys_agree(
    s: Seq<(Seq<char>, TopicIdType, u16)>,
    name: Seq<char>,
    kind: TopicIdType,
    id: u16,
)
    requires
        distinct_records(s),
    ensures
        seq_lookup_name(s, name) == Some((kind, id)) ==> seq_lookup_id(s, id) == Some(name),
        seq_lookup_id(s, id) == Some(name) ==> (seq_lookup_name(s, name) matches Some(p) && p.1
            == id),
{
    lemma_lookup_name_properties(s, name);
    lemma_lookup_id_properties(s, id);
    if seq_lookup_name(s, name) == Some((kind, id)) {
        let k = choose|k: int| 0 <= k < s.len() && (#[trigger] s[k]).0 == name;
        assert(seq_lookup_name(s, name) == Some((s[k].1, s[k].2)));
        assert(s[k].2 == id);
    }
    if seq_lookup_id(s, id) == Some(name) {
        let k = choose|k: int| 0 <= k < s.len() && (#[trigger] s[k]).2 == id;
        assert(seq_lookup_id(s, id) == Some(s[k].0));
        assert(s[k].0 == name);
    }
}

impl Topics {
    /// The store's abstract content: its records in insertion order.
    pub closed spec fn records(self) -> Seq<(Seq<char>, TopicIdType, u16)> {
        self.store@.map_values(|r: TopicRecord| (r.name@, r.kind, r.id))
    }

    /// The store's invariant: bounded, no duplicated name or id, and every
    /// name within the protocol's byte bound.
    pub open spec fn wf(self) -> bool {
        &&& distinct_records(self.records())
        &&& self.records().len() <= TOPIC_CAPACITY
        &&& (forall|i: int|
            0 <= i < self.records().len() ==> byte_len((#[trigger] self.records()[i]).0)
                <= MAX_TOPIC_LEN)
    }

    /// An empty store.
    pub fn new() -> (r: Self)
        ensures
            r.wf(),
            r.records() == Seq::<(Seq<char>, TopicIdType, u16)>::empty(),
    {
        let r = Topics { store: Vec::new() };
        proof {
            assert(r.records() =~= Seq::<(Seq<char>, TopicIdType, u16)>::empty());
        }
        r
    }

    /// Index of the record carrying `id`, if any.
    fn find_by_id(&self, id: u16) -> (r: Option<usize>)
        ensures
            match r {
                Some(k) => k < self.records().len() && self.records()[k as int].2 == id,
                None => forall|k: int|
                    0 <= k < self.records().len() ==> (#[trigger] self.records()[k]).2 != id,
            },
    {
        let mut i: usize = 0;
        while i < self.store.len()
            invariant
                i <= self.store.len(),
                self.records().len() == self.store@.len(),
                forall|k: int| 0 <= k < i ==> (#[trigger] self.records()[k]).2 != id,
            decreases self.store.len() - i,
        {
            proof {
                assert(self.records()[i as int].2 == self.store@[i as int].id);
            }
            if self.store[i].id == id {
                return Some(i);
            }
            i += 1;
        }
        None
    }

    /// Index of the record carrying `name`, if any.
    fn find_by_name(&self, name: &String) -> (r: Option<usize>)
        ensures
            match r {
                Some(k) => k < self.records().len() && self.records()[k as int].0 == name@,
                None => forall|k: int|
                    0 <= k < self.records().len() ==> (#[trigger] self.records()[k]).0 != name@,
            },
    {
        let mut i: usize = 0;
        while i < self.store.len()
            invariant
                i <= self.store.len(),
                self.records().len() == self.store@.len(),
                forall|k: int| 0 <= k < i ==> (#[trigger] self.records()[k]).0 != name@,
            decreases self.store.len() - i,
        {
            proof {
                assert(self.records()[i as int].0 == self.store@[i as int].name@);
            }
            if self.store[i].name == *name {
                return Some(i);
            }
            i += 1;
        }
        None
    }

    /// Read-only lookup keyed by topic name (the primary key).
    pub fn get_by_topic(&self, topic: &String) -> (r: Option<(TopicIdType, u16)>)
        requires
            self.wf(),
        ensures
            r == seq_lookup_name(self.records(), topic@),
    {
        proof {
            lemma_lookup_name_properties(self.records(), topic@);
        }
        match self.find_by_name(topic) {
            Some(k) => Some((self.store[k].kind, self.store[k].id)),
            None => None,
        }
    }

    /// Lookup keyed by numeric id (the secondary key); an id with no local
    /// record is a protocol anomaly and surfaces as an error.
    pub fn get_by_id(&self, id: u16) -> (r: Result<&str, MqttSnClientError>)
        requires
            self.wf(),
        ensures
            match seq_lookup_id(self.records(), id) {
                Some(name) => r matches Ok(s) && s@ == name,
                None => r == Err::<&str, MqttSnClientError>(MqttSnClientError::TopicNotRegistered),
            },
    {
        proof {
            lemma_lookup_id_properties(self.records(), id);
        }
        match self.find_by_id(id) {
            Some(k) => Ok(self.store[k].name.as_str()),
            None => Err(MqttSnClientError::TopicNotRegistered),
        }
    }

    /// Registers or updates a mapping. A stale record under the same id is
    /// evicted first (the id is authoritative once registered); a stale
    /// record under the same name is replaced. Fails only when the store is
    /// full and both the name and the id are new.
    #[verifier::rlimit(60)]
    #[verifier::spinoff_prover]
    pub fn insert(&mut self, topic: String, topic_type: TopicIdType, id: u16) -> (r: Result<
        (),
        MqttSnClientError,
    >)
        requires
            old(self).wf(),
            byte_len(topic@) <= MAX_TOPIC_LEN,
        ensures
            final(self).wf(),
            r is Ok <==> !(old(self).records().len() == TOPIC_CAPACITY && seq_lookup_id(
                old(self).records(),
                id,
            ) is None && seq_lookup_name(old(self).records(), topic@) is None),
            r is Err ==> final(self).records() == old(self).records() && r == Err::<
                (),
                MqttSnClientError,
            >(MqttSnClientError::TopicFailedInsert),
            r is Ok ==> seq_lookup_name(final(self).records(), topic@) == Some(
                (topic_type, id),
            ) && seq_lookup_id(final(self).records(), id) == Some(topic@),
            r is Ok ==> forall|n: Seq<char>|
                n != topic@ ==> #[trigger] seq_lookup_name(final(self).records(), n) == (
                if seq_lookup_name(old(self).records(), n) matches Some(p) && p.1 == id {
                    None
                } else {
                    seq_lookup_name(old(self).records(), n)
                }),
            r is Ok ==> forall|j: u16|
                j != id ==> #[trigger] seq_lookup_id(final(self).records(), j) == (
                if seq_lookup_id(old(self).records(), j) == Some(topic@) {
                    None
                } else {
                    seq_lookup_id(old(self).records(), j)
                }),
    {
        let ghost o = self.records();
        proof {
            lemma_lookup_name_properties(o, topic@);
            lemma_lookup_id_properties(o, id);
        }
        let idx_id = self.find_by_id(id);
        if let Some(k) = idx_id {
            let ghost st = self.store@;
            self.store.remove(k);
            proof {
                st.remove_ensures(k as int);
                o.remove_ensures(k as int);
                assert(self.records() =~= o.remove(k as int));
            }
        }
        let ghost m = self.records();
        proof {
            assert(removed_matching_id(o, m, id));
            lemma_evict_id(o, m, id);
        }
        let idx_name = self.find_by_name(&topic);
        if let Some(k) = idx_name {
            let ghost st = self.store@;
            self.store.remove(k);
            proof {
                st.remove_ensures(k as int);
                m.remove_ensures(k as int);
                assert(self.records() =~= m.remove(k as int));
            }
        } else if self.store.len() >= TOPIC_CAPACITY {
            proof {
                // a prior eviction would have left the store under capacity
                assert(idx_id is None);
                assert(m == o);
            }
            return Err(MqttSnClientError::TopicFailedInsert);
        }
        let ghost b = self.records();
        proof {
            assert(removed_matching_name(m, b, topic@));
            lemma_evict_name(m, b, topic@);
        }
        self.store.push(TopicRecord { name: topic, kind: topic_type, id });
        proof {
            let f = self.records();
            assert(f =~= b.push((topic@, topic_type, id)));
            lemma_contents_after_insert(o, m, b, f, topic@, topic_type, id);
            assert forall|i: int|
                0 <= i < f.len() implies byte_len((#[trigger] f[i]).0) <= MAX_TOPIC_LEN by {
                if i < f.len() - 1 {
                    assert(o.contains(f[i]));
                    let j = choose|j: int| 0 <= j < o.len() && o[j] == f[i];
                    assert(byte_len(o[j].0) <= MAX_TOPIC_LEN);
                }
            }
            lemma_lookup_name_properties(f, topic@);
            lemma_lookup_id_properties(f, id);
            assert(f[f.len() - 1] == (topic@, topic_type, id));
            assert forall|n: Seq<char>| n != topic@ implies #[trigger] seq_lookup_name(f, n) == (
            if seq_lookup_name(o, n) matches Some(p) && p.1 == id {
                None
            } else {
                seq_lookup_name(o, n)
            }) by {
                lemma_frame_name(o, m, b, f, topic@, topic_type, id, n);
            }
            assert forall|j: u16| j != id implies #[trigger] seq_lookup_id(f, j) == (
            if seq_lookup_id(o, j) == Some(topic@) {
                None
            } else {
                seq_lookup_id(o, j)
            }) by {
                lemma_frame_id(o, m, b, f, topic@, topic_type, id, j);
            }
        }
        Ok(())
    }
}

/// Name-lookup frame: a name other than the inserted one reads, after the
/// insertion, what the eviction rules say it reads from the old records.
proof fn lemma_frame_name(
    o: Seq<(Seq<char>, TopicIdType, u16)>,
    m: Seq<(Seq<char>, TopicIdType, u16)>,
    b: Seq<(Seq<char>, TopicIdType, u16)>,
    f: Seq<(Seq<char>, TopicIdType, u16)>,
    name: Seq<char>,
    kind: TopicIdType,
    id: u16,
    n: Seq<char>,
)
    requires
        distinct_records(o),
        removed_matching_id(o, m, id),
        removed_matching_name(m, b, name),
        f == b.push((name, kind, id)),
        n != name,
    ensures
        seq_lookup_name(f, n) == (if seq_lookup_name(o, n) matches Some(p) && p.1 == id {
            None
        } else {
            seq_lookup_name(o, n)
        }),
{
    lemma_contents_after_insert(o, m, b, f, name, kind, id);
    lemma_lookup_name_properties(o, n);
    lemma_lookup_name_properties(f, n);
    if seq_lookup_name(o, n) is Some {
        let p = seq_lookup_name(o, n).unwrap();
        let k = choose|k: int| 0 <= k < o.len() && (#[trigger] o[k]).0 == n;
        assert(seq_lookup_name(o, n) == Some((o[k].1, o[k].2)));
        if p.1 == id {
            assert forall|i: int| 0 <= i < f.len() implies (#[trigger] f[i]).0 != n by {
                if i < f.len() - 1 && f[i].0 == n {
                    assert(o.contains(f[i]));
                    let j = choose|j: int| 0 <= j < o.len() && o[j] == f[i];
                    assert(j == k);
                    assert(f[i].2 != id);
                }
            }
        } else {
            assert(o[k].2 != id);
            assert(o[k].0 != name);
            assert(f.contains(o[k]));
            let i = choose|i: int| 0 <= i < f.len() && f[i] == o[k];
            assert(seq_lookup_name(f, n) == Some((f[i].1, f[i].2)));
        }
    } else {
        assert forall|i: int| 0 <= i < f.len() implies (#[trigger] f[i]).0 != n by {
            if i < f.len() - 1 && f[i].0 == n {
                assert(o.contains(f[i]));
                let j = choose|j: int| 0 <= j < o.len() && o[j] == f[i];
                assert(o[j].0 != n);
            }
        }
    }
}

/// Id-lookup frame: an id other than the inserted one reads, after the
/// insertion, what the eviction rules say it reads from the old records.
proof fn lemma_frame_id(
    o: Seq<(Seq<char>, TopicIdType, u16)>,
    m: Seq<(Seq<char>, TopicIdType, u16)>,
    b: Seq<(Seq<char>, TopicIdType, u16)>,
    f: Seq<(Seq<char>, TopicIdType, u16)>,
    name: Seq<char>,
    kind: TopicIdType,
    id: u16,
    jid: u16,
)
    requires
        distinct_records(o),
        removed_matching_id(o, m, id),
        removed_matching_name(m, b, name),
        f == b.push((name, kind, id)),
        jid != id,
    ensures
        seq_lookup_id(f, jid) == (if seq_lookup_id(o, jid) == Some(name) {
            None
        } else {
            seq_lookup_id(o, jid)
        }),
{
    lemma_contents_after_insert(o, m, b, f, name, kind, id);
    lemma_lookup_id_properties(o, jid);
    lemma_lookup_id_properties(f, jid);
    if seq_lookup_id(o, jid) is Some {
        let nm = seq_lookup_id(o, jid).unwrap();
        let k = choose|k: int| 0 <= k < o.len() && (#[trigger] o[k]).2 == jid;
        assert(seq_lookup_id(o, jid) == Some(o[k].0));
        if nm == name {
            assert forall|i: int| 0 <= i < f.len() implies (#[trigger] f[i]).2 != jid by {
                if i < f.len() - 1 && f[i].2 == jid {
                    assert(o.contains(f[i]));
                    let j = choose|j: int| 0 <= j < o.len() && o[j] == f[i];
                    assert(j == k);
                    assert(f[i].0 != name);
                }
            }
        } else {
            assert(o[k].0 != name);
            assert(o[k].2 != id);
            assert(f.contains(o[k]));
            let i = choose|i: int| 0 <= i < f.len() && f[i] == o[k];
            assert(seq_lookup_id(f, jid) == Some(f[i].0));
        }
    } else {
        assert forall|i: int| 0 <= i < f.len() implies (#[trigger] f[i]).2 != jid by {
            if i < f.len() - 1 && f[i].2 == jid {
                assert(o.contains(f[i]));
                let j = choose|j: int| 0 <= j < o.len() && o[j] == f[i];
                assert(o[j].2 != jid);
            }
        }
    }
}

} // verus!
