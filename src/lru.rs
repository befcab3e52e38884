//! A weight-bounded store that evicts its least recently used entries.
use vstd::prelude::*;

verus! {

/// One entry: its key, its value and the weight it counts for against the capacity.
pub type Slot<V> = (String, V, u64);

/// Sum of the weights of a sequence of entries.
pub open spec fn total<V>(s: Seq<Slot<V>>) -> int
    decreases s.len(),
{
    if s.len() == 0 {
        0
    } else {
        total(s.drop_last()) + s.last().2
    }
}

pub open spec fn has_key<V>(s: Seq<Slot<V>>, k: Seq<char>) -> bool {
    exists|i: int| 0 <= i < s.len() && #[trigger] s[i].0@ == k
}

pub open spec fn keys_unique<V>(s: Seq<Slot<V>>) -> bool {
    forall|i: int, j: int|
        0 <= i < s.len() && 0 <= j < s.len() && #[trigger] s[i].0@ == #[trigger] s[j].0@ ==> i == j
}

/// Position of the entry with key `k`; meaningful where `has_key(s, k)`.
pub open spec fn index_of<V>(s: Seq<Slot<V>>, k: Seq<char>) -> int {
    choose|i: int| 0 <= i < s.len() && #[trigger] s[i].0@ == k
}

/// The value stored under `k`, if any.
pub open spec fn lookup<V>(s: Seq<Slot<V>>, k: Seq<char>) -> Option<V> {
    if has_key(s, k) {
        Some(s[index_of(s, k)].1)
    } else {
        None
    }
}

/// `s` without the entry of key `k`.
pub open spec fn remove_key<V>(s: Seq<Slot<V>>, k: Seq<char>) -> Seq<Slot<V>> {
    if has_key(s, k) {
        s.remove(index_of(s, k))
    } else {
        s
    }
}

/// `s` with the entry of key `k`, if any, moved to the most recent end.
pub open spec fn touch<V>(s: Seq<Slot<V>>, k: Seq<char>) -> Seq<Slot<V>> {
    if has_key(s, k) {
        remove_key(s, k).push(s[index_of(s, k)])
    } else {
        s
    }
}

/// Drops the oldest entries until the total weight is at most `cap`.
pub open spec fn trim<V>(s: Seq<Slot<V>>, cap: int) -> Seq<Slot<V>>
    decreases s.len(),
{
    if s.len() == 0 || total(s) <= cap {
        s
    } else {
        trim(s.drop_first(), cap)
    }
}

/// The entries before trimming, after `e` was put: any entry of the same key replaced.
pub open spec fn with_entry<V>(s: Seq<Slot<V>>, e: Slot<V>) -> Seq<Slot<V>> {
    remove_key(s, e.0@).push(e)
}

/// The entries after putting `e` into `s` under the capacity `cap`.
pub open spec fn after_put<V>(s: Seq<Slot<V>>, e: Slot<V>, cap: int) -> Seq<Slot<V>> {
    trim(with_entry(s, e), cap)
}

/// The entries that putting `e` into `s` evicts, oldest first.
pub open spec fn evicted_by_put<V>(s: Seq<Slot<V>>, e: Slot<V>, cap: int) -> Seq<Slot<V>> {
    with_entry(s, e).subrange(0, with_entry(s, e).len() - after_put(s, e, cap).len())
}

pub proof fn lemma_total_nonneg<V>(s: Seq<Slot<V>>)
    ensures
        total(s) >= 0,
    decreases s.len(),
{
    if s.len() > 0 {
        lemma_total_nonneg(s.drop_last());
    }
}

pub proof fn lemma_total_concat<V>(a: Seq<Slot<V>>, b: Seq<Slot<V>>)
    ensures
        total(a + b) == total(a) + total(b),
    decreases b.len(),
{
    if b.len() == 0 {
        assert(a + b =~= a);
    } else {
        lemma_total_concat(a, b.drop_last());
        assert((a + b).drop_last() =~= a + b.drop_last());
    }
}

pub proof fn lemma_total_remove<V>(s: Seq<Slot<V>>, i: int)
    requires
        0 <= i < s.len(),
    ensures
        total(s.remove(i)) == total(s) - s[i].2,
{
    let a = s.subrange(0, i);
    let b = s.subrange(i + 1, s.len() as int);
    assert(s.remove(i) =~= a + b);
    assert(s =~= a.push(s[i]) + b);
    lemma_total_concat(a, b);
    lemma_total_concat(a.push(s[i]), b);
    assert(a.push(s[i]).drop_last() =~= a);
}

pub proof fn lemma_total_drop_first<V>(s: Seq<Slot<V>>)
    requires
        s.len() > 0,
    ensures
        total(s.drop_first()) == total(s) - s[0].2,
{
    lemma_total_remove(s, 0);
    assert(s.remove(0) =~= s.drop_first());
}

pub proof fn lemma_unique_remove<V>(s: Seq<Slot<V>>, i: int)
    requires
        keys_unique(s),
        0 <= i < s.len(),
    ensures
        keys_unique(s.remove(i)),
        forall|j: int| 0 <= j < s.remove(i).len() ==> (#[trigger] s.remove(i)[j]).0@ != s[i].0@,
{
    let r = s.remove(i);
    assert forall|a: int, b: int|
        0 <= a < r.len() && 0 <= b < r.len() && #[trigger] r[a].0@ == #[trigger] r[b].0@ implies a == b by {
        let a2 = if a < i { a } else { a + 1 };
        let b2 = if b < i { b } else { b + 1 };
        assert(r[a] == s[a2] && r[b] == s[b2]);
    }
    assert forall|j: int| 0 <= j < r.len() implies (#[trigger] r[j]).0@ != s[i].0@ by {
        let j2 = if j < i { j } else { j + 1 };
        assert(r[j] == s[j2]);
    }
}

pub proof fn lemma_remove_key_facts<V>(s: Seq<Slot<V>>, k: Seq<char>)
    requires
        keys_unique(s),
    ensures
        keys_unique(remove_key(s, k)),
        !has_key(remove_key(s, k), k),
        total(remove_key(s, k)) == total(s) - (if has_key(s, k) { s[index_of(s, k)].2 as int } else { 0 }),
{
    if has_key(s, k) {
        let i = index_of(s, k);
        lemma_unique_remove(s, i);
        lemma_total_remove(s, i);
    }
}

pub proof fn lemma_trim_suffix<V>(s: Seq<Slot<V>>, cap: int)
    ensures
        trim(s, cap).len() <= s.len(),
        trim(s, cap) =~= s.subrange(s.len() - trim(s, cap).len(), s.len() as int),
    decreases s.len(),
{
    if s.len() > 0 && total(s) > cap {
        lemma_trim_suffix(s.drop_first(), cap);
    }
}

pub proof fn lemma_trim_bound<V>(s: Seq<Slot<V>>, cap: int)
    requires
        cap >= 0,
    ensures
        total(trim(s, cap)) <= cap,
    decreases s.len(),
{
    if s.len() > 0 && total(s) > cap {
        lemma_trim_bound(s.drop_first(), cap);
    }
}

pub proof fn lemma_unique_subrange<V>(s: Seq<Slot<V>>, lo: int, hi: int)
    requires
        keys_unique(s),
        0 <= lo <= hi <= s.len(),
    ensures
        keys_unique(s.subrange(lo, hi)),
{
    let r = s.subrange(lo, hi);
    assert forall|a: int, b: int|
        0 <= a < r.len() && 0 <= b < r.len() && #[trigger] r[a].0@ == #[trigger] r[b].0@ implies a == b by {
        assert(r[a] == s[a + lo] && r[b] == s[b + lo]);
    }
}

/// Trimming a sequence whose newest entry is heavier than the capacity leaves nothing.
proof fn lemma_trim_heavy<V>(t: Seq<Slot<V>>, e: Slot<V>, cap: int)
    requires
        e.2 > cap,
        cap >= 0,
    ensures
        trim(t.push(e), cap) == Seq::<Slot<V>>::empty(),
    decreases t.len(),
{
    let s = t.push(e);
    assert(s.drop_last() =~= t);
    lemma_total_nonneg(t);
    assert(total(s) > cap);
    assert(trim(s, cap) == trim(s.drop_first(), cap));
    if t.len() == 0 {
        assert(s.drop_first() =~= Seq::<Slot<V>>::empty());
    } else {
        assert(s.drop_first() =~= t.drop_first().push(e));
        lemma_trim_heavy(t.drop_first(), e, cap);
    }
}

pub struct LruStore<V> {
    entries: Vec<Slot<V>>,
    capacity: u64,
    used: u64,
}

impl<V> View for LruStore<V> {
    type V = Seq<Slot<V>>;

    /// The entries, least recently used first.
    closed spec fn view(&self) -> Seq<Slot<V>> {
        self.entries@
    }
}

/// Linear search for the entry of key `k`.
fn find<V>(entries: &Vec<Slot<V>>, k: &String) -> (r: Option<usize>)
    requires
        keys_unique(entries@),
    ensures
        match r {
            Some(i) => has_key(entries@, k@) && i as int == index_of(entries@, k@),
            None => !has_key(entries@, k@),
        },
{
    let mut i: usize = 0;
    while i < entries.len()
        invariant
            i <= entries@.len(),
            keys_unique(entries@),
            forall|j: int| 0 <= j < i ==> (#[trigger] entries@[j]).0@ != k@,
        decreases entries@.len() - i,
    {
        if entries[i].0 == *k {
            proof {
                assert(has_key(entries@, k@));
                let c = index_of(entries@, k@);
                assert(entries@[c].0@ == entries@[i as int].0@);
            }
            return Some(i);
        }
        i = i + 1;
    }
    None
}

impl<V> LruStore<V> {
    #[verifier::type_invariant]
    spec fn well_formed(&self) -> bool {
        &&& self.used == total(self.entries@)
        &&& self.used <= self.capacity
        &&& keys_unique(self.entries@)
    }

    /// The bound on the total weight, fixed at construction.
    pub closed spec fn spec_capacity(&self) -> nat {
        self.capacity as nat
    }

    /// An empty store that holds entries of total weight at most `capacity`.
    pub fn new(capacity: u64) -> (r: Self)
        ensures
            r@ == Seq::<Slot<V>>::empty(),
            r.spec_capacity() == capacity,
    {
        LruStore { entries: Vec::new(), capacity, used: 0 }
    }

    pub fn capacity(&self) -> (r: u64)
        ensures
            r == self.spec_capacity(),
    {
        self.capacity
    }

    /// Total weight of the entries held.
    pub fn size(&self) -> (r: u64)
        ensures
            r == total(self@),
            r <= self.spec_capacity(),
    {
        proof {
            use_type_invariant(self);
        }
        self.used
    }

    pub fn len(&self) -> (r: usize)
        ensures
            r == self@.len(),
    {
        self.entries.len()
    }

    /// Whether an entry of key `k` is held; does not count as a use.
    pub fn contains_key(&self, k: &str) -> (r: bool)
        ensures
            r == has_key(self@, k@),
    {
        proof {
            use_type_invariant(self);
        }
        let key = k.to_owned();
        find(&self.entries, &key).is_some()
    }

    /// Inserts or replaces the entry of `key`, then evicts the least recently used entries
    /// until the total weight fits the capacity. Returns the evicted entries, oldest first;
    /// the new entry is among them when its weight alone exceeds the capacity.
    pub fn put(&mut self, key: String, value: V, weight: u64) -> (evicted: Vec<Slot<V>>)
        ensures
            final(self)@ == after_put(old(self)@, (key, value, weight), old(self).spec_capacity() as int),
            evicted@ == evicted_by_put(old(self)@, (key, value, weight), old(self).spec_capacity() as int),
            final(self).spec_capacity() == old(self).spec_capacity(),
            total(final(self)@) <= final(self).spec_capacity(),
            keys_unique(final(self)@),
    {
        proof {
            use_type_invariant(&*self);
        }
        let capacity = self.capacity;
        let mut taken = LruStore::new(capacity);
        std::mem::swap(self, &mut taken);
        proof {
            use_type_invariant(&taken);
        }
        let LruStore { entries: mut entries, capacity: _, used: mut used } = taken;
        let ghost s0 = entries@;
        let ghost e = (key, value, weight);
        proof {
            lemma_remove_key_facts(s0, key@);
            lemma_total_nonneg(s0);
        }
        match find(&entries, &key) {
            Some(i) => {
                proof {
                    lemma_total_remove(s0, i as int);
                    lemma_total_nonneg(s0.remove(i as int));
                }
                let gone = entries.remove(i);
                used = used - gone.2;
                assert(entries@ =~= s0.remove(i as int));
                assert(has_key(s0, key@));
                assert(i as int == index_of(s0, key@));
                assert(entries@ == remove_key(s0, key@));
            },
            None => {
                assert(!has_key(s0, key@));
                assert(entries@ == remove_key(s0, key@));
            },
        }
        let ghost base = entries@;
        assert(base == remove_key(s0, key@));
        let ghost w = with_entry(s0, e);
        assert(w == base.push(e));
        let mut evicted: Vec<Slot<V>> = Vec::new();
        if weight <= capacity {
            let ghost mut j: int = 0;
            assert(base.subrange(0, base.len() as int) =~= base);
            assert(base.subrange(0, 0) =~= Seq::<Slot<V>>::empty());
            while used > capacity - weight
                invariant
                    weight <= capacity,
                    e == (key, value, weight),
                    base == remove_key(s0, key@),
                    !has_key(base, key@),
                    keys_unique(base),
                    w == with_entry(s0, e),
                    w == base.push(e),
                    0 <= j <= base.len(),
                    entries@ == base.subrange(j, base.len() as int),
                    evicted@ == base.subrange(0, j),
                    used == total(entries@),
                    trim(w, capacity as int) == trim(base.subrange(j, base.len() as int).push(e), capacity as int),
                decreases entries@.len(),
            {
                proof {
                    lemma_total_nonneg(entries@);
                    if entries@.len() == 0 {
                        assert(total(entries@) == 0);
                    }
                    let t = entries@;
                    let tp = t.push(e);
                    assert(tp.drop_last() =~= t);
                    assert(total(tp) > capacity);
                    assert(tp.drop_first() =~= base.subrange(j + 1, base.len() as int).push(e));
                    lemma_total_drop_first(t);
                    lemma_total_nonneg(t.drop_first());
                }
                let gone = entries.remove(0);
                used = used - gone.2;
                evicted.push(gone);
                proof {
                    j = j + 1;
                    assert(entries@ =~= base.subrange(j, base.len() as int));
                    assert(evicted@ =~= base.subrange(0, j));
                }
            }
            proof {
                let tp = entries@.push(e);
                assert(tp.drop_last() =~= entries@);
                assert(trim(tp, capacity as int) == tp);
                lemma_trim_suffix(w, capacity as int);
                assert(w.subrange(0, w.len() - tp.len()) =~= evicted@);
                lemma_unique_subrange(base, j, base.len() as int);
                assert forall|a: int| 0 <= a < entries@.len() implies (#[trigger] entries@[a]).0@ != key@ by {
                    assert(entries@[a] == base[a + j]);
                    if base[a + j].0@ == key@ {
                        assert(has_key(base, key@));
                    }
                }
            }
            entries.push((key, value, weight));
            used = used + weight;
            proof {
                assert(entries@.drop_last() =~= base.subrange(j, base.len() as int));
            }
        } else {
            evicted = entries;
            evicted.push((key, value, weight));
            entries = Vec::new();
            used = 0;
            proof {
                lemma_trim_heavy(base, e, capacity as int);
                assert(evicted@ =~= w.subrange(0, w.len() - 0));
            }
        }
        *self = LruStore { entries, capacity, used };
        proof {
            use_type_invariant(&*self);
        }
        evicted
    }

    /// Looks `k` up; a hit makes its entry the most recently used.
    pub fn get(&mut self, k: &str) -> (r: Option<&V>)
        ensures
            final(self)@ == touch(old(self)@, k@),
            final(self).spec_capacity() == old(self).spec_capacity(),
            r is Some == has_key(old(self)@, k@),
            r matches Some(v) ==> lookup(old(self)@, k@) == Some(*v),
    {
        proof {
            use_type_invariant(&*self);
        }
        let key = k.to_owned();
        let capacity = self.capacity;
        let mut taken = LruStore::new(capacity);
        std::mem::swap(self, &mut taken);
        proof {
            use_type_invariant(&taken);
        }
        let LruStore { entries: mut entries, capacity: _, used } = taken;
        let ghost s0 = entries@;
        match find(&entries, &key) {
            None => {
                *self = LruStore { entries, capacity, used };
                None
            },
            Some(i) => {
                proof {
                    lemma_remove_key_facts(s0, k@);
                    lemma_total_remove(s0, i as int);
                }
                let hit = entries.remove(i);
                assert(entries@ =~= s0.remove(i as int));
                assert(key@ == k@);
                assert(has_key(s0, k@));
                assert(i as int == index_of(s0, k@));
                assert(entries@ =~= remove_key(s0, k@));
                entries.push(hit);
                proof {
                    let t = entries@;
                    assert(t.drop_last() =~= remove_key(s0, k@));
                    assert forall|a: int, b: int|
                        0 <= a < t.len() && 0 <= b < t.len() && #[trigger] t[a].0@ == #[trigger] t[b].0@ implies a == b by {
                        if a < t.len() - 1 && b == t.len() - 1 {
                            assert(has_key(remove_key(s0, k@), k@));
                        }
                        if b < t.len() - 1 && a == t.len() - 1 {
                            assert(has_key(remove_key(s0, k@), k@));
                        }
                    }
                }
                *self = LruStore { entries, capacity, used };
                let last = self.entries.len() - 1;
                Some(&self.entries[last].1)
            },
        }
    }

    /// Removes the entry of `k`; returns whether there was one.
    pub fn evict(&mut self, k: &str) -> (r: bool)
        ensures
            final(self)@ == remove_key(old(self)@, k@),
            final(self).spec_capacity() == old(self).spec_capacity(),
            r == has_key(old(self)@, k@),
    {
        proof {
            use_type_invariant(&*self);
        }
        let key = k.to_owned();
        let capacity = self.capacity;
        let mut taken = LruStore::new(capacity);
        std::mem::swap(self, &mut taken);
        proof {
            use_type_invariant(&taken);
        }
        let LruStore { entries: mut entries, capacity: _, used } = taken;
        let ghost s0 = entries@;
        match find(&entries, &key) {
            None => {
                *self = LruStore { entries, capacity, used };
                false
            },
            Some(i) => {
                proof {
                    lemma_remove_key_facts(s0, k@);
                    lemma_total_nonneg(remove_key(s0, k@));
                }
                let gone = entries.remove(i);
                assert(entries@ =~= s0.remove(i as int));
                assert(key@ == k@);
                assert(has_key(s0, k@));
                assert(i as int == index_of(s0, k@));
                assert(entries@ =~= remove_key(s0, k@));
                *self = LruStore { entries, capacity, used: used - gone.2 };
                true
            },
        }
    }
}

} // verus!
