//! Properties of the least-recently-used store, stated over its model.
use vstd::prelude::*;
use crate::lru::{
    after_put, evicted_by_put, has_key, index_of, keys_unique, lemma_remove_key_facts, lemma_trim_bound,
    lemma_trim_suffix, lemma_unique_subrange,
    lemma_unique_remove, lookup, remove_key, total, touch, trim, with_entry, Slot,
};

verus! {

/// Every entry weighs one: the store then bounds a count of items.
pub open spec fn unit_weights<V>(s: Seq<Slot<V>>) -> bool {
    forall|i: int| 0 <= i < s.len() ==> (#[trigger] s[i]).2 == 1
}

proof fn lemma_total_units<V>(s: Seq<Slot<V>>)
    requires
        unit_weights(s),
    ensures
        total(s) == s.len(),
    decreases s.len(),
{
    if s.len() > 0 {
        assert(unit_weights(s.drop_last())) by {
            assert forall|i: int| 0 <= i < s.drop_last().len() implies (#[trigger] s.drop_last()[i]).2 == 1 by {
                assert(s.drop_last()[i] == s[i]);
            }
        }
        lemma_total_units(s.drop_last());
    }
}

/// Whatever was held, the entries left by a put weigh at most the capacity.
pub proof fn lemma_put_within_capacity<V>(s: Seq<Slot<V>>, e: Slot<V>, cap: int)
    requires
        cap >= 0,
    ensures
        total(after_put(s, e, cap)) <= cap,
{
    lemma_trim_bound(with_entry(s, e), cap);
}

/// With unit weights, putting a new key into a full store evicts exactly the least
/// recently used entry, and keeps the others in their order followed by the new one.
pub proof fn lemma_full_put_evicts_oldest<V>(s: Seq<Slot<V>>, e: Slot<V>, cap: int)
    requires
        keys_unique(s),
        unit_weights(s),
        s.len() == cap,
        cap > 0,
        !has_key(s, e.0@),
        e.2 == 1,
    ensures
        after_put(s, e, cap) == s.drop_first().push(e),
        evicted_by_put(s, e, cap) == seq![s[0]],
{
    let w = with_entry(s, e);
    assert(w == s.push(e));
    assert(unit_weights(w)) by {
        assert forall|i: int| 0 <= i < w.len() implies (#[trigger] w[i]).2 == 1 by {
            if i < s.len() {
                assert(w[i] == s[i]);
            }
        }
    }
    lemma_total_units(w);
    let d = w.drop_first();
    assert(d =~= s.drop_first().push(e));
    assert(unit_weights(d)) by {
        assert forall|i: int| 0 <= i < d.len() implies (#[trigger] d[i]).2 == 1 by {
            assert(d[i] == w[i + 1]);
        }
    }
    lemma_total_units(d);
    assert(trim(w, cap) == trim(d, cap));
    assert(trim(d, cap) == d);
    assert(evicted_by_put(s, e, cap) =~= seq![s[0]]);
}

/// With unit weights, an entry that was just read survives the put of a new key
/// into a full store of at least two entries.
pub proof fn lemma_read_entry_survives_put<V>(s: Seq<Slot<V>>, k: Seq<char>, e: Slot<V>, cap: int)
    requires
        keys_unique(s),
        unit_weights(s),
        s.len() == cap,
        cap >= 2,
        has_key(s, k),
        !has_key(s, e.0@),
        e.2 == 1,
    ensures
        has_key(after_put(touch(s, k), e, cap), k),
        lookup(after_put(touch(s, k), e, cap), k) == lookup(s, k),
{
    let i = index_of(s, k);
    let t = touch(s, k);
    lemma_unique_remove(s, i);
    let r = s.remove(i);
    assert(t == r.push(s[i]));
    assert(keys_unique(t)) by {
        assert forall|a: int, b: int|
            0 <= a < t.len() && 0 <= b < t.len() && #[trigger] t[a].0@ == #[trigger] t[b].0@ implies a == b by {
            if a < r.len() && b < r.len() {
                assert(t[a] == r[a] && t[b] == r[b]);
            } else if a < r.len() {
                assert(t[a] == r[a]);
            } else if b < r.len() {
                assert(t[b] == r[b]);
            }
        }
    }
    assert(unit_weights(t)) by {
        assert forall|a: int| 0 <= a < t.len() implies (#[trigger] t[a]).2 == 1 by {
            if a < r.len() {
                let a2 = if a < i { a } else { a + 1 };
                assert(t[a] == s[a2]);
            }
        }
    }
    assert(!has_key(t, e.0@)) by {
        if has_key(t, e.0@) {
            let j = choose|j: int| 0 <= j < t.len() && #[trigger] t[j].0@ == e.0@;
            if j < r.len() {
                let j2 = if j < i { j } else { j + 1 };
                assert(t[j] == s[j2]);
            }
        }
    }
    lemma_full_put_evicts_oldest(t, e, cap);
    let out = t.drop_first().push(e);
    let p = cap - 2;
    assert(out[p] == t[cap - 1]);
    assert(out[p].0@ == k);
    assert(has_key(out, k));
    lemma_full_unique(t, e);
    let c = index_of(out, k);
    assert(out[c].0@ == out[p].0@);
}

proof fn lemma_full_unique<V>(t: Seq<Slot<V>>, e: Slot<V>)
    requires
        keys_unique(t),
        t.len() > 0,
        !has_key(t, e.0@),
    ensures
        keys_unique(t.drop_first().push(e)),
{
    let o = t.drop_first().push(e);
    assert forall|a: int, b: int|
        0 <= a < o.len() && 0 <= b < o.len() && #[trigger] o[a].0@ == #[trigger] o[b].0@ implies a == b by {
        if a < o.len() - 1 {
            assert(o[a] == t[a + 1]);
        }
        if b < o.len() - 1 {
            assert(o[b] == t[b + 1]);
        }
    }
}

/// Evicting a present key removes that entry alone: the key is gone, one entry fewer
/// remains, and every other key finds what it found before.
pub proof fn lemma_evict_removes_one<V>(s: Seq<Slot<V>>, k: Seq<char>, other: Seq<char>)
    requires
        keys_unique(s),
        has_key(s, k),
        other != k,
    ensures
        !has_key(remove_key(s, k), k),
        remove_key(s, k).len() == s.len() - 1,
        lookup(remove_key(s, k), other) == lookup(s, other),
{
    let i = index_of(s, k);
    lemma_remove_key_facts(s, k);
    let r = s.remove(i);
    if has_key(s, other) {
        let j = index_of(s, other);
        let j2 = if j < i { j } else { j - 1 };
        assert(j != i);
        assert(r[j2] == s[j]);
        assert(has_key(r, other));
        let c = index_of(r, other);
        assert(r[c].0@ == r[j2].0@);
    } else {
        if has_key(r, other) {
            let c = index_of(r, other);
            let c2 = if c < i { c } else { c + 1 };
            assert(r[c] == s[c2]);
        }
    }
}

proof fn lemma_trim_keeps_last<V>(t: Seq<Slot<V>>, e: Slot<V>, cap: int)
    requires
        e.2 <= cap,
    ensures
        trim(t.push(e), cap).len() >= 1,
        trim(t.push(e), cap).last() == e,
    decreases t.len(),
{
    let s = t.push(e);
    assert(s.drop_last() =~= t);
    if t.len() == 0 {
        assert(total(t) == 0);
    } else if total(s) > cap {
        assert(s.drop_first() =~= t.drop_first().push(e));
        lemma_trim_keeps_last(t.drop_first(), e, cap);
    }
}

/// A value that fits the capacity is found right after it was put: the next read of
/// its key hits and returns it.
pub proof fn lemma_put_then_get<V>(s: Seq<Slot<V>>, e: Slot<V>, cap: int)
    requires
        keys_unique(s),
        e.2 <= cap,
    ensures
        has_key(after_put(s, e, cap), e.0@),
        lookup(after_put(s, e, cap), e.0@) == Some(e.1),
{
    let k = e.0@;
    lemma_remove_key_facts(s, k);
    let base = remove_key(s, k);
    let w = base.push(e);
    assert(keys_unique(w)) by {
        assert forall|a: int, b: int|
            0 <= a < w.len() && 0 <= b < w.len() && #[trigger] w[a].0@ == #[trigger] w[b].0@ implies a == b by {
            if a < base.len() {
                assert(w[a] == base[a]);
            }
            if b < base.len() {
                assert(w[b] == base[b]);
            }
        }
    }
    lemma_trim_keeps_last(base, e, cap);
    lemma_trim_suffix(w, cap);
    let r = trim(w, cap);
    lemma_unique_subrange(w, w.len() - r.len(), w.len() as int);
    let last = r.len() - 1;
    assert(r[last].0@ == k);
    assert(has_key(r, k));
    let c = index_of(r, k);
    assert(r[c].0@ == r[last].0@);
}

} // verus!
