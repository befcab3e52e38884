//! The bookkeeping of the disk tier: which keys have a file, how much they weigh,
//! and which files an insertion makes surplus. Reading and writing the files is the
//! caller's part.
use vstd::prelude::*;
use vstd::string::StringSliceAdditionalSpecFns;
use vstd::utf8::{encode_utf8, encode_utf8_decode_utf8};
use crate::lru::{after_put, evicted_by_put, has_key, total, remove_key, touch, LruStore, Slot};

verus! {

/// What the disk tier counts against its limit.
pub enum DiskBudget {
    /// At most this many files.
    Files(u64),
    /// At most this many bytes over all files.
    Bytes(u64),
}

impl DiskBudget {
    pub open spec fn limit(self) -> u64 {
        match self {
            DiskBudget::Files(n) => n,
            DiskBudget::Bytes(n) => n,
        }
    }

    /// What a file of `size` bytes counts for.
    pub open spec fn weight(self, size: u64) -> u64 {
        match self {
            DiskBudget::Files(_) => 1,
            DiskBudget::Bytes(_) => size,
        }
    }
}

pub open spec fn hex_digits() -> Seq<char> {
    seq!['0', '1', '2', '3', '4', '5', '6', '7', '8', '9', 'a', 'b', 'c', 'd', 'e', 'f']
}

/// Two lower-case hexadecimal digits for each byte.
pub open spec fn hex_of(b: Seq<u8>) -> Seq<char>
    decreases b.len(),
{
    if b.len() == 0 {
        Seq::<char>::empty()
    } else {
        hex_of(b.drop_last()) + seq![hex_digits()[(b.last() / 16) as int], hex_digits()[(b.last() % 16) as int]]
    }
}

/// The file that holds the value of key `k` under the directory `root`.
pub open spec fn file_of(root: Seq<char>, k: Seq<char>) -> Seq<char> {
    root + seq!['/'] + hex_of(encode_utf8(k))
}

proof fn lemma_hex_of_len_index(b: Seq<u8>)
    ensures
        hex_of(b).len() == 2 * b.len(),
        forall|i: int|
            0 <= i < b.len() ==> hex_of(b)[2 * i] == hex_digits()[(b[i] / 16) as int] && hex_of(b)[2 * i
                + 1] == hex_digits()[(b[i] % 16) as int],
    decreases b.len(),
{
    if b.len() > 0 {
        let p = b.drop_last();
        lemma_hex_of_len_index(p);
        assert forall|i: int| 0 <= i < b.len() implies hex_of(b)[2 * i] == hex_digits()[(b[i] / 16) as int]
            && hex_of(b)[2 * i + 1] == hex_digits()[(b[i] % 16) as int] by {
            if i < p.len() {
                assert(b[i] == p[i]);
            }
        }
    }
}

proof fn lemma_hex_digit_injective(x: u8, y: u8)
    requires
        x < 16,
        y < 16,
        hex_digits()[x as int] == hex_digits()[y as int],
    ensures
        x == y,
{
    let d = hex_digits();
    assert(d[0] == '0' && d[1] == '1' && d[2] == '2' && d[3] == '3' && d[4] == '4' && d[5] == '5'
        && d[6] == '6' && d[7] == '7' && d[8] == '8' && d[9] == '9' && d[10] == 'a' && d[11] == 'b'
        && d[12] == 'c' && d[13] == 'd' && d[14] == 'e' && d[15] == 'f');
}

/// Different bytes give different hexadecimal text.
pub proof fn lemma_hex_of_injective(a: Seq<u8>, b: Seq<u8>)
    requires
        hex_of(a) == hex_of(b),
    ensures
        a == b,
{
    lemma_hex_of_len_index(a);
    lemma_hex_of_len_index(b);
    assert forall|i: int| 0 <= i < a.len() implies a[i] == b[i] by {
        assert(hex_of(a)[2 * i] == hex_of(b)[2 * i]);
        assert(hex_of(a)[2 * i + 1] == hex_of(b)[2 * i + 1]);
        lemma_hex_digit_injective(a[i] / 16, b[i] / 16);
        lemma_hex_digit_injective(a[i] % 16, b[i] % 16);
    }
    assert(a =~= b);
}

/// Distinct keys have distinct files under one root.
pub proof fn lemma_file_of_injective(root: Seq<char>, k1: Seq<char>, k2: Seq<char>)
    requires
        file_of(root, k1) == file_of(root, k2),
    ensures
        k1 == k2,
{
    let p = root + seq!['/'];
    let h1 = hex_of(encode_utf8(k1));
    let h2 = hex_of(encode_utf8(k2));
    assert((p + h1).subrange(p.len() as int, (p + h1).len() as int) =~= h1);
    assert((p + h2).subrange(p.len() as int, (p + h2).len() as int) =~= h2);
    lemma_hex_of_injective(encode_utf8(k1), encode_utf8(k2));
    encode_utf8_decode_utf8(k1);
    encode_utf8_decode_utf8(k2);
}

/// Relies on String::push: appends one character.
#[verifier::external_body]
fn push_char(s: &mut String, c: char)
    ensures
        final(s)@ == old(s)@.push(c),
{
    s.push(c)
}

fn hex_digit(n: u8) -> (c: char)
    requires
        n < 16,
    ensures
        c == hex_digits()[n as int],
{
    let digits = ['0', '1', '2', '3', '4', '5', '6', '7', '8', '9', 'a', 'b', 'c', 'd', 'e', 'f'];
    proof {
        assert(digits@ =~= hex_digits());
    }
    digits[n as usize]
}

/// The file name of `k` under `root`.
pub fn file_name(root: &String, k: &str) -> (r: String)
    ensures
        r@ == file_of(root@, k@),
{
    let b = k.as_bytes();
    let mut out = root.clone();
    push_char(&mut out, '/');
    let ghost head = root@ + seq!['/'];
    let mut i: usize = 0;
    assert(b@.subrange(0, 0) =~= Seq::<u8>::empty());
    assert(head + hex_of(Seq::<u8>::empty()) =~= head);
    while i < b.len()
        invariant
            i <= b@.len(),
            b@ == k.spec_bytes(),
            head == root@ + seq!['/'],
            out@ == head + hex_of(b@.subrange(0, i as int)),
        decreases b@.len() - i,
    {
        let x = b[i];
        push_char(&mut out, hex_digit(x / 16));
        push_char(&mut out, hex_digit(x % 16));
        proof {
            let s1 = b@.subrange(0, i + 1);
            assert(s1.drop_last() =~= b@.subrange(0, i as int));
            assert(s1.last() == x);
        }
        i = i + 1;
        assert(out@ =~= head + hex_of(b@.subrange(0, i as int)));
    }
    assert(b@.subrange(0, b@.len() as int) =~= b@);
    out
}

/// The index of the disk tier: for each key, the size of its file, least recently
/// used first.
pub struct DiskCache {
    root: String,
    budget: DiskBudget,
    index: LruStore<u64>,
}

impl DiskCache {
    pub closed spec fn spec_root(&self) -> Seq<char> {
        self.root@
    }

    pub closed spec fn spec_budget(&self) -> DiskBudget {
        self.budget
    }

    /// The entries: key, file size and weight.
    pub closed spec fn entries(&self) -> Seq<Slot<u64>> {
        self.index@
    }

    pub closed spec fn well_formed(&self) -> bool {
        self.index.spec_capacity() == self.budget.limit()
    }

    /// An empty tier whose files go under `root`.
    pub fn new(root: String, budget: DiskBudget) -> (r: Self)
        ensures
            r.well_formed(),
            r.spec_root() == root@,
            r.spec_budget() == budget,
            r.entries() == Seq::<Slot<u64>>::empty(),
    {
        let limit = match budget {
            DiskBudget::Files(n) => n,
            DiskBudget::Bytes(n) => n,
        };
        DiskCache { root, budget, index: LruStore::new(limit) }
    }

    /// The file that holds, or would hold, the value of `k`.
    pub fn path_of(&self, k: &str) -> (r: String)
        ensures
            r@ == file_of(self.spec_root(), k@),
    {
        file_name(&self.root, k)
    }

    pub fn contains_key(&self, k: &str) -> (r: bool)
        ensures
            r == has_key(self.entries(), k@),
    {
        self.index.contains_key(k)
    }

    /// Number of files indexed.
    pub fn len(&self) -> (r: usize)
        ensures
            r == self.entries().len(),
    {
        self.index.len()
    }

    /// Total weight of the files indexed; never above the limit.
    pub fn size(&self) -> (r: u64)
        requires
            self.well_formed(),
        ensures
            r == total(self.entries()),
            r <= self.spec_budget().limit(),
    {
        self.index.size()
    }

    /// Records that the file of `key`, of `size` bytes, has been written. Returns the
    /// files that are now surplus and are to be removed, least recently used first;
    /// the new file is among them when it alone exceeds the limit.
    pub fn put(&mut self, key: String, size: u64) -> (r: Vec<String>)
        requires
            old(self).well_formed(),
        ensures
            final(self).well_formed(),
            final(self).spec_root() == old(self).spec_root(),
            final(self).spec_budget() == old(self).spec_budget(),
            final(self).entries() == after_put(
                old(self).entries(),
                (key, size, old(self).spec_budget().weight(size)),
                old(self).spec_budget().limit() as int,
            ),
            r@.len() == evicted_by_put(
                old(self).entries(),
                (key, size, old(self).spec_budget().weight(size)),
                old(self).spec_budget().limit() as int,
            ).len(),
            forall|i: int|
                0 <= i < r@.len() ==> (#[trigger] r@[i])@ == file_of(
                    old(self).spec_root(),
                    evicted_by_put(
                        old(self).entries(),
                        (key, size, old(self).spec_budget().weight(size)),
                        old(self).spec_budget().limit() as int,
                    )[i].0@,
                ),
    {
        let weight = match self.budget {
            DiskBudget::Files(_) => 1,
            DiskBudget::Bytes(_) => size,
        };
        let evicted = self.index.put(key, size, weight);
        let mut paths: Vec<String> = Vec::new();
        let mut i: usize = 0;
        while i < evicted.len()
            invariant
                i <= evicted@.len(),
                paths@.len() == i,
                forall|j: int|
                    0 <= j < i ==> (#[trigger] paths@[j])@ == file_of(self.root@, evicted@[j].0@),
            decreases evicted@.len() - i,
        {
            let p = file_name(&self.root, evicted[i].0.as_str());
            paths.push(p);
            i = i + 1;
        }
        paths
    }

    /// The file to read for `k`, if it is indexed; a hit makes it the most recently used.
    pub fn get(&mut self, k: &str) -> (r: Option<String>)
        requires
            old(self).well_formed(),
        ensures
            final(self).well_formed(),
            final(self).spec_root() == old(self).spec_root(),
            final(self).spec_budget() == old(self).spec_budget(),
            final(self).entries() == touch(old(self).entries(), k@),
            r is Some == has_key(old(self).entries(), k@),
            r matches Some(p) ==> p@ == file_of(old(self).spec_root(), k@),
    {
        match self.index.get(k) {
            Some(_) => Some(file_name(&self.root, k)),
            None => None,
        }
    }

    /// Drops `k` from the index; the file to remove, if it was indexed.
    pub fn evict(&mut self, k: &str) -> (r: Option<String>)
        requires
            old(self).well_formed(),
        ensures
            final(self).well_formed(),
            final(self).spec_root() == old(self).spec_root(),
            final(self).spec_budget() == old(self).spec_budget(),
            final(self).entries() == remove_key(old(self).entries(), k@),
            r is Some == has_key(old(self).entries(), k@),
            r matches Some(p) ==> p@ == file_of(old(self).spec_root(), k@),
    {
        if self.index.evict(k) {
            Some(file_name(&self.root, k))
        } else {
            None
        }
    }
}

} // verus!
