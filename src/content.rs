use vstd::prelude::*;

verus! {

/// FNV-1a offset basis.
pub const FNV_OFFSET: u64 = 0xcbf29ce484222325;

/// FNV-1a prime.
pub const FNV_PRIME: u64 = 0x100000001b3;

/// The content hash of a byte sequence (64-bit FNV-1a).
pub open spec fn hash_of(s: Seq<u8>) -> u64
    decreases s.len(),
{
    if s.len() == 0 {
        FNV_OFFSET
    } else {
        (hash_of(s.drop_last()) ^ (s.last() as u64)).wrapping_mul(FNV_PRIME)
    }
}

/// Computes the content hash that identifies an asset's bytes.
pub fn content_hash(bytes: &Vec<u8>) -> (r: u64)
    ensures
        r == hash_of(bytes@),
{
    let mut h: u64 = FNV_OFFSET;
    let mut i: usize = 0;
    while i < bytes.len()
        invariant
            i <= bytes@.len(),
            h == hash_of(bytes@.subrange(0, i as int)),
        decreases bytes@.len() - i,
    {
        proof {
            assert(bytes@.subrange(0, i as int + 1).drop_last() =~= bytes@.subrange(0, i as int));
        }
        h = (h ^ (bytes[i] as u64)).wrapping_mul(FNV_PRIME);
        i = i + 1;
    }
    proof {
        assert(bytes@.subrange(0, bytes@.len() as int) =~= bytes@);
    }
    h
}

} // verus!

verus! {

/// Errors of the core, each a local, recoverable condition.
#[derive(Debug, Clone, Copy, PartialEq, Eq, Structural)]
pub enum CoreError {
    MalformedArchive,
    UnsupportedFormat,
    MissingAsset,
    NothingToCommit,
    UnknownRevision,
    RemoteRejected,
    NetworkError,
    LockTimeout,
}

/// The distinct assets of one working tree, each stored once under the hash of its bytes.
pub struct ContentStore {
    entries: Vec<(u64, Vec<u8>)>,
}

/// The view of a store: its files as (id, bytes), in increasing order of id.
pub open spec fn entries_view(e: Seq<(u64, Vec<u8>)>) -> Seq<(u64, Seq<u8>)> {
    e.map_values(|p: (u64, Vec<u8>)| (p.0, p.1@))
}

/// Whether `id` names a file of the store view `v`.
pub open spec fn has_id(v: Seq<(u64, Seq<u8>)>, id: u64) -> bool {
    exists|i: int| 0 <= i < v.len() && v[i].0 == id
}

/// The bytes stored under `id` in the store view `v`.
pub open spec fn bytes_at(v: Seq<(u64, Seq<u8>)>, id: u64) -> Seq<u8> {
    v[choose|i: int| 0 <= i < v.len() && v[i].0 == id].1
}

/// A store view is canonical: ids strictly increase and each is the hash of its bytes.
pub open spec fn store_wf(v: Seq<(u64, Seq<u8>)>) -> bool {
    &&& forall|i: int, j: int| 0 <= i < j < v.len() ==> v[i].0 < v[j].0
    &&& forall|i: int| 0 <= i < v.len() ==> #[trigger] v[i].0 == hash_of(v[i].1)
}

/// In a canonical store the bytes under the id found at `i` are those at `i`.
pub proof fn lemma_bytes_at(v: Seq<(u64, Seq<u8>)>, i: int)
    requires
        store_wf(v),
        0 <= i < v.len(),
    ensures
        has_id(v, v[i].0),
        bytes_at(v, v[i].0) == v[i].1,
{
    let j = choose|j: int| 0 <= j < v.len() && v[j].0 == v[i].0;
    assert(0 <= j < v.len() && v[j].0 == v[i].0);
    if j < i {
        assert(v[j].0 < v[i].0);
    } else if i < j {
        assert(v[i].0 < v[j].0);
    }
}

impl View for ContentStore {
    type V = Seq<(u64, Seq<u8>)>;

    closed spec fn view(&self) -> Seq<(u64, Seq<u8>)> {
        entries_view(self.entries@)
    }
}

impl ContentStore {
    pub open spec fn wf(&self) -> bool {
        store_wf(self@)
    }

    /// An empty store.
    pub fn new() -> (r: ContentStore)
        ensures
            r@ == Seq::<(u64, Seq<u8>)>::empty(),
            r.wf(),
    {
        ContentStore { entries: Vec::new() }
    }

    /// The number of distinct assets held.
    pub fn len(&self) -> (r: usize)
        ensures
            r == self@.len(),
    {
        self.entries.len()
    }

    /// Finds the position of the first entry whose id is at least `id`.
    fn position(&self, id: u64) -> (r: usize)
        requires
            self.wf(),
        ensures
            r <= self@.len(),
            forall|i: int| 0 <= i < r ==> self@[i].0 < id,
            forall|i: int| r <= i < self@.len() ==> self@[i].0 >= id,
    {
        let mut i: usize = 0;
        while i < self.entries.len() && self.entries[i].0 < id
            invariant
                self.wf(),
                i <= self@.len(),
                forall|k: int| 0 <= k < i ==> self@[k].0 < id,
            decreases self@.len() - i,
        {
            i = i + 1;
        }
        proof {
            if i < self@.len() {
                assert forall|k: int| i <= k < self@.len() implies self@[k].0 >= id by {
                    if k > i {
                        assert(self@[i as int].0 < self@[k].0);
                    }
                }
            }
        }
        i
    }

    /// Finds the entry stored under `id`.
    fn find(&self, id: u64) -> (r: (usize, bool))
        requires
            self.wf(),
        ensures
            r.0 <= self@.len(),
            r.1 == has_id(self@, id),
            r.1 ==> r.0 < self@.len() && self@[r.0 as int].0 == id,
            !r.1 ==> forall|i: int| 0 <= i < self@.len() ==> self@[i].0 != id,
            forall|i: int| 0 <= i < r.0 ==> self@[i].0 < id,
            forall|i: int| r.0 <= i < self@.len() ==> self@[i].0 >= id,
    {
        let p = self.position(id);
        let found = p < self.entries.len() && self.entries[p].0 == id;
        proof {
            if p < self@.len() {
                assert(self@[p as int].0 == self.entries@[p as int].0);
            }
            if found {
                assert(has_id(self@, id));
            } else {
                assert forall|i: int| 0 <= i < self@.len() implies self@[i].0 != id by {
                    if i > p {
                        assert(self@[p as int].0 < self@[i].0);
                    }
                }
            }
        }
        (p, found)
    }

    /// Whether an asset with this id is stored.
    pub fn contains(&self, id: u64) -> (r: bool)
        requires
            self.wf(),
        ensures
            r == has_id(self@, id),
    {
        self.find(id).1
    }

    /// Stores `bytes` under their content hash; storing bytes that are already there changes nothing.
    pub fn put(&mut self, bytes: Vec<u8>) -> (id: u64)
        requires
            old(self).wf(),
        ensures
            final(self).wf(),
            id == hash_of(bytes@),
            forall|k: u64| has_id(final(self)@, k) <==> (has_id(old(self)@, k) || k == id),
            has_id(old(self)@, id) ==> final(self)@ == old(self)@,
            !has_id(old(self)@, id) ==> exists|p: int|
                0 <= p <= old(self)@.len() && final(self)@ == old(self)@.insert(p, (id, bytes@)),
    {
        let id = content_hash(&bytes);
        let (p, found) = self.find(id);
        if found {
            return id;
        }
        let ghost bv = bytes@;
        self.entries.insert(p, (id, bytes));
        proof {
            let o = old(self)@;
            assert(self@ =~= o.insert(p as int, (id, bv)));
            assert(self@[p as int].0 == id);
            assert forall|k: u64| has_id(self@, k) <==> (has_id(o, k) || k == id) by {
                if has_id(o, k) {
                    let i = choose|i: int| 0 <= i < o.len() && o[i].0 == k;
                    if i < p {
                        assert(self@[i].0 == k);
                    } else {
                        assert(self@[i + 1].0 == k);
                    }
                }
                if has_id(self@, k) {
                    let i = choose|i: int| 0 <= i < self@.len() && self@[i].0 == k;
                    if i < p {
                        assert(o[i].0 == k);
                    } else if i > p {
                        assert(o[i - 1].0 == k);
                    }
                }
            }
        }
        id
    }

    /// The bytes stored under `id`, or `MissingAsset` when none are.
    pub fn get(&self, id: u64) -> (r: Result<Vec<u8>, CoreError>)
        requires
            self.wf(),
        ensures
            r is Ok <==> has_id(self@, id),
            r is Ok ==> r->Ok_0@ == bytes_at(self@, id),
            r is Err ==> r->Err_0 == CoreError::MissingAsset,
    {
        let (p, found) = self.find(id);
        if found {
            proof {
                lemma_bytes_at(self@, p as int);
            }
            Ok(self.entries[p].1.clone())
        } else {
            Err(CoreError::MissingAsset)
        }
    }
}

impl Clone for ContentStore {
    fn clone(&self) -> (r: ContentStore)
        ensures
            r@ == self@,
    {
        let mut entries: Vec<(u64, Vec<u8>)> = Vec::new();
        let mut i: usize = 0;
        while i < self.entries.len()
            invariant
                i <= self.entries@.len(),
                entries@.len() == i,
                entries_view(entries@) == entries_view(self.entries@).subrange(0, i as int),
            decreases self.entries@.len() - i,
        {
            let ghost pre = entries_view(entries@);
            let bytes = self.entries[i].1.clone();
            assert(bytes@ == self.entries@[i as int].1@);
            entries.push((self.entries[i].0, bytes));
            assert(entries_view(entries@)[i as int] == entries_view(self.entries@)[i as int]);
            assert(entries_view(entries@) =~= entries_view(self.entries@).subrange(0, i as int + 1));
            i = i + 1;
        }
        assert(entries_view(self.entries@).subrange(0, i as int) =~= entries_view(self.entries@));
        ContentStore { entries }
    }
}

impl ContentStore {
    /// Whether two stores hold the same files.
    pub fn same_as(&self, other: &ContentStore) -> (r: bool)
        ensures
            r == (self@ == other@),
    {
        if self.entries.len() != other.entries.len() {
            proof {
                assert(self@.len() != other@.len());
            }
            return false;
        }
        let mut i: usize = 0;
        while i < self.entries.len()
            invariant
                self@.len() == other@.len(),
                i <= self@.len(),
                forall|k: int| 0 <= k < i ==> self@[k] == other@[k],
            decreases self@.len() - i,
        {
            assert(self@[i as int] == (self.entries@[i as int].0, self.entries@[i as int].1@));
            assert(other@[i as int] == (other.entries@[i as int].0, other.entries@[i as int].1@));
            if self.entries[i].0 != other.entries[i].0 || !bytes_eq(&self.entries[i].1, &other.entries[i].1) {
                return false;
            }
            i = i + 1;
        }
        assert(self@ =~= other@);
        true
    }
}

fn bytes_eq(a: &Vec<u8>, b: &Vec<u8>) -> (r: bool)
    ensures
        r == (a@ == b@),
{
    if a.len() != b.len() {
        return false;
    }
    let mut i: usize = 0;
    while i < a.len()
        invariant
            a@.len() == b@.len(),
            i <= a@.len(),
            forall|k: int| 0 <= k < i ==> a@[k] == b@[k],
        decreases a@.len() - i,
    {
        if a[i] != b[i] {
            return false;
        }
        i = i + 1;
    }
    assert(a@ =~= b@);
    true
}

} // verus!
