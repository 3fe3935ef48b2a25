use vstd::prelude::*;
use vstd::slice::slice_to_vec;

verus! {

/// Error of the content store.
#[derive(Clone, Copy, Debug, PartialEq, Eq, Structural)]
pub enum ContentStoreError {
    /// The identifier is already bound: a blob is write-once and is never
    /// overwritten.
    ContentIdReused,
}

/// Write-once, content-addressed store of staged ingestion payloads. A
/// blob is a sequence of normalized document records; once saved under an
/// identifier, it is retrievable forever and never changes, so a task
/// that references it can always be executed.
pub struct ContentStore {
    blobs: Vec<(u128, Vec<Vec<u8>>)>,
}

/// Association-list reading of the blob table; later entries win, though
/// write-once discipline keeps identifiers unique anyway.
pub open spec fn blobs_map_of(s: Seq<(u128, Vec<Vec<u8>>)>) -> Map<u128, Seq<Seq<u8>>>
    decreases s.len(),
{
    if s.len() == 0 {
        Map::empty()
    } else {
        blobs_map_of(s.drop_last()).insert(s.last().0, s.last().1.deep_view())
    }
}

/// No two rows share an identifier.
pub open spec fn blobs_distinct(s: Seq<(u128, Vec<Vec<u8>>)>) -> bool {
    forall|i: int, j: int| 0 <= i < j < s.len() ==> (#[trigger] s[i]).0 != (#[trigger] s[j]).0
}

proof fn lemma_blobs_map_contains(s: Seq<(u128, Vec<Vec<u8>>)>, k: u128)
    ensures
        blobs_map_of(s).contains_key(k) <==> exists|i: int|
            0 <= i < s.len() && (#[trigger] s[i]).0 == k,
    decreases s.len(),
{
    if s.len() > 0 {
        lemma_blobs_map_contains(s.drop_last(), k);
        if s.last().0 == k {
            assert(s[s.len() - 1].0 == k);
        } else {
            if blobs_map_of(s).contains_key(k) {
                let i = choose|i: int|
                    0 <= i < s.drop_last().len() && (#[trigger] s.drop_last()[i]).0 == k;
                assert(s[i].0 == k);
            }
            if exists|i: int| 0 <= i < s.len() && (#[trigger] s[i]).0 == k {
                let i = choose|i: int| 0 <= i < s.len() && (#[trigger] s[i]).0 == k;
                assert(i < s.len() - 1);
                assert(s.drop_last()[i].0 == k);
            }
        }
    }
}

proof fn lemma_blobs_map_value(s: Seq<(u128, Vec<Vec<u8>>)>, i: int)
    requires
        blobs_distinct(s),
        0 <= i < s.len(),
    ensures
        blobs_map_of(s).contains_key(s[i].0),
        blobs_map_of(s)[s[i].0] == s[i].1.deep_view(),
    decreases s.len(),
{
    if i == s.len() - 1 {
    } else {
        assert(s.drop_last()[i] == s[i]);
        lemma_blobs_map_value(s.drop_last(), i);
        assert(s[s.len() - 1].0 != s[i].0);
    }
}

proof fn lemma_blobs_map_push(s: Seq<(u128, Vec<Vec<u8>>)>, p: (u128, Vec<Vec<u8>>))
    ensures
        blobs_map_of(s.push(p)) == blobs_map_of(s).insert(p.0, p.1.deep_view()),
{
    assert(s.push(p).drop_last() =~= s);
    assert(s.push(p).last() == p);
}

/// Duplicates a blob's records, byte for byte.
pub(crate) fn clone_records(v: &Vec<Vec<u8>>) -> (r: Vec<Vec<u8>>)
    ensures
        r.deep_view() == v.deep_view(),
{
    let mut out: Vec<Vec<u8>> = Vec::new();
    let mut i: usize = 0;
    while i < v.len()
        invariant
            i <= v@.len(),
            out@.len() == i,
            forall|q: int| 0 <= q < i ==> (#[trigger] out@[q])@ == v@[q]@,
        decreases v@.len() - i,
    {
        out.push(slice_to_vec(v[i].as_slice()));
        i = i + 1;
    }
    proof {
        assert forall|q: int| 0 <= q < out.deep_view().len() implies out.deep_view()[q]
            == v.deep_view()[q] by {
            assert(out.deep_view()[q] == out@[q]@);
            assert(v.deep_view()[q] == v@[q]@);
        }
        assert(out.deep_view() =~= v.deep_view());
    }
    out
}

impl View for ContentStore {
    type V = Map<u128, Seq<Seq<u8>>>;

    closed spec fn view(&self) -> Map<u128, Seq<Seq<u8>>> {
        blobs_map_of(self.blobs@)
    }
}

impl ContentStore {
    /// Internal shape every operation preserves.
    pub closed spec fn wf(self) -> bool {
        blobs_distinct(self.blobs@)
    }

    /// An empty store.
    pub fn new() -> (r: ContentStore)
        ensures
            r.wf(),
            r@ == Map::<u128, Seq<Seq<u8>>>::empty(),
    {
        ContentStore { blobs: Vec::new() }
    }

    fn find_blob_index(&self, uuid: u128) -> (r: Option<usize>)
        ensures
            match r {
                Some(i) => i < self.blobs@.len() && self.blobs@[i as int].0 == uuid,
                None => forall|j: int|
                    0 <= j < self.blobs@.len() ==> (#[trigger] self.blobs@[j]).0 != uuid,
            },
    {
        let mut i: usize = 0;
        while i < self.blobs.len()
            invariant
                i <= self.blobs@.len(),
                forall|j: int| 0 <= j < i ==> (#[trigger] self.blobs@[j]).0 != uuid,
            decreases self.blobs@.len() - i,
        {
            if self.blobs[i].0 == uuid {
                return Some(i);
            }
            i = i + 1;
        }
        None
    }

    /// Whether a blob is bound to this identifier.
    pub fn contains(&self, uuid: u128) -> (r: bool)
        ensures
            r == self@.contains_key(uuid),
    {
        proof {
            lemma_blobs_map_contains(self.blobs@, uuid);
        }
        match self.find_blob_index(uuid) {
            Some(_) => true,
            None => false,
        }
    }

    /// Binds the records to a fresh identifier, write-once: an identifier
    /// already bound is refused and the store is unchanged, so no blob a
    /// task references can ever be replaced under it.
    pub fn save(&mut self, uuid: u128, records: Vec<Vec<u8>>) -> (r: Result<
        (),
        ContentStoreError,
    >)
        requires
            old(self).wf(),
        ensures
            final(self).wf(),
            !old(self)@.contains_key(uuid) ==> r is Ok && final(self)@ == old(self)@.insert(
                uuid,
                records.deep_view(),
            ),
            old(self)@.contains_key(uuid) ==> r == Err::<(), ContentStoreError>(
                ContentStoreError::ContentIdReused,
            ) && *final(self) == *old(self),
    {
        proof {
            lemma_blobs_map_contains(self.blobs@, uuid);
        }
        match self.find_blob_index(uuid) {
            Some(_) => Err(ContentStoreError::ContentIdReused),
            None => {
                proof {
                    lemma_blobs_map_push(self.blobs@, (uuid, records));
                }
                self.blobs.push((uuid, records));
                Ok(())
            },
        }
    }

    /// Reads the records bound to the identifier back, byte for byte.
    pub fn get(&self, uuid: u128) -> (r: Option<Vec<Vec<u8>>>)
        requires
            self.wf(),
        ensures
            r is Some <==> self@.contains_key(uuid),
            r is Some ==> r.unwrap().deep_view() == self@[uuid],
    {
        proof {
            lemma_blobs_map_contains(self.blobs@, uuid);
        }
        match self.find_blob_index(uuid) {
            Some(i) => {
                proof {
                    lemma_blobs_map_value(self.blobs@, i as int);
                }
                Some(clone_records(&self.blobs[i].1))
            },
            None => None,
        }
    }
}

} // verus!
