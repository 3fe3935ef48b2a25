use vstd::prelude::*;
use crate::codec::{spec_encode_key, ActionKeyIdCodec, KEY_ID_LENGTH};
use crate::key::{
    has_wildcard, lemma_string_vec_deep_view, spec_key_valid, contains_wildcard, Key, KeyModel,
};

verus! {

/// Error of the credential store.
#[derive(Clone, Copy, Debug, PartialEq, Eq, Structural)]
pub enum AuthStoreError {
    /// A record carried an empty index pattern, which the compound-key
    /// layout cannot represent.
    EmptyIndexPattern,
}

/// Mathematical abstraction of the whole store: the primary credential
/// table keyed by identifier bytes, and the derived inverted index keyed
/// by encoded compound keys, valued with expiry timestamps.
pub ghost struct AuthStoreModel {
    pub keys: Map<Seq<u8>, KeyModel>,
    pub inverted: Map<Seq<u8>, int>,
}

/// Credential store with a secondary inverted index: one record per
/// eight-byte identifier, plus one inverted entry per (identifier, action,
/// scope) combination the record grants, so that a permission check can
/// probe a single entry instead of scanning every record.
///
/// Lookups and deletes keep the `Result` shape their callers expect of a
/// storage engine; in this store no engine fault can arise, so they state
/// in their contracts that they always report `Ok`.
pub struct AuthStore {
    keys: Vec<([u8; KEY_ID_LENGTH], Key)>,
    inverted: Vec<(Vec<u8>, i64)>,
}

/// Association-list reading of the primary table; later entries win.
pub open spec fn keys_map_of(s: Seq<([u8; 8], Key)>) -> Map<Seq<u8>, KeyModel>
    decreases s.len(),
{
    if s.len() == 0 {
        Map::empty()
    } else {
        keys_map_of(s.drop_last()).insert(s.last().0@, s.last().1@)
    }
}

/// Association-list reading of the inverted table; later entries win.
pub open spec fn inverted_map_of(s: Seq<(Vec<u8>, i64)>) -> Map<Seq<u8>, int>
    decreases s.len(),
{
    if s.len() == 0 {
        Map::empty()
    } else {
        inverted_map_of(s.drop_last()).insert(s.last().0@, s.last().1 as int)
    }
}

/// No two rows of the primary table share an identifier.
pub open spec fn keys_distinct(s: Seq<([u8; 8], Key)>) -> bool {
    forall|i: int, j: int|
        0 <= i < j < s.len() ==> (#[trigger] s[i]).0@ != (#[trigger] s[j]).0@
}

/// No two rows of the inverted table share a compound key.
pub open spec fn inverted_distinct(s: Seq<(Vec<u8>, i64)>) -> bool {
    forall|i: int, j: int|
        0 <= i < j < s.len() ==> (#[trigger] s[i]).0@ != (#[trigger] s[j]).0@
}

/// True when the compound key begins with the eight identifier bytes, the
/// region a full-key invalidation must clear.
pub open spec fn id_prefixed(ck: Seq<u8>, id: Seq<u8>) -> bool {
    ck.len() >= 8 && ck.subrange(0, 8) == id
}

/// The inverted map with every entry of the given identifier removed.
pub open spec fn purge_id(m: Map<Seq<u8>, int>, id: Seq<u8>) -> Map<Seq<u8>, int> {
    Map::new(|ck: Seq<u8>| m.contains_key(ck) && !id_prefixed(ck, id), |ck: Seq<u8>| m[ck])
}

/// The compound keys a record gives rise to: one scope-less key per action
/// when the record holds the wildcard pattern, otherwise one key per
/// action and index pattern.
pub open spec fn entry_keys(k: KeyModel) -> Set<Seq<u8>> {
    if has_wildcard(k) {
        Set::new(
            |ck: Seq<u8>|
                exists|i: int|
                    0 <= i < k.actions.len() && ck == spec_encode_key(k.id, k.actions[i], None),
        )
    } else {
        Set::new(
            |ck: Seq<u8>|
                exists|i: int, j: int|
                    0 <= i < k.actions.len() && 0 <= j < k.indexes.len() && ck == spec_encode_key(
                        k.id,
                        k.actions[i],
                        Some(k.indexes[j]),
                    ),
        )
    }
}

/// The map extended with one binding to `exp` for every key in `s`.
pub open spec fn add_entries(m: Map<Seq<u8>, int>, s: Set<Seq<u8>>, exp: int) -> Map<Seq<u8>, int> {
    Map::new(
        |ck: Seq<u8>| m.contains_key(ck) || s.contains(ck),
        |ck: Seq<u8>|
            if s.contains(ck) {
                exp
            } else {
                m[ck]
            },
    )
}

/// Effect of an upsert on the inverted map: first every entry of the
/// record's identifier is purged, then the record's own entries are
/// written, all bound to its expiry.
pub open spec fn spec_put_inverted(m: Map<Seq<u8>, int>, k: KeyModel) -> Map<Seq<u8>, int> {
    add_entries(purge_id(m, k.id), entry_keys(k), k.expires_at)
}

/// Effect of an upsert on the whole store.
pub open spec fn spec_put(m: AuthStoreModel, k: KeyModel) -> AuthStoreModel {
    AuthStoreModel { keys: m.keys.insert(k.id, k), inverted: spec_put_inverted(m.inverted, k) }
}

/// Effect of a delete on the whole store: the record goes, and so does
/// every inverted entry prefixed by its identifier.
pub open spec fn spec_delete(m: AuthStoreModel, id: Seq<u8>) -> AuthStoreModel {
    AuthStoreModel { keys: m.keys.remove(id), inverted: purge_id(m.inverted, id) }
}

impl View for AuthStore {
    type V = AuthStoreModel;

    closed spec fn view(&self) -> AuthStoreModel {
        AuthStoreModel { keys: keys_map_of(self.keys@), inverted: inverted_map_of(self.inverted@) }
    }
}

impl AuthStore {
    /// Internal shape every operation preserves: rows are unique per key,
    /// each record sits under its own identifier, and only records that
    /// passed validation are stored.
    pub closed spec fn wf(self) -> bool {
        &&& keys_distinct(self.keys@)
        &&& forall|i: int|
            0 <= i < self.keys@.len() ==> (#[trigger] self.keys@[i]).1.id@ == self.keys@[i].0@
                && spec_key_valid(self.keys@[i].1@)
        &&& inverted_distinct(self.inverted@)
    }
}

proof fn lemma_keys_map_contains(s: Seq<([u8; 8], Key)>, k: Seq<u8>)
    ensures
        keys_map_of(s).contains_key(k) <==> exists|i: int|
            0 <= i < s.len() && (#[trigger] s[i]).0@ == k,
    decreases s.len(),
{
    if s.len() > 0 {
        lemma_keys_map_contains(s.drop_last(), k);
        if s.last().0@ == k {
            assert(s[s.len() - 1].0@ == k);
        } else {
            if keys_map_of(s).contains_key(k) {
                let i = choose|i: int| 0 <= i < s.drop_last().len() && (#[trigger] s.drop_last()[i]).0@ == k;
                assert(s[i].0@ == k);
            }
            if exists|i: int| 0 <= i < s.len() && (#[trigger] s[i]).0@ == k {
                let i = choose|i: int| 0 <= i < s.len() && (#[trigger] s[i]).0@ == k;
                assert(i < s.len() - 1);
                assert(s.drop_last()[i].0@ == k);
            }
        }
    }
}

proof fn lemma_keys_map_value(s: Seq<([u8; 8], Key)>, i: int)
    requires
        keys_distinct(s),
        0 <= i < s.len(),
    ensures
        keys_map_of(s).contains_key(s[i].0@),
        keys_map_of(s)[s[i].0@] == s[i].1@,
    decreases s.len(),
{
    if i == s.len() - 1 {
    } else {
        assert(s.drop_last()[i] == s[i]);
        lemma_keys_map_value(s.drop_last(), i);
        assert(s[s.len() - 1].0@ != s[i].0@);
    }
}

proof fn lemma_keys_map_push(s: Seq<([u8; 8], Key)>, p: ([u8; 8], Key))
    ensures
        keys_map_of(s.push(p)) == keys_map_of(s).insert(p.0@, p.1@),
{
    assert(s.push(p).drop_last() =~= s);
    assert(s.push(p).last() == p);
}

proof fn lemma_keys_map_update(s: Seq<([u8; 8], Key)>, i: int, p: ([u8; 8], Key))
    requires
        keys_distinct(s),
        0 <= i < s.len(),
        p.0@ == s[i].0@,
    ensures
        keys_map_of(s.update(i, p)) == keys_map_of(s).insert(p.0@, p.1@),
    decreases s.len(),
{
    let t = s.update(i, p);
    if i == s.len() - 1 {
        assert(t.drop_last() =~= s.drop_last());
        assert(t.last() == p);
        assert(keys_map_of(s).insert(p.0@, p.1@) =~= keys_map_of(s.drop_last()).insert(
            p.0@,
            p.1@,
        ));
    } else {
        assert(t.drop_last() =~= s.drop_last().update(i, p));
        assert(t.last() == s.last());
        assert(s.drop_last()[i] == s[i]);
        lemma_keys_map_update(s.drop_last(), i, p);
        assert(s.last().0@ != p.0@);
        assert(keys_map_of(t) == keys_map_of(s.drop_last()).insert(p.0@, p.1@).insert(
            s.last().0@,
            s.last().1@,
        ));
        assert(keys_map_of(s.drop_last()).insert(p.0@, p.1@).insert(s.last().0@, s.last().1@)
            =~= keys_map_of(s.drop_last()).insert(s.last().0@, s.last().1@).insert(p.0@, p.1@));
    }
}

proof fn lemma_keys_map_remove(s: Seq<([u8; 8], Key)>, i: int)
    requires
        keys_distinct(s),
        0 <= i < s.len(),
    ensures
        keys_map_of(s.remove(i)) == keys_map_of(s).remove(s[i].0@),
    decreases s.len(),
{
    let t = s.remove(i);
    if i == s.len() - 1 {
        assert(t =~= s.drop_last());
        lemma_keys_map_contains(s.drop_last(), s[i].0@);
        assert(forall|j: int|
            0 <= j < s.drop_last().len() ==> (#[trigger] s.drop_last()[j]).0@ != s[i].0@);
        assert(keys_map_of(s).remove(s[i].0@) =~= keys_map_of(s.drop_last()));
    } else {
        assert(t.drop_last() =~= s.drop_last().remove(i));
        assert(t.last() == s.last());
        assert(s.drop_last()[i] == s[i]);
        lemma_keys_map_remove(s.drop_last(), i);
        assert(s.last().0@ != s[i].0@);
        assert(keys_map_of(t) == keys_map_of(s.drop_last()).remove(s[i].0@).insert(
            s.last().0@,
            s.last().1@,
        ));
        assert(keys_map_of(s.drop_last()).remove(s[i].0@).insert(s.last().0@, s.last().1@)
            =~= keys_map_of(s.drop_last()).insert(s.last().0@, s.last().1@).remove(s[i].0@));
    }
}

proof fn lemma_inverted_map_contains(s: Seq<(Vec<u8>, i64)>, k: Seq<u8>)
    ensures
        inverted_map_of(s).contains_key(k) <==> exists|i: int|
            0 <= i < s.len() && (#[trigger] s[i]).0@ == k,
    decreases s.len(),
{
    if s.len() > 0 {
        lemma_inverted_map_contains(s.drop_last(), k);
        if s.last().0@ == k {
            assert(s[s.len() - 1].0@ == k);
        } else {
            if inverted_map_of(s).contains_key(k) {
                let i = choose|i: int|
                    0 <= i < s.drop_last().len() && (#[trigger] s.drop_last()[i]).0@ == k;
                assert(s[i].0@ == k);
            }
            if exists|i: int| 0 <= i < s.len() && (#[trigger] s[i]).0@ == k {
                let i = choose|i: int| 0 <= i < s.len() && (#[trigger] s[i]).0@ == k;
                assert(i < s.len() - 1);
                assert(s.drop_last()[i].0@ == k);
            }
        }
    }
}

proof fn lemma_inverted_map_value(s: Seq<(Vec<u8>, i64)>, i: int)
    requires
        inverted_distinct(s),
        0 <= i < s.len(),
    ensures
        inverted_map_of(s).contains_key(s[i].0@),
        inverted_map_of(s)[s[i].0@] == s[i].1 as int,
    decreases s.len(),
{
    if i == s.len() - 1 {
    } else {
        assert(s.drop_last()[i] == s[i]);
        lemma_inverted_map_value(s.drop_last(), i);
        assert(s[s.len() - 1].0@ != s[i].0@);
    }
}

proof fn lemma_inverted_map_push(s: Seq<(Vec<u8>, i64)>, p: (Vec<u8>, i64))
    ensures
        inverted_map_of(s.push(p)) == inverted_map_of(s).insert(p.0@, p.1 as int),
{
    assert(s.push(p).drop_last() =~= s);
    assert(s.push(p).last() == p);
}

proof fn lemma_inverted_map_update(s: Seq<(Vec<u8>, i64)>, i: int, p: (Vec<u8>, i64))
    requires
        inverted_distinct(s),
        0 <= i < s.len(),
        p.0@ == s[i].0@,
    ensures
        inverted_map_of(s.update(i, p)) == inverted_map_of(s).insert(p.0@, p.1 as int),
    decreases s.len(),
{
    let t = s.update(i, p);
    if i == s.len() - 1 {
        assert(t.drop_last() =~= s.drop_last());
        assert(t.last() == p);
        assert(inverted_map_of(s).insert(p.0@, p.1 as int) =~= inverted_map_of(
            s.drop_last(),
        ).insert(p.0@, p.1 as int));
    } else {
        assert(t.drop_last() =~= s.drop_last().update(i, p));
        assert(t.last() == s.last());
        assert(s.drop_last()[i] == s[i]);
        lemma_inverted_map_update(s.drop_last(), i, p);
        assert(s.last().0@ != p.0@);
        assert(inverted_map_of(t) == inverted_map_of(s.drop_last()).insert(p.0@, p.1 as int).insert(
            s.last().0@,
            s.last().1 as int,
        ));
        assert(inverted_map_of(s.drop_last()).insert(p.0@, p.1 as int).insert(
            s.last().0@,
            s.last().1 as int,
        ) =~= inverted_map_of(s.drop_last()).insert(s.last().0@, s.last().1 as int).insert(
            p.0@,
            p.1 as int,
        ));
    }
}

proof fn lemma_inverted_map_remove(s: Seq<(Vec<u8>, i64)>, i: int)
    requires
        inverted_distinct(s),
        0 <= i < s.len(),
    ensures
        inverted_map_of(s.remove(i)) == inverted_map_of(s).remove(s[i].0@),
    decreases s.len(),
{
    let t = s.remove(i);
    if i == s.len() - 1 {
        assert(t =~= s.drop_last());
        lemma_inverted_map_contains(s.drop_last(), s[i].0@);
        assert(forall|j: int|
            0 <= j < s.drop_last().len() ==> (#[trigger] s.drop_last()[j]).0@ != s[i].0@);
        assert(inverted_map_of(s).remove(s[i].0@) =~= inverted_map_of(s.drop_last()));
    } else {
        assert(t.drop_last() =~= s.drop_last().remove(i));
        assert(t.last() == s.last());
        assert(s.drop_last()[i] == s[i]);
        lemma_inverted_map_remove(s.drop_last(), i);
        assert(s.last().0@ != s[i].0@);
        assert(inverted_map_of(t) == inverted_map_of(s.drop_last()).remove(s[i].0@).insert(
            s.last().0@,
            s.last().1 as int,
        ));
        assert(inverted_map_of(s.drop_last()).remove(s[i].0@).insert(
            s.last().0@,
            s.last().1 as int,
        ) =~= inverted_map_of(s.drop_last()).insert(s.last().0@, s.last().1 as int).remove(
            s[i].0@,
        ));
    }
}

fn bytes8_eq(a: &[u8; KEY_ID_LENGTH], b: &[u8; KEY_ID_LENGTH]) -> (r: bool)
    ensures
        r == (a@ == b@),
{
    let mut i: usize = 0;
    while i < KEY_ID_LENGTH
        invariant
            i <= 8,
            forall|j: int| 0 <= j < i ==> a@[j] == b@[j],
        decreases 8 - i,
    {
        if a[i] != b[i] {
            return false;
        }
        i = i + 1;
    }
    proof {
        assert(a@ =~= b@);
    }
    true
}

fn bytes_vec_eq(a: &Vec<u8>, b: &Vec<u8>) -> (r: bool)
    ensures
        r == (a@ == b@),
{
    if a.len() != b.len() {
        return false;
    }
    let mut i: usize = 0;
    while i < a.len()
        invariant
            i <= a@.len(),
            a@.len() == b@.len(),
            forall|j: int| 0 <= j < i ==> a@[j] == b@[j],
        decreases a@.len() - i,
    {
        if a[i] != b[i] {
            return false;
        }
        i = i + 1;
    }
    proof {
        assert(a@ =~= b@);
    }
    true
}

/// The compound keys of the first `n` actions of the record.
pub open spec fn entry_keys_upto(k: KeyModel, n: int) -> Set<Seq<u8>> {
    if has_wildcard(k) {
        Set::new(
            |ck: Seq<u8>|
                exists|i: int| 0 <= i < n && ck == spec_encode_key(k.id, k.actions[i], None),
        )
    } else {
        Set::new(
            |ck: Seq<u8>|
                exists|i: int, j: int|
                    0 <= i < n && 0 <= j < k.indexes.len() && ck == spec_encode_key(
                        k.id,
                        k.actions[i],
                        Some(k.indexes[j]),
                    ),
        )
    }
}

/// `entry_keys_upto(k, n)` extended with the first `m` index patterns of
/// action number `n`; only meaningful for records without the wildcard.
pub open spec fn entry_keys_row(k: KeyModel, n: int, m: int) -> Set<Seq<u8>> {
    entry_keys_upto(k, n).union(
        Set::new(
            |ck: Seq<u8>|
                exists|j: int| 0 <= j < m && ck == spec_encode_key(k.id, k.actions[n], Some(k.indexes[j])),
        ),
    )
}

/// The map shorn of the keys named by the first `j` collected entries.
pub open spec fn map_minus_upto(m: Map<Seq<u8>, int>, cs: Seq<Vec<u8>>, j: int) -> Map<
    Seq<u8>,
    int,
> {
    Map::new(
        |ck: Seq<u8>|
            m.contains_key(ck) && !(exists|q: int| 0 <= q < j && (#[trigger] cs[q])@ == ck),
        |ck: Seq<u8>| m[ck],
    )
}

fn has_id_prefix(ck: &Vec<u8>, id: &[u8; KEY_ID_LENGTH]) -> (r: bool)
    ensures
        r == id_prefixed(ck@, id@),
{
    if ck.len() < KEY_ID_LENGTH {
        return false;
    }
    let mut i: usize = 0;
    while i < KEY_ID_LENGTH
        invariant
            i <= 8,
            ck@.len() >= 8,
            forall|j: int| 0 <= j < i ==> ck@[j] == id@[j],
        decreases 8 - i,
    {
        if ck[i] != id[i] {
            proof {
                assert(ck@.subrange(0, 8)[i as int] != id@[i as int]);
            }
            return false;
        }
        i = i + 1;
    }
    proof {
        assert(ck@.subrange(0, 8) =~= id@);
    }
    true
}

/// Inserts or replaces one inverted entry by exact compound key.
fn put_inverted_entry(inverted: &mut Vec<(Vec<u8>, i64)>, ck: Vec<u8>, exp: i64)
    requires
        inverted_distinct(old(inverted)@),
    ensures
        inverted_distinct(final(inverted)@),
        inverted_map_of(final(inverted)@) == inverted_map_of(old(inverted)@).insert(
            ck@,
            exp as int,
        ),
{
    let mut i: usize = 0;
    while i < inverted.len()
        invariant
            i <= inverted@.len(),
            inverted@ == old(inverted)@,
            inverted_distinct(inverted@),
            forall|j: int| 0 <= j < i ==> (#[trigger] inverted@[j]).0@ != ck@,
        decreases inverted@.len() - i,
    {
        if bytes_vec_eq(&inverted[i].0, &ck) {
            proof {
                lemma_inverted_map_update(inverted@, i as int, (ck, exp));
                assert(forall|a: int, b: int|
                    0 <= a < b < inverted@.update(i as int, (ck, exp)).len() ==> (
                    #[trigger] inverted@.update(i as int, (ck, exp))[a]).0@ != (
                    #[trigger] inverted@.update(i as int, (ck, exp))[b]).0@);
            }
            inverted.set(i, (ck, exp));
            return;
        }
        i = i + 1;
    }
    proof {
        lemma_inverted_map_push(inverted@, (ck, exp));
    }
    inverted.push((ck, exp));
}

/// Deletes one inverted entry by exact compound key, if present.
fn remove_inverted_exact(inverted: &mut Vec<(Vec<u8>, i64)>, ck: &Vec<u8>)
    requires
        inverted_distinct(old(inverted)@),
    ensures
        inverted_distinct(final(inverted)@),
        inverted_map_of(final(inverted)@) == inverted_map_of(old(inverted)@).remove(ck@),
{
    let mut i: usize = 0;
    while i < inverted.len()
        invariant
            i <= inverted@.len(),
            inverted@ == old(inverted)@,
            inverted_distinct(inverted@),
            forall|j: int| 0 <= j < i ==> (#[trigger] inverted@[j]).0@ != ck@,
        decreases inverted@.len() - i,
    {
        if bytes_vec_eq(&inverted[i].0, ck) {
            proof {
                lemma_inverted_map_remove(inverted@, i as int);
                let t = inverted@.remove(i as int);
                assert(forall|a: int, b: int|
                    0 <= a < b < t.len() ==> (#[trigger] t[a]).0@ != (#[trigger] t[b]).0@);
            }
            inverted.remove(i);
            return;
        }
        i = i + 1;
    }
    proof {
        lemma_inverted_map_contains(inverted@, ck@);
        assert(inverted_map_of(inverted@).remove(ck@) =~= inverted_map_of(inverted@));
    }
}

impl AuthStore {
    /// An empty store: no records, no inverted entries.
    pub fn new() -> (r: AuthStore)
        ensures
            r.wf(),
            r@.keys == Map::<Seq<u8>, KeyModel>::empty(),
            r@.inverted == Map::<Seq<u8>, int>::empty(),
    {
        let r = AuthStore { keys: Vec::new(), inverted: Vec::new() };
        r
    }

    fn find_key_index(&self, id: &[u8; KEY_ID_LENGTH]) -> (r: Option<usize>)
        ensures
            match r {
                Some(i) => i < self.keys@.len() && self.keys@[i as int].0@ == id@,
                None => forall|j: int|
                    0 <= j < self.keys@.len() ==> (#[trigger] self.keys@[j]).0@ != id@,
            },
    {
        let mut i: usize = 0;
        while i < self.keys.len()
            invariant
                i <= self.keys@.len(),
                forall|j: int| 0 <= j < i ==> (#[trigger] self.keys@[j]).0@ != id@,
            decreases self.keys@.len() - i,
        {
            if bytes8_eq(&self.keys[i].0, id) {
                return Some(i);
            }
            i = i + 1;
        }
        None
    }

    /// Collects, in a first pass, every inverted compound key that starts
    /// with the identifier, then deletes each collected key exactly in a
    /// second pass. Deleting while a cursor is mid-advance would depend on
    /// engine-specific guarantees; collect-then-delete does not.
    fn delete_key_from_inverted_db(&mut self, id: &[u8; KEY_ID_LENGTH])
        requires
            old(self).wf(),
        ensures
            final(self).wf(),
            final(self).keys@ == old(self).keys@,
            inverted_map_of(final(self).inverted@) == purge_id(
                inverted_map_of(old(self).inverted@),
                id@,
            ),
    {
        let ghost m0 = inverted_map_of(self.inverted@);
        let mut collected: Vec<Vec<u8>> = Vec::new();
        let mut i: usize = 0;
        while i < self.inverted.len()
            invariant
                i <= self.inverted@.len(),
                self.keys@ == old(self).keys@,
                self.inverted@ == old(self).inverted@,
                old(self).wf(),
                forall|q: int|
                    0 <= q < collected@.len() ==> id_prefixed((#[trigger] collected@[q])@, id@)
                        && exists|t: int| 0 <= t < i && (#[trigger] self.inverted@[t]).0@
                        == collected@[q]@,
                forall|t: int|
                    0 <= t < i && id_prefixed((#[trigger] self.inverted@[t]).0@, id@)
                        ==> exists|q: int|
                        0 <= q < collected@.len() && (#[trigger] collected@[q])@
                            == self.inverted@[t].0@,
            decreases self.inverted@.len() - i,
        {
            if has_id_prefix(&self.inverted[i].0, id) {
                let ckc = vstd::slice::slice_to_vec(self.inverted[i].0.as_slice());
                let ghost cpre = collected@;
                collected.push(ckc);
                proof {
                    assert(collected@[cpre.len() as int]@ == self.inverted@[i as int].0@);
                    assert forall|t: int|
                        0 <= t < i + 1 && id_prefixed(
                            (#[trigger] self.inverted@[t]).0@,
                            id@,
                        ) implies exists|q: int|
                        0 <= q < collected@.len() && (#[trigger] collected@[q])@
                            == self.inverted@[t].0@ by {
                        if t < i {
                            let q = choose|q: int|
                                0 <= q < cpre.len() && (#[trigger] cpre[q])@
                                    == self.inverted@[t].0@;
                            assert(collected@[q]@ == self.inverted@[t].0@);
                        } else {
                            assert(collected@[cpre.len() as int]@ == self.inverted@[t].0@);
                        }
                    }
                    assert forall|q: int|
                        0 <= q < collected@.len() implies id_prefixed(
                        (#[trigger] collected@[q])@,
                        id@,
                    ) && exists|t: int|
                        0 <= t < i + 1 && (#[trigger] self.inverted@[t]).0@
                            == collected@[q]@ by {
                        if q < cpre.len() {
                            assert(collected@[q] == cpre[q]);
                            let t = choose|t: int|
                                0 <= t < i && (#[trigger] self.inverted@[t]).0@ == cpre[q]@;
                            assert(self.inverted@[t].0@ == collected@[q]@);
                        } else {
                            assert(self.inverted@[i as int].0@ == collected@[q]@);
                        }
                    }
                }
            }
            i = i + 1;
        }
        let mut j: usize = 0;
        while j < collected.len()
            invariant
                j <= collected@.len(),
                self.keys@ == old(self).keys@,
                old(self).wf(),
                m0 == inverted_map_of(old(self).inverted@),
                inverted_distinct(self.inverted@),
                inverted_map_of(self.inverted@) == map_minus_upto(m0, collected@, j as int),
                forall|q: int|
                    0 <= q < collected@.len() ==> id_prefixed((#[trigger] collected@[q])@, id@),
                forall|t: int|
                    0 <= t < old(self).inverted@.len() && id_prefixed(
                        (#[trigger] old(self).inverted@[t]).0@,
                        id@,
                    ) ==> exists|q: int|
                        0 <= q < collected@.len() && (#[trigger] collected@[q])@
                            == old(self).inverted@[t].0@,
            decreases collected@.len() - j,
        {
            proof {
                assert(map_minus_upto(m0, collected@, j as int) =~= inverted_map_of(
                    self.inverted@,
                ));
            }
            remove_inverted_exact(&mut self.inverted, &collected[j]);
            proof {
                assert(map_minus_upto(m0, collected@, j as int).remove(collected@[j as int]@)
                    =~= map_minus_upto(m0, collected@, j as int + 1));
            }
            j = j + 1;
        }
        proof {
            assert(inverted_map_of(self.inverted@) =~= purge_id(m0, id@)) by {
                assert forall|ck: Seq<u8>|
                    m0.contains_key(ck) && id_prefixed(ck, id@) implies exists|q: int|
                    0 <= q < collected@.len() && (#[trigger] collected@[q])@ == ck by {
                    lemma_inverted_map_contains(old(self).inverted@, ck);
                }
            }
        }
    }

    /// Upserts the record by identifier. All inverted entries of that
    /// identifier are purged before the record's own are written, because
    /// the granted action and scope set may shrink arbitrarily between
    /// updates and a stale entry would keep granting access. A record with
    /// an empty index pattern is rejected whole; the store is unchanged.
    pub fn put_api_key(&mut self, key: Key) -> (r: Result<Key, AuthStoreError>)
        requires
            old(self).wf(),
        ensures
            final(self).wf(),
            spec_key_valid(key@) ==> r is Ok && r.unwrap()@ == key@ && final(self)@ == spec_put(
                old(self)@,
                key@,
            ),
            !spec_key_valid(key@) ==> r == Err::<Key, AuthStoreError>(
                AuthStoreError::EmptyIndexPattern,
            ) && *final(self) == *old(self),
    {
        if !key.validate() {
            return Err(AuthStoreError::EmptyIndexPattern);
        }
        let id = key.id;
        let stored = key.clone();
        match self.find_key_index(&id) {
            Some(i) => {
                proof {
                    lemma_keys_map_update(self.keys@, i as int, (id, key));
                    let t = self.keys@.update(i as int, (id, key));
                    assert(forall|a: int, b: int|
                        0 <= a < b < t.len() ==> (#[trigger] t[a]).0@ != (#[trigger] t[b]).0@);
                }
                self.keys.set(i, (id, key));
            },
            None => {
                proof {
                    lemma_keys_map_push(self.keys@, (id, key));
                }
                self.keys.push((id, key));
            },
        }
        proof {
            assert(keys_map_of(self.keys@) == keys_map_of(old(self).keys@).insert(id@, key@));
        }
        let ghost keys_after = self.keys@;
        self.delete_key_from_inverted_db(&id);
        let ghost purged = inverted_map_of(self.inverted@);
        let ghost km = stored@;
        let ghost e = km.expires_at;
        proof {
            assert(km == key@);
            assert(km.id == id@);
            assert(stored@.indexes == stored.indexes.deep_view());
        }
        let no_restriction = contains_wildcard(&stored.indexes);
        proof {
            assert(no_restriction == has_wildcard(km));
        }
        let mut i: usize = 0;
        while i < stored.actions.len()
            invariant
                i <= stored.actions@.len(),
                km == stored@,
                km.actions.len() == stored.actions@.len(),
                no_restriction == has_wildcard(km),
                km.id == id@,
                e == km.expires_at,
                self.keys@ == keys_after,
                keys_distinct(self.keys@),
                forall|t: int|
                    0 <= t < self.keys@.len() ==> (#[trigger] self.keys@[t]).1.id@
                        == self.keys@[t].0@ && spec_key_valid(self.keys@[t].1@),
                inverted_distinct(self.inverted@),
                inverted_map_of(self.inverted@) == add_entries(
                    purged,
                    entry_keys_upto(km, i as int),
                    e,
                ),
            decreases stored.actions@.len() - i,
        {
            let action = stored.actions[i];
            proof {
                assert(km.actions[i as int] == action);
            }
            if no_restriction {
                let ck = ActionKeyIdCodec::bytes_encode(&id, &action, None);
                put_inverted_entry(&mut self.inverted, ck, stored.expires_at);
                proof {
                    assert(add_entries(purged, entry_keys_upto(km, i as int), e).insert(
                        spec_encode_key(km.id, km.actions[i as int], None),
                        e,
                    ) =~= add_entries(purged, entry_keys_upto(km, i as int + 1), e));
                }
            } else {
                let mut j: usize = 0;
                proof {
                    assert(entry_keys_row(km, i as int, 0) =~= entry_keys_upto(km, i as int));
                }
                while j < stored.indexes.len()
                    invariant
                        j <= stored.indexes@.len(),
                        i < stored.actions@.len(),
                        km == stored@,
                        km.actions.len() == stored.actions@.len(),
                        km.indexes.len() == stored.indexes@.len(),
                        !has_wildcard(km),
                        km.id == id@,
                        e == km.expires_at,
                        action == km.actions[i as int],
                        self.keys@ == keys_after,
                        keys_distinct(self.keys@),
                        forall|t: int|
                            0 <= t < self.keys@.len() ==> (#[trigger] self.keys@[t]).1.id@
                                == self.keys@[t].0@ && spec_key_valid(self.keys@[t].1@),
                        inverted_distinct(self.inverted@),
                        inverted_map_of(self.inverted@) == add_entries(
                            purged,
                            entry_keys_row(km, i as int, j as int),
                            e,
                        ),
                    decreases stored.indexes@.len() - j,
                {
                    proof {
                        lemma_string_vec_deep_view(&stored.indexes, j as int);
                    }
                    let ck = ActionKeyIdCodec::bytes_encode(
                        &id,
                        &action,
                        Some(stored.indexes[j].as_str()),
                    );
                    proof {
                        assert(ck@ == spec_encode_key(
                            km.id,
                            km.actions[i as int],
                            Some(km.indexes[j as int]),
                        ));
                    }
                    put_inverted_entry(&mut self.inverted, ck, stored.expires_at);
                    proof {
                        assert(add_entries(purged, entry_keys_row(km, i as int, j as int), e).insert(
                            spec_encode_key(km.id, km.actions[i as int], Some(km.indexes[j as int])),
                            e,
                        ) =~= add_entries(purged, entry_keys_row(km, i as int, j as int + 1), e));
                    }
                    j = j + 1;
                }
                proof {
                    assert(entry_keys_row(km, i as int, km.indexes.len() as int)
                        =~= entry_keys_upto(km, i as int + 1));
                }
            }
            i = i + 1;
        }
        proof {
            assert(entry_keys_upto(km, km.actions.len() as int) =~= entry_keys(km));
            assert(final(self)@.keys == spec_put(old(self)@, key@).keys);
            assert(final(self)@.inverted == spec_put(old(self)@, key@).inverted);
        }
        Ok(stored)
    }

    /// Looks the record up by the eight identifier bytes at the front of
    /// the supplied credential string; the rest of the credential is a
    /// derived verification suffix that is never stored here. A credential
    /// shorter than an identifier matches nothing.
    pub fn get_api_key(&self, key: &str) -> (r: Result<Option<Key>, AuthStoreError>)
        requires
            self.wf(),
        ensures
            r is Ok,
            ({
                let bs = key@;
                let found = r.unwrap();
                if vstd::utf8::encode_utf8(bs).len() < 8 {
                    found is None
                } else {
                    let id = vstd::utf8::encode_utf8(bs).subrange(0, 8);
                    match found {
                        Some(k) => self@.keys.contains_key(id) && k@ == self@.keys[id],
                        None => !self@.keys.contains_key(id),
                    }
                }
            }),
    {
        match crate::codec::try_split_array_at(key.as_bytes()) {
            None => Ok(None),
            Some((id, _)) => {
                match self.find_key_index(&id) {
                    Some(i) => {
                        proof {
                            lemma_keys_map_value(self.keys@, i as int);
                        }
                        Ok(Some(self.keys[i].1.clone()))
                    },
                    None => {
                        proof {
                            lemma_keys_map_contains(self.keys@, id@);
                        }
                        Ok(None)
                    },
                }
            },
        }
    }

    /// Deletes the record named by the credential's identifier prefix and,
    /// in the same operation, every inverted entry of that identifier.
    /// Returns whether a record existed.
    pub fn delete_api_key(&mut self, key: &str) -> (r: Result<bool, AuthStoreError>)
        requires
            old(self).wf(),
        ensures
            final(self).wf(),
            r is Ok,
            ({
                let bs = vstd::utf8::encode_utf8(key@);
                if bs.len() < 8 {
                    r.unwrap() == false && *final(self) == *old(self)
                } else {
                    let id = bs.subrange(0, 8);
                    r.unwrap() == old(self)@.keys.contains_key(id) && final(self)@ == spec_delete(
                        old(self)@,
                        id,
                    )
                }
            }),
    {
        match crate::codec::try_split_array_at(key.as_bytes()) {
            None => Ok(false),
            Some((id, _)) => {
                let existing = match self.find_key_index(&id) {
                    Some(i) => {
                        proof {
                            lemma_keys_map_value(self.keys@, i as int);
                            lemma_keys_map_remove(self.keys@, i as int);
                            let t = self.keys@.remove(i as int);
                            assert(forall|a: int, b: int|
                                0 <= a < b < t.len() ==> (#[trigger] t[a]).0@ != (
                                #[trigger] t[b]).0@);
                        }
                        self.keys.remove(i);
                        true
                    },
                    None => {
                        proof {
                            lemma_keys_map_contains(self.keys@, id@);
                            assert(keys_map_of(self.keys@).remove(id@) =~= keys_map_of(
                                self.keys@,
                            ));
                        }
                        false
                    },
                };
                self.delete_key_from_inverted_db(&id);
                Ok(existing)
            },
        }
    }

    /// All records, in store iteration order: exactly one per stored
    /// identifier, each equal to the record held in the primary table.
    pub fn list_api_keys(&self) -> (r: Result<Vec<Key>, AuthStoreError>)
        requires
            self.wf(),
        ensures
            r is Ok,
            ({
                let lst = r.unwrap();
                &&& forall|i: int|
                    0 <= i < lst@.len() ==> self@.keys.contains_key(
                        (#[trigger] lst@[i])@.id,
                    ) && self@.keys[lst@[i]@.id] == lst@[i]@
                &&& forall|id: Seq<u8>|
                    #[trigger] self@.keys.contains_key(id) ==> exists|i: int|
                        0 <= i < lst@.len() && (#[trigger] lst@[i])@.id == id
                &&& forall|i: int, j: int|
                    0 <= i < j < lst@.len() ==> (#[trigger] lst@[i])@.id != (#[trigger] lst@[j])@.id
            }),
    {
        let mut list: Vec<Key> = Vec::new();
        let mut i: usize = 0;
        while i < self.keys.len()
            invariant
                i <= self.keys@.len(),
                self.wf(),
                list@.len() == i,
                forall|q: int|
                    0 <= q < i ==> (#[trigger] list@[q])@ == self.keys@[q].1@ && list@[q]@.id
                        == self.keys@[q].0@,
            decreases self.keys@.len() - i,
        {
            list.push(self.keys[i].1.clone());
            i = i + 1;
        }
        proof {
            assert forall|q: int|
                0 <= q < list@.len() implies self@.keys.contains_key((#[trigger] list@[q])@.id)
                && self@.keys[list@[q]@.id] == list@[q]@ by {
                lemma_keys_map_value(self.keys@, q);
            }
            assert forall|id: Seq<u8>| #[trigger]
                self@.keys.contains_key(id) implies exists|q: int|
                0 <= q < list@.len() && (#[trigger] list@[q])@.id == id by {
                lemma_keys_map_contains(self.keys@, id);
                let t = choose|t: int| 0 <= t < self.keys@.len() && (#[trigger] self.keys@[t]).0@ == id;
                assert(list@[t]@.id == id);
            }
        }
        Ok(list)
    }

    /// Scans the inverted index by identifier prefix: returns exactly the
    /// entries whose compound key starts with the identifier, each once,
    /// with its stored expiry.
    pub fn prefix_scan(&self, id: &[u8; KEY_ID_LENGTH]) -> (r: Vec<(Vec<u8>, i64)>)
        requires
            self.wf(),
        ensures
            forall|q: int|
                0 <= q < r@.len() ==> id_prefixed((#[trigger] r@[q]).0@, id@)
                    && self@.inverted.contains_key(r@[q].0@) && self@.inverted[r@[q].0@] == r@[q].1
                    as int,
            forall|ck: Seq<u8>|
                #[trigger] self@.inverted.contains_key(ck) && id_prefixed(ck, id@) ==> exists|q: int|
                    0 <= q < r@.len() && (#[trigger] r@[q]).0@ == ck,
            forall|q1: int, q2: int|
                0 <= q1 < q2 < r@.len() ==> (#[trigger] r@[q1]).0@ != (#[trigger] r@[q2]).0@,
    {
        let mut out: Vec<(Vec<u8>, i64)> = Vec::new();
        let mut i: usize = 0;
        while i < self.inverted.len()
            invariant
                i <= self.inverted@.len(),
                self.wf(),
                forall|q: int|
                    0 <= q < out@.len() ==> id_prefixed((#[trigger] out@[q]).0@, id@) && exists|t: int|
                        0 <= t < i && (#[trigger] self.inverted@[t]).0@ == out@[q].0@
                        && self.inverted@[t].1 == out@[q].1,
                forall|t: int|
                    0 <= t < i && id_prefixed((#[trigger] self.inverted@[t]).0@, id@)
                        ==> exists|q: int|
                        0 <= q < out@.len() && (#[trigger] out@[q]).0@ == self.inverted@[t].0@,
                forall|q1: int, q2: int|
                    0 <= q1 < q2 < out@.len() ==> (#[trigger] out@[q1]).0@ != (
                    #[trigger] out@[q2]).0@,
            decreases self.inverted@.len() - i,
        {
            if has_id_prefix(&self.inverted[i].0, id) {
                let ckc = vstd::slice::slice_to_vec(self.inverted[i].0.as_slice());
                let exp = self.inverted[i].1;
                let ghost opre = out@;
                out.push((ckc, exp));
                proof {
                    assert(out@[opre.len() as int].0@ == self.inverted@[i as int].0@);
                    assert(out@[opre.len() as int].1 == self.inverted@[i as int].1);
                    assert forall|q: int|
                        0 <= q < out@.len() implies id_prefixed((#[trigger] out@[q]).0@, id@)
                        && exists|t: int|
                            0 <= t < i + 1 && (#[trigger] self.inverted@[t]).0@ == out@[q].0@
                                && self.inverted@[t].1 == out@[q].1 by {
                        if q < opre.len() {
                            assert(out@[q] == opre[q]);
                            let t = choose|t: int|
                                0 <= t < i && (#[trigger] self.inverted@[t]).0@ == opre[q].0@
                                    && self.inverted@[t].1 == opre[q].1;
                            assert(self.inverted@[t].0@ == out@[q].0@ && self.inverted@[t].1
                                == out@[q].1);
                        } else {
                            assert(self.inverted@[i as int].0@ == out@[q].0@
                                && self.inverted@[i as int].1 == out@[q].1);
                        }
                    }
                    assert forall|t: int|
                        0 <= t < i + 1 && id_prefixed(
                            (#[trigger] self.inverted@[t]).0@,
                            id@,
                        ) implies exists|q: int|
                        0 <= q < out@.len() && (#[trigger] out@[q]).0@ == self.inverted@[t].0@ by {
                        if t < i {
                            let q = choose|q: int|
                                0 <= q < opre.len() && (#[trigger] opre[q]).0@
                                    == self.inverted@[t].0@;
                            assert(out@[q].0@ == self.inverted@[t].0@);
                        } else {
                            assert(out@[opre.len() as int].0@ == self.inverted@[t].0@);
                        }
                    }
                    assert forall|q1: int, q2: int|
                        0 <= q1 < q2 < out@.len() implies (#[trigger] out@[q1]).0@ != (
                    #[trigger] out@[q2]).0@ by {
                        if q2 == opre.len() {
                            let t = choose|t: int|
                                0 <= t < i && (#[trigger] self.inverted@[t]).0@ == opre[q1].0@
                                    && self.inverted@[t].1 == opre[q1].1;
                            assert(self.inverted@[t].0@ != self.inverted@[i as int].0@);
                        } else {
                            assert(out@[q1] == opre[q1] && out@[q2] == opre[q2]);
                        }
                    }
                }
            }
            i = i + 1;
        }
        proof {
            assert forall|q: int|
                0 <= q < out@.len() implies id_prefixed((#[trigger] out@[q]).0@, id@)
                && self@.inverted.contains_key(out@[q].0@) && self@.inverted[out@[q].0@] == out@[q].1
                as int by {
                let t = choose|t: int|
                    0 <= t < self.inverted@.len() && (#[trigger] self.inverted@[t]).0@ == out@[q].0@
                        && self.inverted@[t].1 == out@[q].1;
                lemma_inverted_map_value(self.inverted@, t);
            }
            assert forall|ck: Seq<u8>|
                self@.inverted.contains_key(ck) && id_prefixed(ck, id@) implies exists|q: int|
                0 <= q < out@.len() && (#[trigger] out@[q]).0@ == ck by {
                lemma_inverted_map_contains(self.inverted@, ck);
                let t = choose|t: int|
                    0 <= t < self.inverted@.len() && (#[trigger] self.inverted@[t]).0@ == ck;
                let q = choose|q: int|
                    0 <= q < out@.len() && (#[trigger] out@[q]).0@ == self.inverted@[t].0@;
                assert(out@[q].0@ == ck);
            }
        }
        out
    }
}

/// The inverted entries a record gives rise to, ready to be written by a
/// persistence layer: one row per compound key of `entry_keys`, each
/// bound to the record's expiry, each key exactly once.
pub fn build_inverted_entries(key: &Key) -> (r: Vec<(Vec<u8>, i64)>)
    ensures
        forall|q: int|
            0 <= q < r@.len() ==> entry_keys(key@).contains((#[trigger] r@[q]).0@) && r@[q].1
                == key.expires_at,
        forall|ck: Seq<u8>|
            #[trigger] entry_keys(key@).contains(ck) ==> exists|q: int|
                0 <= q < r@.len() && (#[trigger] r@[q]).0@ == ck,
{
    let ghost km = key@;
    proof {
        assert(km.indexes == key.indexes.deep_view());
    }
    let no_restriction = contains_wildcard(&key.indexes);
    proof {
        assert(no_restriction == has_wildcard(km));
    }
    let mut out: Vec<(Vec<u8>, i64)> = Vec::new();
    let mut i: usize = 0;
    while i < key.actions.len()
        invariant
            i <= key.actions@.len(),
            km == key@,
            km.actions.len() == key.actions@.len(),
            km.indexes.len() == key.indexes@.len(),
            no_restriction == has_wildcard(km),
            forall|q: int|
                0 <= q < out@.len() ==> entry_keys_upto(km, i as int).contains(
                    (#[trigger] out@[q]).0@,
                ) && out@[q].1 == key.expires_at,
            forall|ck: Seq<u8>|
                #[trigger] entry_keys_upto(km, i as int).contains(ck) ==> exists|q: int|
                    0 <= q < out@.len() && (#[trigger] out@[q]).0@ == ck,
        decreases key.actions@.len() - i,
    {
        let action = key.actions[i];
        proof {
            assert(km.actions[i as int] == action);
        }
        if no_restriction {
            let ck = ActionKeyIdCodec::bytes_encode(&key.id, &action, None);
            let ghost opre = out@;
            out.push((ck, key.expires_at));
            proof {
                assert(out@[opre.len() as int].0@ == spec_encode_key(
                    km.id,
                    km.actions[i as int],
                    None,
                ));
                assert forall|ck2: Seq<u8>|
                    #[trigger] entry_keys_upto(km, i as int + 1).contains(ck2) implies exists|q: int|
                    0 <= q < out@.len() && (#[trigger] out@[q]).0@ == ck2 by {
                    if entry_keys_upto(km, i as int).contains(ck2) {
                        let q = choose|q: int| 0 <= q < opre.len() && (#[trigger] opre[q]).0@ == ck2;
                        assert(out@[q].0@ == ck2);
                    } else {
                        assert(out@[opre.len() as int].0@ == ck2);
                    }
                }
            }
        } else {
            let mut j: usize = 0;
            proof {
                assert(entry_keys_row(km, i as int, 0) =~= entry_keys_upto(km, i as int));
            }
            while j < key.indexes.len()
                invariant
                    j <= key.indexes@.len(),
                    i < key.actions@.len(),
                    km == key@,
                    km.actions.len() == key.actions@.len(),
                    km.indexes.len() == key.indexes@.len(),
                    !has_wildcard(km),
                    action == km.actions[i as int],
                    forall|q: int|
                        0 <= q < out@.len() ==> entry_keys_row(km, i as int, j as int).contains(
                            (#[trigger] out@[q]).0@,
                        ) && out@[q].1 == key.expires_at,
                    forall|ck: Seq<u8>|
                        #[trigger] entry_keys_row(km, i as int, j as int).contains(ck)
                            ==> exists|q: int|
                            0 <= q < out@.len() && (#[trigger] out@[q]).0@ == ck,
                decreases key.indexes@.len() - j,
            {
                proof {
                    lemma_string_vec_deep_view(&key.indexes, j as int);
                }
                let ck = ActionKeyIdCodec::bytes_encode(
                    &key.id,
                    &action,
                    Some(key.indexes[j].as_str()),
                );
                let ghost opre = out@;
                out.push((ck, key.expires_at));
                proof {
                    assert(out@[opre.len() as int].0@ == spec_encode_key(
                        km.id,
                        km.actions[i as int],
                        Some(km.indexes[j as int]),
                    ));
                    assert forall|ck2: Seq<u8>|
                        #[trigger] entry_keys_row(km, i as int, j as int + 1).contains(
                            ck2,
                        ) implies exists|q: int|
                        0 <= q < out@.len() && (#[trigger] out@[q]).0@ == ck2 by {
                        if entry_keys_row(km, i as int, j as int).contains(ck2) {
                            let q = choose|q: int|
                                0 <= q < opre.len() && (#[trigger] opre[q]).0@ == ck2;
                            assert(out@[q].0@ == ck2);
                        } else {
                            assert(out@[opre.len() as int].0@ == ck2);
                        }
                    }
                }
                j = j + 1;
            }
            proof {
                assert(entry_keys_row(km, i as int, km.indexes.len() as int) =~= entry_keys_upto(
                    km,
                    i as int + 1,
                ));
            }
        }
        i = i + 1;
    }
    proof {
        assert(entry_keys_upto(km, km.actions.len() as int) =~= entry_keys(km));
    }
    out
}

/// Every compound key a record generates starts with its identifier.
pub proof fn lemma_entry_keys_prefixed(k: KeyModel, ck: Seq<u8>)
    requires
        k.id.len() == 8,
        entry_keys(k).contains(ck),
    ensures
        id_prefixed(ck, k.id),
{
    if has_wildcard(k) {
        let i = choose|i: int|
            0 <= i < k.actions.len() && ck == spec_encode_key(k.id, k.actions[i], None);
        assert(ck.subrange(0, 8) =~= k.id);
    } else {
        let (i, j): (int, int) = choose|i: int, j: int|
            0 <= i < k.actions.len() && 0 <= j < k.indexes.len() && ck == spec_encode_key(
                k.id,
                k.actions[i],
                Some(k.indexes[j]),
            );
        assert(ck.subrange(0, 8) =~= k.id);
    }
}

/// After an upsert, the record is retrievable under its identifier and is
/// exactly the record that was written.
pub proof fn lemma_put_then_get(m: AuthStoreModel, k: KeyModel)
    ensures
        spec_put(m, k).keys.contains_key(k.id),
        spec_put(m, k).keys[k.id] == k,
{
}

/// After a delete, the record is gone and a prefix scan of the inverted
/// index finds no entry for its identifier.
pub proof fn lemma_delete_purges(m: AuthStoreModel, id: Seq<u8>)
    ensures
        !spec_delete(m, id).keys.contains_key(id),
        forall|ck: Seq<u8>|
            #[trigger] spec_delete(m, id).inverted.contains_key(ck) ==> !id_prefixed(ck, id),
{
}

/// Upserting a record twice under one identifier leaves exactly the second
/// record's inverted entries in the identifier's key region: nothing of
/// the first record survives.
pub proof fn lemma_put_replaces_inverted(m: AuthStoreModel, k1: KeyModel, k2: KeyModel)
    requires
        k2.id == k1.id,
        k2.id.len() == 8,
    ensures
        forall|ck: Seq<u8>|
            id_prefixed(ck, k2.id) ==> ((#[trigger] spec_put(
                spec_put(m, k1),
                k2,
            ).inverted.contains_key(ck)) <==> entry_keys(k2).contains(ck)),
        forall|ck: Seq<u8>|
            #[trigger] entry_keys(k2).contains(ck) ==> spec_put(spec_put(m, k1), k2).inverted[ck]
                == k2.expires_at,
{
    assert forall|ck: Seq<u8>| #[trigger]
        entry_keys(k2).contains(ck) implies spec_put(spec_put(m, k1), k2).inverted[ck]
        == k2.expires_at by {
        lemma_entry_keys_prefixed(k2, ck);
    }
}

/// Two upserts under distinct identifiers both land in the store.
pub proof fn lemma_two_puts_distinct_ids(m: AuthStoreModel, k1: KeyModel, k2: KeyModel)
    requires
        k1.id != k2.id,
    ensures
        spec_put(spec_put(m, k1), k2).keys.contains_key(k1.id),
        spec_put(spec_put(m, k1), k2).keys[k1.id] == k1,
        spec_put(spec_put(m, k1), k2).keys.contains_key(k2.id),
        spec_put(spec_put(m, k1), k2).keys[k2.id] == k2,
{
}

} // verus!
