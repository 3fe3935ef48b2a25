use vstd::prelude::*;
use crate::action::Action;
use crate::codec::KEY_ID_LENGTH;

verus! {

/// Mathematical abstraction of a credential record.
pub ghost struct KeyModel {
    pub id: Seq<u8>,
    pub description: Option<Seq<char>>,
    pub actions: Seq<Action>,
    pub indexes: Seq<Seq<char>>,
    pub expires_at: int,
    pub created_at: int,
    pub updated_at: int,
}

/// A credential record: an opaque eight-byte identifier, the permission
/// categories it grants, the index patterns those permissions cover, and
/// its timestamps. An index pattern is either a literal index name or the
/// wildcard `*`, which covers every index.
#[derive(Debug, PartialEq, Eq)]
pub struct Key {
    pub id: [u8; KEY_ID_LENGTH],
    pub description: Option<String>,
    pub actions: Vec<Action>,
    pub indexes: Vec<String>,
    pub expires_at: i64,
    pub created_at: i64,
    pub updated_at: i64,
}

impl View for Key {
    type V = KeyModel;

    open spec fn view(&self) -> KeyModel {
        KeyModel {
            id: self.id@,
            description: match self.description {
                Some(d) => Some(d@),
                None => None,
            },
            actions: self.actions@,
            indexes: self.indexes.deep_view(),
            expires_at: self.expires_at as int,
            created_at: self.created_at as int,
            updated_at: self.updated_at as int,
        }
    }
}

/// The wildcard index pattern, as a character sequence.
pub open spec fn wildcard_pattern() -> Seq<char> {
    seq!['*']
}

/// True when some index pattern of the record is the wildcard, in which
/// case a permission lookup probes a single scope-less entry per action.
pub open spec fn has_wildcard(k: KeyModel) -> bool {
    exists|i: int| 0 <= i < k.indexes.len() && k.indexes[i] == wildcard_pattern()
}

/// A record the store accepts: every index pattern is a non-empty name.
/// The compound-key layout appends the scope with no length marker, so an
/// empty scope name would collapse with the wildcard form and is rejected
/// when the record is written, never silently reinterpreted.
pub open spec fn spec_key_valid(k: KeyModel) -> bool {
    forall|i: int| 0 <= i < k.indexes.len() ==> (#[trigger] k.indexes[i]).len() > 0
}

/// The deep view of a vector of strings reads each element's characters.
pub proof fn lemma_string_vec_deep_view(v: &Vec<String>, i: int)
    requires
        0 <= i < v@.len(),
    ensures
        v.deep_view().len() == v@.len(),
        v.deep_view()[i] == v@[i]@,
{
}

impl Key {
    /// Runtime check matching `spec_key_valid`.
    pub fn validate(&self) -> (r: bool)
        ensures
            r == spec_key_valid(self@),
    {
        let mut i: usize = 0;
        while i < self.indexes.len()
            invariant
                i <= self.indexes@.len(),
                forall|j: int| 0 <= j < i ==> (#[trigger] self.indexes.deep_view()[j]).len() > 0,
            decreases self.indexes@.len() - i,
        {
            proof {
                lemma_string_vec_deep_view(&self.indexes, i as int);
                assert(self@.indexes == self.indexes.deep_view());
            }
            if self.indexes[i].as_str().unicode_len() == 0 {
                return false;
            }
            i = i + 1;
        }
        true
    }
}

/// Runtime check for the wildcard pattern.
pub fn is_wildcard_pattern(s: &String) -> (r: bool)
    ensures
        r == (s@ == wildcard_pattern()),
{
    let len = s.as_str().unicode_len();
    if len == 1 {
        let c = s.as_str().get_char(0);
        proof {
            if c == '*' {
                assert(s@ =~= wildcard_pattern());
            }
        }
        c == '*'
    } else {
        false
    }
}

/// Runtime check matching `has_wildcard`.
pub fn contains_wildcard(indexes: &Vec<String>) -> (r: bool)
    ensures
        r == (exists|i: int|
            0 <= i < indexes.deep_view().len() && indexes.deep_view()[i] == wildcard_pattern()),
{
    let mut i: usize = 0;
    while i < indexes.len()
        invariant
            i <= indexes@.len(),
            forall|j: int| 0 <= j < i ==> indexes.deep_view()[j] != wildcard_pattern(),
        decreases indexes@.len() - i,
    {
        proof {
            lemma_string_vec_deep_view(indexes, i as int);
        }
        if is_wildcard_pattern(&indexes[i]) {
            return true;
        }
        i = i + 1;
    }
    false
}

/// Duplicates a vector of strings, character for character.
pub(crate) fn clone_string_vec(v: &Vec<String>) -> (r: Vec<String>)
    ensures
        r.deep_view() == v.deep_view(),
{
    let mut out: Vec<String> = Vec::new();
    let mut i: usize = 0;
    while i < v.len()
        invariant
            i <= v@.len(),
            out@.len() == i,
            forall|q: int| 0 <= q < i ==> (#[trigger] out@[q])@ == v@[q]@,
        decreases v@.len() - i,
    {
        out.push(v[i].clone());
        i = i + 1;
    }
    proof {
        assert forall|q: int| 0 <= q < out.deep_view().len() implies out.deep_view()[q]
            == v.deep_view()[q] by {
            lemma_string_vec_deep_view(&out, q);
            lemma_string_vec_deep_view(v, q);
        }
        assert(out.deep_view() =~= v.deep_view());
    }
    out
}

/// Duplicates an optional string.
pub(crate) fn clone_opt_string(v: &Option<String>) -> (r: Option<String>)
    ensures
        r.deep_view() == v.deep_view(),
{
    match v {
        Some(s) => Some(s.clone()),
        None => None,
    }
}

impl Clone for Key {
    fn clone(&self) -> (res: Self)
        ensures
            res@ == self@,
    {
        let mut actions: Vec<Action> = Vec::new();
        let mut i: usize = 0;
        while i < self.actions.len()
            invariant
                i <= self.actions@.len(),
                actions@ =~= self.actions@.subrange(0, i as int),
            decreases self.actions@.len() - i,
        {
            actions.push(self.actions[i]);
            i = i + 1;
        }
        let mut indexes: Vec<String> = Vec::new();
        let mut j: usize = 0;
        while j < self.indexes.len()
            invariant
                j <= self.indexes@.len(),
                indexes@.len() == j,
                forall|q: int| 0 <= q < j ==> (#[trigger] indexes@[q])@ == self.indexes@[q]@,
            decreases self.indexes@.len() - j,
        {
            indexes.push(self.indexes[j].clone());
            j = j + 1;
        }
        let res = Key {
            id: self.id,
            description: match &self.description {
                Some(d) => Some(d.clone()),
                None => None,
            },
            actions,
            indexes,
            expires_at: self.expires_at,
            created_at: self.created_at,
            updated_at: self.updated_at,
        };
        proof {
            assert(res.actions@ =~= self.actions@);
            assert forall|q: int| 0 <= q < res.indexes.deep_view().len() implies res.indexes.deep_view()[q]
                == self.indexes.deep_view()[q] by {
                lemma_string_vec_deep_view(&res.indexes, q);
                lemma_string_vec_deep_view(&self.indexes, q);
            }
            assert(res.indexes.deep_view() =~= self.indexes.deep_view());
        }
        res
    }
}

} // verus!
