use vstd::prelude::*;
use vstd::slice::{slice_subrange, slice_to_vec};
use vstd::string::StringSliceAdditionalSpecFns;
use vstd::utf8::{decode_utf8, encode_utf8, valid_utf8};
use crate::action::Action;

verus! {

/// Length in bytes of a credential identifier, the fixed prefix of every
/// compound key in the inverted index.
pub const KEY_ID_LENGTH: usize = 8;

/// Divides one slice into two at an index, returns `None` if mid is out of bounds.
pub fn try_split_at<T>(slice: &[T], mid: usize) -> (r: Option<(&[T], &[T])>)
    ensures
        match r {
            Some(parts) => mid <= slice@.len() && parts.0@ == slice@.subrange(0, mid as int)
                && parts.1@ == slice@.subrange(mid as int, slice@.len() as int),
            None => mid > slice@.len(),
        },
{
    if mid <= slice.len() {
        Some(slice.split_at(mid))
    } else {
        None
    }
}

/// Divides one slice into an identifier array and the tail,
/// returns `None` if the slice is shorter than an identifier.
pub fn try_split_array_at(slice: &[u8]) -> (r: Option<([u8; KEY_ID_LENGTH], &[u8])>)
    ensures
        match r {
            Some(parts) => slice@.len() >= 8 && parts.0@ == slice@.subrange(0, 8)
                && parts.1@ == slice@.subrange(8, slice@.len() as int),
            None => slice@.len() < 8,
        },
{
    match try_split_at(slice, KEY_ID_LENGTH) {
        None => None,
        Some((head, tail)) => {
            let id: [u8; KEY_ID_LENGTH] = [
                head[0],
                head[1],
                head[2],
                head[3],
                head[4],
                head[5],
                head[6],
                head[7],
            ];
            proof {
                assert(id@ =~= slice@.subrange(0, 8));
            }
            Some((id, tail))
        },
    }
}

/// The byte layout of an inverted-index key:
/// eight identifier bytes, one action code byte, then the UTF-8 bytes of the
/// index scope, or nothing at all when the entry covers every index.
pub open spec fn spec_encode_key(id: Seq<u8>, action: Action, index: Option<Seq<char>>) -> Seq<u8> {
    id + seq![action.spec_repr()] + (match index {
        Some(s) => encode_utf8(s),
        None => Seq::<u8>::empty(),
    })
}

/// Splits a stored compound key back into its fields. `None` marks a
/// corrupt entry: a key too short to hold an identifier and an action code,
/// an unrecognized action code, or a scope that is not valid UTF-8.
/// A key with nothing after the action code is a wildcard entry, so an
/// empty scope name is not representable in this layout.
pub open spec fn spec_decode_key(bytes: Seq<u8>) -> Option<(Seq<u8>, Action, Option<Seq<char>>)> {
    if bytes.len() < 9 {
        None
    } else {
        let id = bytes.subrange(0, 8);
        let rest = bytes.subrange(9, bytes.len() as int);
        match Action::spec_from_repr(bytes[8]) {
            None => None,
            Some(action) => if rest.len() == 0 {
                Some((id, action, None))
            } else if valid_utf8(rest) {
                Some((id, action, Some(decode_utf8(rest))))
            } else {
                None
            },
        }
    }
}

/// Relies on String::from_utf8: it returns a string exactly when the bytes
/// are valid UTF-8, and that string's characters are their decoding.
#[verifier::external_body]
pub(crate) fn bytes_to_string(v: Vec<u8>) -> (r: Option<String>)
    ensures
        r is Some <==> valid_utf8(v@),
        r is Some ==> r.unwrap()@ == decode_utf8(v@),
{
    String::from_utf8(v).ok()
}

/// Encoder and decoder for the compound keys of the inverted index.
pub struct ActionKeyIdCodec;

impl ActionKeyIdCodec {
    pub fn bytes_encode(key_id: &[u8; KEY_ID_LENGTH], action: &Action, index: Option<&str>) -> (r:
        Vec<u8>)
        ensures
            r@ == spec_encode_key(key_id@, *action, match index {
                Some(s) => Some(s@),
                None => None::<Seq<char>>,
            }),
    {
        let mut bytes: Vec<u8> = Vec::new();
        let mut i: usize = 0;
        while i < KEY_ID_LENGTH
            invariant
                i <= 8,
                bytes@ =~= key_id@.subrange(0, i as int),
            decreases 8 - i,
        {
            bytes.push(key_id[i]);
            i = i + 1;
        }
        bytes.push(action.repr());
        match index {
            Some(s) => {
                let sb = s.as_bytes();
                let mut j: usize = 0;
                while j < sb.len()
                    invariant
                        j <= sb@.len(),
                        sb@ == s.spec_bytes(),
                        bytes@ =~= key_id@ + seq![action.spec_repr()] + sb@.subrange(0, j as int),
                    decreases sb@.len() - j,
                {
                    bytes.push(sb[j]);
                    j = j + 1;
                }
                proof {
                    assert(bytes@ =~= spec_encode_key(key_id@, *action, Some(s@)));
                }
            },
            None => {
                proof {
                    assert(bytes@ =~= spec_encode_key(key_id@, *action, None::<Seq<char>>));
                }
            },
        }
        bytes
    }

    pub fn bytes_decode(bytes: &[u8]) -> (r: Option<([u8; KEY_ID_LENGTH], Action, Option<String>)>)
        ensures
            r is Some <==> spec_decode_key(bytes@) is Some,
            r is Some ==> ({
                let decoded = spec_decode_key(bytes@).unwrap();
                let got = r.unwrap();
                &&& got.0@ == decoded.0
                &&& got.1 == decoded.1
                &&& (got.2 is Some <==> decoded.2 is Some)
                &&& (got.2 is Some ==> got.2.unwrap()@ == decoded.2.unwrap())
            }),
    {
        let (key_id, tail) = match try_split_array_at(bytes) {
            Some(parts) => parts,
            None => {
                return None;
            },
        };
        if tail.len() == 0 {
            return None;
        }
        let action = match Action::from_repr(tail[0]) {
            Some(a) => a,
            None => {
                return None;
            },
        };
        let rest = slice_subrange(tail, 1, tail.len());
        proof {
            assert(rest@ =~= bytes@.subrange(9, bytes@.len() as int));
        }
        if rest.len() == 0 {
            Some((key_id, action, None))
        } else {
            match bytes_to_string(slice_to_vec(rest)) {
                Some(s) => Some((key_id, action, Some(s))),
                None => None,
            }
        }
    }
}

/// Encoding a compound key and decoding it back is the identity, both for
/// wildcard entries and for entries naming a non-empty index scope.
pub proof fn lemma_compound_key_roundtrip(id: Seq<u8>, action: Action, index: Option<Seq<char>>)
    requires
        id.len() == 8,
        index is Some ==> index.unwrap().len() > 0,
    ensures
        spec_decode_key(spec_encode_key(id, action, index)) == Some((id, action, index)),
{
    broadcast use vstd::utf8::encode_utf8_valid_utf8, vstd::utf8::encode_utf8_decode_utf8;

    let bytes = spec_encode_key(id, action, index);
    crate::action::lemma_action_code_roundtrip(action);
    assert(bytes.subrange(0, 8) =~= id);
    assert(bytes[8] == action.spec_repr());
    match index {
        None => {
            assert(bytes.subrange(9, bytes.len() as int) =~= Seq::<u8>::empty());
        },
        Some(s) => {
            let enc = encode_utf8(s);
            assert(enc.len() > 0) by {
                assert(enc == vstd::utf8::encode_scalar(s[0] as u32) + encode_utf8(
                    s.drop_first(),
                ));
                assert(vstd::utf8::encode_scalar(s[0] as u32).len() > 0);
            }
            assert(bytes.subrange(9, bytes.len() as int) =~= enc);
        },
    }
}

} // verus!
