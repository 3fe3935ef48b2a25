use vstd::prelude::*;
use vstd::slice::slice_to_vec;
use vstd::utf8::{decode_utf8, encode_utf8, is_ascii_chars, valid_utf8};
use crate::action::Action;
use crate::codec::bytes_to_string;
use crate::key::Key;

verus! {

/// Path parameter carrying the credential string of a key-management
/// request.
#[derive(Debug)]
pub struct AuthParam {
    pub api_key: String,
}

/// The SHA-256 digest of the input. Relied upon through `sha256`; the
/// digest depends on the input bytes alone.
pub uninterp spec fn sha256_of(s: Seq<u8>) -> Seq<u8>;

/// Relies on sha2::Sha256::digest: the digest is always 32 bytes and
/// depends on the input bytes alone.
#[verifier::external_body]
fn sha256(bytes: &[u8]) -> (r: Vec<u8>)
    ensures
        r@ == sha256_of(bytes@),
        r@.len() == 32,
{
    <sha2::Sha256 as sha2::Digest>::digest(bytes).to_vec()
}

/// The ASCII code of the lowercase hexadecimal digit of a value below
/// sixteen.
pub open spec fn spec_hex_digit_byte(v: u8) -> u8 {
    if v < 10 {
        (v + 48) as u8
    } else {
        (v + 87) as u8
    }
}

/// Lowercase hexadecimal spelling of a byte string, two digits per byte,
/// most significant first.
pub open spec fn spec_hex_of(bytes: Seq<u8>) -> Seq<char>
    decreases bytes.len(),
{
    if bytes.len() == 0 {
        Seq::empty()
    } else {
        seq![
            spec_hex_digit_byte(bytes[0] / 16) as char,
            spec_hex_digit_byte(bytes[0] % 16) as char,
        ] + spec_hex_of(bytes.drop_first())
    }
}

proof fn lemma_hex_index(bytes: Seq<u8>)
    ensures
        spec_hex_of(bytes).len() == 2 * bytes.len(),
        forall|j: int|
            0 <= j < bytes.len() ==> spec_hex_of(bytes)[2 * j] == (spec_hex_digit_byte(
                #[trigger] bytes[j] / 16,
            ) as char) && spec_hex_of(bytes)[2 * j + 1] == (spec_hex_digit_byte(
                bytes[j] % 16,
            ) as char),
    decreases bytes.len(),
{
    if bytes.len() > 0 {
        lemma_hex_index(bytes.drop_first());
        assert forall|j: int|
            0 <= j < bytes.len() implies spec_hex_of(bytes)[2 * j] == (spec_hex_digit_byte(
            #[trigger] bytes[j] / 16,
        ) as char) && spec_hex_of(bytes)[2 * j + 1] == (spec_hex_digit_byte(
            bytes[j] % 16,
        ) as char) by {
            if j > 0 {
                assert(bytes.drop_first()[j - 1] == bytes[j]);
                assert(spec_hex_of(bytes)[2 * j] == spec_hex_of(bytes.drop_first())[2 * (j - 1)]);
                assert(spec_hex_of(bytes)[2 * j + 1] == spec_hex_of(bytes.drop_first())[2 * (j - 1)
                    + 1]);
            }
        }
    }
}

proof fn lemma_hex_ascii(bytes: Seq<u8>)
    ensures
        is_ascii_chars(spec_hex_of(bytes)),
    decreases bytes.len(),
{
    lemma_hex_index(bytes);
    assert forall|i: int|
        0 <= i < spec_hex_of(bytes).len() implies '\0' <= #[trigger] spec_hex_of(bytes)[i]
        <= '\u{7f}' by {
        let j = i / 2;
        assert(0 <= j < bytes.len());
        if i % 2 == 0 {
            assert(i == 2 * j);
            assert(spec_hex_of(bytes)[i] == (spec_hex_digit_byte(bytes[j] / 16) as char));
        } else {
            assert(i == 2 * j + 1);
            assert(spec_hex_of(bytes)[i] == (spec_hex_digit_byte(bytes[j] % 16) as char));
        }
    }
}

/// Spells a byte string in lowercase hexadecimal.
fn to_hex(bytes: &[u8]) -> (r: String)
    ensures
        r@ == spec_hex_of(bytes@),
{
    let mut digits: Vec<u8> = Vec::new();
    let mut i: usize = 0;
    while i < bytes.len()
        invariant
            i <= bytes@.len(),
            digits@.len() == 2 * i,
            forall|j: int|
                0 <= j < i ==> digits@[2 * j] == spec_hex_digit_byte(#[trigger] bytes@[j] / 16)
                    && digits@[2 * j + 1] == spec_hex_digit_byte(bytes@[j] % 16),
        decreases bytes@.len() - i,
    {
        let b = bytes[i];
        let hi = b / 16;
        let lo = b % 16;
        digits.push(if hi < 10 {
            hi + 48
        } else {
            hi + 87
        });
        digits.push(if lo < 10 {
            lo + 48
        } else {
            lo + 87
        });
        i = i + 1;
    }
    proof {
        lemma_hex_index(bytes@);
        lemma_hex_ascii(bytes@);
        vstd::utf8::is_ascii_chars_encode_utf8(spec_hex_of(bytes@));
        assert forall|k: int| 0 <= k < digits@.len() implies digits@[k] == encode_utf8(
            spec_hex_of(bytes@),
        )[k] by {
            let j = k / 2;
            assert(encode_utf8(spec_hex_of(bytes@))[k] == spec_hex_of(bytes@)[k] as u8);
            if k % 2 == 0 {
                assert(k == 2 * j);
                assert(spec_hex_of(bytes@)[k] == (spec_hex_digit_byte(bytes@[j] / 16) as char));
            } else {
                assert(k == 2 * j + 1);
                assert(spec_hex_of(bytes@)[k] == (spec_hex_digit_byte(bytes@[j] % 16) as char));
            }
        }
        assert(digits@ =~= encode_utf8(spec_hex_of(bytes@)));
        vstd::utf8::encode_utf8_valid_utf8(spec_hex_of(bytes@));
        vstd::utf8::encode_utf8_decode_utf8(spec_hex_of(bytes@));
    }
    match bytes_to_string(digits) {
        Some(s) => s,
        None => {
            proof {
                assert(false);
            }
            String::new()
        },
    }
}

/// The derived credential string: the identifier characters, a dash, and
/// the lowercase hexadecimal SHA-256 digest of "identifier-masterSecret".
/// Only the identifier is ever stored; this derived string is recomputed
/// by the presentation layer and verified there.
pub open spec fn spec_generate_key(uid: Seq<char>, master: Seq<char>) -> Seq<char> {
    uid + seq!['-'] + spec_hex_of(sha256_of(encode_utf8(uid + seq!['-'] + master)))
}

pub fn generate_key(master_key: &str, uid: &str) -> (r: String)
    ensures
        r@ == spec_generate_key(uid@, master_key@),
{
    let mut input = <String as vstd::string::StringExecFns>::from_str(uid);
    input.append("-");
    input.append(master_key);
    proof {
        reveal_strlit("-");
        assert("-"@ =~= seq!['-']);
        assert(input@ == uid@ + seq!['-'] + master_key@);
    }
    let digest = sha256(input.as_str().as_bytes());
    let hex = to_hex(digest.as_slice());
    let mut out = <String as vstd::string::StringExecFns>::from_str(uid);
    out.append("-");
    out.append(hex.as_str());
    proof {
        assert(out@ =~= spec_generate_key(uid@, master_key@));
    }
    out
}

proof fn lemma_encode_utf8_concat(a: Seq<char>, b: Seq<char>)
    ensures
        encode_utf8(a + b) == encode_utf8(a) + encode_utf8(b),
    decreases a.len(),
{
    if a.len() == 0 {
        assert(a + b =~= b);
        assert(encode_utf8(a) =~= Seq::<u8>::empty());
        assert(Seq::<u8>::empty() + encode_utf8(b) =~= encode_utf8(b));
    } else {
        assert((a + b).drop_first() =~= a.drop_first() + b);
        assert((a + b)[0] == a[0]);
        lemma_encode_utf8_concat(a.drop_first(), b);
        assert(vstd::utf8::encode_scalar((a + b)[0] as u32) + (encode_utf8(a.drop_first())
            + encode_utf8(b)) =~= (vstd::utf8::encode_scalar(a[0] as u32) + encode_utf8(
            a.drop_first(),
        )) + encode_utf8(b));
    }
}

/// The byte form of a derived credential starts with the record's own
/// eight identifier bytes, so looking a record up or deleting it by its
/// derived credential addresses exactly that record: the store extracts
/// those first eight bytes and never stores the rest.
pub proof fn lemma_credential_carries_the_id(id: Seq<u8>, master: Seq<char>)
    requires
        valid_utf8(id),
        id.len() == 8,
    ensures
        encode_utf8(spec_generate_key(decode_utf8(id), master)).len() >= 8,
        encode_utf8(spec_generate_key(decode_utf8(id), master)).subrange(0, 8) == id,
{
    let uid = decode_utf8(id);
    vstd::utf8::decode_utf8_encode_utf8(id);
    let hex = spec_hex_of(sha256_of(encode_utf8(uid + seq!['-'] + master)));
    assert(spec_generate_key(uid, master) == (uid + seq!['-']) + hex);
    lemma_encode_utf8_concat(uid + seq!['-'], hex);
    lemma_encode_utf8_concat(uid, seq!['-']);
    assert(encode_utf8(uid).len() == 8);
    assert(encode_utf8(spec_generate_key(uid, master)).subrange(0, 8) =~= id);
}

/// What the key-management interface exposes of a credential record: the
/// derived credential string in place of the raw identifier, and the
/// record's grants and timestamps.
#[derive(Debug)]
pub struct KeyView {
    pub description: Option<String>,
    pub key: String,
    pub actions: Vec<Action>,
    pub indexes: Vec<String>,
    pub expires_at: i64,
    pub created_at: i64,
    pub updated_at: i64,
}

pub ghost struct KeyViewModel {
    pub description: Option<Seq<char>>,
    pub key: Seq<char>,
    pub actions: Seq<Action>,
    pub indexes: Seq<Seq<char>>,
    pub expires_at: int,
    pub created_at: int,
    pub updated_at: int,
}

impl View for KeyView {
    type V = KeyViewModel;

    open spec fn view(&self) -> KeyViewModel {
        KeyViewModel {
            description: match self.description {
                Some(d) => Some(d@),
                None => None,
            },
            key: self.key@,
            actions: self.actions@,
            indexes: self.indexes.deep_view(),
            expires_at: self.expires_at as int,
            created_at: self.created_at as int,
            updated_at: self.updated_at as int,
        }
    }
}

impl KeyView {
    /// Presents a record: every stored field is carried over unchanged,
    /// and the credential string is derived from the identifier and the
    /// server's master secret, or from an empty secret when none is set.
    /// An identifier whose bytes are not valid UTF-8 cannot be spelled
    /// into a credential string and yields nothing.
    pub fn from_key(key: Key, master_key: Option<&String>) -> (r: Option<KeyView>)
        ensures
            r is Some <==> valid_utf8(key.id@),
            r is Some ==> ({
                let v = r.unwrap()@;
                let k = key@;
                &&& v.description == k.description
                &&& v.actions == k.actions
                &&& v.indexes == k.indexes
                &&& v.expires_at == k.expires_at
                &&& v.created_at == k.created_at
                &&& v.updated_at == k.updated_at
                &&& v.key == spec_generate_key(
                    decode_utf8(key.id@),
                    match master_key {
                        Some(m) => m@,
                        None => Seq::<char>::empty(),
                    },
                )
            }),
    {
        let uid_bytes = slice_to_vec(key.id.as_slice());
        let uid = match bytes_to_string(uid_bytes) {
            Some(s) => s,
            None => {
                return None;
            },
        };
        let generated = match master_key {
            Some(m) => generate_key(m.as_str(), uid.as_str()),
            None => {
                let g = generate_key("", uid.as_str());
                proof {
                    reveal_strlit("");
                    assert(""@ =~= Seq::<char>::empty());
                }
                g
            },
        };
        Some(
            KeyView {
                description: key.description,
                key: generated,
                actions: key.actions,
                indexes: key.indexes,
                expires_at: key.expires_at,
                created_at: key.created_at,
                updated_at: key.updated_at,
            },
        )
    }
}

} // verus!
