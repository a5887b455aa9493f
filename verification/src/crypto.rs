//! Password-based encrypted-pair codec.
//!
//! A `MixedPair` binds a cleartext public value to a secret value encrypted
//! under a password.  The cryptography is done by vetted outside
//! primitives behind trusted wrappers: the key is derived by PBKDF2 over
//! HMAC-SHA-256 with a fresh random salt and a deliberately large round
//! count, and the encoded secret is sealed with ChaCha20-Poly1305, an
//! authenticated cipher, so a wrong password or tampered ciphertext is
//! rejected instead of silently accepted.  Each primitive's result is
//! named by an uninterpreted spec function of its inputs; the packing and
//! decryption transforms are defined over those names, the executable code
//! is verified against them, and `pack`'s contract carries the round trip:
//! what it seals, `decrypt` provably recovers under the same password.
//!
//! Every stored pair derives a fresh key from its own random salt, and
//! each such key seals exactly one message, so the cipher's nonce is a
//! constant.

use vstd::prelude::*;

use crate::codec::{
    decode_fields, digits_string, encode_fields, lemma_fields_round_trip,
    lemma_spec_digits_all_digits, lemma_spec_digits_value, parse_u64_str, spec_digits,
    spec_encode_fields, spec_fields, spec_parse_u64,
};
use crate::engine::is_canonical_name;
use crate::errors::KvError;
use crate::records::{KeypairName, PublicKey};
use crate::store::HasTable;
use chacha20poly1305::aead::Aead;
use chacha20poly1305::KeyInit;

verus! {

use vstd::string::StrSliceExecFns;
use vstd::string::StringExecFns;
use vstd::utf8::{decode_utf8, encode_utf8, encode_utf8_decode_utf8, encode_utf8_valid_utf8, valid_utf8};

#[verifier::external_type_specification]
#[verifier::external_body]
pub struct ExFromUtf8Error(std::string::FromUtf8Error);

/// Relies on `String::from_utf8`: succeeds exactly on valid UTF-8 and then
/// returns the string spelled by those bytes.
pub assume_specification[ String::from_utf8 ](v: Vec<u8>) -> (r: Result<
    String,
    std::string::FromUtf8Error,
>)
    ensures
        r is Ok <==> valid_utf8(v@),
        r is Ok ==> (r->Ok_0)@ == decode_utf8(v@),
;

// ---------------------------------------------------------------------------
// Key pairs: the secret value protected by the codec.
// ---------------------------------------------------------------------------

/// A key pair in textual form: the public half beside the secret half.
#[derive(Clone, Debug, PartialEq, Eq)]
pub struct KeyPair {
    pub public: String,
    pub secret: String,
}

/// Ghost mirror of `KeyPair`.
pub struct KeyPairView {
    pub public: Seq<char>,
    pub secret: Seq<char>,
}

impl View for KeyPair {
    type V = KeyPairView;

    open spec fn view(&self) -> KeyPairView {
        KeyPairView { public: self.public@, secret: self.secret@ }
    }
}

pub open spec fn spec_enc_keypair(v: KeyPairView) -> Seq<char> {
    spec_encode_fields(seq![v.public, v.secret])
}

pub open spec fn spec_dec_keypair(s: Seq<char>) -> Option<KeyPairView> {
    match spec_fields(s) {
        None => None,
        Some(fs) => if fs.len() == 2 {
            Some(KeyPairView { public: fs[0], secret: fs[1] })
        } else {
            None
        },
    }
}

pub proof fn lemma_keypair_round_trip(v: KeyPairView)
    ensures
        spec_dec_keypair(spec_enc_keypair(v)) == Some(v),
{
    lemma_fields_round_trip(seq![v.public, v.secret]);
}

/// Encode a key pair for storage or encryption.
pub fn encode_keypair(kp: &KeyPair) -> (r: String)
    ensures
        r@ == spec_enc_keypair(kp@),
{
    let mut fields: Vec<String> = Vec::new();
    fields.push(kp.public.clone());
    fields.push(kp.secret.clone());
    proof {
        assert(fields.deep_view() =~= seq![kp.public@, kp.secret@]);
    }
    encode_fields(&fields)
}

/// Decode a key pair.
pub fn decode_keypair(s: &str) -> (r: Option<KeyPair>)
    ensures
        r is Some <==> spec_dec_keypair(s@) is Some,
        r is Some ==> spec_dec_keypair(s@) == Some((r->0)@),
{
    let fields = match decode_fields(s) {
        None => {
            return None;
        },
        Some(v) => v,
    };
    if fields.len() != 2 {
        return None;
    }
    proof {
        assert(fields.deep_view()[0] == fields@[0]@);
        assert(fields.deep_view()[1] == fields@[1]@);
    }
    Some(KeyPair { public: fields[0].clone(), secret: fields[1].clone() })
}

// ---------------------------------------------------------------------------
// The trusted cryptographic primitives.
// ---------------------------------------------------------------------------

/// How many PBKDF2 rounds a key derivation performs: large enough to make
/// each candidate password cost real work, small enough for interactive
/// use.
pub const KDF_ROUNDS: u32 = 20000;

/// The key PBKDF2-HMAC-SHA-256 derives from a password and salt at
/// `KDF_ROUNDS`: a function of its arguments alone.
pub uninterp spec fn derived_key_of(password: Seq<u8>, salt: Seq<u8>) -> Seq<u8>;

/// The ciphertext ChaCha20-Poly1305 produces for a plaintext under a key
/// and nonce: a function of its arguments alone.
pub uninterp spec fn sealed_of(key: Seq<u8>, nonce: Seq<u8>, pt: Seq<u8>) -> Seq<u8>;

/// What ChaCha20-Poly1305 decryption yields for a ciphertext under a key
/// and nonce: the authenticated plaintext, or nothing when the ciphertext
/// does not authenticate.
pub uninterp spec fn opened_of(key: Seq<u8>, nonce: Seq<u8>, ct: Seq<u8>) -> Option<Seq<u8>>;

/// Relies on `rand::random`: sixteen bytes from the thread-local
/// generator.  Nothing is assumed of their values — only their count.
#[verifier::external_body]
fn fresh_salt() -> (r: Vec<u8>)
    ensures
        r@.len() == 16,
{
    rand::random::<[u8; 16]>().to_vec()
}

/// Relies on `pbkdf2::pbkdf2_hmac` over `sha2::Sha256`: fills the output
/// with the PBKDF2 derivation of the password and salt at `KDF_ROUNDS`,
/// deterministic in its inputs; HMAC accepts keys of any length, so the
/// call cannot fail.
#[verifier::external_body]
fn kdf_derive(password: &Vec<u8>, salt: &Vec<u8>) -> (r: Vec<u8>)
    ensures
        r@ == derived_key_of(password@, salt@),
        r@.len() == 32,
{
    let mut out = [0u8; 32];
    pbkdf2::pbkdf2_hmac::<sha2::Sha256>(password, salt, KDF_ROUNDS, &mut out);
    out.to_vec()
}

/// Relies on `chacha20poly1305::ChaCha20Poly1305` through `aead::Aead::
/// encrypt`: seals the plaintext under the key and nonce, and — the
/// cipher's defining property — what `aead::Aead::decrypt` recovers from
/// the sealed bytes under the same key and nonce is exactly this
/// plaintext.
#[verifier::external_body]
fn aead_seal(key: &Vec<u8>, nonce: &Vec<u8>, pt: &Vec<u8>) -> (r: Result<Vec<u8>, KvError>)
    requires
        key@.len() == 32,
        nonce@.len() == 12,
    ensures
        r is Ok ==> (r->Ok_0)@ == sealed_of(key@, nonce@, pt@) && opened_of(
            key@,
            nonce@,
            (r->Ok_0)@,
        ) == Some(pt@),
        r is Err ==> r->Err_0 is StorageIo,
{
    let cipher = chacha20poly1305::ChaCha20Poly1305::new_from_slice(key).map_err(
        |_| KvError::StorageIo,
    )?;
    let n = chacha20poly1305::Nonce::try_from(nonce.as_slice()).map_err(|_| KvError::StorageIo)?;
    cipher.encrypt(&n, pt.as_slice()).map_err(|_| KvError::StorageIo)
}

/// Relies on `chacha20poly1305::ChaCha20Poly1305` through `aead::Aead::
/// decrypt`: succeeds exactly on ciphertexts that authenticate under the
/// key and nonce, returning the sealed plaintext; an inauthentic
/// ciphertext — tampered bytes or another key — is rejected.
#[verifier::external_body]
fn aead_open(key: &Vec<u8>, nonce: &Vec<u8>, ct: &Vec<u8>) -> (r: Option<Vec<u8>>)
    requires
        key@.len() == 32,
        nonce@.len() == 12,
    ensures
        r is Some <==> opened_of(key@, nonce@, ct@) is Some,
        r is Some ==> Some((r->0)@) == opened_of(key@, nonce@, ct@),
{
    let cipher = chacha20poly1305::ChaCha20Poly1305::new_from_slice(key).ok()?;
    let n = chacha20poly1305::Nonce::try_from(nonce.as_slice()).ok()?;
    cipher.decrypt(&n, ct.as_slice()).ok()
}

// ---------------------------------------------------------------------------
// Byte strings as stored text.
// ---------------------------------------------------------------------------

/// Bytes spelled as decimal fields, the storable form of salt and
/// ciphertext.
pub open spec fn spec_bytes_text(bs: Seq<u8>) -> Seq<char> {
    spec_encode_fields(Seq::new(bs.len(), |i: int| spec_digits(bs[i] as nat)))
}

/// Bytes read back from decimal fields.
pub open spec fn spec_parse_byte_fields(fs: Seq<Seq<char>>) -> Option<Seq<u8>>
    decreases fs.len(),
{
    if fs.len() == 0 {
        Some(Seq::empty())
    } else {
        match spec_parse_u64(fs.first()) {
            None => None,
            Some(v) => if v < 256 {
                match spec_parse_byte_fields(fs.drop_first()) {
                    None => None,
                    Some(rest) => Some(seq![v as u8] + rest),
                }
            } else {
                None
            },
        }
    }
}

pub open spec fn spec_bytes_values(s: Seq<char>) -> Option<Seq<u8>> {
    match spec_fields(s) {
        None => None,
        Some(fs) => spec_parse_byte_fields(fs),
    }
}

/// The decimal fields of a byte string read back as those bytes.
proof fn lemma_parse_bytes_text(bs: Seq<u8>)
    ensures
        spec_parse_byte_fields(Seq::new(bs.len(), |i: int| spec_digits(bs[i] as nat))) == Some(bs),
    decreases bs.len(),
{
    let fs = Seq::new(bs.len(), |i: int| spec_digits(bs[i] as nat));
    if bs.len() > 0 {
        lemma_spec_digits_all_digits(bs[0] as nat);
        lemma_spec_digits_value(bs[0] as nat);
        assert(fs.first() == spec_digits(bs[0] as nat));
        assert(spec_parse_u64(fs.first()) == Some(bs[0] as u64));
        let rest_fs = Seq::new(bs.drop_first().len(), |i: int| spec_digits(bs.drop_first()[i] as nat));
        assert(fs.drop_first() =~= rest_fs);
        lemma_parse_bytes_text(bs.drop_first());
        assert(seq![bs[0]] + bs.drop_first() =~= bs);
    } else {
        assert(fs =~= Seq::<Seq<char>>::empty());
    }
}

/// Round trip: the stored text of a byte string reads back as it.
pub proof fn lemma_bytes_text_round_trip(bs: Seq<u8>)
    ensures
        spec_bytes_values(spec_bytes_text(bs)) == Some(bs),
{
    lemma_fields_round_trip(Seq::new(bs.len(), |i: int| spec_digits(bs[i] as nat)));
    lemma_parse_bytes_text(bs);
}

/// Spell bytes as storable text.
fn bytes_to_text(v: &Vec<u8>) -> (r: String)
    ensures
        r@ == spec_bytes_text(v@),
{
    let mut fields: Vec<String> = Vec::new();
    let mut i: usize = 0;
    proof {
        assert(fields.deep_view() =~= Seq::<Seq<char>>::empty());
    }
    while i < v.len()
        invariant
            0 <= i <= v@.len(),
            fields.deep_view() == Seq::new(i as nat, |j: int| spec_digits(v@[j] as nat)),
        decreases v@.len() - i,
    {
        let ghost fields0 = fields.deep_view();
        fields.push(digits_string(v[i] as u64));
        i = i + 1;
        proof {
            assert((v@[i - 1] as u64) as nat == v@[i - 1] as nat);
            assert(fields.deep_view() =~= fields0.push(spec_digits(v@[i - 1] as nat)));
            assert(Seq::new(i as nat, |j: int| spec_digits(v@[j] as nat)) =~= Seq::new(
                (i - 1) as nat,
                |j: int| spec_digits(v@[j] as nat),
            ).push(spec_digits(v@[i - 1] as nat)));
        }
    }
    proof {
        assert(Seq::new(i as nat, |j: int| spec_digits(v@[j] as nat)) =~= Seq::new(
            v@.len(),
            |j: int| spec_digits(v@[j] as nat),
        ));
    }
    encode_fields(&fields)
}

/// Read bytes back from storable text.
fn text_to_bytes(s: &str) -> (r: Option<Vec<u8>>)
    ensures
        r is Some <==> spec_bytes_values(s@) is Some,
        r is Some ==> Some((r->0)@) == spec_bytes_values(s@),
{
    let fields = match decode_fields(s) {
        None => {
            return None;
        },
        Some(v) => v,
    };
    let ghost deep = fields.deep_view();
    let n = fields.len();
    let mut out: Vec<u8> = Vec::new();
    let mut i: usize = 0;
    proof {
        assert(deep.skip(0) =~= deep);
        assert forall|rest: Seq<u8>|
            spec_parse_byte_fields(deep.skip(0)) == Some(rest) implies spec_parse_byte_fields(
            deep,
        ) == Some(out@ + rest) by {
            assert(out@ + rest =~= rest);
        }
    }
    while i < n
        invariant
            0 <= i <= n,
            n == deep.len(),
            deep == fields.deep_view(),
            spec_fields(s@) == Some(deep),
            forall|rest: Seq<u8>|
                spec_parse_byte_fields(deep.skip(i as int)) == Some(rest)
                    ==> spec_parse_byte_fields(deep) == Some(out@ + rest),
            spec_parse_byte_fields(deep.skip(i as int)) is None ==> spec_parse_byte_fields(
                deep,
            ) is None,
        decreases n - i,
    {
        let ghost ds = deep.skip(i as int);
        proof {
            assert(ds.first() == deep[i as int]);
            assert(ds.drop_first() =~= deep.skip(i + 1));
        }
        let v = match parse_u64_str(fields[i].as_str()) {
            None => {
                return None;
            },
            Some(x) => x,
        };
        if v >= 256 {
            return None;
        }
        let ghost out0 = out@;
        out.push(v as u8);
        i = i + 1;
        proof {
            assert forall|rest: Seq<u8>|
                spec_parse_byte_fields(deep.skip(i as int)) == Some(rest)
                    implies spec_parse_byte_fields(deep) == Some(out@ + rest) by {
                assert(spec_parse_byte_fields(ds) == Some(seq![(v as u8)] + rest));
                assert(out0 + (seq![(v as u8)] + rest) =~= out@ + rest);
            }
        }
    }
    proof {
        assert(deep.skip(n as int) =~= Seq::<Seq<char>>::empty());
        assert(spec_parse_byte_fields(deep.skip(n as int)) == Some(Seq::<u8>::empty()));
        assert(out@ + Seq::<u8>::empty() =~= out@);
    }
    Some(out)
}

// ---------------------------------------------------------------------------
// The encrypted pair.
// ---------------------------------------------------------------------------

/// A cleartext public value beside a password-encrypted secret value and
/// the salt its key was derived with.  The secret is never stored
/// unencrypted; the public half may be read without a password.
#[derive(Clone, Debug, PartialEq, Eq)]
pub struct MixedPair {
    clear: String,
    salt: Vec<u8>,
    cipher: Vec<u8>,
}

/// Ghost mirror of `MixedPair`.
pub struct MixedPairView {
    pub clear: Seq<char>,
    pub salt: Seq<u8>,
    pub cipher: Seq<u8>,
}

impl View for MixedPair {
    type V = MixedPairView;

    closed spec fn view(&self) -> MixedPairView {
        MixedPairView { clear: self.clear@, salt: self.salt@, cipher: self.cipher@ }
    }
}

/// The cipher's constant nonce: sound here because every key is derived
/// from a fresh random salt and seals exactly one message.
pub open spec fn zero_nonce() -> Seq<u8> {
    Seq::new(12, |i: int| 0u8)
}

/// The constant nonce as a value.
fn zero_nonce_vec() -> (r: Vec<u8>)
    ensures
        r@ == zero_nonce(),
{
    let mut r: Vec<u8> = Vec::new();
    let mut i: usize = 0;
    while i < 12
        invariant
            0 <= i <= 12,
            r@.len() == i,
            forall|j: int| 0 <= j < i ==> r@[j] == 0u8,
        decreases 12 - i,
    {
        r.push(0u8);
        i = i + 1;
    }
    proof {
        assert(r@ =~= zero_nonce());
    }
    r
}

/// The whole packing transform, for a given salt.
pub open spec fn spec_pack(clear: Seq<char>, secret: KeyPairView, pw: Seq<char>, salt: Seq<u8>) -> MixedPairView {
    let key = derived_key_of(encode_utf8(pw), salt);
    MixedPairView {
        clear,
        salt,
        cipher: sealed_of(key, zero_nonce(), encode_utf8(spec_enc_keypair(secret))),
    }
}

/// The whole decryption transform: re-derive the key from the stored
/// salt, open the ciphertext with authentication, read the plaintext as
/// text, decode the key pair.
pub open spec fn spec_decrypt(pw: Seq<char>, v: MixedPairView) -> Option<KeyPairView> {
    let key = derived_key_of(encode_utf8(pw), v.salt);
    match opened_of(key, zero_nonce(), v.cipher) {
        None => None,
        Some(ptb) => if valid_utf8(ptb) {
            spec_dec_keypair(decode_utf8(ptb))
        } else {
            None
        },
    }
}

impl MixedPair {
    /// Draws a fresh salt, derives a key from the password, seals the
    /// serialized secret and stores it beside the cleartext public value.
    /// The contract carries the round trip: the packed pair decrypts back
    /// to the secret under the same password.
    pub fn pack(public: &PublicKey, secret: &KeyPair, password: &str) -> (r: Result<
        MixedPair,
        KvError,
    >)
        ensures
            r is Ok ==> {
                &&& (r->Ok_0)@.clear == public@
                &&& (exists|salt: Seq<u8>|
                    salt.len() == 16 && (r->Ok_0)@ == #[trigger] spec_pack(
                        public@,
                        secret@,
                        password@,
                        salt,
                    ))
                &&& spec_decrypt(password@, (r->Ok_0)@) == Some(secret@)
            },
            r is Err ==> r->Err_0 is StorageIo,
    {
        let clear = public.encode_value();
        let pt = encode_keypair(secret);
        let ptb = pt.as_str().as_bytes_vec();
        let salt = fresh_salt();
        let pwb = password.as_bytes_vec();
        let key = kdf_derive(&pwb, &salt);
        let nonce = zero_nonce_vec();
        let cipher = match aead_seal(&key, &nonce, &ptb) {
            Err(e) => {
                return Err(e);
            },
            Ok(c) => c,
        };
        let r = MixedPair { clear, salt, cipher };
        proof {
            broadcast use encode_utf8_valid_utf8, encode_utf8_decode_utf8;

            assert(r@ == spec_pack(public@, secret@, password@, r@.salt));
            lemma_keypair_round_trip(secret@);
            assert(spec_decrypt(password@, r@) == Some(secret@));
        }
        Ok(r)
    }

    /// Returns the stored cleartext half directly, without a password: a
    /// deliberate fast path for listing public identifiers that does not
    /// re-validate consistency with the encrypted half.
    pub fn clear_no_verify(&self) -> (r: PublicKey)
        ensures
            r@ == self@.clear,
    {
        PublicKey(self.clear.clone())
    }

    /// Re-derives the key from the stored salt and decrypts with
    /// authentication; fails on a wrong password or corrupted ciphertext.
    /// The failure carries no nickname here; the wallet layer attaches
    /// one where it knows it.
    pub fn decrypt(&self, password: &str) -> (r: Result<KeyPair, KvError>)
        ensures
            r is Ok <==> spec_decrypt(password@, self@) is Some,
            r is Ok ==> spec_decrypt(password@, self@) == Some((r->Ok_0)@),
            r is Err ==> r->Err_0 is DecryptionFailure,
    {
        let pwb = password.as_bytes_vec();
        let key = kdf_derive(&pwb, &self.salt);
        let nonce = zero_nonce_vec();
        let ptb = match aead_open(&key, &nonce, &self.cipher) {
            None => {
                return Err(KvError::DecryptionFailure { name: String::new() });
            },
            Some(b) => b,
        };
        let text = match String::from_utf8(ptb) {
            Ok(t) => t,
            Err(_) => {
                return Err(KvError::DecryptionFailure { name: String::new() });
            },
        };
        match decode_keypair(text.as_str()) {
            Some(kp) => Ok(kp),
            None => Err(KvError::DecryptionFailure { name: String::new() }),
        }
    }
}

impl HasTable for MixedPair {
    type Key = KeypairName;

    open spec fn table_name_spec() -> Seq<char> {
        "key_pairs"@
    }

    proof fn lemma_table_name_canonical() {
        assert(is_canonical_name("key_pairs"@)) by {
            reveal_strlit("key_pairs");
        }
    }

    open spec fn key_enc_of(k: Seq<char>) -> Seq<char> {
        k
    }

    open spec fn value_enc_of(v: MixedPairView) -> Seq<char> {
        spec_encode_fields(seq![v.clear, spec_bytes_text(v.salt), spec_bytes_text(v.cipher)])
    }

    open spec fn key_dec_of(s: Seq<char>) -> Option<Seq<char>> {
        Some(s)
    }

    open spec fn value_dec_of(s: Seq<char>) -> Option<MixedPairView> {
        match spec_fields(s) {
            None => None,
            Some(fs) => if fs.len() == 3 {
                match (spec_bytes_values(fs[1]), spec_bytes_values(fs[2])) {
                    (Some(salt), Some(cipher)) => Some(
                        MixedPairView { clear: fs[0], salt, cipher },
                    ),
                    _ => None,
                }
            } else {
                None
            },
        }
    }

    proof fn lemma_key_round_trip(k: Seq<char>) {
    }

    proof fn lemma_value_round_trip(v: MixedPairView) {
        let fs = seq![v.clear, spec_bytes_text(v.salt), spec_bytes_text(v.cipher)];
        lemma_fields_round_trip(fs);
        lemma_bytes_text_round_trip(v.salt);
        lemma_bytes_text_round_trip(v.cipher);
    }

    fn table_name() -> (r: String) {
        String::from_str("key_pairs")
    }

    fn encode_key(k: &KeypairName) -> (r: String) {
        k.0.clone()
    }

    fn encode_value(&self) -> (r: String) {
        let mut fields: Vec<String> = Vec::new();
        fields.push(self.clear.clone());
        fields.push(bytes_to_text(&self.salt));
        fields.push(bytes_to_text(&self.cipher));
        proof {
            assert(fields.deep_view() =~= seq![
                self@.clear,
                spec_bytes_text(self@.salt),
                spec_bytes_text(self@.cipher),
            ]);
        }
        encode_fields(&fields)
    }

    fn decode_key(s: &str) -> (r: Option<KeypairName>) {
        Some(KeypairName(s.to_owned()))
    }

    fn decode_value(s: &str) -> (r: Option<MixedPair>) {
        let fields = match decode_fields(s) {
            None => {
                return None;
            },
            Some(v) => v,
        };
        if fields.len() != 3 {
            return None;
        }
        proof {
            assert(fields.deep_view()[0] == fields@[0]@);
            assert(fields.deep_view()[1] == fields@[1]@);
            assert(fields.deep_view()[2] == fields@[2]@);
        }
        let salt = match text_to_bytes(fields[1].as_str()) {
            None => {
                return None;
            },
            Some(v) => v,
        };
        let cipher = match text_to_bytes(fields[2].as_str()) {
            None => {
                return None;
            },
            Some(v) => v,
        };
        Some(MixedPair { clear: fields[0].clone(), salt, cipher })
    }
}

/// Accept a password only when both interactive entries agree.
pub fn confirm_password(first: String, second: String) -> (r: Option<String>)
    ensures
        r is Some <==> first@ == second@,
        r is Some ==> (r->0)@ == first@,
{
    if first == second {
        Some(first)
    } else {
        None
    }
}

} // verus!
