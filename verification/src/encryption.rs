//! Field-level authenticated encryption.
//!
//! A field is encrypted with a key stream and sealed with an authentication
//! tag, both derived from a versioned key and a random nonce by HMAC-SHA256.
//! Several key versions can coexist, so that fields can be rotated from an old
//! key to the active one, one by one or in batches.

use std::collections::HashMap;

use vstd::prelude::*;
use vstd::string::StringSliceAdditionalSpecFns;
use vstd::utf8::{decode_utf8, encode_utf8, valid_utf8};

use crate::clock::{utc_now, wall_clock_shows, Time};
use crate::text::{decimal, name_option, parse_u32, parse_unsigned, push_decimal, text_option};

verus! {

broadcast use vstd::std_specs::hash::group_hash_axioms;

/// Length of a key in bytes.
pub const KEY_LEN: usize = 32;

/// Length of a nonce in bytes.
pub const NONCE_LEN: usize = 12;

/// Length of an authentication tag in bytes.
pub const TAG_LEN: usize = 16;

/// The HMAC-SHA256 of a message under a key.
pub uninterp spec fn hmac_sha256(key: Seq<u8>, message: Seq<u8>) -> Seq<u8>;

/// HMAC-SHA256, by `hmac::Hmac` over `sha2::Sha256`, of a message given as a
/// whole. A key of any length is accepted. The result is 32 bytes that are a
/// function of key and message; which bytes is not stated.
#[verifier::external_body]
fn hmac_digest(key: &[u8], message: &[u8]) -> (r: Vec<u8>)
    ensures
        r@ == hmac_sha256(key@, message@),
        r@.len() == 32,
{
    let mut mac = <hmac::Hmac<sha2::Sha256> as hmac::Mac>::new_from_slice(key).unwrap();
    hmac::Mac::update(&mut mac, message);
    hmac::Mac::finalize(mac).into_bytes().to_vec()
}

/// The Base64 form of bytes, in the standard alphabet with padding.
pub uninterp spec fn base64_text(data: Seq<u8>) -> Seq<char>;

/// The bytes that a Base64 text stands for, or the words that say why it stands
/// for none.
pub uninterp spec fn base64_decoded(text: Seq<char>) -> Result<Seq<u8>, Seq<char>>;

/// The words that say why bytes are no UTF-8.
pub uninterp spec fn utf8_complaint(bytes: Seq<u8>) -> Seq<char>;

/// The Base64 form of `n` bytes is no longer than a text can be.
pub open spec fn fits_base64(n: nat) -> bool {
    (n + 2) / 3 * 4 <= isize::MAX
}

/// `base64::Engine::encode` of the standard engine: a text that is a function
/// of the bytes, and from which decoding gives the bytes back.
#[verifier::external_body]
fn base64_encode(data: &[u8]) -> (r: String)
    requires
        fits_base64(data@.len()),
    ensures
        r@ == base64_text(data@),
        base64_decoded(r@) is Ok && base64_decoded(r@)->Ok_0 == data@,
{
    base64::Engine::encode(&base64::engine::general_purpose::STANDARD, data)
}

/// `base64::Engine::decode` of the standard engine, which insists on padding,
/// with the `Display` form of its error: both are a function of the text. Where
/// there are bytes, the text is their Base64 form, so that form is no longer
/// than a text can be.
#[verifier::external_body]
fn base64_decode(text: &str) -> (r: Result<Vec<u8>, String>)
    ensures
        match r {
            Ok(bytes) => {
                &&& base64_decoded(text@) is Ok
                &&& base64_decoded(text@)->Ok_0 == bytes@
                &&& fits_base64(bytes@.len())
            },
            Err(e) => base64_decoded(text@) is Err && base64_decoded(text@)->Err_0 == e@,
        },
{
    base64::Engine::decode(&base64::engine::general_purpose::STANDARD, text).map_err(
        |e| e.to_string(),
    )
}

/// `rand::RngCore::fill_bytes` of the thread's generator: a nonce of random
/// bytes.
#[verifier::external_body]
fn random_nonce() -> (r: [u8; 12]) {
    let mut nonce = [0u8; 12];
    rand::RngCore::fill_bytes(&mut rand::thread_rng(), &mut nonce);
    nonce
}

/// The nonce was drawn.
pub closed spec fn is_drawn_nonce(nonce: [u8; 12]) -> bool {
    call_ensures(crate::encryption::random_nonce, (), nonce)
}

/// `String::from_utf8`: the text that bytes encode, or the `Display` form of its
/// error, a function of the bytes, where they encode none.
#[verifier::external_body]
fn text_from_utf8(bytes: Vec<u8>) -> (r: Result<String, String>)
    ensures
        match r {
            Ok(text) => encode_utf8(text@) == bytes@,
            Err(e) => !valid_utf8(bytes@) && e@ == utf8_complaint(bytes@),
        },
{
    String::from_utf8(bytes).map_err(|e| e.to_string())
}

/// The four bytes of a 32-bit number, the most significant first.
pub open spec fn be_bytes(n: u32) -> Seq<u8> {
    seq![
        (n as int / 0x100_0000) as u8,
        (n as int / 0x1_0000 % 0x100) as u8,
        (n as int / 0x100 % 0x100) as u8,
        (n as int % 0x100) as u8,
    ]
}

/// A block of the key stream.
pub open spec fn stream_block(key: Seq<u8>, nonce: Seq<u8>, counter: u32) -> Seq<u8> {
    hmac_sha256(key, nonce + be_bytes(counter))
}

/// The block with which the byte at a place is combined; the first one has
/// number 1, and the numbers wrap around.
pub open spec fn block_number(i: int) -> u32 {
    ((i / 32 + 1) % 0x1_0000_0000) as u32
}

/// Data combined with the key stream.
pub open spec fn streamed(key: Seq<u8>, nonce: Seq<u8>, data: Seq<u8>) -> Seq<u8> {
    Seq::new(
        data.len(),
        |i: int| data[i] ^ stream_block(key, nonce, block_number(i))[i % 32],
    )
}

/// The authentication tag of a ciphertext.
pub open spec fn tag_of(key: Seq<u8>, nonce: Seq<u8>, ciphertext: Seq<u8>) -> Seq<u8> {
    hmac_sha256(stream_block(key, nonce, 0), ciphertext).take(TAG_LEN as int)
}

/// Combining with the key stream twice gives the data back.
pub proof fn streaming_twice_is_identity(key: Seq<u8>, nonce: Seq<u8>, data: Seq<u8>)
    ensures
        streamed(key, nonce, streamed(key, nonce, data)) == data,
{
    let once = streamed(key, nonce, data);
    let twice = streamed(key, nonce, once);
    assert forall|i: int| 0 <= i < data.len() implies twice[i] == data[i] by {
        let b = data[i];
        let k = stream_block(key, nonce, block_number(i))[i % 32];
        assert((b ^ k) ^ k == b) by (bit_vector);
    }
    assert(twice =~= data);
}

/// A block of the key stream.
fn kdf_block(key: &[u8; 32], nonce: &[u8; 12], counter: u32) -> (r: Vec<u8>)
    ensures
        r@ == stream_block(key@, nonce@, counter),
        r@.len() == 32,
{
    let mut message: Vec<u8> = Vec::new();
    let mut i: usize = 0;
    while i < 12
        invariant
            i <= 12,
            message@ == nonce@.take(i as int),
        decreases 12 - i,
    {
        message.push(nonce[i]);
        i = i + 1;
        assert(message@ =~= nonce@.take(i as int));
    }
    message.push((counter / 0x100_0000) as u8);
    message.push((counter / 0x1_0000 % 0x100) as u8);
    message.push((counter / 0x100 % 0x100) as u8);
    message.push((counter % 0x100) as u8);
    assert(message@ =~= nonce@ + be_bytes(counter));
    hmac_digest(key.as_slice(), message.as_slice())
}

/// Data combined with the key stream: encrypts plain data and decrypts
/// encrypted data.
fn stream_xor(key: &[u8; 32], nonce: &[u8; 12], data: &[u8]) -> (r: Vec<u8>)
    ensures
        r@ == streamed(key@, nonce@, data@),
{
    let mut out: Vec<u8> = Vec::new();
    let mut counter: u32 = 0;
    let mut block: Vec<u8> = Vec::new();
    let mut i: usize = 0;
    while i < data.len()
        invariant
            i <= data.len(),
            i % 32 != 0 ==> counter == block_number(i as int) && block@ == stream_block(
                key@,
                nonce@,
                counter,
            ) && block@.len() == 32,
            i == 0 ==> counter == 0,
            i > 0 && i % 32 == 0 ==> counter == block_number(i - 1),
            out@ == streamed(key@, nonce@, data@).take(i as int),
        decreases data.len() - i,
    {
        if i % 32 == 0 {
            proof {
                if i > 0 {
                    assert((i - 1) / 32 + 1 == i / 32);
                }
            }
            counter = counter.wrapping_add(1);
            assert(counter == block_number(i as int));
            block = kdf_block(key, nonce, counter);
        }
        assert(block_number(i as int) == counter);
        out.push(data[i] ^ block[i % 32]);
        proof {
            if (i + 1) % 32 != 0 {
                assert((i + 1) / 32 == i / 32);
            }
        }
        i = i + 1;
        assert(out@ =~= streamed(key@, nonce@, data@).take(i as int));
    }
    assert(out@ =~= streamed(key@, nonce@, data@));
    out
}

/// The authentication tag of a ciphertext.
fn compute_tag(key: &[u8; 32], nonce: &[u8; 12], ciphertext: &[u8]) -> (r: Vec<u8>)
    ensures
        r@ == tag_of(key@, nonce@, ciphertext@),
        r@.len() == TAG_LEN,
{
    let tag_key = kdf_block(key, nonce, 0);
    let mut full = hmac_digest(tag_key.as_slice(), ciphertext);
    full.truncate(TAG_LEN);
    assert(full@ =~= tag_of(key@, nonce@, ciphertext@));
    full
}

/// Compares without stopping at the first difference, so that the time taken
/// does not tell where it is.
fn ct_eq(a: &[u8], b: &[u8]) -> (r: bool)
    ensures
        r == (a@ == b@),
{
    if a.len() != b.len() {
        return false;
    }
    let mut diff: u8 = 0;
    let mut i: usize = 0;
    while i < a.len()
        invariant
            i <= a.len(),
            a.len() == b.len(),
            diff == 0 <==> forall|j: int| 0 <= j < i ==> a[j] == b[j],
        decreases a.len() - i,
    {
        let x = a[i];
        let y = b[i];
        let ghost before = diff;
        assert((before | (x ^ y)) == 0 <==> before == 0 && x == y) by (bit_vector);
        diff = diff | (x ^ y);
        i = i + 1;
    }
    assert(diff == 0 ==> a@ =~= b@);
    diff == 0
}

/// Why a field cannot be encrypted or decrypted.
#[derive(Debug)]
pub enum EncryptionError {
    AuthenticationFailed,
    InvalidFormat(String),
    KeyNotFound(u32),
    Base64(String),
}

impl EncryptionError {
    pub open spec fn message_spec(&self) -> Seq<char> {
        match self {
            EncryptionError::AuthenticationFailed => "authentication tag mismatch — ciphertext may have been tampered with"@,
            EncryptionError::InvalidFormat(reason) => "invalid ciphertext format: "@ + reason@,
            EncryptionError::KeyNotFound(version) => "key version "@ + decimal(*version as nat)
                + " not found in environment"@,
            EncryptionError::Base64(reason) => "base64 decode error: "@ + reason@,
        }
    }

    /// The error in words.
    pub fn message(&self) -> (r: String)
        ensures
            r@ == self.message_spec(),
    {
        match self {
            EncryptionError::AuthenticationFailed => "authentication tag mismatch — ciphertext may have been tampered with".to_owned(),
            EncryptionError::InvalidFormat(reason) => {
                let mut out = "invalid ciphertext format: ".to_owned();
                out.append(reason.as_str());
                out
            },
            EncryptionError::KeyNotFound(version) => {
                let mut out = "key version ".to_owned();
                push_decimal(&mut out, *version as u128);
                out.append(" not found in environment");
                out
            },
            EncryptionError::Base64(reason) => {
                let mut out = "base64 decode error: ".to_owned();
                out.append(reason.as_str());
                out
            },
        }
    }
}

/// An encrypted field: the ciphertext with its tag and the nonce, both in
/// Base64, and the version of the key.
#[derive(Debug)]
pub struct EncryptedField {
    pub ciphertext: String,
    pub nonce: String,
    pub key_version: u32,
}

impl Clone for EncryptedField {
    fn clone(&self) -> (r: Self)
        ensures
            r == *self,
    {
        EncryptedField {
            ciphertext: self.ciphertext.clone(),
            nonce: self.nonce.clone(),
            key_version: self.key_version,
        }
    }
}

/// What became of a rotation to a new key.
#[derive(Debug, Clone, Copy, PartialEq, Eq, Structural)]
pub struct KeyRotationResult {
    pub previous_version: u32,
    pub new_version: u32,
    pub rotated_at: Time,
    pub records_re_encrypted: usize,
}

/// What opening an encrypted field leads to.
pub enum Opened {
    Text(Seq<char>),
    NoKey,
    /// A text is no Base64, for the reason given.
    NotBase64(Seq<char>),
    /// The nonce has this many bytes.
    BadNonce(nat),
    TooShort,
    /// The tag is not that of the ciphertext.
    Forged,
    /// The decrypted bytes are no text.
    NotText(Seq<u8>),
}

/// Data sealed under a key: the ciphertext, and its tag behind it.
pub open spec fn sealed(key: Seq<u8>, nonce: Seq<u8>, data: Seq<u8>) -> Seq<u8> {
    streamed(key, nonce, data) + tag_of(key, nonce, streamed(key, nonce, data))
}

/// What opening sealed data leads to.
pub open spec fn unsealed(key: Seq<u8>, nonce: Seq<u8>, payload: Seq<u8>) -> Opened {
    let n = payload.len() - TAG_LEN;
    if n < 0 {
        Opened::TooShort
    } else if payload.skip(n) != tag_of(key, nonce, payload.take(n)) {
        Opened::Forged
    } else {
        let plain = streamed(key, nonce, payload.take(n));
        if valid_utf8(plain) {
            Opened::Text(decode_utf8(plain))
        } else {
            Opened::NotText(plain)
        }
    }
}

/// What opening a field leads to, with the given keys.
pub open spec fn opened(keys: Map<u32, [u8; 32]>, field: EncryptedField) -> Opened {
    if !keys.contains_key(field.key_version) {
        Opened::NoKey
    } else {
        match base64_decoded(field.nonce@) {
            Err(reason) => Opened::NotBase64(reason),
            Ok(nonce) => if nonce.len() != NONCE_LEN {
                Opened::BadNonce(nonce.len())
            } else {
                match base64_decoded(field.ciphertext@) {
                    Err(reason) => Opened::NotBase64(reason),
                    Ok(payload) => unsealed(keys[field.key_version]@, nonce, payload),
                }
            },
        }
    }
}

/// The error reports why a field could not be opened.
pub open spec fn reports(e: EncryptionError, o: Opened, version: u32) -> bool {
    match o {
        Opened::Text(_) => false,
        Opened::NoKey => e == EncryptionError::KeyNotFound(version),
        Opened::NotBase64(reason) => e is Base64 && e->Base64_0@ == reason,
        Opened::BadNonce(n) => e is InvalidFormat && e->InvalidFormat_0@
            == "nonce must be 12 bytes, got "@ + decimal(n),
        Opened::TooShort => e is InvalidFormat && e->InvalidFormat_0@
            == "ciphertext too short to contain authentication tag"@,
        Opened::Forged => e is AuthenticationFailed,
        Opened::NotText(plain) => e is InvalidFormat && e->InvalidFormat_0@
            == "plaintext is not valid UTF-8: "@ + utf8_complaint(plain),
    }
}

/// A field that opens does not open any more once its ciphertext is altered: not
/// where the tag alone was altered, and not where the text was, unless the tag of
/// the altered text happens to be the same. Without the key nothing opens.
pub proof fn altered_fields_are_refused(
    keys: Map<u32, [u8; 32]>,
    field: EncryptedField,
    altered: EncryptedField,
)
    requires
        opened(keys, field) is Text,
        altered.nonce@ == field.nonce@,
        altered.key_version == field.key_version,
        base64_decoded(altered.ciphertext@) is Ok,
    ensures
        ({
            let key = keys[field.key_version]@;
            let nonce = base64_decoded(field.nonce@)->Ok_0;
            let payload = base64_decoded(field.ciphertext@)->Ok_0;
            let other = base64_decoded(altered.ciphertext@)->Ok_0;
            let n = payload.len() - TAG_LEN;
            &&& payload.len() >= TAG_LEN
            &&& other.len() < TAG_LEN ==> opened(keys, altered) == Opened::TooShort
            &&& other.len() == payload.len() && other.take(n) == payload.take(n) && other != payload
                ==> opened(keys, altered) == Opened::Forged
            &&& other.len() == payload.len() && other.skip(n) == payload.skip(n) && tag_of(
                key,
                nonce,
                other.take(n),
            ) != tag_of(key, nonce, payload.take(n)) ==> opened(keys, altered) == Opened::Forged
        }),
        forall|few: Map<u32, [u8; 32]>|
            !few.contains_key(altered.key_version) ==> #[trigger] opened(few, altered)
                == Opened::NoKey,
{
    let payload = base64_decoded(field.ciphertext@)->Ok_0;
    let other = base64_decoded(altered.ciphertext@)->Ok_0;
    let n = payload.len() - TAG_LEN;
    if other.len() == payload.len() && other.take(n) == payload.take(n) && other.skip(n)
        == payload.skip(n) {
        assert(other =~= other.take(n) + other.skip(n));
        assert(payload =~= payload.take(n) + payload.skip(n));
    }
}

/// Encrypts a text under a key.
fn seal(key: &[u8; 32], version: u32, plaintext: &str, nonce: [u8; 12]) -> (r: EncryptedField)
    requires
        fits_base64(encode_utf8(plaintext@).len() + TAG_LEN as nat),
    ensures
        r.key_version == version,
        r.nonce@ == base64_text(nonce@),
        r.ciphertext@ == base64_text(sealed(key@, nonce@, encode_utf8(plaintext@))),
        forall|keys: Map<u32, [u8; 32]>|
            keys.contains_key(version) && keys[version] == key ==> #[trigger] opened(keys, r)
                == Opened::Text(plaintext@),
{
    let data = plaintext.as_bytes();
    let mut payload = stream_xor(key, &nonce, data);
    let mut tag = compute_tag(key, &nonce, payload.as_slice());
    let ghost ciphertext = payload@;
    payload.append(&mut tag);
    proof {
        let n = payload@.len() - TAG_LEN;
        assert(payload@ =~= sealed(key@, nonce@, data@));
        assert(payload@.take(n) =~= ciphertext);
        assert(payload@.skip(n) =~= tag_of(key@, nonce@, ciphertext));
        vstd::utf8::encode_utf8_valid_utf8(plaintext@);
        vstd::utf8::encode_utf8_decode_utf8(plaintext@);
        streaming_twice_is_identity(key@, nonce@, data@);
    }
    EncryptedField {
        ciphertext: base64_encode(payload.as_slice()),
        nonce: base64_encode(nonce.as_slice()),
        key_version: version,
    }
}

/// The key that a setting gives, if it gives one.
pub open spec fn key_of(setting: Option<Seq<char>>) -> Option<Seq<u8>> {
    match setting {
        None => Some(Seq::new(KEY_LEN as nat, |i: int| 0u8)),
        Some(text) => match base64_decoded(text) {
            Ok(bytes) => if bytes.len() == KEY_LEN {
                Some(bytes)
            } else {
                None
            },
            Err(_) => None,
        },
    }
}

/// The error says what is wrong with the setting of a version's key.
pub open spec fn setting_fails(
    version: u32,
    setting: Option<Seq<char>>,
    e: EncryptionError,
) -> bool {
    &&& key_of(setting) is None
    &&& match base64_decoded(setting->0) {
        Err(reason) => e is Base64 && e->Base64_0@ == reason,
        Ok(_) => e is InvalidFormat && e->InvalidFormat_0@ == "FIELD_ENCRYPTION_KEY_"@ + decimal(
            version as nat,
        ) + " must be a base64-encoded 32-byte key"@,
    }
}

/// The first 32 bytes as an array.
fn key_bytes(bytes: &Vec<u8>) -> (r: [u8; 32])
    requires
        bytes.len() == KEY_LEN,
    ensures
        r@ == bytes@,
{
    let mut key = [0u8; 32];
    let mut i: usize = 0;
    while i < 32
        invariant
            i <= 32,
            bytes.len() == 32,
            forall|j: int| 0 <= j < i ==> key@[j] == bytes@[j],
        decreases 32 - i,
    {
        key[i] = bytes[i];
        i = i + 1;
    }
    assert(key@ =~= bytes@);
    key
}

/// Reads the setting of a version's key, a Base64 text. Where there is none,
/// the development key is taken, all zeros.
pub fn load_key_for_version(version: u32, setting: Option<&str>) -> (r: Result<
    [u8; 32],
    EncryptionError,
>)
    ensures
        match r {
            Ok(key) => key_of(name_option(setting)) == Some(key@),
            Err(e) => setting_fails(version, name_option(setting), e),
        },
{
    match setting {
        None => {
            let key = [0u8; 32];
            assert(key@ =~= Seq::new(KEY_LEN as nat, |i: int| 0u8));
            Ok(key)
        },
        Some(text) => match base64_decode(text) {
            Err(e) => Err(EncryptionError::Base64(e)),
            Ok(bytes) => {
                if bytes.len() != KEY_LEN {
                    let mut message = "FIELD_ENCRYPTION_KEY_".to_owned();
                    push_decimal(&mut message, version as u128);
                    message.append(" must be a base64-encoded 32-byte key");
                    return Err(EncryptionError::InvalidFormat(message));
                }
                Ok(key_bytes(&bytes))
            },
        },
    }
}

/// The keys, with that of a version from its setting where they lack it.
pub open spec fn keys_with(
    keys: Map<u32, [u8; 32]>,
    version: u32,
    setting: Option<Seq<char>>,
) -> Map<u32, [u8; 32]> {
    if keys.contains_key(version) {
        keys
    } else {
        keys.insert(version, choose|key: [u8; 32]| key_of(setting) == Some(#[trigger] key@))
    }
}

/// The version's key is at hand, or its setting gives it.
pub open spec fn has_key(
    keys: Map<u32, [u8; 32]>,
    version: u32,
    setting: Option<Seq<char>>,
) -> bool {
    keys.contains_key(version) || key_of(setting) is Some
}

/// The field can be encrypted anew under a version of the key.
pub open spec fn rotatable(
    keys: Map<u32, [u8; 32]>,
    version: u32,
    setting: Option<Seq<char>>,
    field: EncryptedField,
) -> bool {
    opened(keys, field) is Text && has_key(keys, version, setting)
}

/// The new field holds the text of the old one, encrypted under a version of
/// the key with a nonce that was drawn.
pub open spec fn rotated(
    keys: Map<u32, [u8; 32]>,
    version: u32,
    setting: Option<Seq<char>>,
    field: EncryptedField,
    new_field: EncryptedField,
) -> bool {
    &&& new_field.key_version == version
    &&& opened(keys_with(keys, version, setting), new_field) == opened(keys, field)
    &&& exists|nonce: [u8; 12]|
        is_drawn_nonce(nonce) && new_field.nonce@ == base64_text(#[trigger] nonce@) && new_field.ciphertext@ == base64_text(
            sealed(
                keys_with(keys, version, setting)[version]@,
                nonce@,
                encode_utf8(opened(keys, field)->Text_0),
            ),
        )
}

/// The error says why a field cannot be encrypted anew.
pub open spec fn rotation_fails(
    keys: Map<u32, [u8; 32]>,
    version: u32,
    setting: Option<Seq<char>>,
    field: EncryptedField,
    e: EncryptionError,
) -> bool {
    if opened(keys, field) is Text {
        !keys.contains_key(version) && setting_fails(version, setting, e)
    } else {
        reports(e, opened(keys, field), field.key_version)
    }
}

/// One or more versioned keys, one of which is active.
pub struct FieldEncryptionEngine {
    keys: HashMap<u32, [u8; 32]>,
    active_version: u32,
}

impl FieldEncryptionEngine {
    pub closed spec fn view(&self) -> Map<u32, [u8; 32]> {
        self.keys@
    }

    /// The version of the key for new encryptions.
    pub closed spec fn active(&self) -> u32 {
        self.active_version
    }

    /// The engine with the given keys, by version.
    pub fn from_keys(keys: HashMap<u32, [u8; 32]>, active_version: u32) -> (r: Self)
        ensures
            r@ == keys@,
            r.active() == active_version,
    {
        FieldEncryptionEngine { keys, active_version }
    }

    /// The version of the active key.
    pub fn active_version(&self) -> (r: u32)
        ensures
            r == self.active(),
    {
        self.active_version
    }

    /// Encrypts a text with the active key and the given nonce. Decrypting the
    /// field gives the text back.
    pub fn encrypt_with(&self, plaintext: &str, nonce: [u8; 12]) -> (r: Result<
        EncryptedField,
        EncryptionError,
    >)
        requires
            fits_base64(encode_utf8(plaintext@).len() + TAG_LEN as nat),
        ensures
            match r {
                Ok(field) => {
                    &&& self@.contains_key(self.active())
                    &&& field.key_version == self.active()
                    &&& field.nonce@ == base64_text(nonce@)
                    &&& field.ciphertext@ == base64_text(
                        sealed(self@[self.active()]@, nonce@, encode_utf8(plaintext@)),
                    )
                    &&& opened(self@, field) == Opened::Text(plaintext@)
                },
                Err(e) => !self@.contains_key(self.active()) && e == EncryptionError::KeyNotFound(
                    self.active(),
                ),
            },
    {
        match self.keys.get(&self.active_version) {
            None => Err(EncryptionError::KeyNotFound(self.active_version)),
            Some(key) => Ok(seal(key, self.active_version, plaintext, nonce)),
        }
    }

    /// Encrypts a text with the active key and a random nonce. Decrypting the
    /// field gives the text back.
    pub fn encrypt(&self, plaintext: &str) -> (r: Result<EncryptedField, EncryptionError>)
        requires
            fits_base64(encode_utf8(plaintext@).len() + TAG_LEN as nat),
        ensures
            match r {
                Ok(field) => {
                    &&& self@.contains_key(self.active())
                    &&& field.key_version == self.active()
                    &&& exists|nonce: [u8; 12]|
                        is_drawn_nonce(nonce) && field.nonce@ == base64_text(#[trigger] nonce@)
                            && field.ciphertext@ == base64_text(
                            sealed(self@[self.active()]@, nonce@, encode_utf8(plaintext@)),
                        )
                    &&& opened(self@, field) == Opened::Text(plaintext@)
                },
                Err(e) => !self@.contains_key(self.active()) && e == EncryptionError::KeyNotFound(
                    self.active(),
                ),
            },
    {
        let nonce = random_nonce();
        self.encrypt_with(plaintext, nonce)
    }

    /// Decrypts a field.
    pub fn decrypt(&self, field: &EncryptedField) -> (r: Result<String, EncryptionError>)
        ensures
            match r {
                Ok(text) => opened(self@, *field) == Opened::Text(text@),
                Err(e) => reports(e, opened(self@, *field), field.key_version),
            },
            r is Ok ==> fits_base64(encode_utf8(r->Ok_0@).len() + TAG_LEN as nat),
    {
        let key = match self.keys.get(&field.key_version) {
            None => {
                return Err(EncryptionError::KeyNotFound(field.key_version));
            },
            Some(key) => key,
        };
        let nonce_bytes = match base64_decode(field.nonce.as_str()) {
            Ok(bytes) => bytes,
            Err(e) => {
                return Err(EncryptionError::Base64(e));
            },
        };
        if nonce_bytes.len() != NONCE_LEN {
            let mut text = "nonce must be 12 bytes, got ".to_owned();
            push_decimal(&mut text, nonce_bytes.len() as u128);
            return Err(EncryptionError::InvalidFormat(text));
        }
        let mut nonce = [0u8; 12];
        let mut i: usize = 0;
        while i < 12
            invariant
                i <= 12,
                nonce_bytes.len() == 12,
                forall|j: int| 0 <= j < i ==> nonce@[j] == nonce_bytes@[j],
            decreases 12 - i,
        {
            nonce[i] = nonce_bytes[i];
            i = i + 1;
        }
        assert(nonce@ =~= nonce_bytes@);
        let mut payload = match base64_decode(field.ciphertext.as_str()) {
            Ok(bytes) => bytes,
            Err(e) => {
                return Err(EncryptionError::Base64(e));
            },
        };
        if payload.len() < TAG_LEN {
            return Err(
                EncryptionError::InvalidFormat(
                    "ciphertext too short to contain authentication tag".to_owned(),
                ),
            );
        }
        let ghost whole = payload@;
        let n: usize = payload.len() - TAG_LEN;
        let tag = payload.split_off(n);
        assert(payload@ =~= whole.take(n as int));
        assert(tag@ =~= whole.skip(n as int));
        let expected = compute_tag(key, &nonce, payload.as_slice());
        if !ct_eq(tag.as_slice(), expected.as_slice()) {
            return Err(EncryptionError::AuthenticationFailed);
        }
        let plain = stream_xor(key, &nonce, payload.as_slice());
        let ghost bytes = plain@;
        assert(bytes.len() == n);
        match text_from_utf8(plain) {
            Ok(text) => {
                proof {
                    vstd::utf8::encode_utf8_valid_utf8(text@);
                    vstd::utf8::encode_utf8_decode_utf8(text@);
                }
                Ok(text)
            },
            Err(reason) => {
                let mut message = "plaintext is not valid UTF-8: ".to_owned();
                message.append(reason.as_str());
                Err(EncryptionError::InvalidFormat(message))
            },
        }
    }

    /// Encrypts a field anew under another version of the key. Where the
    /// engine lacks that version, the setting for it is read.
    pub fn rotate_field(
        &self,
        field: &EncryptedField,
        new_version: u32,
        setting: Option<&str>,
    ) -> (r: Result<(EncryptedField, KeyRotationResult), EncryptionError>)
        ensures
            match r {
                Ok((new_field, result)) => {
                    &&& rotatable(self@, new_version, name_option(setting), *field)
                    &&& rotated(self@, new_version, name_option(setting), *field, new_field)
                    &&& result.previous_version == field.key_version
                    &&& result.new_version == new_version
                    &&& result.records_re_encrypted == 1
                    &&& wall_clock_shows(result.rotated_at)
                },
                Err(e) => rotation_fails(self@, new_version, name_option(setting), *field, e),
            },
    {
        let plaintext = match self.decrypt(field) {
            Ok(text) => text,
            Err(e) => {
                return Err(e);
            },
        };
        let nonce = random_nonce();
        let new_field = match self.keys.get(&new_version) {
            Some(key) => seal(key, new_version, plaintext.as_str(), nonce),
            None => {
                match load_key_for_version(new_version, setting) {
                    Ok(key) => {
                        let sealed = seal(&key, new_version, plaintext.as_str(), nonce);
                        assert(keys_with(self@, new_version, name_option(setting))[new_version]@
                            == key@);
                        assert(keys_with(self@, new_version, name_option(setting))[new_version]
                            == key);
                        sealed
                    },
                    Err(e) => {
                        return Err(e);
                    },
                }
            },
        };
        let result = KeyRotationResult {
            previous_version: field.key_version,
            new_version,
            rotated_at: utc_now(),
            records_re_encrypted: 1,
        };
        Ok((new_field, result))
    }
}

/// The version of the active key that a setting gives: 1 where there is none,
/// or it is no number.
pub fn active_version_of(setting: Option<&str>) -> (r: u32)
    ensures
        r == match setting {
            Some(text) => match parse_unsigned(text@, u32::MAX as nat) {
                Some(n) => n as u32,
                None => 1u32,
            },
            None => 1u32,
        },
{
    match setting {
        Some(text) => match parse_u32(text) {
            Some(n) => n,
            None => 1,
        },
        None => 1,
    }
}

/// The oldest version of the key that is loaded beside the active one.
pub open spec fn oldest_version(active_version: u32) -> u32 {
    if active_version >= 9 {
        (active_version - 9) as u32
    } else {
        0
    }
}

/// The versions of the key to be loaded: the active one and up to nine before
/// it, the oldest first.
pub fn versions_to_load(active_version: u32) -> (r: Vec<u32>)
    ensures
        r@ == Seq::new(
            (active_version - oldest_version(active_version) + 1) as nat,
            |i: int| (oldest_version(active_version) + i) as u32,
        ),
{
    let mut out: Vec<u32> = Vec::new();
    let oldest: u32 = if active_version >= 9 {
        active_version - 9
    } else {
        0
    };
    let count: u32 = active_version - oldest;
    let mut i: u32 = 0;
    while i <= count
        invariant
            i <= count + 1,
            count <= 9,
            oldest == oldest_version(active_version),
            count == active_version - oldest,
            out@ == Seq::new(i as nat, |j: int| (oldest + j) as u32),
        decreases count + 1 - i,
    {
        out.push(oldest + i);
        i = i + 1;
        assert(out@ =~= Seq::new(i as nat, |j: int| (oldest + j) as u32));
    }
    out
}

/// The settings give a key each.
pub open spec fn all_give_keys(settings: Seq<Option<String>>) -> bool {
    forall|i: int| 0 <= i < settings.len() ==> key_of(text_option(#[trigger] settings[i])) is Some
}

/// An optional text, borrowed.
fn borrowed(s: &Option<String>) -> (r: Option<&str>)
    ensures
        name_option(r) == text_option(*s),
{
    match s {
        Some(text) => Some(text.as_str()),
        None => None,
    }
}

impl FieldEncryptionEngine {
    /// The engine with the keys that the settings give, one setting for each
    /// of the versions to be loaded, in their order. The first setting that
    /// gives no key is an error.
    pub fn from_settings(active_version: u32, settings: &Vec<Option<String>>) -> (r: Result<
        Self,
        EncryptionError,
    >)
        requires
            settings@.len() == active_version - oldest_version(active_version) + 1,
        ensures
            match r {
                Ok(engine) => {
                    &&& all_give_keys(settings@)
                    &&& engine.active() == active_version
                    &&& forall|v: u32| #[trigger]
                        engine@.contains_key(v) <==> oldest_version(active_version) <= v
                            <= active_version
                    &&& forall|v: u32|
                        oldest_version(active_version) <= v <= active_version ==> key_of(
                            text_option(settings@[v - oldest_version(active_version)]),
                        ) == Some((#[trigger] engine@[v])@)
                },
                Err(e) => exists|i: int|
                    0 <= i < settings@.len() && all_give_keys(settings@.take(i)) && setting_fails(
                        (oldest_version(active_version) + i) as u32,
                        text_option(#[trigger] settings@[i]),
                        e,
                    ),
            },
    {
        let versions = versions_to_load(active_version);
        let ghost oldest = oldest_version(active_version);
        let mut keys: HashMap<u32, [u8; 32]> = HashMap::new();
        let mut i: usize = 0;
        while i < versions.len()
            invariant
                i <= versions.len() == settings.len(),
                settings@.len() <= 10,
                oldest == oldest_version(active_version),
                settings@.len() == active_version - oldest + 1,
                versions@ == Seq::new(
                    (active_version - oldest + 1) as nat,
                    |j: int| (oldest + j) as u32,
                ),
                all_give_keys(settings@.take(i as int)),
                forall|v: u32| #[trigger] keys@.contains_key(v) <==> oldest <= v < oldest + i,
                forall|v: u32|
                    oldest <= v < oldest + i ==> key_of(text_option(settings@[v - oldest])) == Some(
                        (#[trigger] keys@[v])@,
                    ),
            decreases versions.len() - i,
        {
            let version = versions[i];
            assert(version == oldest + i);
            match load_key_for_version(version, borrowed(&settings[i])) {
                Ok(key) => {
                    keys.insert(version, key);
                },
                Err(e) => {
                    return Err(e);
                },
            }
            i = i + 1;
            proof {
                let now = settings@.take(i as int);
                assert forall|j: int| 0 <= j < now.len() implies key_of(
                    text_option(#[trigger] now[j]),
                ) is Some by {
                    if j < i - 1 {
                        assert(settings@.take(i - 1)[j] == now[j]);
                    }
                }
            }
        }
        assert(settings@.take(i as int) =~= settings@);
        Ok(FieldEncryptionEngine { keys, active_version })
    }
}

/// A stored record that may have to be encrypted anew.
#[derive(Debug)]
pub struct BackfillRecord {
    pub id: String,
    pub field: EncryptedField,
}

/// Where a run left off.
#[derive(Debug, Clone, Copy, PartialEq, Eq, Structural)]
pub struct BackfillCursor {
    pub offset: usize,
}

impl Default for BackfillCursor {
    fn default() -> (r: Self)
        ensures
            r.offset == 0,
    {
        BackfillCursor { offset: 0 }
    }
}

/// What became of one batch.
pub struct BackfillBatchResult {
    /// The identifiers and new fields of the records encrypted anew.
    pub updated: Vec<(String, EncryptedField)>,
    /// How many records were under the active key already.
    pub skipped_already_current: usize,
    /// The identifiers of the records that could not be encrypted anew, with
    /// the reasons.
    pub failed: Vec<(String, String)>,
    /// Where to go on.
    pub next_cursor: BackfillCursor,
    /// The batch reached the end of the records.
    pub done: bool,
}

impl Default for BackfillBatchResult {
    /// A batch that has treated nothing.
    fn default() -> (r: Self)
        ensures
            r.updated@ == Seq::<(String, EncryptedField)>::empty(),
            r.skipped_already_current == 0,
            r.failed@ == Seq::<(String, String)>::empty(),
            r.next_cursor.offset == 0,
            !r.done,
    {
        BackfillBatchResult {
            updated: Vec::new(),
            skipped_already_current: 0,
            failed: Vec::new(),
            next_cursor: BackfillCursor::default(),
            done: false,
        }
    }
}

/// What a batch makes of a record.
pub enum RecordFate {
    Current,
    Updated,
    Failed,
}

/// What a batch makes of a record, for an engine with the given keys.
pub open spec fn fate(
    keys: Map<u32, [u8; 32]>,
    active: u32,
    setting: Option<Seq<char>>,
    field: EncryptedField,
) -> RecordFate {
    if field.key_version == active {
        RecordFate::Current
    } else if rotatable(keys, active, setting, field) {
        RecordFate::Updated
    } else {
        RecordFate::Failed
    }
}

/// The places of the records of a range that meet a fate, in order.
pub open spec fn places(
    keys: Map<u32, [u8; 32]>,
    active: u32,
    setting: Option<Seq<char>>,
    records: Seq<BackfillRecord>,
    from: int,
    to: int,
    wanted: RecordFate,
) -> Seq<int>
    decreases to - from,
{
    if to <= from {
        Seq::empty()
    } else {
        let head = places(keys, active, setting, records, from, to - 1, wanted);
        if fate(keys, active, setting, records[to - 1].field) == wanted {
            head.push(to - 1)
        } else {
            head
        }
    }
}

/// The entries are the records at the given places, encrypted anew.
pub open spec fn updates(
    keys: Map<u32, [u8; 32]>,
    active: u32,
    setting: Option<Seq<char>>,
    records: Seq<BackfillRecord>,
    at: Seq<int>,
    entries: Seq<(String, EncryptedField)>,
) -> bool {
    &&& entries.len() == at.len()
    &&& forall|j: int|
        0 <= j < at.len() ==> (#[trigger] entries[j]).0@ == records[at[j]].id@ && rotated(
            keys,
            active,
            setting,
            records[at[j]].field,
            entries[j].1,
        )
}

/// The text gives a reason why the field cannot be encrypted anew.
pub open spec fn explains(
    keys: Map<u32, [u8; 32]>,
    active: u32,
    setting: Option<Seq<char>>,
    field: EncryptedField,
    text: Seq<char>,
) -> bool {
    exists|e: EncryptionError|
        rotation_fails(keys, active, setting, field, e) && text == #[trigger] e.message_spec()
}

/// The entries are the records at the given places, with the reasons why they
/// cannot be encrypted anew.
pub open spec fn failures(
    keys: Map<u32, [u8; 32]>,
    active: u32,
    setting: Option<Seq<char>>,
    records: Seq<BackfillRecord>,
    at: Seq<int>,
    entries: Seq<(String, String)>,
) -> bool {
    &&& entries.len() == at.len()
    &&& forall|j: int|
        0 <= j < at.len() ==> (#[trigger] entries[j]).0@ == records[at[j]].id@ && explains(
            keys,
            active,
            setting,
            records[at[j]].field,
            entries[j].1@,
        )
}

/// The place of the first record of a batch.
pub open spec fn batch_start(cursor: BackfillCursor, count: nat) -> int {
    if cursor.offset <= count {
        cursor.offset as int
    } else {
        count as int
    }
}

/// The place behind the last record of a batch.
pub open spec fn batch_end(cursor: BackfillCursor, batch_size: usize, count: nat) -> int {
    if batch_start(cursor, count) + batch_size <= count {
        batch_start(cursor, count) + batch_size
    } else {
        count as int
    }
}

/// Every record of a range meets exactly one fate.
pub proof fn every_record_meets_one_fate(
    keys: Map<u32, [u8; 32]>,
    active: u32,
    setting: Option<Seq<char>>,
    records: Seq<BackfillRecord>,
    from: int,
    to: int,
)
    requires
        from <= to,
    ensures
        places(keys, active, setting, records, from, to, RecordFate::Current).len() + places(
            keys,
            active,
            setting,
            records,
            from,
            to,
            RecordFate::Updated,
        ).len() + places(keys, active, setting, records, from, to, RecordFate::Failed).len() == to
            - from,
    decreases to - from,
{
    if from < to {
        every_record_meets_one_fate(keys, active, setting, records, from, to - 1);
    }
}

/// Two batches of which the second goes on where the first left off treat the
/// records as one batch over both does: none is treated twice, none is left
/// out.
pub proof fn resuming_neither_repeats_nor_skips(
    keys: Map<u32, [u8; 32]>,
    active: u32,
    setting: Option<Seq<char>>,
    records: Seq<BackfillRecord>,
    from: int,
    middle: int,
    to: int,
    wanted: RecordFate,
)
    requires
        from <= middle <= to,
    ensures
        places(keys, active, setting, records, from, middle, wanted) + places(
            keys,
            active,
            setting,
            records,
            middle,
            to,
            wanted,
        ) == places(keys, active, setting, records, from, to, wanted),
    decreases to - middle,
{
    if middle < to {
        resuming_neither_repeats_nor_skips(
            keys,
            active,
            setting,
            records,
            from,
            middle,
            to - 1,
            wanted,
        );
    }
    assert(places(keys, active, setting, records, from, middle, wanted) + places(
        keys,
        active,
        setting,
        records,
        middle,
        to,
        wanted,
    ) =~= places(keys, active, setting, records, from, to, wanted));
}

/// Encrypts one batch of records anew under the active key, starting at the
/// cursor. Records under that key already are skipped.
pub fn run_backfill_batch(
    engine: &FieldEncryptionEngine,
    records: &[BackfillRecord],
    cursor: BackfillCursor,
    batch_size: usize,
    setting: Option<&str>,
) -> (r: BackfillBatchResult)
    ensures
        ({
            let from = batch_start(cursor, records@.len());
            let to = batch_end(cursor, batch_size, records@.len());
            let s = name_option(setting);
            &&& r.next_cursor.offset == to
            &&& r.done == (to >= records@.len())
            &&& r.skipped_already_current == places(
                engine@,
                engine.active(),
                s,
                records@,
                from,
                to,
                RecordFate::Current,
            ).len()
            &&& updates(
                engine@,
                engine.active(),
                s,
                records@,
                places(engine@, engine.active(), s, records@, from, to, RecordFate::Updated),
                r.updated@,
            )
            &&& failures(
                engine@,
                engine.active(),
                s,
                records@,
                places(engine@, engine.active(), s, records@, from, to, RecordFate::Failed),
                r.failed@,
            )
            &&& r.updated@.len() + r.skipped_already_current + r.failed@.len() == to - from
        }),
{
    let count = records.len();
    let start: usize = if cursor.offset <= count {
        cursor.offset
    } else {
        count
    };
    let end: usize = if batch_size <= count - start {
        start + batch_size
    } else {
        count
    };
    let mut updated: Vec<(String, EncryptedField)> = Vec::new();
    let mut failed: Vec<(String, String)> = Vec::new();
    let mut skipped: usize = 0;
    let mut i = start;
    let ghost keys = engine@;
    let ghost active = engine.active();
    let ghost s = name_option(setting);
    while i < end
        invariant
            start <= i <= end <= records.len(),
            keys == engine@,
            active == engine.active(),
            s == name_option(setting),
            skipped <= i - start,
            skipped == places(
                keys,
                active,
                s,
                records@,
                start as int,
                i as int,
                RecordFate::Current,
            ).len(),
            updates(
                keys,
                active,
                s,
                records@,
                places(keys, active, s, records@, start as int, i as int, RecordFate::Updated),
                updated@,
            ),
            failures(
                keys,
                active,
                s,
                records@,
                places(keys, active, s, records@, start as int, i as int, RecordFate::Failed),
                failed@,
            ),
        decreases end - i,
    {
        let record = &records[i];
        let ghost at_updated = places(
            keys,
            active,
            s,
            records@,
            start as int,
            i as int,
            RecordFate::Updated,
        );
        let ghost at_failed = places(
            keys,
            active,
            s,
            records@,
            start as int,
            i as int,
            RecordFate::Failed,
        );
        if record.field.key_version == engine.active_version() {
            skipped = skipped + 1;
        } else {
            match engine.rotate_field(&record.field, engine.active_version(), setting) {
                Ok((new_field, _)) => {
                    updated.push((record.id.clone(), new_field));
                    assert(at_updated.push(i as int).drop_last() =~= at_updated);
                },
                Err(e) => {
                    let reason = e.message();
                    assert(explains(keys, active, s, record.field, reason@));
                    failed.push((record.id.clone(), reason));
                },
            }
        }
        i = i + 1;
    }
    proof {
        every_record_meets_one_fate(keys, active, s, records@, start as int, end as int);
    }
    BackfillBatchResult {
        updated,
        skipped_already_current: skipped,
        failed,
        next_cursor: BackfillCursor { offset: end },
        done: end >= count,
    }
}

/// What became of the batches of a run so far.
pub struct BackfillSummary {
    pub total_updated: usize,
    pub total_skipped: usize,
    pub total_failed: usize,
    pub failed: Vec<(String, String)>,
    pub final_cursor: BackfillCursor,
}

impl Default for BackfillSummary {
    /// The summary of a run that starts with the first record.
    fn default() -> (r: Self)
        ensures
            r.total_updated == 0,
            r.total_skipped == 0,
            r.total_failed == 0,
            r.failed@ == Seq::<(String, String)>::empty(),
            r.final_cursor.offset == 0,
    {
        Self::starting_at(BackfillCursor::default())
    }
}

impl BackfillSummary {
    /// The number of records treated so far.
    pub open spec fn treated(&self) -> int {
        self.total_updated + self.total_skipped + self.total_failed
    }

    /// The summary of a run that starts at the cursor.
    pub fn starting_at(cursor: BackfillCursor) -> (r: Self)
        ensures
            r.treated() == 0,
            r.total_updated == 0,
            r.total_skipped == 0,
            r.total_failed == 0,
            r.failed@ == Seq::<(String, String)>::empty(),
            r.final_cursor == cursor,
    {
        BackfillSummary {
            total_updated: 0,
            total_skipped: 0,
            total_failed: 0,
            failed: Vec::new(),
            final_cursor: cursor,
        }
    }

    /// Runs the next batch of the run and adds it to the summary. The run is
    /// over when the batch is done.
    pub fn next_batch(
        &mut self,
        engine: &FieldEncryptionEngine,
        records: &[BackfillRecord],
        batch_size: usize,
        setting: Option<&str>,
    ) -> (r: BackfillBatchResult)
        requires
            old(self).treated() <= batch_start(old(self).final_cursor, records@.len()),
        ensures
            ({
                let from = batch_start(old(self).final_cursor, records@.len());
                let to = batch_end(old(self).final_cursor, batch_size, records@.len());
                let s = name_option(setting);
                &&& r.next_cursor.offset == to
                &&& r.done == (to >= records@.len())
                &&& updates(
                    engine@,
                    engine.active(),
                    s,
                    records@,
                    places(engine@, engine.active(), s, records@, from, to, RecordFate::Updated),
                    r.updated@,
                )
                &&& failures(
                    engine@,
                    engine.active(),
                    s,
                    records@,
                    places(engine@, engine.active(), s, records@, from, to, RecordFate::Failed),
                    r.failed@,
                )
                &&& r.skipped_already_current == places(
                    engine@,
                    engine.active(),
                    s,
                    records@,
                    from,
                    to,
                    RecordFate::Current,
                ).len()
                &&& final(self).treated() == old(self).treated() + (to - from)
            }),
            final(self).total_updated == old(self).total_updated + r.updated@.len(),
            final(self).total_skipped == old(self).total_skipped + r.skipped_already_current,
            final(self).total_failed == old(self).total_failed + r.failed@.len(),
            final(self).failed@ == old(self).failed@ + r.failed@,
            final(self).final_cursor == r.next_cursor,
            final(self).treated() <= batch_start(final(self).final_cursor, records@.len()),
    {
        let batch = run_backfill_batch(engine, records, self.final_cursor, batch_size, setting);
        self.total_updated = self.total_updated + batch.updated.len();
        self.total_skipped = self.total_skipped + batch.skipped_already_current;
        self.total_failed = self.total_failed + batch.failed.len();
        let mut i: usize = 0;
        let ghost entry = *self;
        while i < batch.failed.len()
            invariant
                i <= batch.failed.len(),
                self.total_updated == entry.total_updated,
                self.total_skipped == entry.total_skipped,
                self.total_failed == entry.total_failed,
                self.final_cursor == entry.final_cursor,
                self.failed@ == entry.failed@ + batch.failed@.take(i as int),
            decreases batch.failed.len() - i,
        {
            let id = batch.failed[i].0.clone();
            let reason = batch.failed[i].1.clone();
            self.failed.push((id, reason));
            i = i + 1;
            assert(self.failed@ =~= entry.failed@ + batch.failed@.take(i as int));
        }
        assert(batch.failed@.take(i as int) =~= batch.failed@);
        self.final_cursor = batch.next_cursor;
        batch
    }
}

/// The columns that hold sensitive data: table and field.
pub const SENSITIVE_FIELDS: [(&'static str, &'static str); 5] = [
    ("two_factor_config", "secret"),
    ("two_factor_config", "phone"),
    ("two_factor_config", "email"),
    ("reminder_preferences", "channels"),
    ("unsubscribe_tokens", "owner"),
];

/// Encrypts a value, if there is one and the active key is at hand.
pub fn encrypt_optional(engine: &FieldEncryptionEngine, value: Option<&str>) -> (r: Option<
    EncryptedField,
>)
    requires
        value is Some ==> fits_base64(encode_utf8(value->0@).len() + TAG_LEN as nat),
    ensures
        r is Some <==> value is Some && engine@.contains_key(engine.active()),
        r matches Some(field) ==> field.key_version == engine.active() && opened(engine@, field)
            == Opened::Text(value->0@),
{
    match value {
        Some(text) => match engine.encrypt(text) {
            Ok(field) => Some(field),
            Err(_) => None,
        },
        None => None,
    }
}

/// Decrypts a field, if there is one and it can be opened.
pub fn decrypt_optional(engine: &FieldEncryptionEngine, field: Option<&EncryptedField>) -> (r:
    Option<String>)
    ensures
        match field {
            Some(f) => match opened(engine@, *f) {
                Opened::Text(text) => r is Some && r->0@ == text,
                _ => r is None,
            },
            None => r is None,
        },
{
    match field {
        Some(f) => match engine.decrypt(f) {
            Ok(text) => Some(text),
            Err(_) => None,
        },
        None => None,
    }
}

/// What opens was sealed under its key: its last 16 bytes are the first 16 of the HMAC of
/// all bytes before them, under a key derived from the field's own key and nonce.
pub proof fn opened_fields_are_authentic(keys: Map<u32, [u8; 32]>, field: EncryptedField)
    requires
        opened(keys, field) is Text,
    ensures
        keys.contains_key(field.key_version),
        base64_decoded(field.nonce@) is Ok,
        base64_decoded(field.ciphertext@) is Ok,
        ({
            let key = keys[field.key_version]@;
            let nonce = base64_decoded(field.nonce@)->Ok_0;
            let payload = base64_decoded(field.ciphertext@)->Ok_0;
            let n = payload.len() - 16;
            &&& nonce.len() == 12
            &&& n >= 0
            &&& payload.skip(n) == hmac_sha256(
                hmac_sha256(key, nonce + seq![0u8, 0u8, 0u8, 0u8]),
                payload.take(n),
            ).take(16)
            &&& opened(keys, field) == Opened::Text(
                decode_utf8(
                    Seq::new(
                        n as nat,
                        |i: int|
                            payload[i] ^ hmac_sha256(
                                key,
                                nonce + be_bytes(((i / 32 + 1) % 0x1_0000_0000) as u32),
                            )[i % 32],
                    ),
                ),
            )
        }),
{
    let key = keys[field.key_version]@;
    let nonce = base64_decoded(field.nonce@)->Ok_0;
    let payload = base64_decoded(field.ciphertext@)->Ok_0;
    let n = payload.len() - 16;
    assert(be_bytes(0) =~= seq![0u8, 0u8, 0u8, 0u8]) by {
        lemma_small_counters(0);
    }
    assert(streamed(key, nonce, payload.take(n)) =~= Seq::new(
        n as nat,
        |i: int|
            payload[i] ^ hmac_sha256(
                key,
                nonce + be_bytes(((i / 32 + 1) % 0x1_0000_0000) as u32),
            )[i % 32],
    ));
}

proof fn lemma_small_counters(n: u32)
    requires
        n < 256,
    ensures
        be_bytes(n) == seq![0u8, 0u8, 0u8, n as u8],
{
    assert(be_bytes(n) =~= seq![0u8, 0u8, 0u8, n as u8]);
}

/// Each block of 32 bytes is combined with a block of the key stream of its own, counted
/// from one; the block with number zero is for the tag alone.
pub proof fn blocks_have_their_own_numbers(i: int, j: int)
    requires
        0 <= i,
        0 <= j,
        i / 32 < 0xFFFF_FFFF,
        j / 32 < 0xFFFF_FFFF,
    ensures
        block_number(i) == i / 32 + 1,
        block_number(i) != 0,
        block_number(i) == block_number(j) <==> i / 32 == j / 32,
{
}

/// Sealing keeps the length and adds 16 bytes, and what was sealed under a key and a
/// nonce is opened with the same key.
pub proof fn sealed_texts_open(key: Seq<u8>, nonce: Seq<u8>, data: Seq<u8>)
    requires
        tag_of(key, nonce, streamed(key, nonce, data)).len() == 16,
        valid_utf8(data),
    ensures
        sealed(key, nonce, data).len() == data.len() + 16,
        unsealed(key, nonce, sealed(key, nonce, data)) == Opened::Text(decode_utf8(data)),
{
    let payload = sealed(key, nonce, data);
    let n = payload.len() - TAG_LEN;
    assert(payload.take(n) =~= streamed(key, nonce, data));
    assert(payload.skip(n) =~= tag_of(key, nonce, streamed(key, nonce, data)));
    streaming_twice_is_identity(key, nonce, data);
}

/// A field that was encrypted anew is under the new version and holds the text of the
/// old one, for whoever has that key.
pub proof fn rotation_keeps_the_text(
    keys: Map<u32, [u8; 32]>,
    version: u32,
    setting: Option<Seq<char>>,
    field: EncryptedField,
    new_field: EncryptedField,
)
    requires
        rotatable(keys, version, setting, field),
        rotated(keys, version, setting, field, new_field),
    ensures
        new_field.key_version == version,
        opened(keys, field) is Text,
        keys.contains_key(version) ==> opened(keys, new_field) == opened(keys, field),
{
}

/// A record is skipped exactly where it is under the active key already; any other is
/// encrypted anew where it opens and the active key can be had, and fails otherwise.
pub proof fn fates_follow_the_key_versions(
    keys: Map<u32, [u8; 32]>,
    active: u32,
    setting: Option<Seq<char>>,
    field: EncryptedField,
)
    ensures
        fate(keys, active, setting, field) is Current <==> field.key_version == active,
        fate(keys, active, setting, field) is Updated <==> field.key_version != active && opened(
            keys,
            field,
        ) is Text && (keys.contains_key(active) || key_of(setting) is Some),
{
}

/// A batch goes on at the cursor and treats as many records as asked for, or all that are
/// left. It gets ahead as long as records are left, and the next one starts where it
/// ended.
pub proof fn batches_get_ahead(cursor: BackfillCursor, batch_size: usize, count: nat)
    ensures
        ({
            let from = batch_start(cursor, count);
            let to = batch_end(cursor, batch_size, count);
            &&& cursor.offset <= count ==> from == cursor.offset
            &&& from <= to <= count
            &&& to - from <= batch_size
            &&& to < count ==> to - from == batch_size
            &&& from < count && batch_size > 0 ==> to > from
            &&& to <= usize::MAX ==> batch_start(BackfillCursor { offset: to as usize }, count) == to
        }),
{
}

/// A key is 32 bytes. A setting gives the bytes that it encodes, if they are as many, and
/// without a setting the key is all zeros.
pub proof fn keys_are_as_they_were_set(setting: Option<Seq<char>>)
    ensures
        key_of(setting) matches Some(key) ==> key.len() == 32,
        setting is None ==> key_of(setting) is Some && forall|i: int|
            0 <= i < 32 ==> #[trigger] key_of(setting)->0[i] == 0,
        setting matches Some(text) ==> (key_of(setting) is Some <==> (base64_decoded(
            text,
        ) matches Ok(bytes) && bytes.len() == 32)),
        setting matches Some(text) ==> (key_of(setting) matches Some(key) ==> base64_decoded(text)
            == Ok::<Seq<u8>, Seq<char>>(key)),
{
}

/// The keys of the active version and of the nine before it are loaded.
pub proof fn ten_versions_are_loaded(active_version: u32)
    ensures
        oldest_version(active_version) <= active_version,
        active_version - oldest_version(active_version) <= 9,
        active_version >= 9 ==> active_version - oldest_version(active_version) == 9,
        active_version < 9 ==> oldest_version(active_version) == 0,
{
}

/// The four bytes of a number make it up, the most significant first.
pub proof fn four_bytes_make_up_a_number(n: u32)
    ensures
        be_bytes(n).len() == 4,
        be_bytes(n)[0] * 0x100_0000 + be_bytes(n)[1] * 0x1_0000 + be_bytes(n)[2] * 0x100 + be_bytes(
            n,
        )[3] == n,
{
}

/// A field that cannot be opened is refused by what is wrong with it: a key that is missing,
/// a form that is not right, or a tag that does not fit. One that opens is not refused.
pub proof fn refusals_name_the_fault(
    e: EncryptionError,
    keys: Map<u32, [u8; 32]>,
    field: EncryptedField,
)
    requires
        reports(e, opened(keys, field), field.key_version),
    ensures
        !(opened(keys, field) is Text),
        !keys.contains_key(field.key_version) <==> e == EncryptionError::KeyNotFound(
            field.key_version,
        ),
        e is AuthenticationFailed <==> opened(keys, field) is Forged,
        e is Base64 ==> base64_decoded(field.nonce@) is Err || base64_decoded(
            field.ciphertext@,
        ) is Err,
{
}

/// Each record of a batch that is not under the active key is either among the updated ones,
/// with its text under the active key, or among the failed ones.
pub proof fn batches_treat_every_record(
    keys: Map<u32, [u8; 32]>,
    active: u32,
    setting: Option<Seq<char>>,
    records: Seq<BackfillRecord>,
    from: int,
    to: int,
    updated: Seq<(String, EncryptedField)>,
    failed: Seq<(String, String)>,
    i: int,
)
    requires
        0 <= from <= i < to <= records.len(),
        updates(
            keys,
            active,
            setting,
            records,
            places(keys, active, setting, records, from, to, RecordFate::Updated),
            updated,
        ),
        failures(
            keys,
            active,
            setting,
            records,
            places(keys, active, setting, records, from, to, RecordFate::Failed),
            failed,
        ),
        records[i].field.key_version != active,
    ensures
        opened(keys, records[i].field) is Text && keys.contains_key(active) ==> exists|j: int|
            0 <= j < updated.len() && (#[trigger] updated[j]).0@ == records[i].id@
                && updated[j].1.key_version == active && opened(keys, updated[j].1) == opened(
                keys,
                records[i].field,
            ),
        !(opened(keys, records[i].field) is Text) ==> exists|j: int|
            0 <= j < failed.len() && (#[trigger] failed[j]).0@ == records[i].id@,
{
    let field = records[i].field;
    if opened(keys, field) is Text && keys.contains_key(active) {
        let at = places(keys, active, setting, records, from, to, RecordFate::Updated);
        lemma_place_of_fate(keys, active, setting, records, from, to, i);
        let j = at.index_of(i);
        assert(rotated(keys, active, setting, records[at[j]].field, updated[j].1));
    }
    if !(opened(keys, field) is Text) {
        let at = places(keys, active, setting, records, from, to, RecordFate::Failed);
        lemma_place_of_fate(keys, active, setting, records, from, to, i);
        let j = at.index_of(i);
        assert(failed[j].0@ == records[at[j]].id@);
    }
}

proof fn lemma_place_of_fate(
    keys: Map<u32, [u8; 32]>,
    active: u32,
    setting: Option<Seq<char>>,
    records: Seq<BackfillRecord>,
    from: int,
    to: int,
    i: int,
)
    requires
        from <= i < to,
    ensures
        places(
            keys,
            active,
            setting,
            records,
            from,
            to,
            fate(keys, active, setting, records[i].field),
        ).contains(i),
    decreases to - from,
{
    let wanted = fate(keys, active, setting, records[i].field);
    let all = places(keys, active, setting, records, from, to, wanted);
    if i < to - 1 {
        lemma_place_of_fate(keys, active, setting, records, from, to - 1, i);
        let head = places(keys, active, setting, records, from, to - 1, wanted);
        assert(all[head.index_of(i)] == i);
    } else {
        assert(all[all.len() - 1] == i);
    }
}

} // verus!
