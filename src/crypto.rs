//! Hex codec, Ed25519 signature checks, timestamp windows and the binding
//! between a database name and the public key that owns it.
use vstd::prelude::*;
use vstd::string::*;
use ed25519_dalek::{Signer, Verifier};

verus! {

pub const ED25519_PUBLIC_KEY_LENGTH: usize = 32;

pub const ED25519_SIGNATURE_LENGTH: usize = 64;

pub const MAX_MESSAGE_LENGTH: usize = 1048576;

pub const MIN_TIMESTAMP_TOLERANCE: u64 = 300;

pub const MAX_TIMESTAMP_TOLERANCE: u64 = 3600;

/// Numeric value of an ASCII hex digit (either case).
pub open spec fn hex_value(c: char) -> u8 {
    if '0' <= c && c <= '9' {
        (c as u32 - '0' as u32) as u8
    } else if 'a' <= c && c <= 'f' {
        (c as u32 - 'a' as u32 + 10) as u8
    } else {
        (c as u32 - 'A' as u32 + 10) as u8
    }
}

pub open spec fn is_hex_digit(c: char) -> bool {
    ('0' <= c && c <= '9') || ('a' <= c && c <= 'f') || ('A' <= c && c <= 'F')
}

/// A string is valid hex when it has an even number of hex digits and nothing else.
pub open spec fn is_hex_string(s: Seq<char>) -> bool {
    &&& s.len() % 2 == 0
    &&& forall|i: int| 0 <= i < s.len() ==> #[trigger] is_hex_digit(s[i])
}

/// The bytes that a valid hex string denotes, two digits per byte, high nibble first.
pub open spec fn hex_decoded(s: Seq<char>) -> Seq<u8> {
    Seq::new(
        (s.len() / 2) as nat,
        |i: int| (hex_value(s[2 * i]) * 16 + hex_value(s[2 * i + 1])) as u8,
    )
}

/// Lower-case hex digit of a nibble.
pub open spec fn hex_digit(n: u8) -> char {
    if n < 10 {
        ('0' as u32 + n as u32) as char
    } else {
        ('a' as u32 + n as u32 - 10) as char
    }
}

/// Lower-case hex text of a byte string.
pub open spec fn hex_encoded(b: Seq<u8>) -> Seq<char> {
    Seq::new(
        2 * b.len(),
        |i: int| if i % 2 == 0 { hex_digit(b[i / 2] / 16) } else { hex_digit(b[i / 2] % 16) },
    )
}

/// Relies on hex::encode: two lower-case digits per byte, high nibble first.
#[verifier::external_body]
pub(crate) fn hex_encode(bytes: &[u8]) -> (r: String)
    ensures
        r@ == hex_encoded(bytes@),
{
    hex::encode(bytes)
}

/// Relies on hex::decode: an odd length or a byte outside `0-9a-fA-F` is an
/// error, otherwise each pair of digits gives one byte.
#[verifier::external_body]
fn hex_decode(s: &str) -> (r: Option<Vec<u8>>)
    ensures
        r.is_some() == is_hex_string(s@),
        r matches Some(v) ==> v@ == hex_decoded(s@),
{
    hex::decode(s).ok()
}

/// Structural failures of signature checking; a well-formed but wrong
/// signature is not an error, it is `Ok(false)`.
#[derive(Debug, Clone, Copy, PartialEq, Eq, Structural)]
pub enum CryptoError {
    MalformedHex,
    BadPublicKeyLength,
    BadSignatureLength,
    MessageTooLarge,
    InvalidPublicKey,
}

impl CryptoError {
    /// The error's text.
    pub fn message(&self) -> (r: String)
        ensures
            *self == CryptoError::MalformedHex ==> r@ == "Malformed hexadecimal encoding"@,
            *self == CryptoError::BadPublicKeyLength ==> r@ == "Invalid public key length - must be 32 bytes"@,
            *self == CryptoError::BadSignatureLength ==> r@ == "Invalid signature length - must be 64 bytes"@,
            *self == CryptoError::MessageTooLarge ==> r@ == "Message exceeds maximum allowed size"@,
            *self == CryptoError::InvalidPublicKey ==> r@ == "Failed to parse public key"@,
    {
        match self {
            CryptoError::MalformedHex => String::from_str("Malformed hexadecimal encoding"),
            CryptoError::BadPublicKeyLength => String::from_str("Invalid public key length - must be 32 bytes"),
            CryptoError::BadSignatureLength => String::from_str("Invalid signature length - must be 64 bytes"),
            CryptoError::MessageTooLarge => String::from_str("Message exceeds maximum allowed size"),
            CryptoError::InvalidPublicKey => String::from_str("Failed to parse public key"),
        }
    }
}

/// Decode hex text; the empty string decodes to no bytes.
pub fn secure_hex_decode(hex_str: &str) -> (r: Result<Vec<u8>, CryptoError>)
    ensures
        r.is_ok() == is_hex_string(hex_str@),
        r matches Ok(v) ==> v@ == hex_decoded(hex_str@),
        r matches Err(e) ==> e == CryptoError::MalformedHex,
{
    if hex_str.unicode_len() == 0 {
        let v: Vec<u8> = Vec::new();
        assert(v@ =~= hex_decoded(hex_str@));
        return Ok(v);
    }
    match hex_decode(hex_str) {
        Some(v) => Ok(v),
        None => Err(CryptoError::MalformedHex),
    }
}


/// Whether 32 bytes decode to a point usable as an Ed25519 verifying key.
pub uninterp spec fn ed25519_key_valid(public_key: Seq<u8>) -> bool;

/// Whether Ed25519 accepts `signature` on `message` under `public_key`.
pub uninterp spec fn ed25519_accepts(public_key: Seq<u8>, message: Seq<u8>, signature: Seq<u8>) -> bool;

/// The Ed25519 signature that a 32-byte secret makes on a message.
pub uninterp spec fn ed25519_signature(secret: Seq<u8>, message: Seq<u8>) -> Seq<u8>;

/// The Ed25519 public key that belongs to a 32-byte secret.
pub uninterp spec fn ed25519_public_key(secret: Seq<u8>) -> Seq<u8>;

/// Relies on ed25519_dalek::VerifyingKey::from_bytes (`None` when the key does
/// not decode) and on its `Verifier::verify` (whether the signature holds).
#[verifier::external_body]
fn ed25519_verify(public_key: &[u8], message: &[u8], signature: &[u8]) -> (r: Option<bool>)
    requires
        public_key@.len() == 32,
        signature@.len() == 64,
    ensures
        r.is_some() == ed25519_key_valid(public_key@),
        r matches Some(ok) ==> ok == ed25519_accepts(public_key@, message@, signature@),
{
    let pk: [u8; 32] = public_key.try_into().unwrap();
    let sig: [u8; 64] = signature.try_into().unwrap();
    let key = ed25519_dalek::VerifyingKey::from_bytes(&pk).ok()?;
    Some(key.verify(message, &ed25519_dalek::Signature::from_bytes(&sig)).is_ok())
}

/// Relies on ed25519_dalek::SigningKey::sign: the 64-byte signature of the
/// message under the key made from the secret, which Ed25519 accepts under
/// that key's 32-byte public key.
#[verifier::external_body]
pub(crate) fn ed25519_sign(secret: &[u8; 32], message: &[u8]) -> (r: Vec<u8>)
    ensures
        r@ == ed25519_signature(secret@, message@),
        r@.len() == 64,
        ed25519_accepts(ed25519_public_key(secret@), message@, r@),
{
    ed25519_dalek::SigningKey::from_bytes(secret).sign(message).to_bytes().to_vec()
}

/// Relies on ed25519_dalek::SigningKey::verifying_key: the 32-byte public key
/// of the secret, a point that decodes again as a verifying key.
#[verifier::external_body]
pub(crate) fn ed25519_public(secret: &[u8; 32]) -> (r: Vec<u8>)
    ensures
        r@ == ed25519_public_key(secret@),
        r@.len() == 32,
        ed25519_key_valid(r@),
{
    ed25519_dalek::SigningKey::from_bytes(secret).verifying_key().to_bytes().to_vec()
}

/// Relies on rand::random: 32 bytes from the thread-local generator.
#[verifier::external_body]
fn random_secret() -> (r: [u8; 32]) {
    rand::random()
}

/// Outcome of checking raw signature bytes: structural checks first, then
/// the key decoding, then the signature itself.
pub open spec fn signature_check(public_key: Seq<u8>, message: Seq<u8>, signature: Seq<u8>) -> Result<bool, CryptoError> {
    if public_key.len() != ED25519_PUBLIC_KEY_LENGTH {
        Err(CryptoError::BadPublicKeyLength)
    } else if signature.len() != ED25519_SIGNATURE_LENGTH {
        Err(CryptoError::BadSignatureLength)
    } else if message.len() > MAX_MESSAGE_LENGTH {
        Err(CryptoError::MessageTooLarge)
    } else if !ed25519_key_valid(public_key) {
        Err(CryptoError::InvalidPublicKey)
    } else {
        Ok(ed25519_accepts(public_key, message, signature))
    }
}

/// Outcome of checking a hex-encoded signature under a hex-encoded key.
pub open spec fn hex_signature_check(public_key_hex: Seq<char>, message: Seq<u8>, signature_hex: Seq<char>) -> Result<bool, CryptoError> {
    if !is_hex_string(public_key_hex) || !is_hex_string(signature_hex) {
        Err(CryptoError::MalformedHex)
    } else {
        signature_check(hex_decoded(public_key_hex), message, hex_decoded(signature_hex))
    }
}

/// Whether a hex signature is a valid one: structural errors count as invalid.
pub open spec fn signature_holds(public_key_hex: Seq<char>, message: Seq<u8>, signature_hex: Seq<char>) -> bool {
    hex_signature_check(public_key_hex, message, signature_hex) == Ok::<bool, CryptoError>(true)
}

/// Verify an Ed25519 signature given as raw bytes.
pub fn verify_signature_bytes(public_key_bytes: &[u8], message: &[u8], signature_bytes: &[u8]) -> (r: Result<bool, CryptoError>)
    ensures
        r == signature_check(public_key_bytes@, message@, signature_bytes@),
{
    if public_key_bytes.len() != ED25519_PUBLIC_KEY_LENGTH {
        return Err(CryptoError::BadPublicKeyLength);
    }
    if signature_bytes.len() != ED25519_SIGNATURE_LENGTH {
        return Err(CryptoError::BadSignatureLength);
    }
    if message.len() > MAX_MESSAGE_LENGTH {
        return Err(CryptoError::MessageTooLarge);
    }
    match ed25519_verify(public_key_bytes, message, signature_bytes) {
        Some(ok) => Ok(ok),
        None => Err(CryptoError::InvalidPublicKey),
    }
}

/// Verify an Ed25519 signature given as hex text.
pub fn verify_signature(public_key_hex: &str, message: &[u8], signature_hex: &str) -> (r: Result<bool, CryptoError>)
    ensures
        r == hex_signature_check(public_key_hex@, message@, signature_hex@),
{
    let public_key_bytes = secure_hex_decode(public_key_hex)?;
    let signature_bytes = secure_hex_decode(signature_hex)?;
    verify_signature_bytes(public_key_bytes.as_slice(), message, signature_bytes.as_slice())
}

/// Sign a message; the signature comes back as lower-case hex.
pub fn sign_message(secret: &[u8; 32], message: &[u8]) -> (r: String)
    ensures
        r@ == hex_encoded(ed25519_signature(secret@, message@)),
        message@.len() <= MAX_MESSAGE_LENGTH && ed25519_public_key(secret@).len() == 32 && ed25519_key_valid(
            ed25519_public_key(secret@),
        ) ==> signature_holds(
            hex_encoded(ed25519_public_key(secret@)),
            message@,
            r@,
        ),
{
    let sig = ed25519_sign(secret, message);
    proof {
        lemma_hex_round_trip(ed25519_public_key(secret@));
        lemma_hex_round_trip(sig@);
    }
    hex_encode(sig.as_slice())
}

proof fn lemma_hex_digit(n: u8)
    requires
        n < 16,
    ensures
        is_hex_digit(hex_digit(n)),
        hex_value(hex_digit(n)) == n,
{
}

/// Hex text decodes back to the bytes it was made from.
pub proof fn lemma_hex_round_trip(b: Seq<u8>)
    ensures
        is_hex_string(hex_encoded(b)),
        hex_decoded(hex_encoded(b)) == b,
{
    let h = hex_encoded(b);
    assert forall|i: int| 0 <= i < h.len() implies #[trigger] is_hex_digit(h[i]) by {
        lemma_hex_digit(b[i / 2] / 16);
        lemma_hex_digit(b[i / 2] % 16);
    }
    assert forall|i: int| 0 <= i < b.len() implies #[trigger] hex_decoded(h)[i] == b[i] by {
        let x = b[i];
        lemma_hex_digit(x / 16);
        lemma_hex_digit(x % 16);
        assert((2 * i) / 2 == i);
        assert((2 * i + 1) / 2 == i);
        assert((2 * i) % 2 == 0);
        assert((2 * i + 1) % 2 == 1);
        assert(h[2 * i] == hex_digit(x / 16));
        assert(h[2 * i + 1] == hex_digit(x % 16));
        assert((x / 16) * 16 + x % 16 == x);
    }
    assert(hex_decoded(h) =~= b);
}

/// The hex public key that belongs to a secret.
pub fn public_key_hex(secret: &[u8; 32]) -> (r: String)
    ensures
        r@ == hex_encoded(ed25519_public_key(secret@)),
        r@.len() == 64,
        ed25519_public_key(secret@).len() == 32 && ed25519_key_valid(ed25519_public_key(secret@)),
{
    let pk = ed25519_public(secret);
    hex_encode(pk.as_slice())
}

/// A fresh random secret and its hex public key.
pub fn generate_keypair() -> (r: ([u8; 32], String))
    ensures
        r.1@ == hex_encoded(ed25519_public_key(r.0@)),
        r.1@.len() == 64,
        ed25519_public_key(r.0@).len() == 32 && ed25519_key_valid(ed25519_public_key(r.0@)),
{
    let secret = random_secret();
    let pk = public_key_hex(&secret);
    (secret, pk)
}


/// Relies on chrono::Utc::now and DateTime::timestamp_millis: the wall clock
/// in milliseconds since the Unix epoch.
#[verifier::external_body]
pub(crate) fn now_millis() -> (r: i64) {
    chrono::Utc::now().timestamp_millis()
}

#[derive(Debug, Clone, Copy, PartialEq, Eq, Structural)]
pub enum TimestampError {
    TooOld,
    TooFuture,
}

/// Where a timestamp lies against a window of `tolerance_s` seconds around `now_ms`.
pub open spec fn timestamp_check(timestamp: int, tolerance_s: int, now_ms: int) -> Result<(), TimestampError> {
    if timestamp < now_ms - tolerance_s * 1000 {
        Err(TimestampError::TooOld)
    } else if timestamp > now_ms + tolerance_s * 1000 {
        Err(TimestampError::TooFuture)
    } else {
        Ok(())
    }
}

pub open spec fn effective_tolerance(tolerance_seconds: Option<u64>) -> int {
    match tolerance_seconds {
        Some(t) => t as int,
        None => MIN_TIMESTAMP_TOLERANCE as int,
    }
}

/// Check a millisecond timestamp against the window around `now_ms`; the
/// tolerance defaults to five minutes.
pub fn validate_timestamp_at(timestamp: i64, tolerance_seconds: Option<u64>, now_ms: i64) -> (r: Result<(), TimestampError>)
    requires
        effective_tolerance(tolerance_seconds) <= MAX_TIMESTAMP_TOLERANCE,
    ensures
        r == timestamp_check(timestamp as int, effective_tolerance(tolerance_seconds), now_ms as int),
{
    let tolerance: u64 = match tolerance_seconds {
        Some(t) => t,
        None => MIN_TIMESTAMP_TOLERANCE,
    };
    let tolerance_ms: i128 = (tolerance as i128) * 1000;
    if (timestamp as i128) < (now_ms as i128) - tolerance_ms {
        return Err(TimestampError::TooOld);
    }
    if (timestamp as i128) > (now_ms as i128) + tolerance_ms {
        return Err(TimestampError::TooFuture);
    }
    Ok(())
}

/// Check a millisecond timestamp against the window around the current time.
pub fn validate_timestamp(timestamp: i64, tolerance_seconds: Option<u64>) -> (r: Result<(), TimestampError>)
    requires
        effective_tolerance(tolerance_seconds) <= MAX_TIMESTAMP_TOLERANCE,
    ensures
        exists|now_ms: i64| r == timestamp_check(timestamp as int, effective_tolerance(tolerance_seconds), now_ms as int),
{
    let now = now_millis();
    validate_timestamp_at(timestamp, tolerance_seconds, now)
}

pub open spec fn ends_with(s: Seq<char>, suffix: Seq<char>) -> bool {
    suffix.len() <= s.len() && s.subrange(s.len() - suffix.len(), s.len() as int) == suffix
}

/// Position of the last `-` in `s`, or -1 when there is none.
pub open spec fn last_dash(s: Seq<char>) -> int
    decreases s.len(),
{
    if s.len() == 0 {
        -1
    } else if s.last() == '-' {
        s.len() - 1
    } else {
        last_dash(s.drop_last())
    }
}

/// Unicode general category Cc: C0 controls, DEL and C1 controls.
pub open spec fn is_control(c: char) -> bool {
    (c as u32) <= 0x1f || (0x7f <= (c as u32) && (c as u32) <= 0x9f)
}

pub open spec fn has_control(s: Seq<char>) -> bool {
    exists|i: int| 0 <= i < s.len() && #[trigger] is_control(s[i])
}

/// The name part of a database name: everything before its last `-`.
pub open spec fn db_name_part(db_name: Seq<char>) -> Option<Seq<char>> {
    if last_dash(db_name) < 0 {
        None
    } else {
        Some(db_name.subrange(0, last_dash(db_name)))
    }
}

pub open spec fn key_suffix(public_key_hex: Seq<char>) -> Seq<char> {
    seq!['-'] + public_key_hex
}

pub open spec fn db_name_of(name: Seq<char>, public_key_hex: Seq<char>) -> Seq<char> {
    name + key_suffix(public_key_hex)
}

#[derive(Debug, Clone, Copy, PartialEq, Eq, Structural)]
pub enum DbNameError {
    Empty,
    BadKeyLength,
    MalformedHex,
    Mismatch,
    InvalidName,
}

/// The full check that binds a database name to the key that owns it.
pub open spec fn db_name_check(db_name: Seq<char>, public_key_hex: Seq<char>) -> Result<(), DbNameError> {
    if db_name.len() == 0 || public_key_hex.len() == 0 {
        Err(DbNameError::Empty)
    } else if public_key_hex.len() != 2 * ED25519_PUBLIC_KEY_LENGTH {
        Err(DbNameError::BadKeyLength)
    } else if !is_hex_string(public_key_hex) {
        Err(DbNameError::MalformedHex)
    } else if !ends_with(db_name, key_suffix(public_key_hex)) {
        Err(DbNameError::Mismatch)
    } else {
        match db_name_part(db_name) {
            None => Err(DbNameError::InvalidName),
            Some(n) => if n.len() == 0 || has_control(n) {
                Err(DbNameError::InvalidName)
            } else {
                Ok(())
            },
        }
    }
}

fn dash_str() -> (r: &'static str)
    ensures
        r@ == seq!['-'],
{
    proof {
        reveal_strlit("-");
    }
    "-"
}

/// `<name>-<public_key_hex>`.
pub fn generate_db_name(name: &str, public_key_hex: &str) -> (r: String)
    ensures
        r@ == db_name_of(name@, public_key_hex@),
{
    let mut s = String::from_str(name);
    s.append(dash_str());
    s.append(public_key_hex);
    s
}

/// Whether `s` ends with `suffix`, compared character by character.
pub fn str_ends_with(s: &str, suffix: &str) -> (r: bool)
    ensures
        r == ends_with(s@, suffix@),
{
    let n = s.unicode_len();
    let m = suffix.unicode_len();
    if m > n {
        return false;
    }
    let mut i: usize = 0;
    while i < m
        invariant
            n == s@.len(),
            m == suffix@.len(),
            m <= n,
            i <= m,
            forall|j: int| 0 <= j < i ==> s@[n - m + j] == suffix@[j],
        decreases m - i,
    {
        if s.get_char(n - m + i) != suffix.get_char(i) {
            assert(s@.subrange(n - m, n as int)[i as int] != suffix@[i as int]);
            return false;
        }
        i += 1;
    }
    assert(s@.subrange(n - m, n as int) =~= suffix@);
    true
}

/// The name part of a database name, when it has a `-` at all.
pub fn extract_name_from_db(db_name: &str) -> (r: Option<String>)
    ensures
        r matches Some(n) ==> db_name_part(db_name@) == Some(n@),
        r is None ==> db_name_part(db_name@) is None,
{
    let n = db_name.unicode_len();
    let mut i: usize = n;
    assert(db_name@.subrange(0, n as int) =~= db_name@);
    while i > 0
        invariant
            n == db_name@.len(),
            i <= n,
            last_dash(db_name@) == last_dash(db_name@.subrange(0, i as int)),
        decreases i,
    {
        assert(db_name@.subrange(0, i as int).drop_last() =~= db_name@.subrange(0, i - 1));
        if db_name.get_char(i - 1) == '-' {
            let part = db_name.substring_char(0, i - 1);
            return Some(String::from_str(part));
        }
        i -= 1;
    }
    None
}

/// Check only that the database name ends with `-<public_key_hex>`.
pub fn verify_db_name(db_name: &str, public_key_hex: &str) -> (r: Result<(), DbNameError>)
    ensures
        r is Ok == ends_with(db_name@, key_suffix(public_key_hex@)),
        r matches Err(e) ==> e == DbNameError::Mismatch,
{
    let mut suffix = String::from_str(dash_str());
    suffix.append(public_key_hex);
    if !str_ends_with(db_name, suffix.as_str()) {
        return Err(DbNameError::Mismatch);
    }
    Ok(())
}

fn str_has_control(s: &str) -> (r: bool)
    ensures
        r == has_control(s@),
{
    let n = s.unicode_len();
    let mut i: usize = 0;
    while i < n
        invariant
            n == s@.len(),
            i <= n,
            forall|j: int| 0 <= j < i ==> !is_control(#[trigger] s@[j]),
        decreases n - i,
    {
        let c = s.get_char(i);
        if (c as u32) <= 0x1f || (0x7f <= (c as u32) && (c as u32) <= 0x9f) {
            assert(is_control(s@[i as int]));
            return true;
        }
        i += 1;
    }
    false
}

/// Full check of a database name against its owner's public key: both
/// present, the key 64 hex digits, the name ending in `-<key>`, and a
/// non-empty name part free of control characters.
pub fn verify_db_name_secure(db_name: &str, public_key_hex: &str) -> (r: Result<(), DbNameError>)
    ensures
        r == db_name_check(db_name@, public_key_hex@),
{
    if db_name.unicode_len() == 0 || public_key_hex.unicode_len() == 0 {
        return Err(DbNameError::Empty);
    }
    if public_key_hex.unicode_len() != 2 * ED25519_PUBLIC_KEY_LENGTH {
        return Err(DbNameError::BadKeyLength);
    }
    if secure_hex_decode(public_key_hex).is_err() {
        return Err(DbNameError::MalformedHex);
    }
    if verify_db_name(db_name, public_key_hex).is_err() {
        return Err(DbNameError::Mismatch);
    }
    match extract_name_from_db(db_name) {
        None => Err(DbNameError::InvalidName),
        Some(name_part) => {
            if name_part.as_str().unicode_len() == 0 || str_has_control(name_part.as_str()) {
                Err(DbNameError::InvalidName)
            } else {
                Ok(())
            }
        },
    }
}


proof fn lemma_last_dash_before_hex(name: Seq<char>, hex: Seq<char>)
    requires
        forall|i: int| 0 <= i < hex.len() ==> #[trigger] is_hex_digit(hex[i]),
    ensures
        last_dash(name + seq!['-'] + hex) == name.len(),
    decreases hex.len(),
{
    let s = name + seq!['-'] + hex;
    if hex.len() == 0 {
        assert(s.last() == '-');
    } else {
        assert(is_hex_digit(hex[hex.len() - 1]));
        assert(s.last() == hex.last());
        assert(s.drop_last() =~= name + seq!['-'] + hex.drop_last());
        assert forall|i: int| 0 <= i < hex.drop_last().len() implies #[trigger] is_hex_digit(hex.drop_last()[i]) by {
            assert(is_hex_digit(hex[i]));
        }
        lemma_last_dash_before_hex(name, hex.drop_last());
    }
}

/// A database name made from a non-empty, control-free name and a valid
/// 64-digit hex key passes the full check under that key, and under no other.
pub proof fn lemma_db_name_binding(name: Seq<char>, public_key_hex: Seq<char>, other_key: Seq<char>)
    requires
        name.len() > 0,
        !has_control(name),
        public_key_hex.len() == 2 * ED25519_PUBLIC_KEY_LENGTH,
        is_hex_string(public_key_hex),
    ensures
        db_name_check(db_name_of(name, public_key_hex), public_key_hex) == Ok::<(), DbNameError>(()),
        other_key != public_key_hex ==> db_name_check(db_name_of(name, public_key_hex), other_key) is Err,
{
    let db = db_name_of(name, public_key_hex);
    assert(db =~= name + seq!['-'] + public_key_hex);
    lemma_last_dash_before_hex(name, public_key_hex);
    assert(db.subrange(db.len() - key_suffix(public_key_hex).len(), db.len() as int) =~= key_suffix(public_key_hex));
    assert(db.subrange(0, last_dash(db)) =~= name);
    if other_key != public_key_hex && other_key.len() == 2 * ED25519_PUBLIC_KEY_LENGTH {
        if ends_with(db, key_suffix(other_key)) {
            assert(other_key =~= public_key_hex) by {
                assert forall|i: int| 0 <= i < other_key.len() implies other_key[i] == public_key_hex[i] by {
                    assert(key_suffix(other_key)[i + 1] == other_key[i]);
                    assert(db.subrange(db.len() - key_suffix(other_key).len(), db.len() as int)[i + 1] == db[name.len() + 1 + i]);
                }
            }
        }
    }
}

} // verus!
