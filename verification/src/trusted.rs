//! Declarations and wrappers for what the library takes from std and from
//! outside crates. Verus believes the contracts here; each doc comment says
//! which outside function is called and what its contract claims of it.

use vstd::prelude::*;

verus! {

/// `arboard::Error`, the clipboard's error, carried through unread.
#[verifier::external_type_specification]
#[verifier::external_body]
pub struct ExClipboardError(arboard::Error);

/// `url::ParseError`, the error of `Url::parse`.
#[verifier::external_type_specification]
#[verifier::external_body]
pub struct ExUrlParseError(url::ParseError);

/// `std::string::FromUtf8Error`, the error of `urlencoding::decode`.
#[verifier::external_type_specification]
#[verifier::external_body]
pub struct ExFromUtf8Error(std::string::FromUtf8Error);

/// `data_encoding::DecodeError`, the error of `Encoding::decode`.
#[verifier::external_type_specification]
#[verifier::external_body]
pub struct ExDecodeError(data_encoding::DecodeError);

/// `rand::Error`, the error of drawing bytes from the system's generator.
#[verifier::external_type_specification]
#[verifier::external_body]
pub struct ExRandError(rand::Error);

/// `std::time::SystemTimeError`, the error of a clock reading before the epoch.
#[verifier::external_type_specification]
#[verifier::external_body]
pub struct ExSystemTimeError(std::time::SystemTimeError);

/// `std::time::SystemTime`, a reading of the system clock.
#[verifier::external_type_specification]
#[verifier::external_body]
pub struct ExSystemTime(std::time::SystemTime);

/// `aes_gcm_siv::aead::Error`, the opaque error of AEAD sealing and opening.
#[verifier::external_type_specification]
#[verifier::external_body]
pub struct ExAeadError(aes_gcm_siv::aead::Error);

/// Calls `ToString::to_string` on an `arboard::Error` (its `Display`).
/// Nothing is claimed of the text: it depends on the error's variant and
/// on a description that the library cannot see.
#[verifier::external_body]
pub(crate) fn clipboard_error_text(error: &arboard::Error) -> String {
    error.to_string()
}

/// Calls `String::from_iter` on the characters of a slice: the string holds
/// exactly those characters, in order.
#[verifier::external_body]
pub(crate) fn string_from_chars(chars: &[char]) -> (r: String)
    ensures
        r@ == chars@,
{
    chars.iter().collect()
}

/// What `data_encoding::BASE32_NOPAD.decode` gives for the UTF-8 bytes of a
/// text: the decoded bytes, or `None` where it returns an error.
pub uninterp spec fn base32_nopad_decoded(text: Seq<char>) -> Option<Seq<u8>>;

/// Calls `data_encoding::BASE32_NOPAD.decode` on the bytes of `text`
/// (RFC 4648 base32, upper-case alphabet, no padding). The result is
/// [`base32_nopad_decoded`] of the text: it depends on the text alone.
#[verifier::external_body]
pub(crate) fn decode_base32_nopad(text: &str) -> (r: Result<Vec<u8>, data_encoding::DecodeError>)
    ensures
        match r {
            Ok(bytes) => base32_nopad_decoded(text@) == Some(bytes@),
            Err(_) => base32_nopad_decoded(text@) is None,
        },
{
    data_encoding::BASE32_NOPAD.decode(text.as_bytes())
}

/// The parts of an absolute URL that the OTP URI import reads, as plain
/// values: scheme, host, path, and the query's name/value pairs.
pub struct UrlParts {
    pub scheme: String,
    pub host: Option<String>,
    pub path: String,
    pub query: Vec<(String, String)>,
}

/// [`UrlParts`] with its texts as character sequences.
pub type UrlPartsView = (Seq<char>, Option<Seq<char>>, Seq<char>, Seq<(Seq<char>, Seq<char>)>);

impl View for UrlParts {
    type V = UrlPartsView;

    open spec fn view(&self) -> UrlPartsView {
        (self.scheme@, self.host.deep_view(), self.path@, self.query.deep_view())
    }
}

/// What `url::Url::parse` gives for a text, read through `scheme`,
/// `host_str`, `path` and `query_pairs` (pairs in order, percent- and
/// `+`-decoded as `application/x-www-form-urlencoded`); `None` where
/// `parse` returns an error.
pub uninterp spec fn parsed_url(text: Seq<char>) -> Option<UrlPartsView>;

/// Calls `url::Url::parse` and reads the parsed URL's `scheme()`,
/// `host_str()`, `path()` and `query_pairs()` into plain values. The result
/// is [`parsed_url`] of the text: parsing depends on the text alone.
#[verifier::external_body]
pub(crate) fn parse_url(text: &str) -> (r: Result<UrlParts, url::ParseError>)
    ensures
        match r {
            Ok(parts) => parsed_url(text@) == Some(parts@),
            Err(_) => parsed_url(text@) is None,
        },
{
    url::Url::parse(text).map(|url| UrlParts {
        scheme: url.scheme().to_string(),
        host: url.host_str().map(|host| host.to_string()),
        path: url.path().to_string(),
        query: url.query_pairs().map(|(k, v)| (k.into_owned(), v.into_owned())).collect(),
    })
}

/// The value of an ASCII hex digit (`0-9`, `A-F`, `a-f`), `None` for any
/// other byte.
pub open spec fn hex_digit_value(b: u8) -> Option<int> {
    if 48 <= b <= 57 {
        Some(b - 48)
    } else if 65 <= b <= 70 {
        Some(b - 55)
    } else if 97 <= b <= 102 {
        Some(b - 87)
    } else {
        None
    }
}

/// Percent-decoding of bytes, read from the front: `%` followed by two hex
/// digits becomes the byte they spell; any other byte, a `%` without two hex
/// digits after it and `+` among them, is kept as it is.
pub open spec fn percent_decode_bytes(bytes: Seq<u8>) -> Seq<u8>
    decreases bytes.len(),
{
    if bytes.len() == 0 {
        Seq::empty()
    } else if bytes.len() >= 3 && bytes[0] == 37 && hex_digit_value(bytes[1]) is Some
        && hex_digit_value(bytes[2]) is Some {
        seq![(hex_digit_value(bytes[1])->0 * 16 + hex_digit_value(bytes[2])->0) as u8]
            + percent_decode_bytes(bytes.subrange(3, bytes.len() as int))
    } else {
        seq![bytes[0]] + percent_decode_bytes(bytes.subrange(1, bytes.len() as int))
    }
}

/// The percent-decoded text: the text's UTF-8 bytes percent-decoded and read
/// back as UTF-8, `None` where the decoded bytes are not UTF-8.
pub open spec fn percent_decoded(text: Seq<char>) -> Option<Seq<char>> {
    let bytes = percent_decode_bytes(vstd::utf8::encode_utf8(text));
    if vstd::utf8::valid_utf8(bytes) {
        Some(vstd::utf8::decode_utf8(bytes))
    } else {
        None
    }
}

/// Calls `urlencoding::decode`, which percent-decodes the text's bytes
/// (`decode_binary`: a `%` with two hex digits after it becomes their byte,
/// every other byte is copied) and reads the result as UTF-8, failing where
/// it is not. The result is [`percent_decoded`] of the text.
#[verifier::external_body]
pub(crate) fn decode_percent(text: &str) -> (r: Result<String, std::string::FromUtf8Error>)
    ensures
        match r {
            Ok(decoded) => percent_decoded(text@) == Some(decoded@),
            Err(_) => percent_decoded(text@) is None,
        },
{
    urlencoding::decode(text).map(|decoded| decoded.into_owned())
}

/// HMAC-SHA-1 of `message` under `key`, as the `hmac` and `sha1` crates compute it.
pub uninterp spec fn hmac_sha1_tag(key: Seq<u8>, message: Seq<u8>) -> Seq<u8>;

/// HMAC-SHA-256 of `message` under `key`, as the `hmac` and `sha2` crates compute it.
pub uninterp spec fn hmac_sha256_tag(key: Seq<u8>, message: Seq<u8>) -> Seq<u8>;

/// HMAC-SHA-512 of `message` under `key`, as the `hmac` and `sha2` crates compute it.
pub uninterp spec fn hmac_sha512_tag(key: Seq<u8>, message: Seq<u8>) -> Seq<u8>;

/// Calls `Hmac::<Sha1>::new_from_slice`, `update` and `finalize`. The tag is
/// [`hmac_sha1_tag`] of key and message, 20 bytes long (SHA-1's output
/// size). `new_from_slice` of `hmac` 0.12 hashes or pads a key of any length
/// and never returns its error, so the `expect` cannot fire.
#[verifier::external_body]
pub(crate) fn hmac_sha1(key: &[u8], message: &[u8]) -> (tag: Vec<u8>)
    ensures
        tag@ == hmac_sha1_tag(key@, message@),
        tag@.len() == 20,
{
    let mut mac = <hmac::Hmac<sha1::Sha1> as hmac::Mac>::new_from_slice(key).expect("HMAC accepts any key length");
    hmac::Mac::update(&mut mac, message);
    hmac::Mac::finalize(mac).into_bytes().to_vec()
}

/// Calls `Hmac::<Sha256>::new_from_slice`, `update` and `finalize`. The tag
/// is [`hmac_sha256_tag`] of key and message, 32 bytes long. As for SHA-1,
/// the key is never refused.
#[verifier::external_body]
pub(crate) fn hmac_sha256(key: &[u8], message: &[u8]) -> (tag: Vec<u8>)
    ensures
        tag@ == hmac_sha256_tag(key@, message@),
        tag@.len() == 32,
{
    let mut mac = <hmac::Hmac<sha2::Sha256> as hmac::Mac>::new_from_slice(key).expect("HMAC accepts any key length");
    hmac::Mac::update(&mut mac, message);
    hmac::Mac::finalize(mac).into_bytes().to_vec()
}

/// Calls `Hmac::<Sha512>::new_from_slice`, `update` and `finalize`. The tag
/// is [`hmac_sha512_tag`] of key and message, 64 bytes long. As for SHA-1,
/// the key is never refused.
#[verifier::external_body]
pub(crate) fn hmac_sha512(key: &[u8], message: &[u8]) -> (tag: Vec<u8>)
    ensures
        tag@ == hmac_sha512_tag(key@, message@),
        tag@.len() == 64,
{
    let mut mac = <hmac::Hmac<sha2::Sha512> as hmac::Mac>::new_from_slice(key).expect("HMAC accepts any key length");
    hmac::Mac::update(&mut mac, message);
    hmac::Mac::finalize(mac).into_bytes().to_vec()
}

/// What AES-256-GCM-SIV sealing gives for a 32-byte key, a 12-byte nonce and
/// a plaintext, with no associated data: the ciphertext with its tag, or
/// `None` where `encrypt` returns an error.
pub uninterp spec fn aes256_gcm_siv_sealed(key: Seq<u8>, nonce: Seq<u8>, plaintext: Seq<u8>) -> Option<Seq<u8>>;

/// What AES-256-GCM-SIV opening gives for a 32-byte key, a 12-byte nonce and
/// a ciphertext with its tag: the plaintext, or `None` where `decrypt`
/// returns an error (a wrong key, nonce or ciphertext).
pub uninterp spec fn aes256_gcm_siv_opened(key: Seq<u8>, nonce: Seq<u8>, ciphertext: Seq<u8>) -> Option<Seq<u8>>;

/// Calls `Aes256GcmSiv::new_from_slice` and `Aead::encrypt`. The result is
/// [`aes256_gcm_siv_sealed`] of key, nonce and plaintext. A 32-byte key is
/// the cipher's key size, so `new_from_slice` does not fail; a nonce of 12
/// bytes is what `Nonce::from_slice` takes without panicking.
#[verifier::external_body]
pub(crate) fn aes256_gcm_siv_seal(key: &[u8], nonce: &[u8], plaintext: &[u8]) -> (r: Result<Vec<u8>, aes_gcm_siv::aead::Error>)
    requires
        key@.len() == 32,
        nonce@.len() == 12,
    ensures
        match r {
            Ok(ciphertext) => aes256_gcm_siv_sealed(key@, nonce@, plaintext@) == Some(ciphertext@),
            Err(_) => aes256_gcm_siv_sealed(key@, nonce@, plaintext@) is None,
        },
{
    let cipher = <aes_gcm_siv::Aes256GcmSiv as aes_gcm_siv::KeyInit>::new_from_slice(key).expect("a 32-byte key");
    aes_gcm_siv::aead::Aead::encrypt(&cipher, aes_gcm_siv::Nonce::from_slice(nonce), plaintext)
}

/// Calls `Aes256GcmSiv::new_from_slice` and `Aead::decrypt`. The result is
/// [`aes256_gcm_siv_opened`] of key, nonce and ciphertext; and, as for any
/// AEAD, a ciphertext that sealing produced from a plaintext under the same
/// key and nonce opens to that plaintext.
#[verifier::external_body]
pub(crate) fn aes256_gcm_siv_open(key: &[u8], nonce: &[u8], ciphertext: &[u8]) -> (r: Result<Vec<u8>, aes_gcm_siv::aead::Error>)
    requires
        key@.len() == 32,
        nonce@.len() == 12,
    ensures
        match r {
            Ok(plaintext) => aes256_gcm_siv_opened(key@, nonce@, ciphertext@) == Some(plaintext@),
            Err(_) => aes256_gcm_siv_opened(key@, nonce@, ciphertext@) is None,
        },
        forall|plaintext: Seq<u8>| #[trigger] aes256_gcm_siv_sealed(key@, nonce@, plaintext) == Some(ciphertext@) ==> r is Ok && r->Ok_0@ == plaintext,
{
    let cipher = <aes_gcm_siv::Aes256GcmSiv as aes_gcm_siv::KeyInit>::new_from_slice(key).expect("a 32-byte key");
    aes_gcm_siv::aead::Aead::decrypt(&cipher, aes_gcm_siv::Nonce::from_slice(nonce), ciphertext)
}

/// Fills 12 bytes from `rand::rngs::OsRng` with `RngCore::try_fill_bytes`,
/// which returns the generator's error where `fill_bytes` would panic. The
/// bytes are random: only their number is claimed.
#[verifier::external_body]
pub(crate) fn random_nonce() -> (r: Result<Vec<u8>, rand::Error>)
    ensures
        r matches Ok(nonce) ==> nonce@.len() == 12,
{
    let mut nonce = [0u8; 12];
    rand::RngCore::try_fill_bytes(&mut rand::rngs::OsRng, &mut nonce)?;
    Ok(nonce.to_vec())
}

/// Reads the system clock with `std::time::SystemTime::now`. Nothing is
/// claimed of the reading.
#[verifier::external_body]
pub(crate) fn system_time_now() -> std::time::SystemTime {
    std::time::SystemTime::now()
}

/// Calls `SystemTime::duration_since` with `UNIX_EPOCH`: the time elapsed
/// since the epoch, or its error where the reading is earlier. Nothing is
/// claimed of which comes back: it depends on the reading.
#[verifier::external_body]
pub(crate) fn duration_since_unix_epoch(
    time: &std::time::SystemTime,
) -> Result<core::time::Duration, std::time::SystemTimeError> {
    time.duration_since(std::time::UNIX_EPOCH)
}

/// Calls `Duration::as_secs`, the whole seconds of a duration. The duration
/// is opaque here, so nothing is claimed of the number.
#[verifier::external_body]
pub(crate) fn duration_as_secs(duration: &core::time::Duration) -> u64 {
    duration.as_secs()
}

/// Calls `Duration::as_nanos`, the whole nanoseconds of a duration. The
/// duration is opaque here, so nothing is claimed of the number.
#[verifier::external_body]
pub(crate) fn duration_as_nanos(duration: &core::time::Duration) -> u128 {
    duration.as_nanos()
}

} // verus!
