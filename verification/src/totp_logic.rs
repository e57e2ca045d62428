//! TOTP accounts: normalising what the editor submits, importing OTP URIs,
//! and generating the codes.

use vstd::prelude::*;
use vstd::slice::slice_subrange;
use vstd::string::StringSliceAdditionalSpecFns;
use vstd::utf8::{decode_utf8, encode_utf8, is_ascii_chars, is_char_boundary};

use crate::app_error::{
    clock_error, clock_error_value, invalid, outcome, validation_error, AppError, AppErrorView,
    AppResult,
};
use crate::text::{
    chars_of, chars_to_ascii_upper, char_is_space, clone_text, find_char, is_space, optional_text,
    optional_text_of, same_text, to_ascii_upper, trim, trimmed,
};
use crate::decimal::{
    all_digits, law_zero_padded_width, lemma_pow10_bounds, parse_unsigned, parsed_unsigned, pow10, zero_padded, zero_padded_chars,
};
use crate::models::{AccountMetadata, AccountMetadataView, AccountPayload, AccountPayloadView};
use crate::clock::current_unix_time;
use crate::trusted::{
    base32_nopad_decoded, decode_base32_nopad, decode_percent, hmac_sha1,
    hmac_sha1_tag, hmac_sha256, hmac_sha256_tag, hmac_sha512, hmac_sha512_tag, parse_url,
    parsed_url, percent_decoded, string_from_chars, UrlParts, UrlPartsView,
};

verus! {

/// The HMAC hash that an account's codes are computed with.
#[derive(Debug, Clone, Copy, PartialEq, Eq, Structural)]
pub enum AlgorithmName {
    SHA1,
    SHA256,
    SHA512,
}

impl View for AlgorithmName {
    type V = AlgorithmName;

    open spec fn view(&self) -> AlgorithmName {
        *self
    }
}

impl Default for AlgorithmName {
    /// SHA-1, the algorithm of RFC 6238 and of most OTP URIs.
    fn default() -> (r: Self)
        ensures
            r == AlgorithmName::SHA1,
    {
        AlgorithmName::SHA1
    }
}

/// An account's fields after validation, with the secret (if one was given)
/// in canonical base32.
#[derive(Debug, Clone)]
pub struct NormalizedPayload {
    pub service_name: String,
    pub issuer: Option<String>,
    pub account_label: Option<String>,
    pub secret: Option<String>,
    pub digits: u32,
    pub period: u64,
    pub algorithm: AlgorithmName,
    pub icon: Option<String>,
}

/// [`NormalizedPayload`] with its texts as character sequences.
pub struct NormalizedPayloadView {
    pub service_name: Seq<char>,
    pub issuer: Option<Seq<char>>,
    pub account_label: Option<Seq<char>>,
    pub secret: Option<Seq<char>>,
    pub digits: u32,
    pub period: u64,
    pub algorithm: AlgorithmName,
    pub icon: Option<Seq<char>>,
}

impl View for NormalizedPayload {
    type V = NormalizedPayloadView;

    open spec fn view(&self) -> NormalizedPayloadView {
        NormalizedPayloadView {
            service_name: self.service_name@,
            issuer: self.issuer.deep_view(),
            account_label: self.account_label.deep_view(),
            secret: self.secret.deep_view(),
            digits: self.digits,
            period: self.period,
            algorithm: self.algorithm,
            icon: self.icon.deep_view(),
        }
    }
}

/// The trimmed text, refused with `message` when nothing is left.
pub open spec fn required_text(value: Seq<char>, message: Seq<char>) -> Result<Seq<char>, AppErrorView> {
    if trimmed(value).len() == 0 {
        invalid(message)
    } else {
        Ok(trimmed(value))
    }
}

fn require_text(value: &str, message: &str) -> (r: AppResult<String>)
    ensures
        outcome(r) == required_text(value@, message@),
{
    let text = trim(value);
    if text.as_str().is_empty() {
        return Err(validation_error(message));
    }
    Ok(text)
}

/// Codes have six to eight digits.
pub open spec fn digits_allowed(digits: u32) -> bool {
    6 <= digits <= 8
}

/// Codes change every 15 to 120 seconds.
pub open spec fn period_allowed(period: u64) -> bool {
    15 <= period <= 120
}

fn validate_digits(digits: u32) -> (r: AppResult<()>)
    ensures
        outcome(r) == if digits_allowed(digits) {
            Ok(())
        } else {
            invalid("Digits must be between 6 and 8"@)
        },
{
    if !(6 <= digits && digits <= 8) {
        return Err(validation_error("Digits must be between 6 and 8"));
    }
    Ok(())
}

fn validate_period(period: u64) -> (r: AppResult<()>)
    ensures
        outcome(r) == if period_allowed(period) {
            Ok(())
        } else {
            invalid("Period must be between 15 and 120 seconds"@)
        },
{
    if period < 15 || period > 120 {
        return Err(validation_error("Period must be between 15 and 120 seconds"));
    }
    Ok(())
}

/// The algorithm that a name stands for, case aside.
pub open spec fn algorithm_named(value: Seq<char>) -> Result<AlgorithmName, AppErrorView> {
    let name = to_ascii_upper(value);
    if name == seq!['S', 'H', 'A', '1'] {
        Ok(AlgorithmName::SHA1)
    } else if name == seq!['S', 'H', 'A', '2', '5', '6'] {
        Ok(AlgorithmName::SHA256)
    } else if name == seq!['S', 'H', 'A', '5', '1', '2'] {
        Ok(AlgorithmName::SHA512)
    } else {
        invalid("Algorithm must be SHA1, SHA256, or SHA512"@)
    }
}

fn parse_algorithm(value: &str) -> (r: AppResult<AlgorithmName>)
    ensures
        outcome(r) == algorithm_named(value@),
{
    let chars = chars_of(value);
    let name = chars_to_ascii_upper(chars.as_slice());
    let ghost n = name@;
    if name.len() == 4 && name[0] == 'S' && name[1] == 'H' && name[2] == 'A' && name[3] == '1' {
        assert(n =~= seq!['S', 'H', 'A', '1']);
        return Ok(AlgorithmName::SHA1);
    }
    if name.len() == 6 && name[0] == 'S' && name[1] == 'H' && name[2] == 'A' {
        if name[3] == '2' && name[4] == '5' && name[5] == '6' {
            assert(n =~= seq!['S', 'H', 'A', '2', '5', '6']);
            return Ok(AlgorithmName::SHA256);
        }
        if name[3] == '5' && name[4] == '1' && name[5] == '2' {
            assert(n =~= seq!['S', 'H', 'A', '5', '1', '2']);
            return Ok(AlgorithmName::SHA512);
        }
    }
    Err(validation_error("Algorithm must be SHA1, SHA256, or SHA512"))
}


/// Whether a character of a typed-in secret is kept: spaces and dashes,
/// which people use to group the characters, are dropped.
pub open spec fn keeps_secret_char(c: char) -> bool {
    !is_space(c) && c != '-'
}

/// `s` without its trailing `=` padding.
pub open spec fn strip_padding(s: Seq<char>) -> Seq<char>
    decreases s.len(),
{
    if s.len() > 0 && s.last() == '=' {
        strip_padding(s.drop_last())
    } else {
        s
    }
}

/// A typed-in secret in canonical form: grouping characters dropped,
/// padding stripped, letters in upper case.
pub open spec fn canonical_secret(s: Seq<char>) -> Seq<char> {
    to_ascii_upper(strip_padding(s.filter(|c: char| keeps_secret_char(c))))
}

/// The canonical secret, refused unless it is valid unpadded base32.
pub open spec fn normalized_secret(s: Seq<char>) -> Result<Seq<char>, AppErrorView> {
    let canonical = canonical_secret(s);
    if base32_nopad_decoded(canonical) is Some {
        Ok(canonical)
    } else {
        invalid("Secret must be valid base32"@)
    }
}

/// The bytes that a base32 secret stands for.
pub open spec fn decoded_secret(secret: Seq<char>) -> Result<Seq<u8>, AppErrorView> {
    match base32_nopad_decoded(secret) {
        Some(bytes) => Ok(bytes),
        None => invalid("Secret must be valid base32"@),
    }
}

pub fn decode_secret(secret: &str) -> (r: AppResult<Vec<u8>>)
    ensures
        outcome(r) == decoded_secret(secret@),
{
    match decode_base32_nopad(secret) {
        Ok(bytes) => Ok(bytes),
        Err(_) => Err(validation_error("Secret must be valid base32")),
    }
}

proof fn lemma_strip_padding_take(s: Seq<char>, j: int)
    requires
        0 < j <= s.len(),
        s[j - 1] == '=',
    ensures
        strip_padding(s.take(j)) == strip_padding(s.take(j - 1)),
{
    assert(s.take(j).drop_last() =~= s.take(j - 1));
}

/// Brings a typed-in secret to canonical form, refusing it unless the result
/// is valid unpadded base32.
pub fn normalize_secret(secret: &str) -> (r: AppResult<String>)
    ensures
        outcome(r) == normalized_secret(secret@),
{
    let chars = chars_of(secret);
    let ghost keep = |c: char| keeps_secret_char(c);
    let mut kept: Vec<char> = Vec::new();
    let mut i: usize = 0;
    assert(chars@.take(0).filter(keep) =~= Seq::<char>::empty()) by {
        reveal(Seq::filter);
    }
    while i < chars.len()
        invariant
            i <= chars@.len(),
            keep == (|c: char| keeps_secret_char(c)),
            kept@ == chars@.take(i as int).filter(keep),
        decreases chars.len() - i,
    {
        let c = chars[i];
        proof {
            assert(chars@.take(i + 1) =~= chars@.take(i as int).push(c));
            chars@.take(i as int).lemma_filter_push(c, keep);
            assert(keep(c) == keeps_secret_char(c));
        }
        if !char_is_space(c) && c != '-' {
            kept.push(c);
        }
        i = i + 1;
    }
    assert(chars@.take(chars@.len() as int) =~= chars@);
    let ghost filtered = kept@;
    let mut end: usize = kept.len();
    assert(filtered.take(end as int) =~= filtered);
    while end > 0 && kept[end - 1] == '='
        invariant
            end <= kept@.len(),
            filtered == kept@,
            strip_padding(filtered) == strip_padding(filtered.take(end as int)),
        decreases end,
    {
        proof {
            lemma_strip_padding_take(filtered, end as int);
        }
        end = end - 1;
    }
    let unpadded = slice_subrange(kept.as_slice(), 0, end);
    assert(unpadded@ =~= filtered.take(end as int));
    let upper = chars_to_ascii_upper(unpadded);
    let normalized = string_from_chars(upper.as_slice());
    decode_secret(normalized.as_str())?;
    Ok(normalized)
}

/// The issuer and account name of an OTP URI label `issuer:account`; a
/// label without a colon is all account name. Blank parts are dropped.
pub open spec fn split_label_of(label: Seq<char>) -> (Option<Seq<char>>, Option<Seq<char>>) {
    match label.index_of_first(':') {
        Some(i) => (
            optional_text_of(Some(label.take(i))),
            optional_text_of(Some(label.skip(i + 1))),
        ),
        None => (None, optional_text_of(Some(label))),
    }
}

/// Splits an OTP URI label at its first colon into issuer and account name.
pub fn split_label(label: &str) -> (r: (Option<String>, Option<String>))
    ensures
        (r.0.deep_view(), r.1.deep_view()) == split_label_of(label@),
{
    let chars = chars_of(label);
    match find_char(chars.as_slice(), ':') {
        Some(i) => {
            let issuer = string_from_chars(slice_subrange(chars.as_slice(), 0, i));
            let account = string_from_chars(slice_subrange(chars.as_slice(), i + 1, chars.len()));
            assert(issuer@ =~= label@.take(i as int));
            assert(account@ =~= label@.skip(i + 1));
            (optional_text(Some(issuer)), optional_text(Some(account)))
        },
        None => (None, optional_text(Some(string_from_chars(chars.as_slice())))),
    }
}


/// The settings that an OTP URI's query can set, as the import collects them.
pub struct UriFields {
    pub secret: Option<Seq<char>>,
    pub issuer: Option<Seq<char>>,
    pub digits: u32,
    pub period: u64,
    pub algorithm: AlgorithmName,
}

/// Before the query is read: no secret or issuer, and the existing account's
/// digits, period and algorithm, or 6 digits, 30 seconds and SHA-1.
pub open spec fn uri_defaults(existing: Option<AccountMetadataView>) -> UriFields {
    match existing {
        Some(account) => UriFields {
            secret: None,
            issuer: None,
            digits: account.digits,
            period: account.period,
            algorithm: account.algorithm,
        },
        None => UriFields {
            secret: None,
            issuer: None,
            digits: 6,
            period: 30,
            algorithm: AlgorithmName::SHA1,
        },
    }
}

/// One query pair applied to the settings collected so far; unknown names
/// are ignored, and a later pair overrides an earlier one.
pub open spec fn apply_query_pair(f: UriFields, key: Seq<char>, value: Seq<char>) -> Result<UriFields, AppErrorView> {
    if key == "secret"@ {
        match normalized_secret(value) {
            Ok(secret) => Ok(UriFields { secret: Some(secret), ..f }),
            Err(e) => Err(e),
        }
    } else if key == "issuer"@ {
        Ok(UriFields { issuer: Some(value), ..f })
    } else if key == "digits"@ {
        match parsed_unsigned(value, u32::MAX as nat) {
            Some(d) => Ok(UriFields { digits: d as u32, ..f }),
            None => invalid("OTP URI digits must be numeric"@),
        }
    } else if key == "period"@ {
        match parsed_unsigned(value, u64::MAX as nat) {
            Some(p) => Ok(UriFields { period: p as u64, ..f }),
            None => invalid("OTP URI period must be numeric"@),
        }
    } else if key == "algorithm"@ {
        match algorithm_named(value) {
            Ok(a) => Ok(UriFields { algorithm: a, ..f }),
            Err(e) => Err(e),
        }
    } else {
        Ok(f)
    }
}

/// The query pairs applied in order; the first refused pair ends the import.
pub open spec fn apply_query(pairs: Seq<(Seq<char>, Seq<char>)>, init: UriFields) -> Result<UriFields, AppErrorView>
    decreases pairs.len(),
{
    if pairs.len() == 0 {
        Ok(init)
    } else {
        match apply_query(pairs.drop_last(), init) {
            Ok(f) => apply_query_pair(f, pairs.last().0, pairs.last().1),
            Err(e) => Err(e),
        }
    }
}

proof fn lemma_apply_query_stops(pairs: Seq<(Seq<char>, Seq<char>)>, init: UriFields, k: int)
    requires
        0 <= k <= pairs.len(),
        apply_query(pairs.take(k), init) is Err,
    ensures
        apply_query(pairs, init) == apply_query(pairs.take(k), init),
    decreases pairs.len() - k,
{
    if k == pairs.len() {
        assert(pairs.take(k) =~= pairs);
    } else {
        assert(pairs.take(k + 1).drop_last() =~= pairs.take(k));
        lemma_apply_query_stops(pairs, init, k + 1);
    }
}

/// `s` without its leading slashes.
pub open spec fn strip_leading_slashes(s: Seq<char>) -> Seq<char>
    decreases s.len(),
{
    if s.len() > 0 && s[0] == '/' {
        strip_leading_slashes(s.drop_first())
    } else {
        s
    }
}

/// The account that an OTP URI describes, once its label and query are read.
pub open spec fn uri_account(
    label: Seq<char>,
    f: UriFields,
    icon: Option<Seq<char>>,
) -> Result<NormalizedPayloadView, AppErrorView> {
    let (label_issuer, label_account) = split_label_of(label);
    if !digits_allowed(f.digits) {
        invalid("Digits must be between 6 and 8"@)
    } else if !period_allowed(f.period) {
        invalid("Period must be between 15 and 120 seconds"@)
    } else {
        Ok(
            NormalizedPayloadView {
                service_name: match f.issuer {
                    Some(issuer) => issuer,
                    None => match label_issuer {
                        Some(issuer) => issuer,
                        None => "Imported account"@,
                    },
                },
                issuer: f.issuer,
                account_label: label_account,
                secret: f.secret,
                digits: f.digits,
                period: f.period,
                algorithm: f.algorithm,
                icon: optional_text_of(icon),
            },
        )
    }
}

/// What importing a parsed `otpauth://totp/...` URI gives: scheme
/// `otpauth` and host `totp` are required; the path, without leading
/// slashes and percent-decoded, is the label; the query sets secret,
/// issuer, digits, period and algorithm.
pub open spec fn imported_url_parts(
    parts: UrlPartsView,
    icon: Option<Seq<char>>,
    existing: Option<AccountMetadataView>,
) -> Result<NormalizedPayloadView, AppErrorView> {
    if parts.0 != "otpauth"@ {
        invalid("OTP URI must start with otpauth://"@)
    } else if parts.1 != Some("totp"@) {
        invalid("Only otpauth://totp URIs are supported"@)
    } else {
        match percent_decoded(strip_leading_slashes(parts.2)) {
            None => invalid("Invalid OTP URI label"@),
            Some(label) => match apply_query(parts.3, uri_defaults(existing)) {
                Err(e) => Err(e),
                Ok(f) => uri_account(label, f, icon),
            },
        }
    }
}

/// What importing an `otpauth://totp/...` URI gives: the URI must parse;
/// the rest is [`imported_url_parts`] of its parts.
pub open spec fn imported_otp_uri(
    uri: Seq<char>,
    icon: Option<Seq<char>>,
    existing: Option<AccountMetadataView>,
) -> Result<NormalizedPayloadView, AppErrorView> {
    match parsed_url(uri) {
        None => invalid("Invalid OTP URI"@),
        Some(parts) => imported_url_parts(parts, icon, existing),
    }
}

/// `str::trim_start_matches('/')`.
fn trim_leading_slashes(text: &str) -> (r: String)
    ensures
        r@ == strip_leading_slashes(text@),
{
    let chars = chars_of(text);
    let mut i: usize = 0;
    assert(chars@.skip(0) =~= chars@);
    while i < chars.len() && chars[i] == '/'
        invariant
            i <= chars@.len(),
            strip_leading_slashes(chars@) == strip_leading_slashes(chars@.skip(i as int)),
        decreases chars.len() - i,
    {
        assert(chars@.skip(i as int).drop_first() =~= chars@.skip(i + 1));
        i = i + 1;
    }
    let rest = slice_subrange(chars.as_slice(), i, chars.len());
    assert(rest@ =~= chars@.skip(i as int));
    string_from_chars(rest)
}

/// Applies one query pair, as [`apply_query_pair`] says.
fn read_query_pair(
    secret: &mut Option<String>,
    issuer: &mut Option<String>,
    digits: &mut u32,
    period: &mut u64,
    algorithm: &mut AlgorithmName,
    key: &String,
    value: &String,
) -> (r: AppResult<()>)
    ensures
        ({
            let before = UriFields {
                secret: old(secret).deep_view(),
                issuer: old(issuer).deep_view(),
                digits: *old(digits),
                period: *old(period),
                algorithm: *old(algorithm),
            };
            let after = UriFields {
                secret: final(secret).deep_view(),
                issuer: final(issuer).deep_view(),
                digits: *final(digits),
                period: *final(period),
                algorithm: *final(algorithm),
            };
            match apply_query_pair(before, key@, value@) {
                Ok(f) => r is Ok && after == f,
                Err(e) => r matches Err(err) && err@ == e,
            }
        }),
{
    if same_text(key.as_str(), "secret") {
        *secret = Some(normalize_secret(value.as_str())?);
    } else if same_text(key.as_str(), "issuer") {
        *issuer = Some(value.clone());
    } else if same_text(key.as_str(), "digits") {
        match parse_unsigned(value.as_str(), 0xffff_ffff) {
            Some(d) => {
                *digits = d as u32;
            },
            None => {
                return Err(validation_error("OTP URI digits must be numeric"));
            },
        }
    } else if same_text(key.as_str(), "period") {
        match parse_unsigned(value.as_str(), 0xffff_ffff_ffff_ffff) {
            Some(p) => {
                *period = p;
            },
            None => {
                return Err(validation_error("OTP URI period must be numeric"));
            },
        }
    } else if same_text(key.as_str(), "algorithm") {
        *algorithm = parse_algorithm(value.as_str())?;
    }
    Ok(())
}

fn normalize_otp_uri_payload(
    otp_uri: &str,
    icon: Option<String>,
    existing: Option<&AccountMetadata>,
) -> (r: AppResult<NormalizedPayload>)
    ensures
        outcome(r) == imported_otp_uri(otp_uri@, icon.deep_view(), existing_view(existing)),
{
    match parse_url(otp_uri) {
        Ok(parts) => normalize_otp_uri_parts(parts, icon, existing),
        Err(_) => Err(validation_error("Invalid OTP URI")),
    }
}

/// Imports the account that a parsed OTP URI describes.
pub fn normalize_otp_uri_parts(
    uri: UrlParts,
    icon: Option<String>,
    existing: Option<&AccountMetadata>,
) -> (r: AppResult<NormalizedPayload>)
    ensures
        outcome(r) == imported_url_parts(uri@, icon.deep_view(), existing_view(existing)),
{
    if !same_text(uri.scheme.as_str(), "otpauth") {
        return Err(validation_error("OTP URI must start with otpauth://"));
    }
    let host_is_totp = match &uri.host {
        Some(host) => same_text(host.as_str(), "totp"),
        None => false,
    };
    if !host_is_totp {
        return Err(validation_error("Only otpauth://totp URIs are supported"));
    }
    let label = trim_leading_slashes(uri.path.as_str());
    let decoded_label = match decode_percent(label.as_str()) {
        Ok(decoded) => decoded,
        Err(_) => {
            return Err(validation_error("Invalid OTP URI label"));
        },
    };
    let (label_issuer, label_account) = split_label(decoded_label.as_str());

    let mut secret: Option<String> = None;
    let mut issuer: Option<String> = None;
    let (mut digits, mut period, mut algorithm) = match existing {
        Some(account) => (account.digits, account.period, account.algorithm),
        None => (6u32, 30u64, AlgorithmName::SHA1),
    };
    let ghost pairs = uri.query.deep_view();
    let mut i: usize = 0;
    #[verifier::loop_isolation(false)]
    while i < uri.query.len()
        invariant
            i <= uri.query@.len(),
            pairs == uri.query.deep_view(),
            apply_query(pairs.take(i as int), uri_defaults(existing_view(existing))) == Ok::<UriFields, AppErrorView>(
                UriFields {
                    secret: secret.deep_view(),
                    issuer: issuer.deep_view(),
                    digits,
                    period,
                    algorithm,
                },
            ),
        decreases uri.query.len() - i,
    {
        let pair = &uri.query[i];
        proof {
            assert(pairs.take(i + 1).drop_last() =~= pairs.take(i as int));
            assert(pairs[i as int] == (pair.0@, pair.1@));
        }
        let step = read_query_pair(
            &mut secret,
            &mut issuer,
            &mut digits,
            &mut period,
            &mut algorithm,
            &pair.0,
            &pair.1,
        );
        if let Err(e) = step {
            proof {
                lemma_apply_query_stops(pairs, uri_defaults(existing_view(existing)), i + 1);
            }
            return Err(e);
        }
        i = i + 1;
    }
    assert(pairs.take(uri.query@.len() as int) =~= pairs);

    let service_name = match &issuer {
        Some(name) => name.clone(),
        None => match label_issuer {
            Some(name) => name,
            None => String::from_str("Imported account"),
        },
    };
    validate_digits(digits)?;
    validate_period(period)?;
    Ok(
        NormalizedPayload {
            service_name,
            issuer,
            account_label: label_account,
            secret,
            digits,
            period,
            algorithm,
            icon: optional_text(icon),
        },
    )
}


/// The existing account of an edit, taken by its view.
pub open spec fn existing_view(existing: Option<&AccountMetadata>) -> Option<AccountMetadataView> {
    match existing {
        Some(account) => Some(account@),
        None => None,
    }
}

/// The secret of a payload: absent when blank, else trimmed and normalized.
pub open spec fn payload_secret(secret: Option<Seq<char>>) -> Result<Option<Seq<char>>, AppErrorView> {
    match secret {
        Some(s) => if trimmed(s).len() == 0 {
            Ok(None)
        } else {
            match normalized_secret(trimmed(s)) {
                Ok(n) => Ok(Some(n)),
                Err(e) => Err(e),
            }
        },
        None => Ok(None),
    }
}

/// What the account editor's submission normalizes to. A non-blank OTP URI
/// takes precedence over the typed-in fields; otherwise the service name is
/// required, digits and period must be in range, a secret is normalized,
/// and a new account (no `existing`) must have one.
pub open spec fn normalized_payload(
    payload: AccountPayloadView,
    existing: Option<AccountMetadataView>,
) -> Result<NormalizedPayloadView, AppErrorView> {
    let uri = match payload.otp_uri {
        Some(u) => trimmed(u),
        None => Seq::<char>::empty(),
    };
    if uri.len() > 0 {
        imported_otp_uri(uri, payload.icon, existing)
    } else {
        match required_text(payload.service_name, "Service name is required"@) {
            Err(e) => Err(e),
            Ok(service_name) => if !digits_allowed(payload.digits) {
                invalid("Digits must be between 6 and 8"@)
            } else if !period_allowed(payload.period) {
                invalid("Period must be between 15 and 120 seconds"@)
            } else {
                match payload_secret(payload.secret) {
                    Err(e) => Err(e),
                    Ok(secret) => if existing is None && secret is None {
                        invalid("Secret is required"@)
                    } else {
                        Ok(
                            NormalizedPayloadView {
                                service_name,
                                issuer: optional_text_of(payload.issuer),
                                account_label: optional_text_of(payload.account_label),
                                secret,
                                digits: payload.digits,
                                period: payload.period,
                                algorithm: payload.algorithm,
                                icon: optional_text_of(payload.icon),
                            },
                        )
                    },
                }
            },
        }
    }
}

/// Validates and normalizes what the account editor submits, for a new
/// account (`existing` is `None`) or an edit of `existing`.
pub fn normalize_payload(payload: &AccountPayload, existing: Option<&AccountMetadata>) -> (r: AppResult<NormalizedPayload>)
    ensures
        outcome(r) == normalized_payload(payload@, existing_view(existing)),
{
    let otp_uri = match &payload.otp_uri {
        Some(uri) => trim(uri.as_str()),
        None => String::new(),
    };
    if !otp_uri.as_str().is_empty() {
        return normalize_otp_uri_payload(otp_uri.as_str(), clone_text(&payload.icon), existing);
    }
    let service_name = require_text(payload.service_name.as_str(), "Service name is required")?;
    let issuer = optional_text(clone_text(&payload.issuer));
    let account_label = optional_text(clone_text(&payload.account_label));
    let icon = optional_text(clone_text(&payload.icon));

    validate_digits(payload.digits)?;
    validate_period(payload.period)?;

    let secret = match &payload.secret {
        Some(raw) => {
            let trimmed_secret = trim(raw.as_str());
            if trimmed_secret.as_str().is_empty() {
                None
            } else {
                Some(normalize_secret(trimmed_secret.as_str())?)
            }
        },
        None => None,
    };

    if existing.is_none() && secret.is_none() {
        return Err(validation_error("Secret is required"));
    }

    Ok(
        NormalizedPayload {
            service_name,
            issuer,
            account_label,
            secret,
            digits: payload.digits,
            period: payload.period,
            algorithm: payload.algorithm,
            icon,
        },
    )
}


/// The eight bytes of a counter, most significant first (`u64::to_be_bytes`).
pub open spec fn counter_bytes(n: u64) -> Seq<u8> {
    seq![
        (n >> 56u64) as u8,
        (n >> 48u64) as u8,
        (n >> 40u64) as u8,
        (n >> 32u64) as u8,
        (n >> 24u64) as u8,
        (n >> 16u64) as u8,
        (n >> 8u64) as u8,
        n as u8,
    ]
}

fn counter_to_bytes(n: u64) -> (r: Vec<u8>)
    ensures
        r@ == counter_bytes(n),
{
    let mut r: Vec<u8> = Vec::new();
    r.push((n >> 56u64) as u8);
    r.push((n >> 48u64) as u8);
    r.push((n >> 40u64) as u8);
    r.push((n >> 32u64) as u8);
    r.push((n >> 24u64) as u8);
    r.push((n >> 16u64) as u8);
    r.push((n >> 8u64) as u8);
    r.push(n as u8);
    assert(r@ =~= counter_bytes(n));
    r
}

/// The HMAC tag of `message` under `key` with the account's hash.
pub open spec fn hmac_tag(algorithm: AlgorithmName, key: Seq<u8>, message: Seq<u8>) -> Seq<u8> {
    match algorithm {
        AlgorithmName::SHA1 => hmac_sha1_tag(key, message),
        AlgorithmName::SHA256 => hmac_sha256_tag(key, message),
        AlgorithmName::SHA512 => hmac_sha512_tag(key, message),
    }
}

/// Where RFC 4226's dynamic truncation reads: the low four bits of the last byte.
pub open spec fn truncation_offset(digest: Seq<u8>) -> int {
    (digest.last() % 16) as int
}

/// The digest is long enough for dynamic truncation to read four bytes.
pub open spec fn truncatable(digest: Seq<u8>) -> bool {
    digest.len() > 0 && truncation_offset(digest) + 3 < digest.len()
}

/// RFC 4226 dynamic truncation: the 31-bit big-endian number in the four
/// bytes at the offset, the top bit cleared.
pub open spec fn dynamic_truncation(digest: Seq<u8>) -> nat {
    let o = truncation_offset(digest);
    ((digest[o] % 128) * 0x1000000 + digest[o + 1] * 0x10000 + digest[o + 2] * 0x100 + digest[o
        + 3]) as nat
}

pub fn dynamic_truncate(digest: &[u8]) -> (r: u32)
    requires
        truncatable(digest@),
    ensures
        r == dynamic_truncation(digest@),
        r < 0x8000_0000,
{
    let last = digest[digest.len() - 1];
    let offset = (last & 0x0f) as usize;
    assert(last & 0x0f == last % 16) by (bit_vector);
    let b0 = digest[offset];
    let b1 = digest[offset + 1];
    let b2 = digest[offset + 2];
    let b3 = digest[offset + 3];
    let r = ((b0 & 0x7f) as u32) << 24 | (b1 as u32) << 16 | (b2 as u32) << 8 | (b3 as u32);
    assert(r == (b0 % 128) as u32 * 0x1000000 + b1 as u32 * 0x10000 + b2 as u32 * 0x100
        + b3 as u32) by (bit_vector)
        requires
            r == ((b0 & 0x7f) as u32) << 24 | (b1 as u32) << 16 | (b2 as u32) << 8 | (b3 as u32),
    ;
    r
}

fn truncate_hmac_sha1(secret: &[u8], message: &[u8]) -> (r: u32)
    ensures
        r == dynamic_truncation(hmac_sha1_tag(secret@, message@)),
{
    let tag = hmac_sha1(secret, message);
    dynamic_truncate(tag.as_slice())
}

fn truncate_hmac_sha256(secret: &[u8], message: &[u8]) -> (r: u32)
    ensures
        r == dynamic_truncation(hmac_sha256_tag(secret@, message@)),
{
    let tag = hmac_sha256(secret, message);
    dynamic_truncate(tag.as_slice())
}

fn truncate_hmac_sha512(secret: &[u8], message: &[u8]) -> (r: u32)
    ensures
        r == dynamic_truncation(hmac_sha512_tag(secret@, message@)),
{
    let tag = hmac_sha512(secret, message);
    dynamic_truncate(tag.as_slice())
}

/// The code for a counter (RFC 4226 HOTP): the truncated HMAC of the
/// counter's bytes, modulo `10^digits`, written with `digits` digits.
pub open spec fn hotp_code(algorithm: AlgorithmName, digits: u32, secret: Seq<u8>, counter: u64) -> Seq<char> {
    zero_padded(
        dynamic_truncation(hmac_tag(algorithm, secret, counter_bytes(counter))) % pow10(
            digits as nat,
        ),
        digits as nat,
    )
}

fn ten_to_the(digits: u32) -> (r: u32)
    requires
        digits <= 9,
    ensures
        r == pow10(digits as nat),
        r >= 1,
{
    let mut r: u32 = 1;
    let mut i: u32 = 0;
    while i < digits
        invariant
            i <= digits <= 9,
            r == pow10(i as nat),
        decreases digits - i,
    {
        proof {
            lemma_pow10_bounds((i + 1) as nat);
        }
        r = r * 10;
        i = i + 1;
    }
    proof {
        lemma_pow10_bounds(digits as nat);
    }
    r
}

fn generate_code_for_counter(algorithm: AlgorithmName, digits: u32, secret: &[u8], counter: u64) -> (r: String)
    requires
        digits <= 9,
    ensures
        r@ == hotp_code(algorithm, digits, secret@, counter),
{
    let message = counter_to_bytes(counter);
    let truncated = match algorithm {
        AlgorithmName::SHA1 => truncate_hmac_sha1(secret, message.as_slice()),
        AlgorithmName::SHA256 => truncate_hmac_sha256(secret, message.as_slice()),
        AlgorithmName::SHA512 => truncate_hmac_sha512(secret, message.as_slice()),
    };
    let modulo = ten_to_the(digits);
    let code = zero_padded_chars((truncated % modulo) as u128, digits as usize);
    string_from_chars(code.as_slice())
}

/// The code of an account at Unix time `now`: the HOTP code of the number
/// of whole periods since the epoch, for the secret's base32 bytes.
pub open spec fn code_at(account: AccountMetadataView, secret: Seq<char>, now: u64) -> Result<Seq<char>, AppErrorView> {
    match decoded_secret(secret) {
        Ok(bytes) => Ok(hotp_code(account.algorithm, account.digits, bytes, now / account.period)),
        Err(e) => Err(e),
    }
}

/// The account's code at Unix time `now`.
pub fn generate_code_at(account: &AccountMetadata, secret: &str, now: u64) -> (r: AppResult<String>)
    requires
        decoded_secret(secret@) is Ok ==> account.period > 0 && account.digits <= 9,
    ensures
        outcome(r) == code_at(account@, secret@, now),
{
    let secret_bytes = decode_secret(secret)?;
    let counter = now / account.period;
    Ok(generate_code_for_counter(account.algorithm, account.digits, secret_bytes.as_slice(), counter))
}

/// The account's code now. The secret is decoded first; then the clock is
/// read: whatever it reads, the result is the code at that time, and a
/// clock before the Unix epoch is reported as an error.
pub fn generate_code(account: &AccountMetadata, secret: &str) -> (r: AppResult<String>)
    requires
        decoded_secret(secret@) is Ok ==> account.period > 0 && account.digits <= 9,
    ensures
        decoded_secret(secret@) matches Err(e) ==> (r matches Err(err) && err@ == e),
        decoded_secret(secret@) is Ok ==> (r matches Err(err) && err@ == clock_error()) || exists|
            now: u64,
        | outcome(r) == code_at(account@, secret@, now),
{
    let secret_bytes = decode_secret(secret)?;
    let now = match current_unix_time() {
        Ok(now) => now,
        Err(_) => {
            return Err(clock_error_value());
        },
    };
    let counter = now / account.period;
    let code = generate_code_for_counter(account.algorithm, account.digits, secret_bytes.as_slice(), counter);
    assert(outcome(Ok::<String, AppError>(code)) == code_at(account@, secret@, now));
    Ok(code)
}


/// Half the length of a code's UTF-8 bytes, rounded down.
pub open spec fn byte_midpoint(code: &str) -> int {
    (code.spec_bytes().len() / 2) as int
}

/// The characters of the first half of a code's UTF-8 bytes.
pub open spec fn code_first_half(code: &str) -> Seq<char> {
    decode_utf8(code.spec_bytes().subrange(0, byte_midpoint(code)))
}

/// The characters of the second half of a code's UTF-8 bytes.
pub open spec fn code_second_half(code: &str) -> Seq<char> {
    decode_utf8(code.spec_bytes().subrange(byte_midpoint(code), code.spec_bytes().len() as int))
}

/// Splits a code in the middle of its bytes with a space, for display
/// ("123456" becomes "123 456"). The middle must fall between characters.
pub fn format_code(code: &str) -> (r: String)
    requires
        code.spec_bytes().len() <= usize::MAX,
        is_char_boundary(code.spec_bytes(), byte_midpoint(code)),
    ensures
        code@ == code_first_half(code) + code_second_half(code),
        r@ == code_first_half(code) + seq![' '] + code_second_half(code),
{
    broadcast use vstd::utf8::encode_utf8_decode_utf8, vstd::utf8::encode_utf8_valid_utf8, vstd::utf8::decode_utf8_split;

    let midpoint = code.len() / 2;
    let (first, second) = code.split_at(midpoint);
    proof {
        reveal_strlit(" ");
        assert(first@ == decode_utf8(first.spec_bytes()));
        assert(second@ == decode_utf8(second.spec_bytes()));
        assert(code@ == decode_utf8(code.spec_bytes()));
    }
    let mut r = String::from_str(first);
    r.append(" ");
    r.append(second);
    r
}

/// For an ASCII code, the space goes after its first half.
pub proof fn law_format_code_ascii(code: &str)
    requires
        is_ascii_chars(code@),
    ensures
        is_char_boundary(code.spec_bytes(), byte_midpoint(code)),
        code_first_half(code) == code@.take((code@.len() / 2) as int),
        code_second_half(code) == code@.skip((code@.len() / 2) as int),
{
    broadcast use vstd::utf8::encode_utf8_decode_utf8, vstd::utf8::encode_utf8_valid_utf8, vstd::utf8::is_char_boundary_iff_not_is_continuation_byte, vstd::utf8::is_char_boundary_start_end_of_seq;

    let s = code@;
    let n = s.len();
    let m = (n / 2) as int;
    let bytes = code.spec_bytes();
    vstd::utf8::is_ascii_chars_encode_utf8(s);
    assert(is_ascii_chars(s.take(m)));
    assert(is_ascii_chars(s.skip(m)));
    vstd::utf8::is_ascii_chars_encode_utf8(s.take(m));
    vstd::utf8::is_ascii_chars_encode_utf8(s.skip(m));
    assert(encode_utf8(s.take(m)) =~= bytes.subrange(0, m));
    assert(encode_utf8(s.skip(m)) =~= bytes.subrange(m, n as int));
    if m < n {
        assert(!vstd::utf8::is_continuation_byte(bytes[m])) by {
            assert(s[m] as u8 == bytes[m]);
            vstd::utf8::is_ascii_chars_nat_bound(s);
            assert((s[m] as nat) < 128);
            let b = bytes[m];
            assert(b < 128);
            assert(b < 128 ==> b & 0xc0 != 0x80) by (bit_vector);
        }
    }
}

/// Seconds until the code of a period changes, at Unix time `now`: from
/// `period` just after a change down to 1.
pub open spec fn seconds_left(period: u64, now: u64) -> u64 {
    if now % period == 0 {
        period
    } else {
        (period - now % period) as u64
    }
}

/// Seconds until the code changes, at Unix time `now`.
pub fn seconds_remaining_at(period: u64, now: u64) -> (r: u64)
    requires
        period > 0,
    ensures
        r == seconds_left(period, now),
        1 <= r <= period,
{
    let remainder = now % period;
    if remainder == 0 {
        period
    } else {
        period - remainder
    }
}

/// Seconds until the code changes now. The time comes from the clock:
/// whatever it reads, the result is [`seconds_left`] at that time.
pub fn seconds_remaining(period: u64) -> (r: AppResult<u64>)
    requires
        period > 0,
    ensures
        r matches Ok(v) ==> (exists|now: u64| v == seconds_left(period, now)) && 1 <= v <= period,
        r matches Err(e) ==> e@ == clock_error(),
{
    match current_unix_time() {
        Ok(current) => Ok(seconds_remaining_at(period, current)),
        Err(_) => Err(clock_error_value()),
    }
}


/// A code has as many characters as the account's digits, all of them
/// decimal digits (for one digit or more).
pub proof fn law_code_has_digits(algorithm: AlgorithmName, digits: u32, secret: Seq<u8>, counter: u64)
    requires
        digits >= 1,
    ensures
        hotp_code(algorithm, digits, secret, counter).len() == digits,
        all_digits(hotp_code(algorithm, digits, secret, counter)),
{
    lemma_pow10_bounds(digits as nat);
    let t = dynamic_truncation(hmac_tag(algorithm, secret, counter_bytes(counter)));
    law_zero_padded_width(t % pow10(digits as nat), digits as nat);
}


/// Every time within the same period gives the same code.
pub proof fn law_code_constant_within_period(account: AccountMetadataView, secret: Seq<char>, t1: u64, t2: u64)
    requires
        account.period > 0,
        t1 / account.period == t2 / account.period,
    ensures
        code_at(account, secret, t1) == code_at(account, secret, t2),
{
}

proof fn lemma_strip_padding_shape(s: Seq<char>)
    ensures
        strip_padding(s).len() <= s.len(),
        strip_padding(s) == s.take(strip_padding(s).len() as int),
        strip_padding(s).len() > 0 ==> strip_padding(s).last() != '=',
    decreases s.len(),
{
    if s.len() > 0 && s.last() == '=' {
        lemma_strip_padding_shape(s.drop_last());
        let t = strip_padding(s.drop_last());
        assert(s.drop_last().take(t.len() as int) =~= s.take(t.len() as int));
    } else {
        assert(s.take(s.len() as int) =~= s);
    }
}

/// A secret in canonical form stays as it is when it is normalized again.
pub proof fn law_canonical_secret_stable(s: Seq<char>)
    ensures
        canonical_secret(canonical_secret(s)) == canonical_secret(s),
{
    let keep = |c: char| keeps_secret_char(c);
    let f = s.filter(keep);
    let p = strip_padding(f);
    let c = canonical_secret(s);
    lemma_strip_padding_shape(f);
    assert(c == to_ascii_upper(p));
    // Every character of the canonical form is kept by the filter.
    assert forall|i: int| 0 <= i < c.len() implies keep(#[trigger] c[i]) by {
        s.filter_lemma(keep);
        assert(p[i] == f[i]);
    }
    assert(c.filter(keep) == c) by {
        lemma_filter_all(c, keep);
    }
    // Its last character is not padding.
    assert(strip_padding(c) == c) by {
        if c.len() > 0 {
            assert(c.last() == crate::text::ascii_upper(p.last()));
        }
    }
    assert(to_ascii_upper(c) =~= c);
}

proof fn lemma_filter_all(s: Seq<char>, keep: spec_fn(char) -> bool)
    requires
        forall|i: int| 0 <= i < s.len() ==> keep(#[trigger] s[i]),
    ensures
        s.filter(keep) == s,
    decreases s.len(),
{
    reveal(Seq::filter);
    if s.len() > 0 {
        lemma_filter_all(s.drop_last(), keep);
        assert(s.drop_last().push(s.last()) =~= s);
    }
}

/// The hash names select their hashes, in any ASCII case: a name that reads
/// `SHA1`, `SHA256` or `SHA512` once upper-cased gives the algorithm whose
/// codes are HMAC over SHA-1, SHA-256 or SHA-512 respectively, and no other
/// name is accepted.
pub proof fn law_algorithm_names(name: Seq<char>, key: Seq<u8>, message: Seq<u8>)
    ensures
        to_ascii_upper(name) == seq!['S', 'H', 'A', '1'] ==> (algorithm_named(name) matches Ok(a)
            && hmac_tag(a, key, message) == hmac_sha1_tag(key, message)),
        to_ascii_upper(name) == seq!['S', 'H', 'A', '2', '5', '6'] ==> (algorithm_named(name) matches Ok(a)
            && hmac_tag(a, key, message) == hmac_sha256_tag(key, message)),
        to_ascii_upper(name) == seq!['S', 'H', 'A', '5', '1', '2'] ==> (algorithm_named(name) matches Ok(a)
            && hmac_tag(a, key, message) == hmac_sha512_tag(key, message)),
        algorithm_named(name) is Ok ==> to_ascii_upper(name) == seq!['S', 'H', 'A', '1']
            || to_ascii_upper(name) == seq!['S', 'H', 'A', '2', '5', '6']
            || to_ascii_upper(name) == seq!['S', 'H', 'A', '5', '1', '2'],
{
}

/// The countdown ends when the code changes: from time `now`, after
/// [`seconds_left`] seconds the counter `now / period` has moved on by one,
/// and at every second before that it has not.
pub proof fn law_countdown_reaches_the_change(period: u64, now: u64, later: int)
    requires
        period > 0,
        now <= later < now + seconds_left(period, now),
    ensures
        1 <= seconds_left(period, now) <= period,
        (now + seconds_left(period, now)) / (period as int) == now / period + 1,
        later / (period as int) == now / period,
{
    let p = period as int;
    let n = now as int;
    let q = n / p;
    let r = n % p;
    assert(n == q * p + r && 0 <= r < p) by (nonlinear_arith)
        requires
            p > 0,
            q == n / p,
            r == n % p,
    ;
    let next = n + seconds_left(period, now);
    assert(next == (q + 1) * p) by (nonlinear_arith)
        requires
            n == q * p + r,
            next == n + (if r == 0 { p } else { p - r }),
            0 <= r < p,
    ;
    assert(next / p == q + 1) by (nonlinear_arith)
        requires
            next == (q + 1) * p,
            p > 0,
    ;
    assert(later / p == q) by (nonlinear_arith)
        requires
            n == q * p + r,
            n <= later < (q + 1) * p,
            p > 0,
            0 <= r < p,
    ;
}

} // verus!
