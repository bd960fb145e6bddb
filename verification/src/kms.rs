//! Key encryption keys: recognising AWS KMS ARNs and choosing the key that
//! protects the data encryption keys.
use vstd::prelude::*;
use crate::paths::{resolve_location, resolved_location};
use crate::text::{chars_of, chars_starts_with, is_prefix, split_chars, split_on, str_eq, string_of};

verus! {

/// Why an AWS KMS ARN was refused.
#[derive(Debug)]
pub enum KmsArnError {
    /// It does not start with `arn:aws:kms:`.
    MissingPrefix,
    /// It does not have six `:`-separated parts; `parts` is how many it has.
    WrongPartCount { parts: usize },
    /// Its resource part starts with neither `key/` nor `alias/`.
    InvalidResource,
}

/// The prefix of every AWS KMS ARN.
pub open spec fn kms_prefix() -> Seq<char> {
    "arn:aws:kms:"@
}

/// Validates if a string is a valid AWS KMS ARN: it starts with `arn:aws:kms:`.
pub fn is_valid_kms_arn(arn: &str) -> (r: bool)
    ensures
        r == is_prefix(kms_prefix(), arn@),
{
    let v = chars_of(arn);
    let p = chars_of("arn:aws:kms:");
    chars_starts_with(v.as_slice(), p.as_slice())
}

/// The outcome of checking an ARN of the form
/// `arn:aws:kms:region:account-id:key/key-id` or `...:alias/alias-name`.
pub open spec fn kms_arn_check(arn: Seq<char>) -> Result<(), KmsArnError> {
    let parts = split_on(arn, ':');
    if !is_prefix(kms_prefix(), arn) {
        Err(KmsArnError::MissingPrefix)
    } else if parts.len() != 6 {
        Err(KmsArnError::WrongPartCount { parts: parts.len() as usize })
    } else if !is_prefix("key/"@, parts[5]) && !is_prefix("alias/"@, parts[5]) {
        Err(KmsArnError::InvalidResource)
    } else {
        Ok(())
    }
}

/// Checks that `arn` is a complete AWS KMS key or alias ARN.
pub fn validate_aws_kms_arn(arn: &str) -> (r: Result<(), KmsArnError>)
    ensures
        r == kms_arn_check(arn@),
{
    if !is_valid_kms_arn(arn) {
        return Err(KmsArnError::MissingPrefix);
    }
    let v = chars_of(arn);
    let parts = split_chars(v.as_slice(), ':');
    assert(parts@.len() == split_on(arn@, ':').len());
    if parts.len() != 6 {
        return Err(KmsArnError::WrongPartCount { parts: parts.len() });
    }
    let resource = &parts[5];
    assert(resource@ == split_on(arn@, ':')[5]);
    let key = chars_of("key/");
    let alias = chars_of("alias/");
    if !chars_starts_with(resource.as_slice(), key.as_slice()) && !chars_starts_with(
        resource.as_slice(),
        alias.as_slice(),
    ) {
        return Err(KmsArnError::InvalidResource);
    }
    Ok(())
}

/// An ARN that passes validation is a KMS ARN: it has the `arn:aws:kms:` prefix
/// and six `:`-separated parts, the last naming a key or an alias.
pub proof fn law_valid_arn_is_kms_arn(arn: Seq<char>)
    ensures
        kms_arn_check(arn) is Ok ==> is_prefix(kms_prefix(), arn) && split_on(arn, ':').len() == 6
            && (is_prefix("key/"@, split_on(arn, ':')[5]) || is_prefix(
            "alias/"@,
            split_on(arn, ':')[5],
        )),
{
}

/// Which key encryption key protects the data encryption keys.
#[derive(Debug)]
pub enum KeyEncryptionKeyChoice {
    /// A key kept in a local file.
    Local,
    /// An AWS KMS key, named by its ARN.
    AwsKms { arn: String },
}

/// Why a key encryption key setting was refused.
#[derive(Debug)]
pub enum KeyEncryptionKeyError {
    /// The setting is neither `local` nor an AWS KMS ARN.
    InvalidAwsKmsArn { value: String },
}

/// The choice that a `--key-encryption-key` setting makes: no setting or `local`
/// gives the local key; an AWS KMS ARN gives that key; anything else is refused.
pub open spec fn key_encryption_key_choice(setting: Option<Seq<char>>) -> Option<Option<Seq<char>>> {
    match setting {
        None => Some(None),
        Some(s) => if s == "local"@ {
            Some(None)
        } else if is_prefix(kms_prefix(), s) {
            Some(Some(s))
        } else {
            None
        },
    }
}

/// Decides which key encryption key to use from the command-line setting.
pub fn choose_key_encryption_key(key_encryption_key: Option<String>) -> (r: Result<
    KeyEncryptionKeyChoice,
    KeyEncryptionKeyError,
>)
    ensures
        match key_encryption_key_choice(
            match key_encryption_key {
                Some(s) => Some(s@),
                None => None,
            },
        ) {
            Some(None) => r matches Ok(KeyEncryptionKeyChoice::Local),
            Some(Some(arn)) => r matches Ok(KeyEncryptionKeyChoice::AwsKms { arn: a }) && a@ == arn,
            None => r matches Err(KeyEncryptionKeyError::InvalidAwsKmsArn { value: v }) && Some(v@)
                == (match key_encryption_key {
                Some(s) => Some(s@),
                None => None::<Seq<char>>,
            }),
        },
{
    match key_encryption_key {
        None => Ok(KeyEncryptionKeyChoice::Local),
        Some(s) => {
            if str_eq(s.as_str(), "local") {
                Ok(KeyEncryptionKeyChoice::Local)
            } else if is_valid_kms_arn(s.as_str()) {
                Ok(KeyEncryptionKeyChoice::AwsKms { arn: s })
            } else {
                Err(KeyEncryptionKeyError::InvalidAwsKmsArn { value: s })
            }
        },
    }
}

/// A key-encryption key taken from AWS KMS is the setting itself, and a KMS ARN.
pub proof fn law_kms_choice_keeps_the_arn(setting: Seq<char>)
    ensures
        key_encryption_key_choice(Some(setting)) matches Some(Some(arn)) ==> arn == setting
            && is_prefix(kms_prefix(), arn),
{
}

/// How an envelope key is named on the API: a KMS ARN as it is, a key file by
/// its absolute location (relative locations are taken from `cwd`).
pub open spec fn envelope_key_identifier_of(key: Seq<char>, cwd: Seq<char>) -> Seq<char> {
    if is_prefix(kms_prefix(), key) {
        key
    } else {
        resolved_location(key, cwd)
    }
}

/// The API name of the envelope key given on the command line.
pub fn envelope_key_identifier(key: &str, cwd: &str) -> (r: String)
    ensures
        r@ == envelope_key_identifier_of(key@, cwd@),
{
    if is_valid_kms_arn(key) {
        string_of(chars_of(key).as_slice())
    } else {
        resolve_location(key, cwd)
    }
}

} // verus!
