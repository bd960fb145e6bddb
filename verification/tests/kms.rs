use soma::kms::{
    choose_key_encryption_key, envelope_key_identifier, is_valid_kms_arn, validate_aws_kms_arn, KeyEncryptionKeyChoice,
    KeyEncryptionKeyError, KmsArnError,
};

#[test]
fn test_is_valid_kms_arn_with_valid_arn() {
    let arn = "arn:aws:kms:us-east-1:123456789012:key/12345678-1234-1234-1234-123456789012";
    assert!(is_valid_kms_arn(arn));
}

#[test]
fn test_is_valid_kms_arn_with_invalid_arn() {
    let arn = "arn:aws:s3:::my-bucket";
    assert!(!is_valid_kms_arn(arn));
}

#[test]
fn test_is_valid_kms_arn_with_random_string() {
    let arn = "not-an-arn";
    assert!(!is_valid_kms_arn(arn));
}

#[test]
fn test_is_valid_kms_arn_empty_string() {
    assert!(!is_valid_kms_arn(""));
}

#[test]
fn test_is_valid_kms_arn_local() {
    assert!(!is_valid_kms_arn("local"));
}

#[test]
fn test_validate_aws_kms_arn_valid() {
    // Valid key ARN
    assert!(validate_aws_kms_arn(
        "arn:aws:kms:us-east-1:123456789012:key/12345678-1234-1234-1234-123456789012"
    )
    .is_ok());

    // Valid alias ARN
    assert!(validate_aws_kms_arn("arn:aws:kms:us-west-2:987654321098:alias/my-key-alias").is_ok());
}

#[test]
fn test_validate_aws_kms_arn_invalid() {
    // Not starting with arn:aws:kms:
    assert!(validate_aws_kms_arn("arn:aws:s3:us-east-1:123456789012:bucket/my-bucket").is_err());

    // Wrong number of parts
    assert!(
        validate_aws_kms_arn("arn:aws:kms:us-east-1:key/12345678-1234-1234-1234-123456789012").is_err()
    );

    // Invalid resource type
    assert!(validate_aws_kms_arn(
        "arn:aws:kms:us-east-1:123456789012:invalid/12345678-1234-1234-1234-123456789012"
    )
    .is_err());

    // Empty string
    assert!(validate_aws_kms_arn("").is_err());
}

#[test]
fn validate_reports_each_error_kind() {
    assert!(matches!(
        validate_aws_kms_arn("arn:aws:s3:us-east-1:1:key/x"),
        Err(KmsArnError::MissingPrefix)
    ));
    assert!(matches!(
        validate_aws_kms_arn("arn:aws:kms:us-east-1:key/x"),
        Err(KmsArnError::WrongPartCount { parts: 5 })
    ));
    assert!(matches!(
        validate_aws_kms_arn("arn:aws:kms:a:b:c:key/x"),
        Err(KmsArnError::WrongPartCount { parts: 7 })
    ));
    assert!(matches!(
        validate_aws_kms_arn("arn:aws:kms:us-east-1:1:bucket/x"),
        Err(KmsArnError::InvalidResource)
    ));
}

#[test]
fn validated_arn_is_a_kms_arn() {
    for arn in [
        "arn:aws:kms:r:1:key/a",
        "arn:aws:kms:r:1:alias/b",
        "arn:aws:kms:r:1:nope/c",
        "nope",
    ] {
        if validate_aws_kms_arn(arn).is_ok() {
            assert!(is_valid_kms_arn(arn));
        }
    }
}

#[test]
fn key_encryption_key_choice() {
    assert!(matches!(choose_key_encryption_key(None), Ok(KeyEncryptionKeyChoice::Local)));
    assert!(matches!(
        choose_key_encryption_key(Some("local".to_string())),
        Ok(KeyEncryptionKeyChoice::Local)
    ));
    match choose_key_encryption_key(Some("arn:aws:kms:r:1:key/a".to_string())) {
        Ok(KeyEncryptionKeyChoice::AwsKms { arn }) => assert_eq!(arn, "arn:aws:kms:r:1:key/a"),
        _ => panic!("expected an AWS KMS key"),
    }
    match choose_key_encryption_key(Some("garbage".to_string())) {
        Err(KeyEncryptionKeyError::InvalidAwsKmsArn { value }) => assert_eq!(value, "garbage"),
        _ => panic!("expected a refusal"),
    }
}

#[test]
fn envelope_key_identifiers() {
    assert_eq!(envelope_key_identifier("arn:aws:kms:r:1:key/a", "/cwd"), "arn:aws:kms:r:1:key/a");
    assert_eq!(envelope_key_identifier("keys/local.bin", "/cwd"), "/cwd/keys/local.bin");
    assert_eq!(envelope_key_identifier("/abs/local.bin", "/cwd"), "/abs/local.bin");
}
