use loose_objects::codec::parse_blob;
use loose_objects::commands::{unknown_command, CommandError};
use loose_objects::store::parse_object_path_from_hash;
use loose_objects::Error;

#[test]
fn parse_blob_succeeds_with_good_blob() -> Result<(), Error> {
    let blob_content = "blob 7\0abcd123".as_bytes();
    let expected_content = "abcd123".as_bytes().to_vec();

    let content = parse_blob(Some(blob_content))?;
    assert_eq!(content, expected_content);
    Ok(())
}

#[test]
fn parse_blob_is_error_with_bad_blob() {
    let blob_content = "12345".as_bytes();
    let expected_error = Err(Error::MalformedObject);

    let actual_result = parse_blob(Some(blob_content));
    assert_eq!(actual_result, expected_error);
}

#[test]
fn parse_blob_is_error_with_no_blob_header() {
    let blob_content = "7\0abcd123".as_bytes();
    let expected_error = Err(Error::MalformedObject);

    let actual_result = parse_blob(Some(blob_content));
    assert_eq!(actual_result, expected_error);
}

#[test]
fn parse_blob_is_error_with_no_size() {
    let blob_content = "blob \0abcd123".as_bytes();
    let expected_error = Err(Error::MalformedObject);

    let actual_result = parse_blob(Some(blob_content));
    assert_eq!(actual_result, expected_error);
}

#[test]
fn parse_blob_is_error_with_nonexistent_blob() {
    let blob_content: Option<&[u8]> = None;
    let expected_error = Err(Error::ObjectNotFound);

    let actual_result = parse_blob(blob_content);
    assert_eq!(actual_result, expected_error);
}

#[test]
fn test_parse_object_path_from_hash() -> Result<(), Error> {
    let object_hash = "a1b2c3d4e5f6g7h8i9j0a1b2c3d4e5f6g7h8i9j0";
    let expected_path = "./.git/objects/a1/b2c3d4e5f6g7h8i9j0a1b2c3d4e5f6g7h8i9j0";

    let path = parse_object_path_from_hash(object_hash)?;
    assert_eq!(path, expected_path);
    Ok(())
}

#[test]
fn test_parse_object_path_from_hash_with_invalid_chars() {
    let object_hash = "a1b2c3d4e5f6g7h8i9j/a1b2c3d4e5f6g7h8i9j/";
    let expected_error = Err(Error::InvalidObjectHash(object_hash.to_string()));

    let actual_result = parse_object_path_from_hash(object_hash);
    println!("{:?}", actual_result);
    assert_eq!(actual_result, expected_error);
}

#[test]
fn test_parse_object_path_from_hash_with_short_length() {
    let object_hash = "1234567890";
    let expected_error = Err(Error::InvalidObjectHash(object_hash.to_string()));

    let actual_result = parse_object_path_from_hash(object_hash);
    assert_eq!(actual_result, expected_error);
}

#[test]
fn test_parse_object_path_from_hash_with_long_length() {
    let object_hash = "a1b2c3d4e5f6g7h8i9j0a1b2c3d4e5f6g7h8i9j01234567890";
    let expected_error = Err(Error::InvalidObjectHash(object_hash.to_string()));

    let actual_result = parse_object_path_from_hash(object_hash);
    assert_eq!(actual_result, expected_error);
}

#[test]
fn test_unknown_command() {
    let command = "unknown-command";
    let expected_error = CommandError::UnknownCommand(command.to_string());

    let actual_result = unknown_command(command);
    if let Err(actual_error) = actual_result {
        assert_eq!(actual_error, expected_error);
        return;
    }
    panic!();
}
