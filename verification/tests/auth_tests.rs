use base64::Engine;

use jobcore::auth::AuthError;
use jobcore::auth::DecodedCredentials;
use jobcore::auth::DenyStatus;
use jobcore::auth::UserRecord;
use jobcore::auth::authenticate_user;
use jobcore::auth::basic_auth_credentials;
use jobcore::auth::decode_base64_credentials;
use jobcore::auth::parse_basic_auth_header;
use jobcore::auth::split_credentials;
use jobcore::auth::verify_password;

fn b64(s: &str) -> String {
    base64::engine::general_purpose::STANDARD.encode(s.as_bytes())
}

#[test]
fn decode_credentials_happy_path() {
    let c = decode_base64_credentials(b"user:pass".to_vec()).expect("should decode");
    assert_eq!(c.username, "user");
    assert_eq!(c.password, "pass");
}

#[test]
fn decode_credentials_takes_second_field_only() {
    let c = decode_base64_credentials(b"user:pa:ss".to_vec()).expect("should decode");
    assert_eq!(c.username, "user");
    assert_eq!(c.password, "pa");
}

#[test]
fn decode_credentials_missing_colon() {
    let e = decode_base64_credentials(b"userpass".to_vec()).unwrap_err();
    assert_eq!(e, AuthError::BadCredentials);
}

#[test]
fn decode_credentials_empty_fields() {
    assert_eq!(
        decode_base64_credentials(b":pass".to_vec()).unwrap_err(),
        AuthError::BadCredentials
    );
    assert_eq!(
        decode_base64_credentials(b"user:".to_vec()).unwrap_err(),
        AuthError::BadCredentials
    );
    assert_eq!(decode_base64_credentials(Vec::new()).unwrap_err(), AuthError::BadCredentials);
}

#[test]
fn decode_credentials_invalid_utf8() {
    let e = decode_base64_credentials(vec![0xff, 0xfe, b':', b'x']).unwrap_err();
    assert_eq!(e, AuthError::BadCredentials);
}

#[test]
fn split_credentials_on_plain_text() {
    let c = split_credentials("alice:s3cret").expect("should split");
    assert_eq!(c.username, "alice");
    assert_eq!(c.password, "s3cret");
}

#[test]
fn verify_password_against_real_hash() {
    let hash = bcrypt::hash("s3cret", 4).expect("hashing works");
    assert_eq!(verify_password(&hash, "s3cret"), Ok(true));
    assert_eq!(verify_password(&hash, "wrong"), Ok(false));
}

#[test]
fn verify_password_malformed_hash() {
    assert_eq!(verify_password("not-a-hash", "pw"), Err(AuthError::BcryptError));
}

#[test]
fn parse_header_requires_basic_scheme() {
    assert_eq!(parse_basic_auth_header("Bearer abc").unwrap_err(), AuthError::BadRequest);
    assert_eq!(parse_basic_auth_header("").unwrap_err(), AuthError::BadRequest);
    assert_eq!(parse_basic_auth_header("Basi").unwrap_err(), AuthError::BadRequest);
}

#[test]
fn parse_header_strips_every_marker() {
    // the guard removes the marker as a global text replacement
    assert_eq!(parse_basic_auth_header("Basic dXNlcg==").unwrap(), "dXNlcg==");
    assert_eq!(parse_basic_auth_header("Basic Basic xyz").unwrap(), "xyz");
}

#[test]
fn basic_auth_credentials_happy_path() {
    let header = format!("Basic {}", b64("user:pass"));
    let c = basic_auth_credentials(Some(&header)).expect("should authenticate");
    assert_eq!(c.username, "user");
    assert_eq!(c.password, "pass");
}

#[test]
fn basic_auth_credentials_missing_header() {
    let d = basic_auth_credentials(None).unwrap_err();
    assert_eq!(d.status, DenyStatus::Unauthorized);
    assert_eq!(d.error, AuthError::BadRequest);
}

#[test]
fn basic_auth_credentials_wrong_scheme() {
    let d = basic_auth_credentials(Some("Bearer abc")).unwrap_err();
    assert_eq!(d.status, DenyStatus::BadRequest);
    assert_eq!(d.error, AuthError::BadRequest);
}

#[test]
fn basic_auth_credentials_bad_base64() {
    let d = basic_auth_credentials(Some("Basic !!!not-base64!!!")).unwrap_err();
    assert_eq!(d.status, DenyStatus::Unauthorized);
    assert_eq!(d.error, AuthError::BadRequest);
}

#[test]
fn basic_auth_credentials_empty_password() {
    let header = format!("Basic {}", b64("user:"));
    let d = basic_auth_credentials(Some(&header)).unwrap_err();
    assert_eq!(d.status, DenyStatus::Unauthorized);
    assert_eq!(d.error, AuthError::BadCredentials);
}

#[test]
fn authenticate_user_flow() {
    let hash = bcrypt::hash("pw", 4).expect("hashing works");
    let creds = DecodedCredentials { username: "alice".to_string(), password: "pw".to_string() };
    let record =
        UserRecord { username: "alice".to_string(), hashed_password: hash.clone() };
    let ok = authenticate_user(Some(record), &creds).expect("should authenticate");
    assert_eq!(ok.0.username, "alice");

    let record =
        UserRecord { username: "alice".to_string(), hashed_password: hash.clone() };
    let wrong =
        DecodedCredentials { username: "alice".to_string(), password: "nope".to_string() };
    assert_eq!(authenticate_user(Some(record), &wrong).unwrap_err(), AuthError::Unauthorized);

    assert_eq!(authenticate_user(None, &creds).unwrap_err(), AuthError::Unauthorized);

    let broken =
        UserRecord { username: "alice".to_string(), hashed_password: "zzz".to_string() };
    assert_eq!(authenticate_user(Some(broken), &creds).unwrap_err(), AuthError::BcryptError);
}

#[test]
fn auth_error_messages() {
    assert_eq!(AuthError::BcryptError.message(), "Error during the authentication process");
    assert_eq!(AuthError::BadCredentials.message(), "Missing or malformed credentials");
    assert_eq!(AuthError::BadRequest.message(), "The Authorization header could no be parsed");
    assert_eq!(AuthError::Unauthorized.message(), "Unauthorized");
    assert_eq!(AuthError::InvalidSession.message(), "The session is not valid");
}
