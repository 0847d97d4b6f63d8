use http_proxy::authorization::{
    check_authorization, check_credentials, decode_user_password, decoded_user_password, AuthorizationError,
};
use http_proxy::config::{Config, User};

fn config(users: Vec<(&str, &str)>) -> Config {
    Config {
        bind_addr: None,
        bind_port: None,
        users: users
            .into_iter()
            .map(|(username, password)| User { username: username.to_string(), password: password.to_string() })
            .collect(),
        default_allow: None,
        allowed: vec![],
        blocked: vec![],
    }
}

fn credentials(header: &[u8]) -> (String, String) {
    decode_user_password(Some(header)).unwrap()
}

#[test]
fn a_name_and_a_password() {
    assert_eq!(credentials(b"Basic dXNlcjpwYXNz"), ("user".to_string(), "pass".to_string()));
}

#[test]
fn the_scheme_and_the_spacing_make_no_difference() {
    assert_eq!(credentials(b"Bearer dXNlcjpwYXNz"), ("user".to_string(), "pass".to_string()));
    assert_eq!(credentials(b"  Basic \t dXNlcjpwYXNz "), ("user".to_string(), "pass".to_string()));
}

#[test]
fn the_first_colon_separates() {
    // "a:b:c"
    assert_eq!(credentials(b"Basic YTpiOmM="), ("a".to_string(), "b:c".to_string()));
    // ":"
    assert_eq!(credentials(b"Basic Og=="), (String::new(), String::new()));
}

#[test]
fn text_beyond_ascii() {
    // "\u{e9}:\u{4e2d}" in UTF-8
    assert_eq!(credentials(b"Basic w6k65Lit"), ("\u{e9}".to_string(), "\u{4e2d}".to_string()));
}

#[test]
fn a_missing_header() {
    assert!(matches!(decode_user_password(None), Err(AuthorizationError::Missing)));
}

#[test]
fn bytes_that_are_not_visible() {
    assert!(matches!(decode_user_password(Some(b"Basic \xff")), Err(AuthorizationError::NotText)));
    assert!(matches!(decode_user_password(Some(b"Basic\x7f a")), Err(AuthorizationError::NotText)));
    assert!(matches!(decode_user_password(Some(b"Basic\na")), Err(AuthorizationError::NotText)));
}

#[test]
fn a_header_of_other_than_two_words() {
    for header in ["", "Basic", "Basic a b"] {
        match decode_user_password(Some(header.as_bytes())) {
            Err(AuthorizationError::NotTwoWords(line)) => assert_eq!(line, header.as_bytes()),
            other => panic!("{:?}", other),
        }
    }
}

#[test]
fn a_word_that_is_not_base64() {
    match decode_user_password(Some(b"Basic dXNlcjpwYXN!")) {
        Err(AuthorizationError::NotBase64(cause)) => {
            assert_eq!(cause, base64::DecodeError::InvalidByte(11, b'!'));
        },
        other => panic!("{:?}", other),
    }
    match decode_user_password(Some(b"Basic Og")) {
        Err(AuthorizationError::NotBase64(cause)) => assert_eq!(cause, base64::DecodeError::InvalidPadding),
        other => panic!("{:?}", other),
    }
}

#[test]
fn a_word_that_does_not_encode_utf8() {
    // the bytes ff 3a 61
    match decode_user_password(Some(b"Basic /zph")) {
        Err(AuthorizationError::NotUtf8(cause)) => assert_eq!(cause.valid_up_to(), 0),
        other => panic!("{:?}", other),
    }
}

#[test]
fn a_text_without_a_colon() {
    match decode_user_password(Some(b"Basic YWJj")) {
        Err(AuthorizationError::NoColon(text)) => assert_eq!(text, "abc"),
        other => panic!("{:?}", other),
    }
}

#[test]
fn decoded_words() {
    assert_eq!(
        decoded_user_password(Ok(b"x:y".to_vec())).unwrap(),
        ("x".to_string(), "y".to_string()),
    );
    assert!(matches!(
        decoded_user_password(Err(base64::DecodeError::InvalidPadding)),
        Err(AuthorizationError::NotBase64(base64::DecodeError::InvalidPadding)),
    ));
}

#[test]
fn clients_are_admitted_by_their_credentials() {
    let config = config(vec![("user", "pass")]);
    assert!(check_authorization(Some(b"Basic dXNlcjpwYXNz"), &config));
    // "user:word"
    assert!(!check_authorization(Some(b"Basic dXNlcjp3b3Jk"), &config));
    assert!(!check_authorization(None, &config));
}

#[test]
fn clients_without_credentials_are_anonymous() {
    let config = config(vec![("anonymous", "anonymous")]);
    assert!(check_authorization(None, &config));
    assert!(check_authorization(Some(b"nonsense"), &config));
    assert!(!check_authorization(Some(b"Basic dXNlcjpwYXNz"), &config));
    assert!(check_credentials(Err(AuthorizationError::Missing), &config));
    assert!(!check_credentials(Ok(("a".to_string(), "b".to_string())), &config));
}

#[test]
fn every_client_is_admitted_without_users() {
    let config = config(vec![]);
    assert!(check_authorization(None, &config));
    assert!(check_authorization(Some(b"Basic dXNlcjpwYXNz"), &config));
    assert!(check_authorization(Some(b"\xff"), &config));
}
