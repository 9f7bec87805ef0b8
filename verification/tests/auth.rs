use rockslide::auth::{
    AuthError, AuthProvider, MasterKey, PasswordTable, UnverifiedCredentials, ValidUser,
};
use rockslide::basic::{base64_decode, parse_basic, split_at_colon};

fn creds(username: &str, password: &str) -> UnverifiedCredentials {
    UnverifiedCredentials::new(username.to_string(), password.to_string())
}

#[test]
fn bool_provider_allows_or_denies_everyone() {
    assert!(true.check_credentials(&creds("anyone", "anything")));
    assert!(!false.check_credentials(&creds("anyone", "anything")));
}

#[test]
fn password_table_checks_the_password_of_the_user() {
    let mut table = PasswordTable::new();
    table.insert("alice".to_string(), sec::Secret::new("wonderland".to_string()));
    table.insert("bob".to_string(), sec::Secret::new("builder".to_string()));
    assert!(table.check_credentials(&creds("alice", "wonderland")));
    assert!(table.check_credentials(&creds("bob", "builder")));
    assert!(!table.check_credentials(&creds("alice", "builder")));
    assert!(!table.check_credentials(&creds("alice", "wonderlan")));
    assert!(!table.check_credentials(&creds("alice", "")));
    assert!(!table.check_credentials(&creds("carol", "wonderland")));
}

#[test]
fn password_table_keeps_the_latest_password() {
    let mut table = PasswordTable::new();
    table.insert("alice".to_string(), sec::Secret::new("old".to_string()));
    table.insert("alice".to_string(), sec::Secret::new("new".to_string()));
    assert!(table.check_credentials(&creds("alice", "new")));
    assert!(!table.check_credentials(&creds("alice", "old")));
}

#[test]
fn empty_password_table_accepts_nobody() {
    let table = PasswordTable::new();
    assert!(!table.check_credentials(&creds("", "")));
}

#[test]
fn master_key_accepts_only_the_key() {
    let key = MasterKey::new_key("s3cret".to_string());
    assert!(key.check_credentials(&creds("anyone", "s3cret")));
    assert!(!key.check_credentials(&creds("anyone", "s3cre")));
    assert!(!key.check_credentials(&creds("s3cret", "other")));
    assert_eq!(key.as_secret_string().reveal_str(), "s3cret");
}

#[test]
fn locked_master_key_accepts_nothing() {
    let key = MasterKey::default();
    assert!(matches!(key, MasterKey::Locked));
    assert!(!key.check_credentials(&creds("anyone", "")));
    assert_eq!(key.as_secret_string().reveal_str(), "");
}

#[test]
fn boxed_and_shared_providers_decide_as_their_content() {
    let boxed = Box::new(MasterKey::new_key("k".to_string()));
    assert!(boxed.check_credentials(&creds("u", "k")));
    assert!(!boxed.check_credentials(&creds("u", "x")));
    let shared = std::sync::Arc::new(false);
    assert!(!shared.check_credentials(&creds("u", "k")));
}

#[test]
fn verify_names_the_user_only_on_approval() {
    let user = ValidUser::verify(&true, creds("alice", "pw")).unwrap();
    assert_eq!(user.username(), "alice");
    let denied = ValidUser::verify(&false, creds("alice", "pw"));
    assert_eq!(denied.err(), Some(AuthError::Unauthorized));
}

#[test]
fn missing_header_is_unauthorized() {
    let r = ValidUser::from_header(&true, None);
    assert_eq!(r.err(), Some(AuthError::Unauthorized));
    assert_eq!(AuthError::Unauthorized.status(), 401);
    assert_eq!(UnverifiedCredentials::from_header(None).err(), Some(AuthError::Unauthorized));
}

#[test]
fn malformed_header_is_a_bad_request() {
    let malformed: Vec<&[u8]> = vec![
        &b""[..],
        b"Basic",
        b"Bearer YTpi",
        b"BasicYTpi",
        b"Basic YTp",
        b"Basic YT=i",
        b"Basic Y===",
        b"Basic YQ==YTpi",
        b"Basic YTpi ",
        b"Basic Y*pi",
        b"Basic YWI=",
        b"Basic /zpi",
    ];
    for header in malformed {
        let r = ValidUser::from_header(&true, Some(header));
        assert_eq!(r.err(), Some(AuthError::BadRequest));
    }
    assert_eq!(AuthError::BadRequest.status(), 400);
}

#[test]
fn basic_header_is_verified() {
    let mut table = PasswordTable::new();
    table.insert("alice".to_string(), sec::Secret::new("pw".to_string()));
    assert_eq!(ValidUser::from_header(&table, Some(b"Basic YWxpY2U6cHc=")).unwrap().username(), "alice");
    let bad = ValidUser::from_header(&table, Some(b"Basic YWxpY2U6bm8="));
    assert_eq!(bad.err(), Some(AuthError::Unauthorized));
}

#[test]
fn header_is_split_at_the_first_colon() {
    let c = UnverifiedCredentials::from_header(Some(b"Basic QWxhZGRpbjpvcGVuIHNlc2FtZQ==")).unwrap();
    assert_eq!(c.username, "Aladdin");
    assert_eq!(c.password.reveal_str(), "open sesame");
    let c = UnverifiedCredentials::from_header(Some(b"basic   YTpiOmM=")).unwrap();
    assert_eq!(c.username, "a");
    assert_eq!(c.password.reveal_str(), "b:c");
    let c = UnverifiedCredentials::from_header(Some(b"BASIC Og==")).unwrap();
    assert_eq!(c.username, "");
    assert_eq!(c.password.reveal_str(), "");
    let c = UnverifiedCredentials::from_header(Some(b"Basic w6k6w7w=")).unwrap();
    assert_eq!(c.username, "\u{e9}");
    assert_eq!(c.password.reveal_str(), "\u{fc}");
}

#[test]
fn base64_text_decodes_to_its_bytes() {
    assert_eq!(base64_decode(b"", 0), Some(vec![]));
    assert_eq!(base64_decode(b"TWFu", 0), Some(b"Man".to_vec()));
    assert_eq!(base64_decode(b"TWE=", 0), Some(b"Ma".to_vec()));
    assert_eq!(base64_decode(b"TQ==", 0), Some(b"M".to_vec()));
    assert_eq!(base64_decode(b"xx+/+//wA=", 2), Some(vec![0xfb, 0xff, 0xbf, 0xff, 0x00]));
    assert_eq!(base64_decode(b"TWFuTQ==", 0), Some(b"ManM".to_vec()));
    assert_eq!(base64_decode(b"TWF", 0), None);
    assert_eq!(base64_decode(b"TQ==TWFu", 0), None);
    assert_eq!(base64_decode(b"T-Fu", 0), None);
    assert_eq!(base64_decode(b"=WFu", 0), None);
    assert_eq!(parse_basic(b"Basic dTpw"), Some(("u".to_string(), "p".to_string())));
    assert_eq!(split_at_colon(&b"no colon".to_vec()), None);
    assert_eq!(split_at_colon(&b"u:\xff".to_vec()), None);
}

#[test]
fn passwords_stay_out_of_debug_output() {
    let c = creds("alice", "hunter2");
    assert_eq!(c.username, "alice");
    assert_eq!(c.password.reveal_str(), "hunter2");
    let shown = format!("{:?}", c);
    assert!(shown.contains("alice"));
    assert!(!shown.contains("hunter2"));
    let key = format!("{:?}", MasterKey::new_key("hunter2".to_string()));
    assert!(!key.contains("hunter2"));
}
