use rust_upload::token::UploadToken;
use rust_upload::token::UploadTokenError;
use rust_upload::token::ValidTokens;

fn accepted() -> ValidTokens {
    ValidTokens::from_tokens(vec!["alpha".to_owned(), "beta".to_owned()])
}

#[test]
fn test_contains() {
    let tokens = accepted();
    assert!(tokens.contains("alpha"));
    assert!(tokens.contains("beta"));
    assert!(!tokens.contains("gamma"));
    assert!(!tokens.contains(""));
    assert!(!tokens.contains("alph"));
    assert!(!tokens.contains("alphaa"));
}

#[test]
fn test_token_missing() {
    let r = UploadToken::from_headers(&accepted(), &vec![]);
    assert_eq!(Some(UploadTokenError::Missing), r.err());
}

#[test]
fn test_token_bad_count() {
    let keys = vec!["alpha".to_owned(), "beta".to_owned()];
    let r = UploadToken::from_headers(&accepted(), &keys);
    assert_eq!(Some(UploadTokenError::BadCount), r.err());
}

#[test]
fn test_token_invalid() {
    let keys = vec!["gamma".to_owned()];
    let r = UploadToken::from_headers(&accepted(), &keys);
    assert_eq!(Some(UploadTokenError::Invalid), r.err());
}

#[test]
fn test_token_accepted() {
    let keys = vec!["beta".to_owned()];
    let r = UploadToken::from_headers(&accepted(), &keys);
    assert!(r.is_ok());
}
