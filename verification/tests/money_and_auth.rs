use tax_engine::application::auth::login_and_signup::{check_password, token_pair, LoginAndSignup, LoginError};
use tax_engine::domain::entities::ParserError;
use tax_engine::domain::ports::{PasswordError, TokenError};
use tax_engine::infrastructure::auth::jwt::JwtServiceImpl;
use tax_engine::money::Amount;

#[test]
fn amounts_compare_by_value() {
    assert!(Amount::new(150, 1) == Amount::new(1500, 2));
    assert!(Amount::new(-150, 1) != Amount::new(1500, 2));
    assert!(Amount::zero() == Amount::new(0, 5));
}

#[test]
fn decimal_arithmetic_goes_through_rust_decimal() {
    let a = Amount::new(105, 1);
    let b = Amount::new(25, 2);
    assert!(a.plus(&b) == Amount::new(1075, 2));
    assert!(a.minus(&b) == Amount::new(1025, 2));
    assert!(a.times(&b) == Amount::new(2625, 3));
    assert!(Amount::parse("12.50").unwrap() == Amount::new(125, 1));
    assert!(Amount::parse("1,2").is_none());
}

#[test]
fn only_verified_passwords_let_users_in() {
    assert_eq!(check_password(Ok(true)), Ok(()));
    assert_eq!(check_password(Ok(false)), Err(LoginError::InvalidCredentials));
    assert_eq!(check_password(Err(PasswordError::VerificationFailed)), Err(LoginError::InvalidCredentials));
}

#[test]
fn both_tokens_are_needed() {
    assert_eq!(token_pair(Ok("a".to_string()), Ok("r".to_string())), Ok(("a".to_string(), "r".to_string())));
    assert_eq!(token_pair(Err(TokenError::Expired), Ok("r".to_string())), Err(LoginError::TokenGenertionFailed));
}

#[test]
fn services_keep_their_configuration() {
    let jwt = JwtServiceImpl::new("s3cret".to_string(), "tax-engine".to_string());
    assert_eq!(jwt.secret(), "s3cret");
    assert_eq!(jwt.issuer(), "tax-engine");
    let login = LoginAndSignup::new(1u8, 2u16);
    assert_eq!(*login.user_repo(), 1u8);
    assert_eq!(*login.token(), 2u16);
}

#[test]
fn parser_error_messages() {
    assert_eq!(ParserError::FileError.message(), "failed ot read the pdf ");
    assert_eq!(ParserError::UnknownFormat.message(), "this pdf formart is not recognized");
}

#[test]
fn amount_text_is_the_decimal_display() {
    assert_eq!(Amount::new(-1250, 2).to_text(), "-12.50");
    assert_eq!(Amount::new(5000, 0).to_text(), "5000");
}
