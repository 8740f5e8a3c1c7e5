use rstify::authz::extract_token;
use rstify::error::ApiError;
use rstify::error::CoreError;
use rstify::models::{LoginResponse, User};
use rstify::password::{hash_password, hash_then_verify, verify_password};
use rstify::pipeline::login;
use rstify::tokens::{
    classify_token, create_jwt, generate_app_token, generate_client_token, generate_webhook_token,
    jwt_mint_validate_agree, validate_jwt, TokenType,
};

fn sample_user(id: i64, username: &str, password: &str, is_admin: bool) -> User {
    User {
        id,
        username: username.to_string(),
        password_hash: hash_password(password).unwrap(),
        email: None,
        is_admin,
        created_at: "2024-01-01 00:00:00".to_string(),
        updated_at: "2024-01-01 00:00:00".to_string(),
    }
}

#[test]
fn test_hash_and_verify() {
    let password = "test_password_123".to_string();
    let hash = hash_password(&password).unwrap();
    assert!(verify_password(&password, &hash).unwrap());
    assert!(!verify_password("wrong_password", &hash).unwrap());
}

#[test]
fn test_hash_then_verify_law() {
    assert!(hash_then_verify("any password at all").unwrap());
}

#[test]
fn test_malformed_hash_is_error() {
    assert!(verify_password("pw", "not a phc string").is_err());
}

#[test]
fn test_token_generation() {
    let app = generate_app_token();
    assert!(app.starts_with("AP_"));
    assert_eq!(app.len(), 35); // AP_ + 32 hex chars

    let client = generate_client_token();
    assert!(client.starts_with("CL_"));
}

#[test]
fn test_jwt_roundtrip() {
    let secret = "test-secret-key";
    let token = create_jwt(1, "admin", true, secret).unwrap();
    let claims = validate_jwt(&token, secret).unwrap();
    assert_eq!(claims.sub, 1);
    assert_eq!(claims.username, "admin");
    assert!(claims.is_admin);
}

#[test]
fn test_jwt_wrong_secret_fails() {
    let token = create_jwt(7, "u", false, "secret-one").unwrap();
    assert!(validate_jwt(&token, "secret-two").is_err());
}

#[test]
fn test_jwt_mint_validate_agree_law() {
    let claims = jwt_mint_validate_agree(42, "alice", false, "s3cr3t").unwrap();
    assert_eq!(claims.sub, 42);
    assert_eq!(claims.username, "alice");
    assert!(!claims.is_admin);
}

#[test]
fn test_classify_token() {
    assert!(matches!(classify_token("AP_abc"), TokenType::AppToken));
    assert!(matches!(classify_token("CL_abc"), TokenType::ClientToken));
    assert!(matches!(classify_token("WH_abc"), TokenType::WebhookToken));
    assert!(matches!(classify_token("eyJhbGciOi"), TokenType::Jwt));
    assert!(matches!(classify_token(&generate_webhook_token()), TokenType::WebhookToken));
}

#[test]
fn test_seeded_admin_login() {
    // a fresh instance seeds (admin, admin) as the first user
    let admin = sample_user(1, "admin", "admin", true);
    let secret = "a-jwt-secret-of-at-least-32-bytes!!";
    let LoginResponse { token } = login(Some(&admin), "admin", secret).unwrap();
    let claims = validate_jwt(&token, secret).unwrap();
    assert_eq!(claims.sub, 1);
    assert_eq!(claims.username, "admin");
    assert!(claims.is_admin);
}

#[test]
fn test_login_wrong_password_is_unauthorized() {
    let user = sample_user(2, "bob", "correct-horse", false);
    let err = login(Some(&user), "battery-staple", "secret").unwrap_err();
    let api = ApiError::from_core(err);
    assert_eq!(api.status, 401);
    assert_eq!(api.message, "Invalid credentials");
}

#[test]
fn test_login_unknown_user_is_unauthorized() {
    let err = login(None, "whatever", "secret").unwrap_err();
    assert!(matches!(err, CoreError::Unauthorized(_)));
}

#[test]
fn test_extract_token_order() {
    assert_eq!(
        extract_token(Some("Bearer AP_x"), Some("ignored"), Some("token=q")).unwrap(),
        "AP_x",
    );
    assert_eq!(extract_token(None, Some("CL_y"), Some("token=q")).unwrap(), "CL_y");
    assert_eq!(extract_token(None, None, Some("a=1&token=CL_z&b=2")).unwrap(), "CL_z");
    assert_eq!(extract_token(Some("Basic zzz"), None, Some("token=t")).unwrap(), "t");
    assert!(extract_token(None, None, Some("a=1&b=2")).is_none());
    assert!(extract_token(None, None, None).is_none());
}

#[test]
fn test_error_statuses() {
    let cases: Vec<(CoreError, u16)> = vec![
        (CoreError::NotFound("x".to_string()), 404),
        (CoreError::AlreadyExists("x".to_string()), 409),
        (CoreError::Unauthorized("x".to_string()), 401),
        (CoreError::Forbidden("x".to_string()), 403),
        (CoreError::Validation("x".to_string()), 400),
        (CoreError::Database("secret detail".to_string()), 500),
        (CoreError::Internal("x".to_string()), 500),
    ];
    for (err, status) in cases {
        let scrub = matches!(err, CoreError::Database(_));
        let api = ApiError::from_core(err);
        assert_eq!(api.status, status);
        if scrub {
            assert_eq!(api.message, "Internal database error");
        }
    }
}
