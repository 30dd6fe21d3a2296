use startpage::config::{Config, Jwt};
use startpage::errors::ServiceError;
use startpage::guards::jwt::{
    bearer_token, decoded_session, session_key, session_pattern, JwtError, Middleware,
};
use startpage::guards::remote_ip::Ip;
use startpage::logger::{drop_rocket, log_line};
use startpage::middlewares::token::{TokenError, TokenMiddleware};
use startpage::middlewares::JwtMiddleware;
use startpage::query::{found, paginate};
use startpage::response::auth::COOKIE_MAX_AGE;
use startpage::response::WithTotal;

#[test]
fn status_of_each_kind_of_error() {
    assert_eq!(ServiceError::DatabaseError(String::from("x")).status(), 500);
    assert_eq!(ServiceError::FormatError(String::from("x")).status(), 400);
    assert_eq!(ServiceError::NotFound.status(), 404);
    assert_eq!(ServiceError::Unauthorized.status(), 401);
    assert_eq!(ServiceError::InternalServerError.status(), 500);
    assert_eq!(ServiceError::BadRequest(String::from("x")).status(), 400);
    assert_eq!(ServiceError::AlreadyExists(String::from("x")).status(), 409);
}

#[test]
fn message_of_each_kind_of_error() {
    assert_eq!(
        ServiceError::DatabaseError(String::from("gone")).message(),
        "Database error: gone"
    );
    assert_eq!(
        ServiceError::FormatError(String::from("bad")).message(),
        "Format error: bad"
    );
    assert_eq!(ServiceError::NotFound.message(), "Not found");
    assert_eq!(ServiceError::Unauthorized.message(), "Unauthorized");
    assert_eq!(
        ServiceError::InternalServerError.message(),
        "Internal server error"
    );
    assert_eq!(
        ServiceError::BadRequest(String::from("no")).message(),
        "Bad request: no"
    );
    assert_eq!(
        ServiceError::AlreadyExists(String::from("twice")).message(),
        "Already exists: twice"
    );
}

#[test]
fn default_settings() {
    let jwt = Jwt::default();
    assert_eq!(jwt.secret, "StartPage");
    assert_eq!(jwt.expires_in, "1h");
    let config = Config::default();
    assert_eq!(config.jwt.secret, "StartPage");
    assert_eq!(config.jwt.expires_in, "1h");
    assert_eq!(config.upload_dir, "");
    assert_eq!(config.upload_url, "");
    assert_eq!(COOKIE_MAX_AGE, 2147483647);
}

#[test]
fn drop_rocket_keeps_what_is_not_the_frameworks_own() {
    assert!(!drop_rocket("rocket"));
    assert!(!drop_rocket("rocket::server"));
    assert!(!drop_rocket("rocket_db_pools"));
    assert!(!drop_rocket("_"));
    assert!(drop_rocket("startpage"));
    assert!(drop_rocket("startpage::rocket"));
    assert!(drop_rocket("__"));
    assert!(drop_rocket(""));
    assert!(drop_rocket("Rocket"));
}

#[test]
fn log_line_lays_out_a_record() {
    assert_eq!(
        log_line("[2024-01-02][03:04:05]", "startpage", "INFO", "started"),
        "[2024-01-02][03:04:05][startpage][INFO] started"
    );
}

#[test]
fn bearer_token_is_what_follows_the_scheme() {
    assert_eq!(bearer_token(Some("Bearer abc.def")), Ok("abc.def"));
    assert_eq!(bearer_token(Some("Bearer ")), Ok(""));
    assert_eq!(bearer_token(None), Err(JwtError::MissingToken));
    assert_eq!(bearer_token(Some("abc")), Err(JwtError::MissingToken));
    assert_eq!(bearer_token(Some("bearer abc")), Err(JwtError::MissingToken));
    assert_eq!(bearer_token(Some("Bearer")), Err(JwtError::MissingToken));
}

#[test]
fn token_middleware_tells_a_missing_header_from_a_wrong_one() {
    assert_eq!(
        TokenMiddleware::from_header(Some("Bearer abc")).map(|t| t.token),
        Ok(String::from("abc"))
    );
    assert_eq!(
        TokenMiddleware::from_header(None).map(|t| t.token),
        Err(TokenError::MissingToken)
    );
    assert_eq!(
        TokenMiddleware::from_header(Some("Basic abc")).map(|t| t.token),
        Err(TokenError::InvalidToken)
    );
}

#[test]
fn a_session_is_let_in_by_the_token_that_the_cache_holds() {
    assert_eq!(
        Middleware::grant(String::from("ada:1"), Some("tok"), "tok").map(|m| m.session),
        Ok(String::from("ada:1"))
    );
    assert_eq!(
        Middleware::grant(String::from("ada:1"), Some("other"), "tok").map(|m| m.session),
        Err(JwtError::InvalidToken)
    );
    assert_eq!(
        Middleware::grant(String::from("ada:1"), None, "tok").map(|m| m.session),
        Err(JwtError::CacheError)
    );
    assert_eq!(
        JwtMiddleware::grant(String::from("ada"), Some("tok"), "tok").map(|m| m.username),
        Ok(String::from("ada"))
    );
    assert_eq!(
        JwtMiddleware::grant(String::from("ada"), Some("tok2"), "tok").map(|m| m.username),
        Err(startpage::middlewares::JwtError::InvalidToken)
    );
    assert_eq!(
        JwtMiddleware::grant(String::from("ada"), None, "tok").map(|m| m.username),
        Err(startpage::middlewares::JwtError::CacheError)
    );
}

#[test]
fn decoded_session_is_the_subject_of_the_token() {
    assert_eq!(
        decoded_session(Some(String::from("ada:1"))),
        Ok(String::from("ada:1"))
    );
    assert_eq!(decoded_session(None), Err(JwtError::InvalidToken));
}

#[test]
fn refusals_are_unauthorised_except_for_broken_settings() {
    assert_eq!(JwtError::ConfigError.status(), 500);
    assert_eq!(JwtError::CacheError.status(), 401);
    assert_eq!(JwtError::MissingToken.status(), 401);
    assert_eq!(JwtError::InvalidToken.status(), 401);
    assert_eq!(JwtError::ExpiredToken.status(), 401);
}

#[test]
fn session_keys() {
    assert_eq!(session_key("ada", "1234"), "ada:1234");
    assert_eq!(session_pattern("ada"), "ada:*");
}

#[test]
fn remote_ip_is_read_off_the_header() {
    assert_eq!(
        Ip::from_header(Some("203.0.113.7")).into_inner(),
        Some(String::from("203.0.113.7"))
    );
    assert_eq!(Ip::from_header(None).into_inner(), None);
}

#[test]
fn paginate_cuts_pages() {
    let list: Vec<i64> = (0..7).collect();
    assert_eq!(paginate(list.clone(), 0, 3), Ok(vec![0, 1, 2]));
    assert_eq!(paginate(list.clone(), 1, 3), Ok(vec![3, 4, 5]));
    assert_eq!(paginate(list.clone(), 2, 3), Ok(vec![6]));
    assert_eq!(paginate(list.clone(), 3, 3), Ok(vec![]));
    assert_eq!(paginate(list.clone(), 0, 0), Ok(vec![]));
    assert_eq!(paginate(list.clone(), 0, 100), Ok(list.clone()));
    assert_eq!(paginate(list.clone(), i64::MAX, i64::MAX), Ok(vec![]));
    assert_eq!(paginate(list.clone(), 0, i64::MAX), Ok(list.clone()));
    assert_eq!(
        paginate(list.clone(), -1, 3),
        Err(ServiceError::BadRequest(String::from(
            "Invalid page or size"
        )))
    );
    assert_eq!(
        paginate(list, 0, -3),
        Err(ServiceError::BadRequest(String::from(
            "Invalid page or size"
        )))
    );
}

#[test]
fn found_looks_into_name_and_description() {
    assert!(found("Rust news", "weekly", Some("news")));
    assert!(found("Cooking", "news about food", Some("news")));
    assert!(!found("Music", "NEWS", Some("news")));
    assert!(found("Music", "", None));
    assert!(found("Music", "", Some("")));
    assert!(!found("ab", "ba", Some("abc")));
}

#[test]
fn with_total_carries_a_page_and_the_count() {
    let listing = WithTotal {
        total: 9,
        data: vec![1, 2, 3],
    };
    assert_eq!(listing.total, 9);
    assert_eq!(listing.data, vec![1, 2, 3]);
}
