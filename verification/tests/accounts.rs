use startpage::config::Config;
use startpage::crypto::HASH_COST;
use startpage::errors::ServiceError;
use startpage::handlers::auth::{
    challenge_inputs, challenge_passed, check_credentials, issue_claims, login,
};
use startpage::handlers::upload::{upload, uploaded_url};
use startpage::routes::upload::Upload;
use startpage::handlers::user::{get_user, update_user, update_user_password};
use startpage::models::user::User;
use startpage::request;
use startpage::request::user::{UpdatePassword, UpdateUser};
use startpage::response::auth::TurnstileResponse;
use startpage::store::Store;

fn store_with_user(password: &str) -> Store {
    let mut db = Store::new();
    db.users.push(User {
        username: String::from("ada"),
        nickname: String::from("Ada"),
        password: bcrypt::hash(password, 4).unwrap(),
        email: String::from("ada@example.org"),
        avatar: Some(String::from("ada.png")),
    });
    db.users.push(User {
        username: String::from("bob"),
        nickname: String::from("Bob"),
        password: String::from("not a hash"),
        email: String::from("bob@example.org"),
        avatar: None,
    });
    db
}

fn credentials<'r>(username: &'r str, password: &'r str) -> request::auth::User<'r> {
    request::auth::User {
        username,
        password,
        token: None,
    }
}

fn refused() -> ServiceError {
    ServiceError::BadRequest(String::from("Invalid username or password"))
}

#[test]
fn check_credentials_accepts_the_password_of_the_account() {
    let db = store_with_user("secret");
    assert_eq!(
        check_credentials(&credentials("ada", "secret"), &db),
        Ok(String::from("ada"))
    );
}

#[test]
fn check_credentials_refuses_everything_else_in_the_same_words() {
    let db = store_with_user("secret");
    assert_eq!(check_credentials(&credentials("ada", "Secret"), &db), Err(refused()));
    assert_eq!(check_credentials(&credentials("ada", ""), &db), Err(refused()));
    assert_eq!(check_credentials(&credentials("eve", "secret"), &db), Err(refused()));
    assert_eq!(check_credentials(&credentials("bob", "not a hash"), &db), Err(refused()));
}

#[test]
fn issue_claims_names_the_session_and_the_expiry() {
    let claims = issue_claims("ada", "1234", 1_700_000_000, "1h").unwrap();
    assert_eq!(claims.sub, "ada:1234");
    assert_eq!(claims.company, "StartPage");
    assert_eq!(claims.exp, 1_700_003_600);
}

#[test]
fn issue_claims_refuses_a_bad_lifetime_and_a_moment_before_the_epoch() {
    assert_eq!(
        issue_claims("ada", "1234", 0, "later").map(|c| c.exp),
        Err(ServiceError::FormatError(String::from(
            "Invalid expires format"
        )))
    );
    assert_eq!(
        issue_claims("ada", "1234", -10, "5s").map(|c| c.exp),
        Err(ServiceError::FormatError(String::from(
            "Expires out of range"
        )))
    );
    assert_eq!(issue_claims("ada", "1234", -5, "5s").map(|c| c.exp), Ok(0));
}

#[test]
fn login_opens_a_fresh_session_each_time() {
    let db = store_with_user("secret");
    let config = Config::default();
    let before = chrono::Utc::now().timestamp();
    let first = login(&credentials("ada", "secret"), &config, &db).unwrap();
    let second = login(&credentials("ada", "secret"), &config, &db).unwrap();
    let after = chrono::Utc::now().timestamp();
    assert!(first.sub.starts_with("ada:"));
    assert!(second.sub.starts_with("ada:"));
    assert!(first.sub.len() > "ada:".len());
    assert_ne!(first.sub, second.sub);
    assert_eq!(first.company, "StartPage");
    assert!(before + 3600 <= first.exp as i64);
    assert!(second.exp as i64 <= after + 3600);
}

#[test]
fn login_refuses_wrong_credentials_and_a_bad_lifetime() {
    let db = store_with_user("secret");
    let mut config = Config::default();
    assert_eq!(
        login(&credentials("ada", "wrong"), &config, &db).map(|c| c.sub),
        Err(refused())
    );
    config.jwt.expires_in = String::from("never");
    assert_eq!(
        login(&credentials("ada", "secret"), &config, &db).map(|c| c.sub),
        Err(ServiceError::FormatError(String::from(
            "Invalid expires format"
        )))
    );
    assert_eq!(
        login(&credentials("ada", "wrong"), &config, &db).map(|c| c.sub),
        Err(refused())
    );
}

#[test]
fn challenge_inputs_are_looked_at_in_order() {
    assert_eq!(
        challenge_inputs(Some("t"), Some("s"), Some("u")),
        Ok(("t", "s", "u"))
    );
    assert_eq!(
        challenge_inputs(None, None, None),
        Err(ServiceError::BadRequest(String::from(
            "Invalid challenge token"
        )))
    );
    assert_eq!(
        challenge_inputs(Some("t"), None, None),
        Err(ServiceError::BadRequest(String::from(
            "Missing Turnstile secret"
        )))
    );
    assert_eq!(
        challenge_inputs(Some("t"), Some("s"), None),
        Err(ServiceError::BadRequest(String::from(
            "Missing Turnstile URL"
        )))
    );
}

#[test]
fn challenge_passed_reads_the_verdict() {
    let mut response = TurnstileResponse {
        success: true,
        error_codes: vec![],
        challenge_ts: None,
        hostname: None,
        action: None,
        cdata: None,
    };
    assert_eq!(challenge_passed(&response), Ok(()));
    response.success = false;
    assert_eq!(
        challenge_passed(&response),
        Err(ServiceError::BadRequest(String::from(
            "Invalid challenge token"
        )))
    );
}

#[test]
fn get_user_shows_the_account_without_the_password() {
    let db = store_with_user("secret");
    let ada = get_user("ada", "/upload", &db).unwrap();
    assert_eq!(ada.username, "ada");
    assert_eq!(ada.nickname, "Ada");
    assert_eq!(ada.email, "ada@example.org");
    assert_eq!(ada.avatar, Some(String::from("/upload/ada.png")));
    let bob = get_user("bob", "/upload", &db).unwrap();
    assert_eq!(bob.avatar, None);
    assert_eq!(get_user("eve", "/upload", &db), Err(ServiceError::Unauthorized));
}

#[test]
fn update_user_replaces_the_fields_that_are_given() {
    let mut db = store_with_user("secret");
    update_user(
        "ada",
        &UpdateUser {
            username: None,
            email: Some(""),
            avatar: Some("new.png"),
            nickname: None,
        },
        &mut db,
    )
    .unwrap();
    assert_eq!(db.users[0].username, "ada");
    assert_eq!(db.users[0].email, "");
    assert_eq!(db.users[0].avatar, Some(String::from("new.png")));
    assert_eq!(db.users[0].nickname, "Ada");
    update_user(
        "ada",
        &UpdateUser {
            username: Some("lovelace"),
            email: None,
            avatar: None,
            nickname: Some("Countess"),
        },
        &mut db,
    )
    .unwrap();
    assert_eq!(db.users[0].username, "lovelace");
    assert_eq!(db.users[0].nickname, "Countess");
    assert_eq!(db.users[0].avatar, Some(String::from("new.png")));
    assert_eq!(db.users[1].username, "bob");
}

#[test]
fn update_user_refuses_an_unknown_or_a_taken_name() {
    let mut db = store_with_user("secret");
    let nothing = UpdateUser {
        username: None,
        email: None,
        avatar: None,
        nickname: None,
    };
    assert_eq!(
        update_user("eve", &nothing, &mut db),
        Err(ServiceError::DatabaseError(String::from(
            "no rows returned by a query that expected to return at least one row"
        )))
    );
    let taken = UpdateUser {
        username: Some("bob"),
        email: Some("x"),
        avatar: None,
        nickname: None,
    };
    assert_eq!(
        update_user("ada", &taken, &mut db),
        Err(ServiceError::DatabaseError(String::from("Duplicate entry")))
    );
    assert_eq!(db.users[0].email, "ada@example.org");
    let same = UpdateUser {
        username: Some("ada"),
        email: None,
        avatar: None,
        nickname: None,
    };
    assert_eq!(update_user("ada", &same, &mut db), Ok(()));
}

#[test]
fn update_user_password_makes_the_new_password_the_accepted_one() {
    let mut db = store_with_user("secret");
    let old_hash = db.users[0].password.clone();
    update_user_password(
        "ada",
        &UpdatePassword {
            password: "secret",
            new_password: "better",
        },
        &mut db,
    )
    .unwrap();
    assert_ne!(db.users[0].password, old_hash);
    assert_ne!(db.users[0].password, "better");
    assert_eq!(bcrypt::verify("better", &db.users[0].password).unwrap(), true);
    assert_eq!(
        check_credentials(&credentials("ada", "better"), &db),
        Ok(String::from("ada"))
    );
    assert_eq!(check_credentials(&credentials("ada", "secret"), &db), Err(refused()));
    assert_eq!(db.users[0].email, "ada@example.org");
}

#[test]
fn update_user_password_refuses_without_changing_anything() {
    let mut db = store_with_user("secret");
    let users = db.users.clone();
    let request = UpdatePassword {
        password: "wrong",
        new_password: "better",
    };
    assert_eq!(
        update_user_password("ada", &request, &mut db),
        Err(ServiceError::Unauthorized)
    );
    assert_eq!(
        update_user_password("bob", &request, &mut db),
        Err(ServiceError::BadRequest(String::from("Invalid password")))
    );
    assert_eq!(
        update_user_password("eve", &request, &mut db),
        Err(ServiceError::DatabaseError(String::from(
            "no rows returned by a query that expected to return at least one row"
        )))
    );
    assert_eq!(db.users, users);
}

#[test]
fn hash_cost_is_the_default_of_the_hashing_library() {
    assert_eq!(HASH_COST, bcrypt::DEFAULT_COST);
}

#[test]
fn upload_names_the_file_by_the_hash_of_its_content() {
    let file = Upload {
        has_content_type: true,
        extension: Some("png"),
        content: Some(b"abc"),
    };
    assert_eq!(
        upload(&file),
        Ok(String::from(
            "ba7816bf8f01cfea414140de5dae2223b00361a396177a9cb410ff61f20015ad.png"
        ))
    );
    let empty = Upload {
        has_content_type: true,
        extension: Some("txt"),
        content: Some(b""),
    };
    assert_eq!(
        upload(&empty),
        Ok(String::from(
            "e3b0c44298fc1c149afbf4c8996fb92427ae41e4649b934ca495991b7852b855.txt"
        ))
    );
}

#[test]
fn upload_refuses_in_order() {
    let mut file = Upload {
        has_content_type: false,
        extension: None,
        content: None,
    };
    assert_eq!(
        upload(&file),
        Err(ServiceError::BadRequest(String::from(
            "Invalid content type"
        )))
    );
    file.has_content_type = true;
    assert_eq!(
        upload(&file),
        Err(ServiceError::BadRequest(String::from("Invalid file path")))
    );
    file.content = Some(b"abc");
    assert_eq!(
        upload(&file),
        Err(ServiceError::BadRequest(String::from("Invalid extension")))
    );
}

#[test]
fn uploaded_url_lies_below_the_upload_base() {
    assert_eq!(uploaded_url("/upload", "a.png"), "/upload/a.png");
}
