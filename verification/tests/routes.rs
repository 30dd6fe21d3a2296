use startpage::config::Config;
use startpage::guards::jwt::{session_key, session_user, Middleware};
use startpage::guards::remote_ip::Ip;
use startpage::routes::upload::Upload;
use startpage::middlewares::JwtMiddleware;
use startpage::models::category::Category;
use startpage::models::category_site::CategorySite;
use startpage::models::site::Site;
use startpage::models::user::User;
use startpage::request;
use startpage::request::category::{CreateCategory, SortCategory, UpdateCategory};
use startpage::request::site::{CreateSite, UpdateSite};
use startpage::request::user::{UpdatePassword, UpdateUser};
use startpage::routes::upload::Stored;
use startpage::routes::{answer, auth, category, site, upload, user, UNAUTHORIZED};
use startpage::store::{at_most, distinct, fits, largest, Store};

fn config() -> Config {
    let mut config = Config::default();
    config.upload_url = String::from("/upload");
    config
}

fn principal() -> Middleware {
    Middleware {
        session: String::from("ada:1234"),
    }
}

fn ada() -> JwtMiddleware {
    JwtMiddleware {
        username: String::from("ada"),
    }
}

fn store() -> Store {
    let mut db = Store::new();
    let who = principal();
    for name in ["a", "b", "c"] {
        category::add(
            CreateCategory {
                name,
                description: "",
                icon: "/upload/folder.png",
                parent_id: None,
            },
            &config(),
            &mut db,
            Some(&who),
        )
        .unwrap();
    }
    site::add(
        CreateSite {
            name: "one",
            url: "http://one",
            description: "",
            icon: "https://one/icon.png",
            category: 1,
        },
        &config(),
        &mut db,
        Some(&who),
    )
    .unwrap();
    db.users.push(User {
        username: String::from("ada"),
        nickname: String::from("Ada"),
        password: bcrypt::hash("secret", 4).unwrap(),
        email: String::from("ada@example.org"),
        avatar: None,
    });
    db
}

#[test]
fn answer_maps_errors_to_status_codes() {
    assert_eq!(answer::<i64>(Ok(3)), Ok(3));
    assert_eq!(
        answer::<i64>(Err(startpage::errors::ServiceError::NotFound)),
        Err(404)
    );
    assert_eq!(UNAUTHORIZED, 401);
}

#[test]
fn adding_stores_icons_as_references() {
    let db = store();
    assert_eq!(db.categories[0].icon, "folder.png");
    assert_eq!(db.sites[0].icon, "https://one/icon.png");
}

#[test]
fn a_request_without_principal_changes_nothing() {
    let mut db = store();
    let categories = db.categories.clone();
    let sites = db.sites.clone();
    let links = db.category_sites.clone();
    let users = db.users.clone();
    let no_update = UpdateCategory {
        name: Some("x"),
        description: None,
        icon: None,
        parent_id: Some(2),
    };
    assert_eq!(category::update(1, no_update, &config(), &mut db, None), Err(401));
    assert_eq!(
        category::add(
            CreateCategory {
                name: "z",
                description: "",
                icon: "",
                parent_id: None
            },
            &config(),
            &mut db,
            None
        ),
        Err(401)
    );
    assert_eq!(category::delete(2, &mut db, None), Err(401));
    let data = SortCategory {
        active: 3,
        over: Some(1),
        parent_id: None,
    };
    assert_eq!(category::sort(&data, &mut db, None), Err(401));
    assert_eq!(category::sort_sites(1, &data, &mut db, None), Err(401));
    assert_eq!(
        site::add(
            CreateSite {
                name: "two",
                url: "",
                description: "",
                icon: "",
                category: 1
            },
            &config(),
            &mut db,
            None
        ),
        Err(401)
    );
    assert_eq!(
        site::update(
            1,
            UpdateSite {
                name: Some("x"),
                url: None,
                description: None,
                icon: None,
                category: None
            },
            &config(),
            &mut db,
            None
        ),
        Err(401)
    );
    assert_eq!(site::delete(1, &mut db, None), Err(401));
    assert_eq!(
        user::update(
            "ada",
            UpdateUser {
                username: None,
                email: Some("x"),
                avatar: None,
                nickname: None
            },
            &config(),
            &mut db,
            None
        ),
        Err(401)
    );
    assert_eq!(
        user::update_password(
            "ada",
            &UpdatePassword {
                password: "secret",
                new_password: "better"
            },
            &mut db,
            None
        ),
        Err(401)
    );
    assert_eq!(db.categories, categories);
    assert_eq!(db.sites, sites);
    assert_eq!(db.category_sites, links);
    assert_eq!(db.users, users);
}

#[test]
fn category_endpoints_answer_with_status_codes() {
    let mut db = store();
    let who = principal();
    let none = UpdateCategory {
        name: None,
        description: None,
        icon: None,
        parent_id: None,
    };
    assert_eq!(category::update(9, none, &config(), &mut db, Some(&who)), Err(404));
    let own = UpdateCategory {
        name: None,
        description: None,
        icon: None,
        parent_id: Some(1),
    };
    assert_eq!(category::update(1, own, &config(), &mut db, Some(&who)), Err(400));
    assert_eq!(
        category::add(
            CreateCategory {
                name: "a",
                description: "",
                icon: "",
                parent_id: None
            },
            &config(),
            &mut db,
            Some(&who)
        ),
        Err(409)
    );
    assert_eq!(category::delete(1, &mut db, Some(&who)), Err(400));
    assert_eq!(category::delete(2, &mut db, Some(&who)), Ok(()));
    let data = SortCategory {
        active: 3,
        over: Some(1),
        parent_id: None,
    };
    assert_eq!(category::sort(&data, &mut db, Some(&who)), Ok(()));
    assert_eq!(db.categories[0].sort_order, 1);
    assert_eq!(db.categories[1].sort_order, 0);
    let missing = SortCategory {
        active: 9,
        over: None,
        parent_id: None,
    };
    assert_eq!(category::sort(&missing, &mut db, Some(&who)), Err(400));
    assert_eq!(category::sort_sites(1, &missing, &mut db, Some(&who)), Err(400));
    let only = SortCategory {
        active: 1,
        over: None,
        parent_id: None,
    };
    assert_eq!(category::sort_sites(1, &only, &mut db, Some(&who)), Ok(()));
}

#[test]
fn update_stores_the_icon_as_a_reference_or_leaves_it() {
    let mut db = store();
    let who = principal();
    let update = UpdateCategory {
        name: None,
        description: None,
        icon: Some("/upload/new.png"),
        parent_id: None,
    };
    assert_eq!(category::update(1, update, &config(), &mut db, Some(&who)), Ok(()));
    assert_eq!(db.categories[0].icon, "new.png");
    let odd = UpdateCategory {
        name: None,
        description: None,
        icon: Some("/uploads/odd.png"),
        parent_id: None,
    };
    assert_eq!(category::update(1, odd, &config(), &mut db, Some(&who)), Ok(()));
    assert_eq!(db.categories[0].icon, "new.png");
    assert_eq!(
        category::add(
            CreateCategory {
                name: "odd",
                description: "",
                icon: "/uploads/odd.png",
                parent_id: None
            },
            &config(),
            &mut db,
            Some(&who)
        ),
        Ok(())
    );
    assert_eq!(db.categories[3].icon, "/uploads/odd.png");
}

#[test]
fn listings_use_the_first_page_of_ten_by_default() {
    let mut db = Store::new();
    let who = principal();
    for k in 0..12 {
        category::add(
            CreateCategory {
                name: &format!("c{}", k),
                description: "",
                icon: "folder.png",
                parent_id: None,
            },
            &config(),
            &mut db,
            Some(&who),
        )
        .unwrap();
        site::add(
            CreateSite {
                name: &format!("s{}", k),
                url: "",
                description: "",
                icon: "site.png",
                category: 1,
            },
            &config(),
            &mut db,
            Some(&who),
        )
        .unwrap();
    }
    let tree = category::all(None, None, None, None, &config(), &db).unwrap();
    assert_eq!(tree.total, 12);
    assert_eq!(tree.data.len(), 10);
    assert_eq!(tree.data[0].icon, "/upload/folder.png");
    let flat = category::all(Some(1), None, None, Some(true), &config(), &db).unwrap();
    assert_eq!(flat.data.len(), 2);
    assert_eq!(flat.data[0].id, 11);
    let nested = category::all(Some(0), Some(3), None, Some(false), &config(), &db).unwrap();
    assert_eq!(nested.data.len(), 3);
    assert_eq!(
        category::all(Some(-1), None, None, None, &config(), &db).map(|l| l.total),
        Err(400)
    );
    let sites = site::all(None, None, None, &config(), &db).unwrap();
    assert_eq!(sites.total, 12);
    assert_eq!(sites.data.len(), 10);
    let rest = site::all(Some(1), None, Some("s1"), &config(), &db).unwrap();
    assert_eq!(rest.total, 3);
    assert!(rest.data.is_empty());
    let under = category::get_sites(1, Some("s1"), &config(), &db).unwrap();
    assert_eq!(under.iter().map(|s| s.id).collect::<Vec<_>>(), vec![2, 11, 12]);
}

#[test]
fn site_endpoints_answer_with_status_codes() {
    let mut db = store();
    let who = principal();
    let shown = site::get(1, &config(), &db).unwrap();
    assert_eq!(shown.icon, "https://one/icon.png");
    assert_eq!(shown.name, "one");
    assert_eq!(site::get(5, &config(), &db).map(|s| s.id), Err(400));
    assert_eq!(site::analytics(1, &mut db), Ok(()));
    assert_eq!(site::analytics(5, &mut db), Err(404));
    assert_eq!(db.sites[0].visit_count, 1);
    let moved = UpdateSite {
        name: None,
        url: None,
        description: None,
        icon: Some("/upload/i.png"),
        category: Some(7),
    };
    assert_eq!(site::update(1, moved, &config(), &mut db, Some(&who)), Err(400));
    assert_eq!(db.sites[0].icon, "i.png");
    let gone = UpdateSite {
        name: None,
        url: None,
        description: None,
        icon: None,
        category: None,
    };
    assert_eq!(site::update(8, gone, &config(), &mut db, Some(&who)), Err(400));
    assert_eq!(
        site::add(
            CreateSite {
                name: "x",
                url: "",
                description: "",
                icon: "",
                category: 9
            },
            &config(),
            &mut db,
            Some(&who)
        ),
        Err(400)
    );
    assert_eq!(site::delete(1, &mut db, Some(&who)), Ok(()));
    assert!(db.sites.is_empty());
    assert!(db.category_sites.is_empty());
}

#[test]
fn only_the_user_changes_the_account() {
    let mut db = store();
    let who = ada();
    let eve = JwtMiddleware {
        username: String::from("eve"),
    };
    let change = UpdateUser {
        username: None,
        email: None,
        avatar: Some("/upload/me.png"),
        nickname: Some("Countess"),
    };
    assert_eq!(
        user::update(
            "ada",
            UpdateUser {
                username: None,
                email: None,
                avatar: None,
                nickname: Some("Eve was here")
            },
            &config(),
            &mut db,
            Some(&eve)
        ),
        Err(401)
    );
    assert_eq!(db.users[0].nickname, "Ada");
    assert_eq!(user::update("ada", change, &config(), &mut db, Some(&who)), Ok(()));
    assert_eq!(db.users[0].nickname, "Countess");
    assert_eq!(db.users[0].avatar, Some(String::from("me.png")));
    let shown = user::me(&config(), &db, Some(&who)).unwrap();
    assert_eq!(shown.avatar, Some(String::from("/upload/me.png")));
    assert_eq!(user::me(&config(), &db, None).map(|u| u.username), Err(401));
    assert_eq!(
        user::me(&config(), &db, Some(&eve)).map(|u| u.username),
        Err(401)
    );
    let request = UpdatePassword {
        password: "secret",
        new_password: "better",
    };
    assert_eq!(
        user::update_password("ada", &request, &mut db, Some(&eve)),
        Err(401)
    );
    assert_eq!(
        user::update_password("ada", &request, &mut db, Some(&who)),
        Ok(String::from("ada:*"))
    );
    assert_eq!(
        user::update_password("ada", &request, &mut db, Some(&who)),
        Err(401)
    );
}

#[test]
fn login_and_logout() {
    let db = store();
    let credentials = request::auth::User {
        username: "ada",
        password: "secret",
        token: None,
    };
    let ip = Ip::from_header(None);
    let claims = auth::login(&credentials, &config(), &ip, &db).unwrap();
    assert!(claims.sub.starts_with("ada:"));
    assert_eq!(session_user(&claims.sub), Some(String::from("ada")));
    let wrong = request::auth::User {
        username: "ada",
        password: "guess",
        token: None,
    };
    assert_eq!(
        auth::login(&wrong, &config(), &ip, &db).map(|c| c.sub),
        Err(400)
    );
    assert_eq!(auth::logout(Some(&principal())), Ok(String::from("ada:1234")));
    assert_eq!(auth::logout(None), Err(401));
}

#[test]
fn upload_answers_with_name_and_url() {
    let file = Upload {
        has_content_type: true,
        extension: Some("png"),
        content: Some(b"abc"),
    };
    let who = principal();
    assert_eq!(
        upload::upload(&file, &config(), Some(&who)),
        Ok(Stored {
            name: String::from(
                "ba7816bf8f01cfea414140de5dae2223b00361a396177a9cb410ff61f20015ad.png"
            ),
            url: String::from(
                "/upload/ba7816bf8f01cfea414140de5dae2223b00361a396177a9cb410ff61f20015ad.png"
            ),
        })
    );
    assert_eq!(upload::upload(&file, &config(), None), Err(401));
    let bare = Upload {
        has_content_type: true,
        extension: None,
        content: Some(b"abc"),
    };
    assert_eq!(upload::upload(&bare, &config(), Some(&who)), Err(400));
}

#[test]
fn session_user_is_what_stands_before_the_last_colon() {
    assert_eq!(session_user("ada:1234"), Some(String::from("ada")));
    assert_eq!(session_user("a:b:1234"), Some(String::from("a:b")));
    assert_eq!(session_user(":1234"), Some(String::new()));
    assert_eq!(session_user("ada:"), Some(String::from("ada")));
    assert_eq!(session_user("ada"), None);
    assert_eq!(session_user(""), None);
    assert_eq!(
        session_user(&session_key("gr\u{00fc}n", "1234")),
        Some(String::from("gr\u{00fc}n"))
    );
    assert_eq!(
        JwtMiddleware::of_session(&principal()).map(|who| who.username),
        Some(String::from("ada"))
    );
    let odd = Middleware {
        session: String::from("nocolon"),
    };
    assert!(JwtMiddleware::of_session(&odd).is_none());
}

fn category_row(id: i64) -> Category {
    Category {
        id,
        name: format!("c{}", id),
        description: String::new(),
        icon: String::new(),
        sort_order: 0,
        parent_id: None,
        created_at: 0,
        updated_at: 0,
    }
}

fn site_row(id: i64) -> Site {
    Site {
        id,
        name: format!("s{}", id),
        url: String::new(),
        description: String::new(),
        icon: String::new(),
        sort_order: 0,
        visit_count: 0,
        created_at: 0,
        updated_at: 0,
    }
}

#[test]
fn a_store_is_made_of_consistent_tables_only() {
    let made = Store::from_tables(
        vec![category_row(10), category_row(20)],
        vec![site_row(5)],
        vec![CategorySite {
            category_id: 10,
            site_id: 7,
        }],
        vec![],
    )
    .unwrap();
    assert!(made.is_consistent());
    assert_eq!(made.last_category_id, 20);
    assert_eq!(made.last_site_id, 7);
    assert_eq!(made.categories.len(), 2);
    let empty = Store::from_tables(vec![], vec![], vec![], vec![]).unwrap();
    assert_eq!(empty.last_category_id, 0);
    assert_eq!(empty.last_site_id, 0);
    let negative = Store::from_tables(vec![category_row(-3), category_row(-2)], vec![], vec![], vec![])
        .unwrap();
    assert_eq!(negative.last_category_id, 2);
    assert!(Store::from_tables(
        vec![category_row(1), category_row(1)],
        vec![],
        vec![],
        vec![]
    )
    .is_none());
    assert!(Store::from_tables(vec![], vec![site_row(2), site_row(2)], vec![], vec![]).is_none());
    let twin = |name: &str| User {
        username: String::from(name),
        nickname: String::new(),
        password: String::new(),
        email: String::new(),
        avatar: None,
    };
    assert!(Store::from_tables(vec![], vec![], vec![], vec![twin("a"), twin("a")]).is_none());
    assert!(Store::from_tables(vec![], vec![], vec![], vec![twin("a"), twin("b")]).is_some());
}

#[test]
fn is_consistent_tells_a_broken_store() {
    let mut db = store();
    assert!(db.is_consistent());
    assert!(Store::new().is_consistent());
    db.last_category_id = 1;
    assert!(!db.is_consistent());
    db.last_category_id = 3;
    db.categories[1].id = 1;
    assert!(!db.is_consistent());
    db.categories[1].id = 2;
    db.category_sites.push(CategorySite {
        category_id: 1,
        site_id: 99,
    });
    assert!(!db.is_consistent());
    db.category_sites.pop();
    let twin = db.users[0].clone();
    db.users.push(twin);
    assert!(!db.is_consistent());
}

#[test]
fn column_checks() {
    assert!(distinct(&vec![1, 2, 3]));
    assert!(!distinct(&vec![1, 2, 1]));
    assert!(distinct(&vec![]));
    assert!(at_most(&vec![1, 2, 3], 3));
    assert!(!at_most(&vec![1, 4, 3], 3));
    assert_eq!(largest(&vec![1, 9, 3], 4), 9);
    assert_eq!(largest(&vec![1, 2, 3], 4), 4);
    assert!(fits(3, 3));
    assert!(!fits(4, 3));
    assert!(!fits(0, -1));
    assert!(fits(0, 0));
}
