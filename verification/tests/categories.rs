use startpage::errors::ServiceError;
use startpage::handlers::category::{
    add_category, add_category_at, build_tree, in_hierarchy, search_hierarchy, delete_category, flat_list, get_categories, get_categories_flat,
    get_sites, order_categories, search_categories, sort_categories, sort_category_sites,
    update_category, update_category_at,
};
use startpage::handlers::site::add_site;
use startpage::models::category::Category;
use startpage::request::category::{CreateCategory, UpdateCategory};
use startpage::request::site::CreateSite;
use startpage::store::Store;

fn row(id: i64, parent_id: Option<i64>, sort_order: i64) -> Category {
    Category {
        id,
        name: format!("c{}", id),
        description: format!("about c{}", id),
        icon: format!("c{}.png", id),
        sort_order,
        parent_id,
        created_at: 0,
        updated_at: 0,
    }
}

fn create(db: &mut Store, name: &str, parent_id: Option<i64>) {
    add_category(
        &CreateCategory {
            name,
            description: "",
            icon: "",
            parent_id,
        },
        db,
    )
    .unwrap();
}

fn orders_under(db: &Store, parent_id: Option<i64>) -> Vec<(i64, i64)> {
    let mut found: Vec<(i64, i64)> = db
        .categories
        .iter()
        .filter(|c| c.parent_id == parent_id)
        .map(|c| (c.sort_order, c.id))
        .collect();
    found.sort();
    found
}

fn is_contiguous(db: &Store, parent_id: Option<i64>) -> bool {
    let found = orders_under(db, parent_id);
    found
        .iter()
        .enumerate()
        .all(|(k, (order, _))| *order == k as i64)
}

fn no_change<'r>() -> UpdateCategory<'r> {
    UpdateCategory {
        name: None,
        description: None,
        icon: None,
        parent_id: None,
    }
}

#[test]
fn build_tree_nests_children_under_their_parents() {
    let rows = vec![row(1, None, 0), row(2, None, 1), row(3, Some(1), 0)];
    let tree = build_tree(&rows, "/upload");
    assert_eq!(tree.len(), 2);
    assert_eq!(tree[0].id, 1);
    assert_eq!(tree[1].id, 2);
    let children = tree[0].children.as_ref().unwrap();
    assert_eq!(children.len(), 1);
    assert_eq!(children[0].id, 3);
    assert_eq!(children[0].parent_id, Some(1));
    assert_eq!(children[0].children, None);
    assert_eq!(tree[1].children, None);
    assert_eq!(tree[0].icon, "/upload/c1.png");
    assert_eq!(children[0].icon, "/upload/c3.png");
    assert_eq!(tree[0].name, "c1");
    assert_eq!(tree[0].description, "about c1");
}

#[test]
fn flat_listing_keeps_the_stored_order() {
    let mut db = Store::new();
    db.categories = vec![row(1, None, 0), row(2, None, 1), row(3, Some(1), 0)];
    db.last_category_id = 3;
    let flat = get_categories_flat(0, 10, None, "/upload", &db).unwrap();
    assert_eq!(flat.total, 3);
    let ids: Vec<i64> = flat.data.iter().map(|c| c.id).collect();
    assert_eq!(ids, vec![1, 2, 3]);
    assert!(flat.data.iter().all(|c| c.children.is_none()));
    assert_eq!(flat.data[2].parent_id, Some(1));
    assert_eq!(flat.data[2].icon, "/upload/c3.png");
}

#[test]
fn build_tree_nests_to_any_depth() {
    let rows = vec![
        row(1, None, 0),
        row(2, Some(1), 0),
        row(3, Some(2), 0),
        row(4, Some(3), 0),
        row(5, Some(1), 1),
    ];
    let tree = build_tree(&rows, "");
    assert_eq!(tree.len(), 1);
    let level1 = tree[0].children.as_ref().unwrap();
    assert_eq!(level1.iter().map(|c| c.id).collect::<Vec<_>>(), vec![2, 5]);
    let level2 = level1[0].children.as_ref().unwrap();
    assert_eq!(level2[0].id, 3);
    let level3 = level2[0].children.as_ref().unwrap();
    assert_eq!(level3[0].id, 4);
    assert_eq!(level3[0].children, None);
}

#[test]
fn build_tree_drops_rows_whose_parent_is_missing() {
    let rows = vec![row(1, None, 0), row(2, Some(99), 0), row(3, Some(2), 0)];
    let tree = build_tree(&rows, "/upload");
    assert_eq!(tree.len(), 1);
    assert_eq!(tree[0].id, 1);
    assert_eq!(tree[0].children, None);
}

#[test]
fn build_tree_shows_a_root_once_when_it_is_also_listed_as_a_child() {
    let rows = vec![row(1, None, 0), row(2, None, 1), row(2, Some(1), 0)];
    let tree = build_tree(&rows, "/upload");
    assert_eq!(tree.len(), 1);
    assert_eq!(tree[0].id, 1);
    let children = tree[0].children.as_ref().unwrap();
    assert_eq!(children.len(), 1);
    assert_eq!(children[0].id, 2);
}

#[test]
fn build_tree_never_shows_a_top_level_id_below_the_top() {
    fn ids_below(node: &startpage::response::category::Category, out: &mut Vec<i64>) {
        if let Some(children) = &node.children {
            for child in children {
                out.push(child.id);
                ids_below(child, out);
            }
        }
    }
    let rows = vec![
        row(1, None, 0),
        row(2, None, 1),
        row(3, Some(1), 0),
        row(2, Some(3), 0),
        row(4, Some(2), 0),
        row(5, None, 2),
    ];
    let tree = build_tree(&rows, "/upload");
    let mut below = Vec::new();
    for node in &tree {
        ids_below(node, &mut below);
    }
    for node in &tree {
        assert!(!below.contains(&node.id));
    }
    assert_eq!(tree.iter().map(|c| c.id).collect::<Vec<_>>(), vec![1, 5]);
}

#[test]
fn build_tree_ends_on_rows_that_form_a_cycle() {
    let rows = vec![row(1, None, 0), row(2, Some(1), 0), row(1, Some(2), 0)];
    let tree = build_tree(&rows, "/upload");
    assert_eq!(tree.len(), 0);
    let looped = vec![row(1, Some(2), 0), row(2, Some(1), 0), row(3, None, 0)];
    let tree = build_tree(&looped, "/upload");
    assert_eq!(tree.len(), 1);
    assert_eq!(tree[0].id, 3);
}

#[test]
fn build_tree_twice_gives_the_same_tree() {
    let rows = vec![
        row(1, None, 0),
        row(2, None, 1),
        row(3, Some(1), 0),
        row(4, Some(3), 0),
    ];
    assert_eq!(build_tree(&rows, "/upload"), build_tree(&rows, "/upload"));
}

#[test]
fn build_tree_of_nothing_is_empty() {
    assert_eq!(build_tree(&vec![], "/upload"), vec![]);
    assert_eq!(flat_list(&vec![], "/upload"), vec![]);
}

#[test]
fn add_category_numbers_siblings_from_zero() {
    let mut db = Store::new();
    create(&mut db, "a", None);
    create(&mut db, "b", None);
    create(&mut db, "c", Some(1));
    create(&mut db, "d", None);
    create(&mut db, "e", Some(1));
    assert_eq!(orders_under(&db, None), vec![(0, 1), (1, 2), (2, 4)]);
    assert_eq!(orders_under(&db, Some(1)), vec![(0, 3), (1, 5)]);
    assert_eq!(db.categories[2].name, "c");
    assert_eq!(db.categories[2].parent_id, Some(1));
    assert_eq!(db.categories[2].created_at, db.categories[2].updated_at);
    assert_eq!(db.last_category_id, 5);
}

#[test]
fn add_category_continues_after_the_largest_sort_order() {
    let mut db = Store::new();
    db.categories = vec![row(1, None, 0), row(2, None, 7)];
    db.last_category_id = 2;
    create(&mut db, "x", None);
    assert_eq!(db.categories[2].sort_order, 8);
    assert_eq!(db.categories[2].id, 3);
}

#[test]
fn add_category_refuses_a_name_that_is_taken() {
    let mut db = Store::new();
    create(&mut db, "a", None);
    let r = add_category(
        &CreateCategory {
            name: "a",
            description: "again",
            icon: "",
            parent_id: Some(1),
        },
        &mut db,
    );
    assert_eq!(
        r,
        Err(ServiceError::AlreadyExists(String::from(
            "Category already exists"
        )))
    );
    assert_eq!(db.categories.len(), 1);
    assert_eq!(db.last_category_id, 1);
}

#[test]
fn add_category_reports_a_table_that_is_full() {
    let mut db = Store::new();
    db.last_category_id = i64::MAX;
    let r = add_category(
        &CreateCategory {
            name: "a",
            description: "",
            icon: "",
            parent_id: None,
        },
        &mut db,
    );
    assert_eq!(
        r,
        Err(ServiceError::DatabaseError(String::from(
            "Out of range value"
        )))
    );
    assert!(db.categories.is_empty());
    let mut high = Store::new();
    high.categories = vec![row(1, None, i64::MAX)];
    high.last_category_id = 1;
    let r = add_category(
        &CreateCategory {
            name: "a",
            description: "",
            icon: "",
            parent_id: None,
        },
        &mut high,
    );
    assert_eq!(
        r,
        Err(ServiceError::DatabaseError(String::from(
            "Out of range value"
        )))
    );
    assert_eq!(high.categories.len(), 1);
}

#[test]
fn update_category_with_an_empty_name_keeps_the_name() {
    let mut db = Store::new();
    add_category(
        &CreateCategory {
            name: "news",
            description: "daily",
            icon: "news.png",
            parent_id: None,
        },
        &mut db,
    )
    .unwrap();
    update_category(
        1,
        &UpdateCategory {
            name: Some(""),
            description: Some("weekly"),
            icon: Some(""),
            parent_id: None,
        },
        &mut db,
    )
    .unwrap();
    assert_eq!(db.categories[0].name, "news");
    assert_eq!(db.categories[0].description, "weekly");
    assert_eq!(db.categories[0].icon, "news.png");
    assert_eq!(db.categories[0].sort_order, 0);
    assert_eq!(db.categories[0].parent_id, None);
}

#[test]
fn update_category_changes_the_texts_that_are_given() {
    let mut db = Store::new();
    create(&mut db, "a", None);
    create(&mut db, "b", None);
    update_category(
        2,
        &UpdateCategory {
            name: Some("beta"),
            description: None,
            icon: Some("beta.png"),
            parent_id: None,
        },
        &mut db,
    )
    .unwrap();
    assert_eq!(db.categories[1].name, "beta");
    assert_eq!(db.categories[1].description, "");
    assert_eq!(db.categories[1].icon, "beta.png");
    assert_eq!(db.categories[0].name, "a");
}

#[test]
fn update_category_refuses_an_unknown_id() {
    let mut db = Store::new();
    create(&mut db, "a", None);
    assert_eq!(
        update_category(9, &no_change(), &mut db),
        Err(ServiceError::NotFound)
    );
}

#[test]
fn update_category_refuses_a_category_as_its_own_parent() {
    let mut db = Store::new();
    create(&mut db, "a", None);
    let mut request = no_change();
    request.parent_id = Some(1);
    request.name = Some("changed");
    assert_eq!(
        update_category(1, &request, &mut db),
        Err(ServiceError::BadRequest(String::from(
            "Category cannot be its own parent"
        )))
    );
    assert_eq!(db.categories[0].name, "a");
    assert_eq!(db.categories[0].parent_id, None);
}

#[test]
fn update_category_moves_to_the_end_of_the_new_scope_and_closes_the_gap() {
    let mut db = Store::new();
    create(&mut db, "a", None);
    create(&mut db, "b", None);
    create(&mut db, "c", None);
    create(&mut db, "d", None);
    create(&mut db, "x", Some(4));
    create(&mut db, "y", Some(4));
    let mut request = no_change();
    request.parent_id = Some(4);
    update_category(2, &request, &mut db).unwrap();
    assert_eq!(db.categories[1].parent_id, Some(4));
    assert_eq!(db.categories[1].sort_order, 2);
    assert_eq!(orders_under(&db, None), vec![(0, 1), (1, 3), (2, 4)]);
    assert_eq!(orders_under(&db, Some(4)), vec![(0, 5), (1, 6), (2, 2)]);
}

#[test]
fn update_category_to_the_parent_it_has_moves_nothing() {
    let mut db = Store::new();
    create(&mut db, "a", None);
    create(&mut db, "x", Some(1));
    create(&mut db, "y", Some(1));
    let mut request = no_change();
    request.parent_id = Some(1);
    update_category(2, &request, &mut db).unwrap();
    assert_eq!(orders_under(&db, Some(1)), vec![(0, 2), (1, 3)]);
}

#[test]
fn delete_category_without_sites_succeeds() {
    let mut db = Store::new();
    create(&mut db, "a", None);
    create(&mut db, "b", None);
    assert_eq!(delete_category(1, &mut db), Ok(()));
    assert_eq!(db.categories.len(), 1);
    assert_eq!(db.categories[0].id, 2);
    assert_eq!(delete_category(1, &mut db), Ok(()));
    assert_eq!(db.categories.len(), 1);
}

#[test]
fn delete_category_in_use_fails_and_changes_nothing() {
    let mut db = Store::new();
    create(&mut db, "a", None);
    add_site(
        &CreateSite {
            name: "s",
            url: "http://s",
            description: "",
            icon: "",
            category: 1,
        },
        &mut db,
    )
    .unwrap();
    let categories = db.categories.clone();
    let sites = db.sites.clone();
    let links = db.category_sites.clone();
    assert_eq!(
        delete_category(1, &mut db),
        Err(ServiceError::BadRequest(String::from("Category is in use")))
    );
    assert_eq!(db.categories, categories);
    assert_eq!(db.sites, sites);
    assert_eq!(db.category_sites, links);
}

#[test]
fn delete_category_leaves_children_behind() {
    let mut db = Store::new();
    create(&mut db, "a", None);
    create(&mut db, "x", Some(1));
    delete_category(1, &mut db).unwrap();
    assert_eq!(db.categories.len(), 1);
    assert_eq!(db.categories[0].parent_id, Some(1));
    let tree = get_categories(0, 10, None, "/upload", &db).unwrap();
    assert_eq!(tree.total, 0);
    assert!(tree.data.is_empty());
    let flat = get_categories_flat(0, 10, None, "/upload", &db).unwrap();
    assert_eq!(flat.total, 1);
    assert_eq!(flat.data[0].id, 2);
}

#[test]
fn sort_categories_persists_the_new_order() {
    let mut db = Store::new();
    db.categories = vec![row(10, None, 0), row(20, None, 1), row(30, None, 2)];
    db.last_category_id = 30;
    sort_categories(30, Some(10), None, &mut db).unwrap();
    assert_eq!(orders_under(&db, None), vec![(0, 30), (1, 10), (2, 20)]);
}

#[test]
fn sort_categories_normalises_gaps_and_ties() {
    let mut db = Store::new();
    db.categories = vec![
        row(1, Some(9), 5),
        row(2, Some(9), 5),
        row(3, Some(9), 40),
        row(4, None, 3),
        row(9, None, 3),
    ];
    db.last_category_id = 9;
    sort_categories(3, Some(2), Some(9), &mut db).unwrap();
    assert_eq!(orders_under(&db, Some(9)), vec![(0, 1), (1, 3), (2, 2)]);
    assert_eq!(orders_under(&db, None), vec![(3, 4), (3, 9)]);
    assert!(is_contiguous(&db, Some(9)));
}

#[test]
fn sort_categories_refuses_an_id_outside_the_scope() {
    let mut db = Store::new();
    create(&mut db, "a", None);
    create(&mut db, "x", Some(1));
    let before = db.categories.clone();
    assert_eq!(
        sort_categories(2, None, None, &mut db),
        Err(ServiceError::BadRequest(String::from(
            "active id not in scope"
        )))
    );
    assert_eq!(db.categories, before);
}

#[test]
fn sort_orders_stay_contiguous_through_a_sequence_of_operations() {
    let mut db = Store::new();
    for name in ["a", "b", "c", "d", "e"] {
        create(&mut db, name, None);
    }
    for name in ["p", "q", "r"] {
        create(&mut db, name, Some(2));
    }
    sort_categories(5, Some(1), None, &mut db).unwrap();
    sort_categories(1, Some(4), None, &mut db).unwrap();
    sort_categories(8, None, Some(2), &mut db).unwrap();
    let mut request = no_change();
    request.parent_id = Some(2);
    update_category(3, &request, &mut db).unwrap();
    create(&mut db, "f", None);
    create(&mut db, "s", Some(2));
    // The category that stands last among the roots may go without a gap.
    let last = *orders_under(&db, None).last().unwrap();
    delete_category(last.1, &mut db).unwrap();
    assert!(is_contiguous(&db, None));
    assert!(is_contiguous(&db, Some(2)));
    assert_eq!(orders_under(&db, None).len(), 4);
    assert_eq!(orders_under(&db, Some(2)).len(), 5);
}

#[test]
fn delete_category_in_the_middle_leaves_a_gap_that_a_reorder_closes() {
    let mut db = Store::new();
    for name in ["a", "b", "c"] {
        create(&mut db, name, None);
    }
    delete_category(2, &mut db).unwrap();
    assert_eq!(orders_under(&db, None), vec![(0, 1), (2, 3)]);
    sort_categories(1, Some(1), None, &mut db).unwrap();
    assert_eq!(orders_under(&db, None), vec![(0, 1), (1, 3)]);
}

#[test]
fn get_categories_builds_the_tree_by_sort_order() {
    let mut db = Store::new();
    db.categories = vec![
        row(1, None, 2),
        row(2, None, 0),
        row(3, Some(2), 1),
        row(4, Some(2), 0),
        row(5, None, 1),
    ];
    db.last_category_id = 5;
    let listing = get_categories(0, 10, None, "/upload", &db).unwrap();
    assert_eq!(listing.total, 5);
    assert_eq!(
        listing.data.iter().map(|c| c.id).collect::<Vec<_>>(),
        vec![2, 5, 1]
    );
    let children = listing.data[0].children.as_ref().unwrap();
    assert_eq!(children.iter().map(|c| c.id).collect::<Vec<_>>(), vec![4, 3]);
}

#[test]
fn get_categories_pages_the_top_level() {
    let mut db = Store::new();
    for name in ["a", "b", "c", "d", "e"] {
        create(&mut db, name, None);
    }
    create(&mut db, "x", Some(3));
    let page = get_categories(1, 2, None, "/upload", &db).unwrap();
    assert_eq!(page.total, 6);
    assert_eq!(page.data.iter().map(|c| c.id).collect::<Vec<_>>(), vec![3, 4]);
    assert_eq!(page.data[0].children.as_ref().unwrap()[0].id, 6);
    let last = get_categories(2, 2, None, "/upload", &db).unwrap();
    assert_eq!(last.data.iter().map(|c| c.id).collect::<Vec<_>>(), vec![5]);
    let beyond = get_categories(3, 2, None, "/upload", &db).unwrap();
    assert_eq!(beyond.total, 6);
    assert!(beyond.data.is_empty());
    let none = get_categories(0, 0, None, "/upload", &db).unwrap();
    assert!(none.data.is_empty());
    let far = get_categories(i64::MAX, i64::MAX, None, "/upload", &db).unwrap();
    assert!(far.data.is_empty());
}

#[test]
fn get_categories_refuses_negative_pages() {
    let db = Store::new();
    let refused = Err(ServiceError::BadRequest(String::from(
        "Invalid page or size",
    )));
    assert_eq!(
        get_categories(-1, 10, None, "/upload", &db).map(|l| l.total),
        refused
    );
    assert_eq!(
        get_categories_flat(0, -1, None, "/upload", &db).map(|l| l.total),
        refused
    );
}

#[test]
fn get_categories_of_an_empty_store_is_empty() {
    let db = Store::new();
    let listing = get_categories(0, 10, None, "/upload", &db).unwrap();
    assert_eq!(listing.total, 0);
    assert!(listing.data.is_empty());
    let flat = get_categories_flat(0, 10, Some("x"), "/upload", &db).unwrap();
    assert_eq!(flat.total, 0);
    assert!(flat.data.is_empty());
}

#[test]
fn search_matches_name_or_description() {
    let mut rows = vec![row(1, None, 0), row(2, None, 1), row(3, None, 2)];
    rows[0].name = String::from("Rust news");
    rows[0].description = String::from("weekly");
    rows[1].name = String::from("Cooking");
    rows[1].description = String::from("news about food");
    rows[2].name = String::from("Music");
    rows[2].description = String::from("NEWS in capitals");
    let kept = search_categories(&rows, Some("news"));
    assert_eq!(kept.iter().map(|c| c.id).collect::<Vec<_>>(), vec![1, 2]);
    let all = search_categories(&rows, None);
    assert_eq!(all.len(), 3);
    let empty = search_categories(&rows, Some(""));
    assert_eq!(empty.len(), 3);
    let mut db = Store::new();
    db.categories = rows;
    db.last_category_id = 3;
    let flat = get_categories_flat(0, 1, Some("news"), "/upload", &db).unwrap();
    assert_eq!(flat.total, 2);
    assert_eq!(flat.data.len(), 1);
    assert_eq!(flat.data[0].id, 1);
}

#[test]
fn order_categories_is_stable() {
    let rows = vec![row(1, None, 2), row(2, None, 1), row(3, None, 2), row(4, None, 0)];
    let sorted = order_categories(&rows);
    assert_eq!(
        sorted.iter().map(|c| c.id).collect::<Vec<_>>(),
        vec![4, 2, 1, 3]
    );
}

fn site(db: &mut Store, name: &str, category: i64) {
    add_site(
        &CreateSite {
            name,
            url: "http://example.org",
            description: "",
            icon: "icon.png",
            category,
        },
        db,
    )
    .unwrap();
}

#[test]
fn get_sites_lists_the_sites_of_a_category_by_sort_order() {
    let mut db = Store::new();
    create(&mut db, "a", None);
    create(&mut db, "b", None);
    site(&mut db, "one", 1);
    site(&mut db, "two", 2);
    site(&mut db, "three", 1);
    sort_category_sites(1, 3, Some(1), &mut db).unwrap();
    let sites = get_sites(1, None, "/upload", &db).unwrap();
    assert_eq!(sites.iter().map(|s| s.id).collect::<Vec<_>>(), vec![3, 1]);
    assert_eq!(sites[0].icon, "/upload/icon.png");
    assert_eq!(sites[0].name, "three");
    let found = get_sites(1, Some("on"), "/upload", &db).unwrap();
    assert_eq!(found.iter().map(|s| s.id).collect::<Vec<_>>(), vec![1]);
    assert!(get_sites(7, None, "/upload", &db).unwrap().is_empty());
}

#[test]
fn sort_category_sites_numbers_the_sites_of_the_category() {
    let mut db = Store::new();
    create(&mut db, "a", None);
    create(&mut db, "b", None);
    site(&mut db, "s1", 1);
    site(&mut db, "s2", 1);
    site(&mut db, "t1", 2);
    site(&mut db, "s3", 1);
    sort_category_sites(1, 4, Some(1), &mut db).unwrap();
    let orders: Vec<(i64, i64)> = db.sites.iter().map(|s| (s.id, s.sort_order)).collect();
    assert_eq!(orders, vec![(1, 1), (2, 2), (3, 0), (4, 0)]);
    sort_category_sites(1, 1, None, &mut db).unwrap();
    let orders: Vec<(i64, i64)> = db.sites.iter().map(|s| (s.id, s.sort_order)).collect();
    assert_eq!(orders, vec![(1, 0), (2, 2), (3, 0), (4, 1)]);
}

#[test]
fn sort_category_sites_refuses_a_site_of_another_category() {
    let mut db = Store::new();
    create(&mut db, "a", None);
    create(&mut db, "b", None);
    site(&mut db, "s1", 1);
    site(&mut db, "t1", 2);
    let refused = Err(ServiceError::BadRequest(String::from("Site not found")));
    assert_eq!(sort_category_sites(1, 2, None, &mut db), refused);
    assert_eq!(sort_category_sites(1, 9, None, &mut db), refused);
    assert_eq!(sort_category_sites(9, 1, None, &mut db), refused);
}

#[test]
fn rows_carry_the_time_of_their_making_and_of_their_last_change() {
    let mut db = Store::new();
    add_category_at(
        &CreateCategory {
            name: "a",
            description: "",
            icon: "",
            parent_id: None,
        },
        1_700_000_000,
        &mut db,
    )
    .unwrap();
    assert_eq!(db.categories[0].created_at, 1_700_000_000);
    assert_eq!(db.categories[0].updated_at, 1_700_000_000);
    update_category_at(1, &no_change(), 1_700_000_500, &mut db).unwrap();
    assert_eq!(db.categories[0].created_at, 1_700_000_000);
    assert_eq!(db.categories[0].updated_at, 1_700_000_500);
    let before = chrono::Utc::now().timestamp();
    update_category(1, &no_change(), &mut db).unwrap();
    let after = chrono::Utc::now().timestamp();
    assert!(before <= db.categories[0].updated_at);
    assert!(db.categories[0].updated_at <= after);
    assert_eq!(db.categories[0].created_at, 1_700_000_000);
}

#[test]
fn the_tree_listing_counts_the_hierarchy_only() {
    let mut db = Store::new();
    db.categories = vec![
        row(1, None, 0),
        row(2, Some(1), 0),
        row(3, Some(2), 0),
        row(4, Some(9), 0),
        row(5, Some(4), 0),
        row(6, Some(7), 0),
        row(7, Some(6), 0),
        row(8, Some(8), 0),
    ];
    db.last_category_id = 8;
    let reached: Vec<bool> = (0..8).map(|i| in_hierarchy(&db, i)).collect();
    assert_eq!(
        reached,
        vec![true, true, true, false, false, false, false, false]
    );
    let listing = get_categories(0, 10, None, "/upload", &db).unwrap();
    assert_eq!(listing.total, 3);
    assert_eq!(listing.data.len(), 1);
    let kept = search_hierarchy(&db, Some("c3"));
    assert_eq!(kept.iter().map(|c| c.id).collect::<Vec<_>>(), vec![3]);
    let found = get_categories(0, 10, Some("c3"), "/upload", &db).unwrap();
    assert_eq!(found.total, 1);
    assert!(found.data.is_empty());
}

#[test]
fn a_chain_as_long_as_the_table_is_in_the_hierarchy() {
    let mut db = Store::new();
    db.categories = vec![
        row(4, Some(3), 0),
        row(3, Some(2), 0),
        row(2, Some(1), 0),
        row(1, None, 0),
    ];
    db.last_category_id = 4;
    assert!((0..4).all(|i| in_hierarchy(&db, i)));
    let listing = get_categories(0, 10, None, "", &db).unwrap();
    assert_eq!(listing.total, 4);
    let mut node = &listing.data[0];
    let mut depth = 1;
    while let Some(children) = &node.children {
        node = &children[0];
        depth += 1;
    }
    assert_eq!(depth, 4);
    assert_eq!(node.id, 4);
}
