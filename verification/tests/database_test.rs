use shelfie::database::{Database, Item, StoreError};

fn setup_test_db() -> Database {
    Database::new()
}

fn item_row(shelf_id: i64, path: &str, original_name: &str, description: &str) -> Item {
    Item {
        id: None,
        shelf_id,
        path: path.to_string(),
        original_name: original_name.to_string(),
        suggested_name: None,
        description: description.to_string(),
        file_type: "text".to_string(),
        is_opaque_dir: false,
        processed_at: "2024-01-01T00:00:00+00:00".to_string(),
    }
}

#[test]
fn test_create_and_get_cabinet() {
    let mut db = setup_test_db();

    let cabinet_id = db.create_cabinet("Test Cabinet", "A test cabinet description").unwrap();
    assert!(cabinet_id > 0);

    let cabinet = db.get_cabinet_by_name("Test Cabinet").unwrap();
    assert_eq!(cabinet.name, "Test Cabinet");
    assert_eq!(cabinet.description, "A test cabinet description");
    assert_eq!(cabinet.id, cabinet_id);
}

#[test]
fn test_cabinet_unique_constraint() {
    let mut db = setup_test_db();

    db.create_cabinet("Unique Cabinet", "First").unwrap();
    let result = db.create_cabinet("Unique Cabinet", "Second");

    assert!(result.is_err());
}

#[test]
fn test_list_cabinets() {
    let mut db = setup_test_db();

    db.create_cabinet("Cabinet A", "Description A").unwrap();
    db.create_cabinet("Cabinet B", "Description B").unwrap();
    db.create_cabinet("Cabinet C", "Description C").unwrap();

    let cabinets = db.list_cabinets();
    assert_eq!(cabinets.len(), 3);

    let names: Vec<String> = cabinets.iter().map(|c| c.name.clone()).collect();
    assert!(names.contains(&"Cabinet A".to_string()));
    assert!(names.contains(&"Cabinet B".to_string()));
    assert!(names.contains(&"Cabinet C".to_string()));
}

#[test]
fn test_create_and_get_shelf() {
    let mut db = setup_test_db();

    let cabinet_id = db.create_cabinet("Parent Cabinet", "Parent").unwrap();
    let shelf_id = db.create_shelf(cabinet_id, "Test Shelf", "A test shelf").unwrap();
    assert!(shelf_id > 0);

    let shelf = db.get_shelf_by_name(cabinet_id, "Test Shelf").unwrap();
    assert_eq!(shelf.name, "Test Shelf");
    assert_eq!(shelf.description, "A test shelf");
    assert_eq!(shelf.cabinet_id, cabinet_id);
    assert_eq!(shelf.id, shelf_id);
}

#[test]
fn test_shelf_unique_within_cabinet() {
    let mut db = setup_test_db();

    let cabinet1_id = db.create_cabinet("Cabinet 1", "First").unwrap();
    let cabinet2_id = db.create_cabinet("Cabinet 2", "Second").unwrap();

    db.create_shelf(cabinet1_id, "Shelf Name", "In cabinet 1").unwrap();
    db.create_shelf(cabinet2_id, "Shelf Name", "In cabinet 2").unwrap();

    let result = db.create_shelf(cabinet1_id, "Shelf Name", "Duplicate in cabinet 1");
    assert!(result.is_err());
}

#[test]
fn test_list_shelves() {
    let mut db = setup_test_db();

    let cabinet1_id = db.create_cabinet("Cabinet 1", "First").unwrap();
    let cabinet2_id = db.create_cabinet("Cabinet 2", "Second").unwrap();

    db.create_shelf(cabinet1_id, "Shelf 1A", "First shelf in cabinet 1").unwrap();
    db.create_shelf(cabinet1_id, "Shelf 1B", "Second shelf in cabinet 1").unwrap();
    db.create_shelf(cabinet2_id, "Shelf 2A", "First shelf in cabinet 2").unwrap();

    let all_shelves = db.list_shelves(None);
    assert_eq!(all_shelves.len(), 3);

    let cabinet1_shelves = db.list_shelves(Some(cabinet1_id));
    assert_eq!(cabinet1_shelves.len(), 2);

    let cabinet2_shelves = db.list_shelves(Some(cabinet2_id));
    assert_eq!(cabinet2_shelves.len(), 1);
}

#[test]
fn test_insert_and_get_item() {
    let mut db = setup_test_db();

    let cabinet_id = db.create_cabinet("Item Cabinet", "For items").unwrap();
    let shelf_id = db.create_shelf(cabinet_id, "Item Shelf", "For items").unwrap();

    let item = Item {
        id: None,
        shelf_id,
        path: "/test/path/file.txt".to_string(),
        original_name: "file.txt".to_string(),
        suggested_name: Some("better_name.txt".to_string()),
        description: "A test file".to_string(),
        file_type: "text/plain".to_string(),
        is_opaque_dir: false,
        processed_at: "2024-01-01T00:00:00+00:00".to_string(),
    };

    let item_id = db.insert_item(&item).unwrap();
    assert!(item_id > 0);

    let retrieved = db.get_item_by_path("/test/path/file.txt").unwrap();
    assert_eq!(retrieved.shelf_id, shelf_id);
    assert_eq!(retrieved.original_name, "file.txt");
    assert_eq!(retrieved.suggested_name, Some("better_name.txt".to_string()));
    assert_eq!(retrieved.description, "A test file");
    assert!(!retrieved.is_opaque_dir);
}

#[test]
fn test_item_unique_path_constraint() {
    let mut db = setup_test_db();

    let cabinet_id = db.create_cabinet("Cabinet", "Test").unwrap();
    let shelf_id = db.create_shelf(cabinet_id, "Shelf", "Test").unwrap();

    let item = item_row(shelf_id, "/unique/path", "file.txt", "First");
    db.insert_item(&item).unwrap();

    let duplicate = item_row(shelf_id, "/unique/path", "other.txt", "Second");
    let result = db.insert_item(&duplicate);
    assert!(result.is_err());
}

#[test]
fn test_list_items_by_shelf() {
    let mut db = setup_test_db();

    let cabinet_id = db.create_cabinet("Cabinet", "Test").unwrap();
    let shelf1_id = db.create_shelf(cabinet_id, "Shelf 1", "First").unwrap();
    let shelf2_id = db.create_shelf(cabinet_id, "Shelf 2", "Second").unwrap();

    for i in 0..3 {
        let item = item_row(
            shelf1_id,
            &format!("/shelf1/file{}.txt", i),
            &format!("file{}.txt", i),
            &format!("File {}", i),
        );
        db.insert_item(&item).unwrap();
    }

    for i in 0..2 {
        let item = item_row(
            shelf2_id,
            &format!("/shelf2/file{}.txt", i),
            &format!("file{}.txt", i),
            &format!("File {}", i),
        );
        db.insert_item(&item).unwrap();
    }

    let all_items = db.get_processed_paths();
    assert_eq!(all_items.len(), 5);
}

#[test]
fn test_update_item_content() {
    let mut db = setup_test_db();

    let cabinet_id = db.create_cabinet("Cabinet", "Test").unwrap();
    let shelf_id = db.create_shelf(cabinet_id, "Shelf", "Test").unwrap();

    let item = item_row(shelf_id, "/test/file.txt", "file.txt", "Original description");
    let item_id = db.insert_item(&item).unwrap();

    db.update_item_content(item_id, "Updated description", "new_name.txt");

    let updated = db.get_item_by_path("/test/file.txt").unwrap();
    assert_eq!(updated.description, "Updated description");
    assert_eq!(updated.suggested_name, Some("new_name.txt".to_string()));
}

#[test]
fn test_get_processed_paths() {
    let mut db = setup_test_db();

    let cabinet_id = db.create_cabinet("Cabinet", "Test").unwrap();
    let shelf_id = db.create_shelf(cabinet_id, "Shelf", "Test").unwrap();

    let paths = vec!["/path1.txt", "/path2.txt", "/dir/path3.txt"];

    for path in &paths {
        let item = item_row(shelf_id, path, "file.txt", "Test");
        db.insert_item(&item).unwrap();
    }

    let processed = db.get_processed_paths();
    assert_eq!(processed.len(), 3);

    for path in paths {
        assert!(processed.contains(&path.to_string()));
    }
}

#[test]
fn test_opaque_directory_flag() {
    let mut db = setup_test_db();

    let cabinet_id = db.create_cabinet("Cabinet", "Test").unwrap();
    let shelf_id = db.create_shelf(cabinet_id, "Shelf", "Test").unwrap();

    let opaque_dir = Item {
        id: None,
        shelf_id,
        path: "/node_modules".to_string(),
        original_name: "node_modules".to_string(),
        suggested_name: None,
        description: "Node dependencies".to_string(),
        file_type: "directory".to_string(),
        is_opaque_dir: true,
        processed_at: "2024-01-01T00:00:00+00:00".to_string(),
    };

    db.insert_item(&opaque_dir).unwrap();

    let retrieved = db.get_item_by_path("/node_modules").unwrap();
    assert!(retrieved.is_opaque_dir);
    assert_eq!(retrieved.file_type, "directory");
}

#[test]
fn test_foreign_key_constraints() {
    let mut db = setup_test_db();

    let invalid_cabinet_id = 99999;
    let result = db.create_shelf(invalid_cabinet_id, "Orphan Shelf", "No parent");
    assert!(result.is_err());

    let cabinet_id = db.create_cabinet("Cabinet", "Test").unwrap();
    let _shelf_id = db.create_shelf(cabinet_id, "Shelf", "Test").unwrap();

    let invalid_shelf_id = 99999;
    let item = item_row(invalid_shelf_id, "/test.txt", "test.txt", "Test");

    let result = db.insert_item(&item);
    assert!(result.is_err());
}

#[test]
fn test_update_cabinet_rename() {
    let mut db = setup_test_db();

    let first = db.create_cabinet("First", "One").unwrap();
    let second = db.create_cabinet("Second", "Two").unwrap();

    db.update_cabinet(first, "Renamed", "Still one").unwrap();
    let renamed = db.get_cabinet_by_name("Renamed").unwrap();
    assert_eq!(renamed.id, first);
    assert!(db.get_cabinet_by_name("First").is_none());

    let clash = db.update_cabinet(second, "Renamed", "Collides");
    assert_eq!(clash, Err(StoreError::DuplicateCabinetName));
}

#[test]
fn test_update_shelf_rename() {
    let mut db = setup_test_db();

    let cabinet_id = db.create_cabinet("Cabinet", "Test").unwrap();
    let a = db.create_shelf(cabinet_id, "A", "First").unwrap();
    let b = db.create_shelf(cabinet_id, "B", "Second").unwrap();

    db.update_shelf(a, "A2", "Renamed").unwrap();
    assert!(db.get_shelf_by_name(cabinet_id, "A2").is_some());

    let clash = db.update_shelf(b, "A2", "Collides");
    assert_eq!(clash, Err(StoreError::DuplicateShelfName));
}

#[test]
fn test_update_item_shelf_moves_item() {
    let mut db = setup_test_db();

    let cabinet_id = db.create_cabinet("Cabinet", "Test").unwrap();
    let shelf1 = db.create_shelf(cabinet_id, "Shelf 1", "First").unwrap();
    let shelf2 = db.create_shelf(cabinet_id, "Shelf 2", "Second").unwrap();

    let item_id = db.insert_item(&item_row(shelf1, "/move/me.txt", "me.txt", "Test")).unwrap();
    db.update_item_shelf(item_id, shelf2).unwrap();
    assert_eq!(db.get_item_by_path("/move/me.txt").unwrap().shelf_id, shelf2);

    let bad = db.update_item_shelf(item_id, 424242);
    assert_eq!(bad, Err(StoreError::UnknownShelf));
}

#[test]
fn test_delete_refuses_children() {
    let mut db = setup_test_db();

    let cabinet_id = db.create_cabinet("Cabinet", "Test").unwrap();
    let shelf_id = db.create_shelf(cabinet_id, "Shelf", "Test").unwrap();
    db.insert_item(&item_row(shelf_id, "/kept.txt", "kept.txt", "Test")).unwrap();

    assert_eq!(db.delete_cabinet(cabinet_id), Err(StoreError::CabinetNotEmpty));
    assert_eq!(db.delete_shelf(shelf_id), Err(StoreError::ShelfNotEmpty));

    let empty_cabinet = db.create_cabinet("Empty", "No shelves").unwrap();
    assert_eq!(db.delete_cabinet(empty_cabinet), Ok(()));
    assert!(db.get_cabinet_by_name("Empty").is_none());
}

#[test]
fn listings_sort_cabinets_by_name() {
    let mut db = setup_test_db();
    db.create_cabinet("Beta", "Second alphabetically").unwrap();
    db.create_cabinet("Alpha", "First alphabetically").unwrap();
    db.create_cabinet("Gamma", "Third alphabetically").unwrap();

    let names: Vec<String> = db.list_cabinets().iter().map(|c| c.name.clone()).collect();
    assert_eq!(names, vec!["Alpha".to_string(), "Beta".to_string(), "Gamma".to_string()]);
}

#[test]
fn listings_sort_shelves_by_cabinet_then_name() {
    let mut db = setup_test_db();
    let second = db.create_cabinet("Second", "Created first").unwrap();
    let first = db.create_cabinet("First", "Created second").unwrap();

    db.create_shelf(second, "Zed", "z").unwrap();
    db.create_shelf(second, "Ark", "a").unwrap();
    db.create_shelf(first, "Mid", "m").unwrap();

    let all: Vec<(i64, String)> =
        db.list_shelves(None).iter().map(|s| (s.cabinet_id, s.name.clone())).collect();
    assert_eq!(
        all,
        vec![
            (second, "Ark".to_string()),
            (second, "Zed".to_string()),
            (first, "Mid".to_string())
        ]
    );

    let of_second: Vec<String> =
        db.list_shelves(Some(second)).iter().map(|s| s.name.clone()).collect();
    assert_eq!(of_second, vec!["Ark".to_string(), "Zed".to_string()]);
}

#[test]
fn listings_sort_items_by_shelf_then_name() {
    let mut db = setup_test_db();
    let cabinet_id = db.create_cabinet("Cabinet", "Test").unwrap();
    let shelf1 = db.create_shelf(cabinet_id, "One", "First").unwrap();
    let shelf2 = db.create_shelf(cabinet_id, "Two", "Second").unwrap();

    db.insert_item(&item_row(shelf2, "/z.txt", "zebra.txt", "Test")).unwrap();
    db.insert_item(&item_row(shelf1, "/b.txt", "banana.txt", "Test")).unwrap();
    db.insert_item(&item_row(shelf1, "/a.txt", "apple.txt", "Test")).unwrap();

    let listed: Vec<(i64, String)> =
        db.list_all_items().iter().map(|i| (i.shelf_id, i.original_name.clone())).collect();
    assert_eq!(
        listed,
        vec![
            (shelf1, "apple.txt".to_string()),
            (shelf1, "banana.txt".to_string()),
            (shelf2, "zebra.txt".to_string())
        ]
    );
}
