use shelfie::batch_processor::{AssignmentError, BatchError, BatchProcessor};
use shelfie::database::Database;
use shelfie::executor::{directory_paths, movement_action, plan_actions};
use shelfie::models::{
    BatchAnalysisResponse, CabinetAssignment, EnrichedDirectory, EnrichedFile, FileMovement,
    ItemAnalysis, ProcessingItem, SampledItem, ShelfAssignment,
};
use shelfie::planner::create_organization_plan;
use shelfie::scanner::filter_candidates;

const TS: &str = "2024-01-01T00:00:00+00:00";

fn file_item(path: &str, name: &str, extension: Option<&str>, file_type: &str) -> ProcessingItem {
    ProcessingItem::File(EnrichedFile {
        path: path.to_string(),
        name: name.to_string(),
        extension: extension.map(|e| e.to_string()),
        file_type: file_type.to_string(),
        size: 64,
        content_preview: None,
    })
}

fn new_assignment(name: &str, description: &str) -> (String, i64, String, String) {
    ("new".to_string(), 0, name.to_string(), description.to_string())
}

fn existing_assignment(id: i64) -> (String, i64, String, String) {
    ("existing".to_string(), id, String::new(), String::new())
}

fn analysis(
    id: &str,
    description: &str,
    cabinet: (String, i64, String, String),
    shelf: (String, i64, String, String),
) -> ItemAnalysis {
    ItemAnalysis {
        id: id.to_string(),
        description: description.to_string(),
        suggested_name: String::new(),
        is_opaque_directory: false,
        cabinet: CabinetAssignment {
            assignment_type: cabinet.0,
            existing_id: cabinet.1,
            new_name: cabinet.2,
            new_description: cabinet.3,
        },
        shelf: ShelfAssignment {
            assignment_type: shelf.0,
            existing_id: shelf.1,
            new_name: shelf.2,
            new_description: shelf.3,
        },
    }
}

#[test]
fn scanner_excludes_processed_hidden_state_file_and_root() {
    let paths: Vec<String> = vec![
        "/r".to_string(),
        "/r/file1.txt".to_string(),
        "/r/.hidden".to_string(),
        "/r/.fs_organizer.db".to_string(),
        "/r/seen.txt".to_string(),
    ];
    let processed = vec!["/r/seen.txt".to_string()];
    let out = filter_candidates(&paths, "/r", &processed);
    assert_eq!(out, vec!["/r/file1.txt".to_string()]);
}

#[test]
fn rescan_never_reemits_processed_paths() {
    let mut db = Database::new();
    let cabinet_id = db.create_cabinet("Docs", "Documents").unwrap();
    let shelf_id = db.create_shelf(cabinet_id, "Text", "Text files").unwrap();
    for path in ["/r/a.txt", "/r/b.txt"] {
        let item = shelfie::database::Item {
            id: None,
            shelf_id,
            path: path.to_string(),
            original_name: "x".to_string(),
            suggested_name: None,
            description: "d".to_string(),
            file_type: "text".to_string(),
            is_opaque_dir: false,
            processed_at: TS.to_string(),
        };
        db.insert_item(&item).unwrap();
    }
    let processed = db.get_processed_paths();
    let walked: Vec<String> = vec![
        "/r/a.txt".to_string(),
        "/r/b.txt".to_string(),
        "/r/c.txt".to_string(),
    ];
    let out = filter_candidates(&walked, "/r", &processed);
    assert_eq!(out, vec!["/r/c.txt".to_string()]);
    for p in &processed {
        assert!(!out.contains(p));
    }
}

#[test]
fn opaque_for_deny_listed_name_whatever_the_contents() {
    let empty: Vec<SampledItem> = Vec::new();
    assert!(BatchProcessor::is_likely_opaque_directory("node_modules", &empty));
    let varied = vec![
        SampledItem { name: "notes".to_string(), is_file: true, extension: Some("md".to_string()) },
        SampledItem { name: "photo".to_string(), is_file: true, extension: Some("jpg".to_string()) },
    ];
    assert!(BatchProcessor::is_likely_opaque_directory("node_modules", &varied));
    assert!(BatchProcessor::is_likely_opaque_directory(".git", &empty));
}

#[test]
fn opaque_for_homogeneous_numbered_samples() {
    let logs: Vec<SampledItem> = (1..=5)
        .map(|i| SampledItem {
            name: format!("a{}.log", i),
            is_file: true,
            extension: Some("log".to_string()),
        })
        .collect();
    assert!(BatchProcessor::is_likely_opaque_directory("archive", &logs));
}

#[test]
fn not_opaque_for_unrelated_mixed_samples() {
    let names = ["notes", "recipe", "photo", "letter", "song"];
    let exts = ["md", "txt", "jpg", "docx", "mp3"];
    let samples: Vec<SampledItem> = names
        .iter()
        .zip(exts.iter())
        .map(|(n, e)| SampledItem {
            name: n.to_string(),
            is_file: true,
            extension: Some(e.to_string()),
        })
        .collect();
    assert!(!BatchProcessor::is_likely_opaque_directory("misc", &samples));
}

#[test]
fn batch_local_dedup_creates_one_cabinet() {
    let mut db = Database::new();
    let items = vec![
        file_item("/r/pie.txt", "pie", Some("txt"), "text/plain"),
        file_item("/r/cake.txt", "cake", Some("txt"), "text/plain"),
    ];
    let response = BatchAnalysisResponse {
        items: vec![
            analysis(
                "0",
                "A pie recipe",
                new_assignment("Recipes", "Food recipes"),
                new_assignment("Baking", "Baked goods"),
            ),
            analysis(
                "1",
                "A cake recipe",
                new_assignment("Recipes", "Food recipes"),
                new_assignment("Baking", "Baked goods"),
            ),
        ],
    };
    BatchProcessor::store_batch_results_at(&mut db, &items, &response, TS).unwrap();

    let cabinets = db.list_cabinets();
    assert_eq!(cabinets.len(), 1, "one Recipes cabinet row");
    assert_eq!(cabinets[0].name, "Recipes");
    let recipes_id = cabinets[0].id;

    let shelves = db.list_shelves(None);
    assert_eq!(shelves.len(), 1, "one Baking shelf row");
    assert_eq!(shelves[0].cabinet_id, recipes_id);

    let pie = db.get_item_by_path("/r/pie.txt").unwrap();
    let cake = db.get_item_by_path("/r/cake.txt").unwrap();
    assert_eq!(pie.shelf_id, shelves[0].id);
    assert_eq!(cake.shelf_id, shelves[0].id);
}

#[test]
fn batch_is_rejected_whole_on_bad_input() {
    let base = Database::new();
    let one_item = vec![file_item("/r/a.txt", "a", Some("txt"), "text/plain")];

    // a response with the wrong number of judgments
    let mut db = base.clone();
    let empty = BatchAnalysisResponse { items: Vec::new() };
    assert_eq!(
        BatchProcessor::store_batch_results_at(&mut db, &one_item, &empty, TS),
        Err(BatchError::CountMismatch)
    );
    assert_eq!(db.list_cabinets().len(), 0);

    // a judgment whose id is not its position
    let mut db = base.clone();
    let wrong_id = BatchAnalysisResponse {
        items: vec![analysis("7", "d", new_assignment("A", "a"), new_assignment("S", "s"))],
    };
    assert_eq!(
        BatchProcessor::store_batch_results_at(&mut db, &one_item, &wrong_id, TS),
        Err(BatchError::IdMismatch)
    );

    // an unknown assignment tag
    let mut db = base.clone();
    let bad_tag = BatchAnalysisResponse {
        items: vec![analysis(
            "0",
            "d",
            ("maybe".to_string(), 0, String::new(), String::new()),
            new_assignment("S", "s"),
        )],
    };
    assert_eq!(
        BatchProcessor::store_batch_results_at(&mut db, &one_item, &bad_tag, TS),
        Err(BatchError::Cabinet(AssignmentError::InvalidType))
    );

    // an existing assignment with id zero
    let mut db = base.clone();
    let zero_id = BatchAnalysisResponse {
        items: vec![analysis("0", "d", existing_assignment(0), new_assignment("S", "s"))],
    };
    assert_eq!(
        BatchProcessor::store_batch_results_at(&mut db, &one_item, &zero_id, TS),
        Err(BatchError::Cabinet(AssignmentError::ZeroId))
    );

    // an existing assignment that resolves to nothing
    let mut db = base.clone();
    let dangling = BatchAnalysisResponse {
        items: vec![analysis("0", "d", existing_assignment(12), new_assignment("S", "s"))],
    };
    assert_eq!(
        BatchProcessor::store_batch_results_at(&mut db, &one_item, &dangling, TS),
        Err(BatchError::Cabinet(AssignmentError::Unresolved))
    );

    // a new assignment with empty fields
    let mut db = base.clone();
    let empty_new = BatchAnalysisResponse {
        items: vec![analysis("0", "d", new_assignment("", ""), new_assignment("S", "s"))],
    };
    assert_eq!(
        BatchProcessor::store_batch_results_at(&mut db, &one_item, &empty_new, TS),
        Err(BatchError::Cabinet(AssignmentError::EmptyNew))
    );

    // a shelf assignment that resolves to nothing
    let mut db = base.clone();
    let bad_shelf = BatchAnalysisResponse {
        items: vec![analysis("0", "d", new_assignment("A", "a"), existing_assignment(9))],
    };
    assert_eq!(
        BatchProcessor::store_batch_results_at(&mut db, &one_item, &bad_shelf, TS),
        Err(BatchError::Shelf(AssignmentError::Unresolved))
    );
    assert_eq!(db.list_cabinets().len(), 0, "no partial writes on a failed batch");

    // shelf assignments fail the same way as cabinet assignments
    let mut db = base.clone();
    let shelf_bad_tag = BatchAnalysisResponse {
        items: vec![analysis(
            "0",
            "d",
            new_assignment("A", "a"),
            ("maybe".to_string(), 0, String::new(), String::new()),
        )],
    };
    assert_eq!(
        BatchProcessor::store_batch_results_at(&mut db, &one_item, &shelf_bad_tag, TS),
        Err(BatchError::Shelf(AssignmentError::InvalidType))
    );

    let mut db = base.clone();
    let shelf_zero = BatchAnalysisResponse {
        items: vec![analysis("0", "d", new_assignment("A", "a"), existing_assignment(0))],
    };
    assert_eq!(
        BatchProcessor::store_batch_results_at(&mut db, &one_item, &shelf_zero, TS),
        Err(BatchError::Shelf(AssignmentError::ZeroId))
    );

    let mut db = base.clone();
    let shelf_empty = BatchAnalysisResponse {
        items: vec![analysis("0", "d", new_assignment("A", "a"), new_assignment("", ""))],
    };
    assert_eq!(
        BatchProcessor::store_batch_results_at(&mut db, &one_item, &shelf_empty, TS),
        Err(BatchError::Shelf(AssignmentError::EmptyNew))
    );

    // a new cabinet whose name the store already holds from an earlier batch
    let mut db = base.clone();
    db.create_cabinet_at("A", "already here", TS).unwrap();
    let clashing = BatchAnalysisResponse {
        items: vec![analysis("0", "d", new_assignment("A", "a"), new_assignment("S", "s"))],
    };
    assert_eq!(
        BatchProcessor::store_batch_results_at(&mut db, &one_item, &clashing, TS),
        Err(BatchError::Store(shelfie::database::StoreError::DuplicateCabinetName))
    );

    // a new shelf whose name its cabinet already holds from an earlier batch
    let mut db = base.clone();
    let cab = db.create_cabinet_at("A", "already here", TS).unwrap();
    db.create_shelf_at(cab, "S", "already here", TS).unwrap();
    let shelf_clash = BatchAnalysisResponse {
        items: vec![analysis("0", "d", existing_assignment(cab), new_assignment("S", "s"))],
    };
    assert_eq!(
        BatchProcessor::store_batch_results_at(&mut db, &one_item, &shelf_clash, TS),
        Err(BatchError::Store(shelfie::database::StoreError::DuplicateShelfName))
    );

    // two items of one batch recording the same path
    let mut db = base.clone();
    let twice = vec![
        file_item("/r/same.txt", "same", Some("txt"), "text/plain"),
        file_item("/r/same.txt", "same", Some("txt"), "text/plain"),
    ];
    let both = BatchAnalysisResponse {
        items: vec![
            analysis("0", "d", new_assignment("A", "a"), new_assignment("S", "s")),
            analysis("1", "d", new_assignment("A", "a"), new_assignment("S", "s")),
        ],
    };
    assert_eq!(
        BatchProcessor::store_batch_results_at(&mut db, &twice, &both, TS),
        Err(BatchError::Store(shelfie::database::StoreError::DuplicateItemPath))
    );
    assert_eq!(db.get_processed_paths().len(), 0, "no partial writes on a failed batch");
}

#[test]
fn executor_skips_vanished_sources() {
    let movement = FileMovement {
        from: "/r/a.txt".to_string(),
        to_cabinet: "Docs".to_string(),
        to_shelf: "Text".to_string(),
        new_name: None,
        reasoning: "d".to_string(),
    };
    let op = movement_action("/r", &movement, true).unwrap();
    assert_eq!(op.from, "/r/a.txt");
    assert_eq!(op.to, "/r/Docs/Text/a.txt");
    assert!(movement_action("/r", &movement, false).is_none());

    let renamed = FileMovement { new_name: Some("better.txt".to_string()), ..movement };
    let op = movement_action("/r", &renamed, true).unwrap();
    assert_eq!(op.to, "/r/Docs/Text/better.txt");
}

#[test]
fn second_run_of_executed_plan_moves_nothing() {
    let mut db = Database::new();
    let items = vec![
        file_item("/r/a.txt", "a", Some("txt"), "text/plain"),
        file_item("/r/b.txt", "b", Some("txt"), "text/plain"),
    ];
    let response = BatchAnalysisResponse {
        items: vec![
            analysis("0", "d", new_assignment("Docs", "x"), new_assignment("Text", "y")),
            analysis("1", "d", new_assignment("Docs", "x"), new_assignment("Text", "y")),
        ],
    };
    BatchProcessor::store_batch_results_at(&mut db, &items, &response, TS).unwrap();
    let plan = create_organization_plan(&db);

    // first run: both sources present, both moved
    let first = plan_actions("/r", &plan, &vec![true, true]);
    assert_eq!(first.len(), 2);

    // second run: every source is gone, so nothing is moved
    let second = plan_actions("/r", &plan, &vec![false, false]);
    assert_eq!(second.len(), 0);
}

#[test]
fn end_to_end_three_files_two_cabinets() {
    let root = "/r";
    let walked: Vec<String> = vec![
        "/r".to_string(),
        "/r/file1.txt".to_string(),
        "/r/doc123.txt".to_string(),
        "/r/recipe.md".to_string(),
        "/r/.fs_organizer.db".to_string(),
    ];
    let processed: Vec<String> = Vec::new();
    let candidates = filter_candidates(&walked, root, &processed);
    assert_eq!(candidates.len(), 3);

    let items: Vec<ProcessingItem> = vec![
        file_item("/r/file1.txt", "file1", Some("txt"), "text/plain"),
        file_item("/r/doc123.txt", "doc123", Some("txt"), "text/plain"),
        file_item("/r/recipe.md", "recipe", Some("md"), "text/markdown"),
    ];

    // the stub oracle's fixed judgment for this batch
    let response = BatchAnalysisResponse {
        items: vec![
            analysis(
                "0",
                "A plain text file",
                new_assignment("Documents", "Text documents"),
                new_assignment("TextFiles", "Plain text"),
            ),
            analysis(
                "1",
                "A structured document",
                new_assignment("Documents", "Text documents"),
                new_assignment("TextFiles", "Plain text"),
            ),
            analysis(
                "2",
                "A recipe in markdown",
                new_assignment("Recipes", "Food recipes"),
                new_assignment("Markdown", "Markdown recipes"),
            ),
        ],
    };

    let mut db = Database::new();
    BatchProcessor::store_batch_results_at(&mut db, &items, &response, TS).unwrap();

    assert_eq!(db.list_cabinets().len(), 2);
    assert_eq!(db.list_shelves(None).len(), 2);
    assert_eq!(db.get_processed_paths().len(), 3);

    let plan = create_organization_plan(&db);
    let dirs = directory_paths(root, &plan);
    assert!(dirs.contains(&"/r/Documents".to_string()));
    assert!(dirs.contains(&"/r/Documents/TextFiles".to_string()));
    assert!(dirs.contains(&"/r/Recipes".to_string()));
    assert!(dirs.contains(&"/r/Recipes/Markdown".to_string()));

    let actions = plan_actions(root, &plan, &vec![true, true, true]);

    // a small picture of the disk: the files under the root, moved as decided
    let mut disk: Vec<String> = vec![
        "/r/file1.txt".to_string(),
        "/r/doc123.txt".to_string(),
        "/r/recipe.md".to_string(),
    ];
    for op in &actions {
        disk.retain(|p| p != &op.from);
        disk.push(op.to.clone());
    }

    assert!(disk.contains(&"/r/Documents/TextFiles/file1.txt".to_string()));
    assert!(disk.contains(&"/r/Documents/TextFiles/doc123.txt".to_string()));
    assert!(disk.contains(&"/r/Recipes/Markdown/recipe.md".to_string()));
    assert!(!disk.contains(&"/r/file1.txt".to_string()));
    assert!(!disk.contains(&"/r/doc123.txt".to_string()));
    assert!(!disk.contains(&"/r/recipe.md".to_string()));
}

#[test]
fn reusing_existing_categories_across_batches() {
    let mut db = Database::new();
    let first_items = vec![file_item("/r/a.txt", "a", Some("txt"), "text/plain")];
    let first = BatchAnalysisResponse {
        items: vec![analysis(
            "0",
            "d",
            new_assignment("Docs", "x"),
            new_assignment("Text", "y"),
        )],
    };
    BatchProcessor::store_batch_results_at(&mut db, &first_items, &first, TS).unwrap();
    let cabinet_id = db.list_cabinets()[0].id;
    let shelf_id = db.list_shelves(None)[0].id;

    let second_items = vec![file_item("/r/b.txt", "b", Some("txt"), "text/plain")];
    let second = BatchAnalysisResponse {
        items: vec![analysis(
            "0",
            "d",
            existing_assignment(cabinet_id),
            existing_assignment(shelf_id),
        )],
    };
    BatchProcessor::store_batch_results_at(&mut db, &second_items, &second, TS).unwrap();

    assert_eq!(db.list_cabinets().len(), 1);
    assert_eq!(db.list_shelves(None).len(), 1);
    assert_eq!(db.get_item_by_path("/r/b.txt").unwrap().shelf_id, shelf_id);
}

#[test]
fn directory_items_carry_the_heuristic_flag() {
    let mut db = Database::new();
    let logs: Vec<SampledItem> = (1..=5)
        .map(|i| SampledItem {
            name: format!("a{}.log", i),
            is_file: true,
            extension: Some("log".to_string()),
        })
        .collect();
    let items = vec![ProcessingItem::Directory(EnrichedDirectory {
        path: "/r/archive".to_string(),
        name: "archive".to_string(),
        sampled_items: logs,
    })];
    let response = BatchAnalysisResponse {
        items: vec![analysis(
            "0",
            "Homogeneous logs",
            new_assignment("Archives", "Old data"),
            new_assignment("Logs", "Log bundles"),
        )],
    };
    BatchProcessor::store_batch_results_at(&mut db, &items, &response, TS).unwrap();
    let stored = db.get_item_by_path("/r/archive").unwrap();
    assert!(stored.is_opaque_dir);
    assert_eq!(stored.file_type, "directory");
}

#[test]
fn request_carries_items_and_catalog() {
    let mut db = Database::new();
    let cabinet_id = db.create_cabinet_at("Docs", "Documents", TS).unwrap();
    db.create_shelf_at(cabinet_id, "Text", "Text files", TS).unwrap();

    let items = vec![
        file_item("/r/a.txt", "a", Some("txt"), "text/plain"),
        ProcessingItem::Directory(EnrichedDirectory {
            path: "/r/stuff".to_string(),
            name: "stuff".to_string(),
            sampled_items: vec![SampledItem {
                name: "one.txt".to_string(),
                is_file: true,
                extension: Some("txt".to_string()),
            }],
        }),
    ];
    let request =
        BatchProcessor::build_batch_request(&items, &db.list_cabinets(), &db.list_shelves(None));
    assert_eq!(request.items.len(), 2);
    assert_eq!(request.items[0].id, "0");
    assert_eq!(request.items[0].item_type, "file");
    assert_eq!(request.items[0].extension, "txt");
    assert_eq!(request.items[1].id, "1");
    assert_eq!(request.items[1].item_type, "directory");
    assert_eq!(request.items[1].sampled_contents, vec!["one.txt".to_string()]);
    assert_eq!(request.existing_cabinets.len(), 1);
    assert_eq!(request.existing_cabinets[0].name, "Docs");
    assert_eq!(request.existing_shelves.len(), 1);
    assert_eq!(request.existing_shelves[0].name, "Text");
}

#[test]
fn directory_samples_skip_hidden_and_are_bounded() {
    let mut children: Vec<SampledItem> = Vec::new();
    children.push(SampledItem { name: ".hidden".to_string(), is_file: true, extension: None });
    for i in 0..25 {
        children.push(SampledItem {
            name: format!("c{}.txt", i),
            is_file: true,
            extension: Some("txt".to_string()),
        });
    }
    let sampled = shelfie::scanner::sample_children(children);
    assert_eq!(sampled.len(), 20);
    assert_eq!(sampled[0].name, "c0.txt");
    assert!(sampled.iter().all(|c| !c.name.starts_with('.')));
}

#[test]
fn exactly_eighty_percent_numbered_is_not_opaque() {
    // four numbered names out of five is exactly 80%, not more
    let mut samples: Vec<SampledItem> = (1..=4)
        .map(|i| SampledItem {
            name: format!("a{}.log", i),
            is_file: true,
            extension: Some("log".to_string()),
        })
        .collect();
    samples.push(SampledItem {
        name: "readme.log".to_string(),
        is_file: true,
        extension: Some("log".to_string()),
    });
    assert!(!BatchProcessor::is_likely_opaque_directory("archive", &samples));
}

#[test]
fn empty_store_yields_an_empty_plan() {
    let db = Database::new();
    let plan = create_organization_plan(&db);
    assert_eq!(plan.cabinets.len(), 0);
    assert_eq!(plan.movements.len(), 0);
    assert_eq!(directory_paths("/r", &plan).len(), 0);
}
