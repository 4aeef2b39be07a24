use shelfie::batch_processor::{chunk_ranges, BatchProcessor};
use shelfie::models::{CabinetInfo, ItemMetadata, ShelfInfo};

#[test]
fn cabinet_catalog_lines() {
    let none: Vec<CabinetInfo> = Vec::new();
    assert_eq!(BatchProcessor::format_cabinets(&none), "None yet");

    let cabinets = vec![
        CabinetInfo { id: 3, name: "Docs".to_string(), description: "Documents".to_string() },
        CabinetInfo { id: 4, name: "Media".to_string(), description: "Pictures".to_string() },
    ];
    assert_eq!(
        BatchProcessor::format_cabinets(&cabinets),
        "- Docs (ID: 3): Documents\n- Media (ID: 4): Pictures"
    );
}

#[test]
fn shelf_catalog_lines() {
    let none: Vec<ShelfInfo> = Vec::new();
    assert_eq!(BatchProcessor::format_shelves(&none), "None yet");

    let shelves = vec![ShelfInfo {
        id: 7,
        cabinet_id: 3,
        name: "Text".to_string(),
        description: "Plain text".to_string(),
    }];
    assert_eq!(
        BatchProcessor::format_shelves(&shelves),
        "- Cabinet 3, Text (ID: 7): Plain text"
    );
}

#[test]
fn item_listing_lines() {
    let file = ItemMetadata {
        id: "0".to_string(),
        name: "notes".to_string(),
        item_type: "file".to_string(),
        extension: "txt".to_string(),
        size_bytes: 42,
        sampled_contents: Vec::new(),
        content_preview: "a few words".to_string(),
    };
    let directory = ItemMetadata {
        id: "1".to_string(),
        name: "logs".to_string(),
        item_type: "directory".to_string(),
        extension: String::new(),
        size_bytes: 0,
        sampled_contents: vec![
            "a1.log".to_string(),
            "a2.log".to_string(),
            "a3.log".to_string(),
            "a4.log".to_string(),
            "a5.log".to_string(),
            "a6.log".to_string(),
        ],
        content_preview: String::new(),
    };
    let rendered = BatchProcessor::format_items(&[file, directory]);
    assert_eq!(
        rendered,
        "0: notes (file).txt, 42 bytes, a few words\n1: logs (directory), contains: [a1.log, a2.log, a3.log, a4.log, a5.log...]"
    );
}

#[test]
fn batches_are_bounded_and_cover_everything() {
    assert_eq!(chunk_ranges(0, 10), Vec::<(usize, usize)>::new());
    assert_eq!(chunk_ranges(7, 10), vec![(0, 7)]);
    assert_eq!(chunk_ranges(25, 10), vec![(0, 10), (10, 20), (20, 25)]);
}
