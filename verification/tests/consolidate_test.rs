use surface_saver_rust::consolidate::{
    is_consolidation_source, is_json_file_name, merge_directory_items, tally_directories,
    ConsolidationResult, DirectoryOutcome, FileContents, LoadedFile,
};
use surface_saver_rust::search::Item;

fn item(name: &str, description: &str) -> Item {
    Item {
        name: name.to_string(),
        description: description.to_string(),
        categories: None,
        notes: None,
    }
}

fn parsed(path: &str, items: Vec<Item>) -> LoadedFile {
    LoadedFile { path: path.to_string(), contents: FileContents::Parsed(items) }
}

#[test]
fn test_consolidate_single_directory() {
    let files = vec![
        parsed("subdir/file1.json", vec![item("Test Item 1", "First test item")]),
        parsed("subdir/file2.json", vec![item("Test Item 2", "Second test item")]),
    ];
    let merged = merge_directory_items(files).unwrap();
    assert_eq!(merged.len(), 2);

    let tally = tally_directories(vec![DirectoryOutcome {
        path: "subdir".to_string(),
        outcome: Ok(merged.len()),
    }]);
    assert_eq!(tally.successful_dirs, 1);
    assert_eq!(tally.failed_dirs, 0);
    assert_eq!(tally.total_items_consolidated, 2);
}

#[test]
fn test_consolidate_multiple_directories() {
    let outcomes = (1..=3)
        .map(|i| {
            let merged =
                merge_directory_items(vec![parsed("data.json", vec![item(&format!("Item {}", i), &format!("Description {}", i))])])
                    .unwrap();
            DirectoryOutcome { path: format!("dir{}", i), outcome: Ok(merged.len()) }
        })
        .collect();
    let result = tally_directories(outcomes);

    assert_eq!(result.successful_dirs, 3);
    assert_eq!(result.failed_dirs, 0);
    assert_eq!(result.total_items_consolidated, 3);
}

#[test]
fn test_consolidate_skips_all_json() {
    assert!(is_consolidation_source("data.json"));
    assert!(!is_consolidation_source("all.json"));
}

#[test]
fn test_consolidate_empty_directory() {
    let result = tally_directories(vec![]);

    assert_eq!(result.successful_dirs, 0);
    assert_eq!(result.failed_dirs, 0);
    assert_eq!(result.total_items_consolidated, 0);
}

#[test]
fn test_consolidate_invalid_json() {
    let files = vec![LoadedFile {
        path: "subdir/invalid.json".to_string(),
        contents: FileContents::Malformed("expected ident at line 1 column 2".to_string()),
    }];
    let merged = merge_directory_items(files);
    let error = merged.unwrap_err();
    assert_eq!(error, "Failed to parse subdir/invalid.json: expected ident at line 1 column 2");

    let result = tally_directories(vec![DirectoryOutcome {
        path: "subdir".to_string(),
        outcome: Err(error),
    }]);
    assert_eq!(result.successful_dirs, 0);
    assert_eq!(result.failed_dirs, 1);
    assert!(result.directories_processed[0].error.is_some());
}

#[test]
fn test_consolidate_sorts_items() {
    let files = vec![parsed(
        "subdir/data.json",
        vec![item("Zebra", "Last alphabetically"), item("Apple", "First alphabetically")],
    )];
    let consolidated = merge_directory_items(files).unwrap();

    assert_eq!(consolidated[0].name, "Apple");
    assert_eq!(consolidated[1].name, "Zebra");
}

#[test]
fn merge_keeps_file_order_for_equal_names() {
    let files = vec![
        parsed("a.json", vec![item("Same", "from a"), item("Other", "o")]),
        parsed("b.json", vec![item("Same", "from b")]),
    ];
    let merged = merge_directory_items(files).unwrap();
    let descriptions: Vec<&str> = merged.iter().map(|i| i.description.as_str()).collect();
    assert_eq!(descriptions, vec!["o", "from a", "from b"]);
}

#[test]
fn merge_stops_at_first_bad_file() {
    let files = vec![
        parsed("a.json", vec![item("A", "a")]),
        LoadedFile { path: "b.json".to_string(), contents: FileContents::Unreadable("permission denied".to_string()) },
        LoadedFile { path: "c.json".to_string(), contents: FileContents::Malformed("eof".to_string()) },
    ];
    assert_eq!(merge_directory_items(files).unwrap_err(), "permission denied");
}

#[test]
fn merge_of_no_files_is_empty() {
    assert_eq!(merge_directory_items(vec![]).unwrap().len(), 0);
}

#[test]
fn json_file_names() {
    assert!(is_json_file_name("items.json"));
    assert!(is_json_file_name("a.b.json"));
    assert!(is_json_file_name("x.json"));
    assert!(!is_json_file_name(".json"));
    assert!(!is_json_file_name("json"));
    assert!(!is_json_file_name("items.JSON"));
    assert!(!is_json_file_name("items.json.bak"));
    assert!(!is_json_file_name("data.txt"));
    assert!(!is_json_file_name(""));
}

#[test]
fn consolidation_sources() {
    assert!(is_consolidation_source("2025-07-29-08-30-22.json"));
    assert!(is_consolidation_source("xall.json"));
    assert!(!is_consolidation_source("readme.txt"));
}

#[test]
fn tally_records_each_directory() {
    let result = tally_directories(vec![
        DirectoryOutcome { path: "one".to_string(), outcome: Ok(4) },
        DirectoryOutcome { path: "two".to_string(), outcome: Err("bad".to_string()) },
        DirectoryOutcome { path: "three".to_string(), outcome: Ok(5) },
    ]);
    assert_eq!(result.successful_dirs, 2);
    assert_eq!(result.failed_dirs, 1);
    assert_eq!(result.total_items_consolidated, 9);
    assert_eq!(result.directories_processed.len(), 3);
    assert_eq!(result.directories_processed[1].items_count, 0);
    assert_eq!(result.directories_processed[1].error.as_deref(), Some("bad"));
    assert_eq!(result.directories_processed[2].path, "three");
    assert_eq!(result.directories_processed[2].items_count, 5);
}

#[test]
fn new_tally_is_empty() {
    let result = ConsolidationResult::new();
    assert_eq!(result.successful_dirs, 0);
    assert_eq!(result.failed_dirs, 0);
    assert_eq!(result.total_items_consolidated, 0);
    assert!(result.directories_processed.is_empty());
}

#[test]
fn tally_counts_match_entries() {
    let result = tally_directories(vec![
        DirectoryOutcome { path: "x".to_string(), outcome: Err("e1".to_string()) },
        DirectoryOutcome { path: "y".to_string(), outcome: Err("e2".to_string()) },
        DirectoryOutcome { path: "z".to_string(), outcome: Ok(0) },
    ]);
    let failed = result.directories_processed.iter().filter(|d| d.error.is_some()).count();
    let succeeded = result.directories_processed.iter().filter(|d| d.error.is_none()).count();
    assert_eq!(result.failed_dirs, failed);
    assert_eq!(result.successful_dirs, succeeded);
    assert_eq!(result.successful_dirs + result.failed_dirs, 3);
    assert_eq!(result.total_items_consolidated, 0);
}
