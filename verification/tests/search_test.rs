use surface_saver_rust::search::{
    matches_all_keywords, matches_keyword, search_report_lines, search_results, Item,
    SearchOptions, SearchResult,
};
use surface_saver_rust::sorting::sort_by_name;

fn create_test_item() -> Item {
    Item {
        name: "Test Notebook".to_string(),
        description: "A red spiral notebook".to_string(),
        categories: Some(vec!["stationery".to_string(), "notebooks".to_string()]),
        notes: Some("Important notes here".to_string()),
    }
}

fn options(name: bool, description: bool, categories: bool, notes: bool, all: bool) -> SearchOptions {
    SearchOptions {
        search_name: name,
        search_description: description,
        search_categories: categories,
        search_notes: notes,
        search_all: all,
    }
}

fn item(name: &str, description: &str, categories: Option<Vec<&str>>, notes: Option<&str>) -> Item {
    Item {
        name: name.to_string(),
        description: description.to_string(),
        categories: categories.map(|c| c.into_iter().map(|s| s.to_string()).collect()),
        notes: notes.map(|s| s.to_string()),
    }
}

#[test]
fn test_search_options_default_behavior() {
    let options = SearchOptions {
        search_name: false,
        search_description: false,
        search_categories: false,
        search_notes: false,
        search_all: false,
    };

    assert!(options.should_search_name());
    assert!(options.should_search_description());
    assert!(options.should_search_categories());
    assert!(options.should_search_notes());
}

#[test]
fn test_search_options_all_flag() {
    let options = SearchOptions {
        search_name: false,
        search_description: false,
        search_categories: false,
        search_notes: false,
        search_all: true,
    };

    assert!(options.should_search_name());
    assert!(options.should_search_description());
    assert!(options.should_search_categories());
    assert!(options.should_search_notes());
}

#[test]
fn test_search_options_specific_fields() {
    let options = SearchOptions {
        search_name: true,
        search_description: false,
        search_categories: true,
        search_notes: false,
        search_all: false,
    };

    assert!(options.should_search_name());
    assert!(!options.should_search_description());
    assert!(options.should_search_categories());
    assert!(!options.should_search_notes());
}

#[test]
fn test_matches_keyword_in_name() {
    let item = create_test_item();
    let options = options(true, false, false, false, false);

    assert!(matches_keyword(&item, "notebook", &options));
    assert!(matches_keyword(&item, "NOTEBOOK", &options)); // Case insensitive
    assert!(!matches_keyword(&item, "red", &options)); // Not in name
}

#[test]
fn test_matches_keyword_in_description() {
    let item = create_test_item();
    let options = options(false, true, false, false, false);

    assert!(matches_keyword(&item, "red", &options));
    assert!(matches_keyword(&item, "spiral", &options));
    assert!(!matches_keyword(&item, "blue", &options));
}

#[test]
fn test_matches_keyword_in_categories() {
    let item = create_test_item();
    let options = options(false, false, true, false, false);

    assert!(matches_keyword(&item, "stationery", &options));
    assert!(matches_keyword(&item, "notebooks", &options));
    assert!(!matches_keyword(&item, "electronics", &options));
}

#[test]
fn test_matches_keyword_in_notes() {
    let item = create_test_item();
    let options = options(false, false, false, true, false);

    assert!(matches_keyword(&item, "important", &options));
    assert!(matches_keyword(&item, "notes", &options));
    assert!(!matches_keyword(&item, "trivial", &options));
}

#[test]
fn test_matches_all_keywords() {
    let item = create_test_item();
    let options = options(false, false, false, false, true);

    let keywords = vec!["notebook".to_string(), "red".to_string()];
    assert!(matches_all_keywords(&item, &keywords, &options));

    let keywords = vec!["notebook".to_string(), "blue".to_string()];
    assert!(!matches_all_keywords(&item, &keywords, &options));
}

#[test]
fn test_search_with_empty_optional_fields() {
    let item = Item {
        name: "Simple Item".to_string(),
        description: "Just a description".to_string(),
        categories: None,
        notes: None,
    };

    let options = options(false, false, true, true, false);

    assert!(!matches_keyword(&item, "anything", &options));
}

fn file_candidates() -> Vec<SearchResult> {
    vec![
        SearchResult {
            item: item("Red Pen", "A red ballpoint pen", Some(vec!["stationery"]), None),
            file_path: "items.json".to_string(),
        },
        SearchResult {
            item: item(
                "Blue Notebook",
                "A blue spiral notebook",
                Some(vec!["stationery"]),
                Some("For meetings"),
            ),
            file_path: "items.json".to_string(),
        },
    ]
}

#[test]
fn test_search_directory() {
    let options = options(false, false, false, false, true);

    let results = search_results(file_candidates(), &["stationery".to_string()], &options);
    assert_eq!(results.len(), 2);

    let results = search_results(file_candidates(), &["notebook".to_string()], &options);
    assert_eq!(results.len(), 1);
    assert_eq!(results[0].item.name, "Blue Notebook");

    let results = search_results(file_candidates(), &["red".to_string()], &options);
    assert_eq!(results.len(), 1);
    assert_eq!(results[0].item.name, "Red Pen");
}

#[test]
fn search_results_sorted_by_name() {
    let options = options(false, false, false, false, true);
    let results = search_results(file_candidates(), &["stationery".to_string()], &options);
    assert_eq!(results[0].item.name, "Blue Notebook");
    assert_eq!(results[1].item.name, "Red Pen");
}

#[test]
fn search_without_keywords_finds_everything() {
    let options = options(false, false, false, false, false);
    let results = search_results(file_candidates(), &[], &options);
    assert_eq!(results.len(), 2);
}

#[test]
fn keyword_case_is_ignored_on_both_sides() {
    let item = item("ARDUINO Uno", "Board", None, None);
    let options = options(true, false, false, false, false);
    assert!(matches_keyword(&item, "arduino", &options));
    assert!(matches_keyword(&item, "ArDuInO", &options));
    assert!(matches_keyword(&item, "o u", &options));
    assert!(!matches_keyword(&item, "board", &options));
}

#[test]
fn empty_keyword_matches_any_searched_field() {
    let item = item("X", "Y", None, None);
    let options = options(false, false, false, false, false);
    assert!(matches_keyword(&item, "", &options));
}

#[test]
fn keyword_longer_than_field_does_not_match() {
    let item = item("Pen", "Ink", None, None);
    let options = options(false, false, false, false, true);
    assert!(!matches_keyword(&item, "penholder", &options));
}

#[test]
fn sort_is_stable_for_equal_names() {
    let items = vec![
        item("b", "first b", None, None),
        item("a", "only a", None, None),
        item("b", "second b", None, None),
        item("B", "capital", None, None),
    ];
    let sorted = sort_by_name(items);
    let descriptions: Vec<&str> = sorted.iter().map(|i| i.description.as_str()).collect();
    assert_eq!(descriptions, vec!["capital", "only a", "first b", "second b"]);
}

#[test]
fn sort_orders_by_code_point_and_prefix() {
    let items = vec![
        item("abc", "", None, None),
        item("ab", "", None, None),
        item("é", "", None, None),
        item("z", "", None, None),
    ];
    let sorted = sort_by_name(items);
    let names: Vec<&str> = sorted.iter().map(|i| i.name.as_str()).collect();
    assert_eq!(names, vec!["ab", "abc", "z", "é"]);
}

#[test]
fn report_lines_for_results() {
    let options = options(false, false, false, false, true);
    let results = search_results(file_candidates(), &["notebook".to_string()], &options);
    let lines = search_report_lines(&results);
    assert_eq!(
        lines,
        vec![
            "Found 1 items:",
            "\n---",
            "Name: Blue Notebook",
            "Description: A blue spiral notebook",
            "Categories: stationery",
            "Notes: For meetings",
            "File: items.json",
        ]
    );
}

#[test]
fn report_lines_join_categories() {
    let results = vec![SearchResult {
        item: item("Kit", "Parts", Some(vec!["a", "b", "c"]), None),
        file_path: "d/x.json".to_string(),
    }];
    let lines = search_report_lines(&results);
    assert_eq!(lines[4], "Categories: a, b, c");
    assert_eq!(lines[5], "File: d/x.json");
    assert_eq!(lines.len(), 6);
}

#[test]
fn report_lines_without_results() {
    let lines = search_report_lines(&vec![]);
    assert_eq!(lines, vec!["No items found matching all keywords."]);
}

#[test]
fn added_keyword_narrows_results() {
    let options = options(false, false, false, false, true);
    let fewer = search_results(file_candidates(), &["stationery".to_string()], &options);
    let more = search_results(
        file_candidates(),
        &["stationery".to_string(), "meetings".to_string()],
        &options,
    );
    assert_eq!(fewer.len(), 2);
    assert_eq!(more.len(), 1);
    assert_eq!(more[0].item.name, "Blue Notebook");
    assert!(matches_keyword(&more[0].item, "meetings", &options));
}
