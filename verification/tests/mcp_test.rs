use surface_saver_rust::mcp::{
    check_item, check_submission, search_reply, submission_file_name, submit_reply, timestamped_file_name, ItemProblem,
    JsonValue, McpServer, SearchRequest, SubmitOutcome, SubmitRequest,
};
use surface_saver_rust::search::{search_results, Item, SearchResult};

fn s(text: &str) -> JsonValue {
    JsonValue::Str(text.to_string())
}

fn obj(members: Vec<(&str, JsonValue)>) -> JsonValue {
    JsonValue::Object(members.into_iter().map(|(k, v)| (k.to_string(), v)).collect())
}

fn submit(name: &str, items: Vec<JsonValue>) -> Option<String> {
    check_submission(&SubmitRequest { name: name.to_string(), items })
}

fn candidates() -> Vec<SearchResult> {
    vec![
        SearchResult {
            item: Item {
                name: "Red Pen".to_string(),
                description: "A red ballpoint pen".to_string(),
                categories: Some(vec!["stationery".to_string()]),
                notes: None,
            },
            file_path: "items.json".to_string(),
        },
        SearchResult {
            item: Item {
                name: "Blue Notebook".to_string(),
                description: "A blue spiral notebook".to_string(),
                categories: Some(vec!["stationery".to_string()]),
                notes: Some("For meetings".to_string()),
            },
            file_path: "items.json".to_string(),
        },
    ]
}

fn request(keywords: &[&str], name: Option<bool>, description: Option<bool>, all: Option<bool>) -> SearchRequest {
    SearchRequest {
        keywords: keywords.iter().map(|k| k.to_string()).collect(),
        name,
        description,
        categories: None,
        notes: None,
        all,
    }
}

#[test]
fn test_mcp_server_new() {
    let server = McpServer::new("/test/path".to_string());
    assert_eq!(server.directory, "/test/path");
}

#[test]
fn test_search_tool() {
    let req = request(&["notebook"], None, None, Some(true));
    let results = search_results(candidates(), &req.keywords, &req.options());
    let result = search_reply(Ok(results));
    assert!(result.contains("Found 1 items:"));
    assert!(result.contains("Blue Notebook"));
    assert!(result.contains("A blue spiral notebook"));

    let req = request(&["pencil"], None, None, Some(true));
    let results = search_results(candidates(), &req.keywords, &req.options());
    assert_eq!(search_reply(Ok(results)), "No items found matching all keywords.");
}

#[test]
fn test_search_with_specific_fields() {
    let writing = vec![SearchResult {
        item: Item {
            name: "Red Pen".to_string(),
            description: "A writing instrument".to_string(),
            categories: Some(vec!["red".to_string(), "stationery".to_string()]),
            notes: None,
        },
        file_path: "items.json".to_string(),
    }];
    let req = request(&["writing"], Some(true), None, None);
    let results = search_results(writing, &req.keywords, &req.options());
    assert_eq!(search_reply(Ok(results)), "No items found matching all keywords.");

    let writing = vec![SearchResult {
        item: Item {
            name: "Red Pen".to_string(),
            description: "A writing instrument".to_string(),
            categories: Some(vec!["red".to_string(), "stationery".to_string()]),
            notes: None,
        },
        file_path: "items.json".to_string(),
    }];
    let req = request(&["writing"], None, Some(true), None);
    let results = search_results(writing, &req.keywords, &req.options());
    let result = search_reply(Ok(results));
    assert!(result.contains("Found 1 items:"));
    assert!(result.contains("Red Pen"));
}

#[test]
fn test_search_error_handling() {
    let result = search_reply(Err("Directory not found: /nonexistent/directory".to_string()));
    assert!(result.contains("Error searching:"));
}

#[test]
fn search_reply_joins_lines() {
    let req = request(&["notebook"], None, None, None);
    let results = search_results(candidates(), &req.keywords, &req.options());
    assert_eq!(
        search_reply(Ok(results)),
        "Found 1 items:\n\n---\nName: Blue Notebook\nDescription: A blue spiral notebook\nCategories: stationery\nNotes: For meetings\nFile: items.json"
    );
}

#[test]
fn request_options_default_to_unset() {
    let options = request(&[], None, Some(true), None).options();
    assert!(!options.search_name);
    assert!(options.search_description);
    assert!(!options.search_categories);
    assert!(!options.search_notes);
    assert!(!options.search_all);
}

#[test]
fn test_submit_tool_invalid_name() {
    let items = || vec![obj(vec![("name", s("Item")), ("description", s("Desc"))])];
    assert!(submit("", items()).unwrap().contains("Error: Invalid subdirectory name"));
    assert!(submit("invalid/name", items()).unwrap().contains("Error: Invalid subdirectory name"));
    assert!(submit("invalid\\name", items()).unwrap().contains("Error: Invalid subdirectory name"));
}

#[test]
fn test_submit_tool_empty_items() {
    assert!(submit("test", vec![]).unwrap().contains("Error: No items provided"));
}

#[test]
fn test_submit_tool_invalid_items() {
    let r = submit("test", vec![s("not an object")]);
    assert!(r.unwrap().contains("Error: Item 0 is not a valid object"));

    let r = submit("test", vec![obj(vec![("description", s("Missing name"))])]);
    assert!(r.unwrap().contains("Error: Item 0 is missing required 'name' field"));

    let r = submit("test", vec![obj(vec![("name", s("Missing description"))])]);
    assert!(r.unwrap().contains("Error: Item 0 is missing required 'description' field"));

    let r = submit("test", vec![obj(vec![("name", JsonValue::Number("123".to_string())), ("description", s("Desc"))])]);
    assert!(r.unwrap().contains("Error: Item 0 'name' field must be a string"));

    let r = submit("test", vec![obj(vec![("name", s("Name")), ("description", JsonValue::Bool(true))])]);
    assert!(r.unwrap().contains("Error: Item 0 'description' field must be a string"));

    let r = submit(
        "test",
        vec![obj(vec![("name", s("Name")), ("description", s("Desc")), ("categories", s("not an array"))])],
    );
    assert!(r.unwrap().contains("Error: Item 0 'categories' field must be an array"));

    let r = submit(
        "test",
        vec![obj(vec![
            ("name", s("Name")),
            ("description", s("Desc")),
            ("categories", JsonValue::Array(vec![JsonValue::Number("123".to_string()), s("valid")])),
        ])],
    );
    assert!(r.unwrap().contains("Error: Item 0 categories must all be strings"));

    let r = submit(
        "test",
        vec![obj(vec![("name", s("Name")), ("description", s("Desc")), ("notes", JsonValue::Number("456".to_string()))])],
    );
    assert!(r.unwrap().contains("Error: Item 0 'notes' field must be a string"));
}

#[test]
fn test_submit_tool_multiple_items_with_error() {
    let r = submit(
        "test",
        vec![
            obj(vec![("name", s("Valid Item")), ("description", s("Valid desc"))]),
            obj(vec![("name", s("Missing description"))]),
        ],
    );
    assert!(r.unwrap().contains("Error: Item 1 is missing required 'description' field"));
}

#[test]
fn valid_submission_is_accepted() {
    let r = submit(
        "test-category",
        vec![
            obj(vec![
                ("categories", JsonValue::Array(vec![s("test"), s("demo")])),
                ("description", s("A test item")),
                ("name", s("Test Item 1")),
                ("notes", s("Test notes")),
            ]),
            obj(vec![("description", s("Another test item")), ("name", s("Test Item 2"))]),
        ],
    );
    assert_eq!(r, None);
}

#[test]
fn item_checks_in_order() {
    assert!(matches!(check_item(&JsonValue::Null), Some(ItemProblem::NotObject)));
    assert!(matches!(check_item(&obj(vec![])), Some(ItemProblem::MissingName)));
    assert!(matches!(
        check_item(&obj(vec![("name", JsonValue::Null), ("description", JsonValue::Null)])),
        Some(ItemProblem::NameNotString)
    ));
    assert!(matches!(
        check_item(&obj(vec![("name", s("n")), ("description", s("d")), ("categories", JsonValue::Array(vec![]))])),
        None
    ));
    let twelfth = submit(
        "box",
        (0..12)
            .map(|i| if i < 11 { obj(vec![("name", s("n")), ("description", s("d"))]) } else { JsonValue::Null })
            .collect(),
    );
    assert_eq!(twelfth.unwrap(), "Error: Item 11 is not a valid object.");
}

#[test]
fn submit_replies() {
    assert_eq!(submission_file_name("2025-07-29-08-30-22"), "2025-07-29-08-30-22.json");
    assert_eq!(
        submit_reply(
            "desk",
            2,
            SubmitOutcome::Saved {
                file_name: "2025-07-29-08-30-22.json".to_string(),
                file_path: "/inv/desk/2025-07-29-08-30-22.json".to_string()
            }
        ),
        "Successfully submitted 2 items to 'desk/2025-07-29-08-30-22.json'. Items saved to: /inv/desk/2025-07-29-08-30-22.json"
    );
    assert_eq!(
        submit_reply("desk", 1, SubmitOutcome::DirectoryFailed("Permission denied (os error 13)".to_string())),
        "Error creating subdirectory 'desk': Permission denied (os error 13)"
    );
    assert_eq!(
        submit_reply("desk", 1, SubmitOutcome::WriteFailed("Permission denied (os error 13)".to_string())),
        "Error writing file: Permission denied (os error 13)"
    );
}

#[test]
fn timestamped_names_have_the_timestamp_shape() {
    let name = timestamped_file_name();
    assert!(name.ends_with(".json"));
    let stamp = &name[..name.len() - 5];
    let parts: Vec<&str> = stamp.split('-').collect();
    assert_eq!(parts.len(), 6);
    assert_eq!(parts[0].len(), 4);
    for part in &parts[1..] {
        assert_eq!(part.len(), 2);
        assert!(part.chars().all(|c| c.is_ascii_digit()));
    }
}

#[test]
fn repeated_keys_take_the_last_member() {
    let first_wrong = obj(vec![
        ("name", JsonValue::Number("1".to_string())),
        ("description", s("d")),
        ("name", s("n")),
    ]);
    assert!(check_item(&first_wrong).is_none());
    let last_wrong = obj(vec![("name", s("n")), ("description", s("d")), ("name", JsonValue::Null)]);
    assert!(matches!(check_item(&last_wrong), Some(ItemProblem::NameNotString)));
}
