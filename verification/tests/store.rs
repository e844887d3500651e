use shopping_list::path_gen::generate_custom_path;
use shopping_list::requests::{resolve_add_request, AddItemRequest, ClientInputError};
use shopping_list::store::{
    content_after_add, content_after_remove, empty_store_content, parse_store_content,
    remove_first_matching, render_store_content, ShoppingListItem, ShoppingListItemKind,
};

fn item(
    path: &str,
    name: &str,
    scale: &str,
    kind: ShoppingListItemKind,
    quantity: Option<&str>,
) -> ShoppingListItem {
    ShoppingListItem {
        path: path.to_string(),
        name: name.to_string(),
        scale: scale.to_string(),
        kind,
        quantity: quantity.map(|q| q.to_string()),
    }
}

#[test]
fn add_recipe_item_with_path_succeeds() {
    let payload = AddItemRequest {
        path: Some("recipes/pie.cook".to_string()),
        name: "Pie".to_string(),
        scale: "2".to_string(),
        kind: ShoppingListItemKind::Recipe,
        quantity: None,
    };
    let stored = resolve_add_request(payload).expect("add recipe");
    let content = content_after_add("", stored);
    let items = parse_store_content(&content);
    assert_eq!(items.len(), 1);
    assert_eq!(items[0].path, "recipes/pie.cook");
    assert_eq!(items[0].kind, ShoppingListItemKind::Recipe);
}

#[test]
fn add_custom_item_generates_path_when_missing() {
    let payload = AddItemRequest {
        path: None,
        name: "Bread".to_string(),
        scale: "1".to_string(),
        kind: ShoppingListItemKind::Custom,
        quantity: Some("2 loaves".to_string()),
    };
    let stored = resolve_add_request(payload).expect("add custom");
    let content = content_after_add("", stored);
    let items = parse_store_content(&content);
    assert_eq!(items.len(), 1);
    assert!(items[0].path.starts_with("custom:"));
    assert_eq!(items[0].kind, ShoppingListItemKind::Custom);
    assert_eq!(items[0].name, "Bread");
    assert_eq!(items[0].quantity.as_deref(), Some("2 loaves"));
}

#[test]
fn custom_path_has_slug_and_timestamp() {
    let p = generate_custom_path("Bread Rolls!");
    let prefix = "custom:bread-rolls-";
    assert!(p.starts_with(prefix), "unexpected path {}", p);
    let digits = &p[prefix.len()..];
    assert!(!digits.is_empty());
    assert!(digits.chars().all(|c| c.is_ascii_digit()));
}

#[test]
fn custom_path_collapses_whitespace_runs() {
    let doubled = generate_custom_path("Bread  Rolls");
    assert!(doubled.starts_with("custom:bread-rolls-"), "unexpected path {}", doubled);
    let tabbed = generate_custom_path("a\tb");
    assert!(tabbed.starts_with("custom:a-b-"), "unexpected path {}", tabbed);
    assert!(!tabbed.contains('\t'));
}

#[test]
fn add_rejects_blank_custom_name_without_path() {
    let payload = AddItemRequest {
        path: None,
        name: " ".to_string(),
        scale: "1".to_string(),
        kind: ShoppingListItemKind::Custom,
        quantity: None,
    };
    let r = resolve_add_request(payload);
    assert!(matches!(r, Err(ClientInputError::MissingName)));
}

#[test]
fn add_then_load_round_trip_keeps_last_item() {
    let first = item("recipes/soup.cook", "Soup", "1", ShoppingListItemKind::Recipe, None);
    let second = item("custom:x-1", "Candles", "1", ShoppingListItemKind::Custom, Some("3"));
    let c1 = content_after_add("", first);
    let c2 = content_after_add(&c1, second);
    let items = parse_store_content(&c2);
    assert_eq!(items.len(), 2);
    assert_eq!(items[1].path, "custom:x-1");
    assert_eq!(items[1].name, "Candles");
    assert_eq!(items[1].scale, "1");
    assert_eq!(items[1].kind, ShoppingListItemKind::Custom);
    assert_eq!(items[1].quantity.as_deref(), Some("3"));
}

#[test]
fn remove_takes_only_first_duplicate() {
    let items = vec![
        item("p", "first", "1", ShoppingListItemKind::Recipe, None),
        item("p", "second", "2", ShoppingListItemKind::Recipe, None),
        item("q", "other", "1", ShoppingListItemKind::Recipe, None),
    ];
    let content = render_store_content(&items);
    let after = content_after_remove(&content, "p");
    let left = parse_store_content(&after);
    assert_eq!(left.len(), 2);
    assert_eq!(left[0].path, "p");
    assert_eq!(left[0].name, "second");
    assert_eq!(left[1].path, "q");
}

#[test]
fn remove_without_match_is_a_no_op() {
    let mut items = vec![
        item("a", "A", "1", ShoppingListItemKind::Recipe, None),
    ];
    let removed = remove_first_matching(&mut items, "missing");
    assert!(!removed);
    assert_eq!(items.len(), 1);
    assert_eq!(items[0].path, "a");
}

#[test]
fn clear_then_load_is_empty() {
    let content = empty_store_content();
    let items = parse_store_content(&content);
    assert!(items.is_empty());
}

#[test]
fn load_skips_comments_blanks_and_short_lines() {
    let content = "# a comment\n\n  \nonly\ttwo\np\tn\t1\n";
    let items = parse_store_content(content);
    assert_eq!(items.len(), 1);
    assert_eq!(items[0].path, "p");
    assert_eq!(items[0].name, "n");
    assert_eq!(items[0].scale, "1");
    assert_eq!(items[0].kind, ShoppingListItemKind::Recipe);
    assert_eq!(items[0].quantity, None);
}

#[test]
fn load_kind_is_case_insensitive_with_recipe_fallback() {
    let content = "a\tA\t1\tCUSTOM\t\nb\tB\t1\tweird\t\nc\tC\t1\tRecipe\t\n";
    let items = parse_store_content(content);
    assert_eq!(items.len(), 3);
    assert_eq!(items[0].kind, ShoppingListItemKind::Custom);
    assert_eq!(items[1].kind, ShoppingListItemKind::Recipe);
    assert_eq!(items[2].kind, ShoppingListItemKind::Recipe);
}

#[test]
fn load_scale_falls_back_to_one() {
    let content = "a\tA\t2.5\trecipe\t\nb\tB\tnot-a-number\trecipe\t\nc\tC\t1e3\trecipe\t\n";
    let items = parse_store_content(content);
    assert_eq!(items[0].scale, "2.5");
    assert_eq!(items[1].scale, "1");
    assert_eq!(items[2].scale, "1e3");
}

#[test]
fn load_blank_quantity_is_none() {
    let content = "a\tA\t1\trecipe\t   \nb\tB\t1\trecipe\t1 cup\n";
    let items = parse_store_content(content);
    assert_eq!(items[0].quantity, None);
    assert_eq!(items[1].quantity.as_deref(), Some("1 cup"));
}

#[test]
fn save_writes_header_and_records_in_order() {
    let items = vec![
        item("one", "One", "1", ShoppingListItemKind::Recipe, None),
        item("two", "Two", "2", ShoppingListItemKind::Custom, Some("5")),
    ];
    let content = render_store_content(&items);
    assert!(content.starts_with("# Shopping List\n"));
    assert!(content.contains("one\tOne\t1\trecipe\t\n"));
    assert!(content.contains("two\tTwo\t2\tcustom\t5\n"));
    let reloaded = parse_store_content(&content);
    assert_eq!(reloaded.len(), 2);
    assert_eq!(reloaded[0].path, "one");
    assert_eq!(reloaded[1].quantity.as_deref(), Some("5"));
}

#[test]
fn add_rejects_blank_name_without_path() {
    let payload = AddItemRequest {
        path: None,
        name: "   ".to_string(),
        scale: "1".to_string(),
        kind: ShoppingListItemKind::Recipe,
        quantity: None,
    };
    let r = resolve_add_request(payload);
    assert!(matches!(r, Err(ClientInputError::MissingName)));
}

#[test]
fn add_keeps_trimmed_provided_path() {
    let payload = AddItemRequest {
        path: Some("  recipes/cake.cook  ".to_string()),
        name: "Cake".to_string(),
        scale: "1.5".to_string(),
        kind: ShoppingListItemKind::Recipe,
        quantity: None,
    };
    let stored = resolve_add_request(payload).expect("add");
    assert_eq!(stored.path, "recipes/cake.cook");
    assert_eq!(stored.scale, "1.5");
}

#[test]
fn missing_name_error_has_a_message() {
    let payload = AddItemRequest {
        path: None,
        name: String::new(),
        scale: "1".to_string(),
        kind: ShoppingListItemKind::Recipe,
        quantity: None,
    };
    match resolve_add_request(payload) {
        Err(e) => assert_eq!(e.message(), "name must not be empty"),
        Ok(_) => panic!("blank name without path must be rejected"),
    }
}

#[test]
fn kind_text_round_trip() {
    assert_eq!(ShoppingListItemKind::Recipe.as_str(), "recipe");
    assert_eq!(ShoppingListItemKind::Custom.as_str(), "custom");
    assert_eq!(ShoppingListItemKind::from_text("custom"), ShoppingListItemKind::Custom);
    assert_eq!(ShoppingListItemKind::from_text("CusToM"), ShoppingListItemKind::Custom);
    assert_eq!(ShoppingListItemKind::from_text("anything"), ShoppingListItemKind::Recipe);
    assert_eq!(ShoppingListItemKind::default(), ShoppingListItemKind::Recipe);
}
