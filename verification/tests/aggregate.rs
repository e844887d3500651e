use shopping_list::aggregate::{
    add_recipe_ingredients, aggregate, empty_ingredient_list, pantry_available,
    scaled_recipe_ref, RecipeRequest,
};
use shopping_list::requests::ClientInputError;
use shopping_list::store::ShoppingListItemKind;

fn recipe_entry(recipe: &str, scale: Option<&str>) -> RecipeRequest {
    RecipeRequest {
        recipe: recipe.to_string(),
        scale: scale.map(|s| s.to_string()),
        kind: ShoppingListItemKind::Recipe,
        name: None,
        quantity: None,
    }
}

fn custom_entry(recipe: &str, name: Option<&str>, quantity: Option<&str>) -> RecipeRequest {
    RecipeRequest {
        recipe: recipe.to_string(),
        scale: None,
        kind: ShoppingListItemKind::Custom,
        name: name.map(|s| s.to_string()),
        quantity: quantity.map(|s| s.to_string()),
    }
}

#[test]
fn scaled_reference_appends_scale_only_when_present() {
    assert_eq!(
        scaled_recipe_ref(&recipe_entry("r1", Some("2"))).as_deref(),
        Some("r1:2")
    );
    assert_eq!(scaled_recipe_ref(&recipe_entry("r1", None)).as_deref(), Some("r1"));
    assert_eq!(scaled_recipe_ref(&custom_entry("x", Some("X"), None)), None);
}

#[test]
fn example_no_pantry_yields_trailing_custom_category() {
    let entries = vec![
        recipe_entry("r1", Some("2")),
        custom_entry("ignored", Some("Paper towels"), Some("1 pack")),
    ];
    let mut list = empty_ingredient_list();
    add_recipe_ingredients(&mut list, "Mix @flour{200%g} with water.").expect("recipe");
    let r = aggregate(&entries, list, "", None);
    assert!(r.pantry_items.is_empty());
    let last = r.categories.last().expect("has categories");
    assert_eq!(last.name, "Custom Items");
    assert_eq!(last.items.len(), 1);
    assert_eq!(last.items[0].name, "Paper towels");
    assert_eq!(last.items[0].quantities, vec!["1 pack".to_string()]);
}

#[test]
fn custom_items_keep_order_and_duplicates() {
    let entries = vec![
        custom_entry("fallback-name", None, None),
        custom_entry("x", Some("Candles"), Some("2")),
        custom_entry("y", Some("Candles"), Some("2")),
    ];
    let list = empty_ingredient_list();
    let r = aggregate(&entries, list, "", None);
    let last = r.categories.last().expect("custom category");
    assert_eq!(last.name, "Custom Items");
    assert_eq!(last.items.len(), 3);
    assert_eq!(last.items[0].name, "fallback-name");
    assert!(last.items[0].quantities.is_empty());
    assert_eq!(last.items[1].name, "Candles");
    assert_eq!(last.items[2].name, "Candles");
}

#[test]
fn custom_items_never_reach_recipe_categories() {
    let entries = vec![custom_entry("z", Some("Soap"), None)];
    let mut list = empty_ingredient_list();
    add_recipe_ingredients(&mut list, "Add @salt{1%tsp}.").expect("recipe");
    let r = aggregate(&entries, list, "", None);
    for cat in r.categories.iter().take(r.categories.len() - 1) {
        for it in cat.items.iter() {
            assert_ne!(it.name, "Soap");
        }
    }
    let last = r.categories.last().expect("custom category");
    assert_eq!(last.name, "Custom Items");
    assert_eq!(last.items[0].name, "Soap");
}

#[test]
fn aggregation_structure_is_idempotent() {
    let entries = vec![
        recipe_entry("r1", None),
        custom_entry("c", Some("Foil"), Some("1 roll")),
    ];
    let aisle = "[baking]\nflour\n[spices]\nsalt\n";
    let run = || {
        let mut list = empty_ingredient_list();
        add_recipe_ingredients(&mut list, "Mix @flour{200%g} and @salt{1%tsp}.").expect("recipe");
        aggregate(&entries, list, aisle, None)
    };
    let r1 = run();
    let r2 = run();
    let shape = |r: &shopping_list::aggregate::ShoppingListResult| {
        r.categories
            .iter()
            .map(|c| {
                (
                    c.name.clone(),
                    c.items.iter().map(|i| i.name.clone()).collect::<Vec<_>>(),
                )
            })
            .collect::<Vec<_>>()
    };
    assert_eq!(shape(&r1), shape(&r2));
    assert_eq!(r1.pantry_items, r2.pantry_items);
}

#[test]
fn aisle_common_names_and_categories_are_applied() {
    let aisle = "[produce]\napples|apple\n";
    let mut list = empty_ingredient_list();
    add_recipe_ingredients(&mut list, "Slice one @apple{1}.").expect("recipe");
    let entries: Vec<RecipeRequest> = Vec::new();
    let r = aggregate(&entries, list, aisle, None);
    assert_eq!(r.categories.len(), 1);
    assert_eq!(r.categories[0].name, "produce");
    assert_eq!(r.categories[0].items.len(), 1);
    assert_eq!(r.categories[0].items[0].name, "apples");
}

#[test]
fn uncategorized_ingredients_land_in_other() {
    let mut list = empty_ingredient_list();
    add_recipe_ingredients(&mut list, "Add @nutmeg{1%pinch}.").expect("recipe");
    let entries: Vec<RecipeRequest> = Vec::new();
    let r = aggregate(&entries, list, "", None);
    assert_eq!(r.categories.len(), 1);
    assert_eq!(r.categories[0].name, "other");
    assert_eq!(r.categories[0].items[0].name, "nutmeg");
}

#[test]
fn pantry_availability_rules() {
    let pantry = "[pantry]\nflour = { quantity = \"0\" }\nsugar = { quantity = \"unlim\" }\nrice = { quantity = \"5%kg\" }\nsalt = { bought = \"01.01.2024\" }\nvinegar = { quantity = \"0%l\" }\n";
    assert!(!pantry_available(pantry, "flour"));
    assert!(pantry_available(pantry, "sugar"));
    assert!(pantry_available(pantry, "rice"));
    assert!(pantry_available(pantry, "salt"));
    assert!(!pantry_available(pantry, "vinegar"));
    assert!(!pantry_available(pantry, "absent"));
}

#[test]
fn aggregate_reports_available_pantry_items() {
    let pantry = "[pantry]\nflour = { quantity = \"0\" }\nsalt = { quantity = \"unlimited\" }\n";
    let mut list = empty_ingredient_list();
    add_recipe_ingredients(&mut list, "Mix @flour{200%g} and @salt{1%tsp}.").expect("recipe");
    let entries: Vec<RecipeRequest> = Vec::new();
    let pantry_text = pantry.to_string();
    let r = aggregate(&entries, list, "", Some(&pantry_text));
    assert_eq!(r.pantry_items, vec!["salt".to_string()]);
}

#[test]
fn pantry_stock_is_subtracted_from_demand() {
    let pantry = "[pantry]\nflour = { quantity = \"500%g\" }\n";
    let mut list = empty_ingredient_list();
    add_recipe_ingredients(&mut list, "Mix @flour{200%g} and @salt{1%tsp}.").expect("recipe");
    let entries: Vec<RecipeRequest> = Vec::new();
    let pantry_text = pantry.to_string();
    let r = aggregate(&entries, list, "", Some(&pantry_text));
    assert_eq!(r.pantry_items, vec!["flour".to_string()]);
    for cat in r.categories.iter() {
        for it in cat.items.iter() {
            assert_ne!(it.name, "flour");
        }
    }
    assert!(r.categories.iter().any(|c| c.items.iter().any(|i| i.name == "salt")));
}

#[test]
fn no_pantry_means_no_pantry_items() {
    let mut list = empty_ingredient_list();
    add_recipe_ingredients(&mut list, "Add @salt{1%tsp}.").expect("recipe");
    let entries: Vec<RecipeRequest> = Vec::new();
    let r = aggregate(&entries, list, "", None);
    assert!(r.pantry_items.is_empty());
}

#[test]
fn invalid_recipe_text_is_a_client_error() {
    let mut list = empty_ingredient_list();
    let r = add_recipe_ingredients(&mut list, "Add @flour{1/0%g}.");
    assert!(matches!(r, Err(ClientInputError::InvalidRecipe(_))));
    let entries: Vec<RecipeRequest> = Vec::new();
    let out = aggregate(&entries, list, "", None);
    assert!(out.categories.is_empty());
}
