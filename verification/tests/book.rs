use recipe_book::book::{aggregate, RecipeBook};
use recipe_book::schema::{Context, Query, QueryError};
use recipe_book::types::{Ingredient, Instruction, Recipe};

fn recipe(name: &str, url: &str) -> Recipe {
    Recipe {
        name: name.to_string(),
        url: url.to_string(),
        ingredients: vec![Ingredient { name: "Salt".to_string(), quantity: "1".to_string() }],
        instructions: vec![Instruction { instruction: format!("Cook {}", name) }],
    }
}

fn sample() -> RecipeBook {
    aggregate(vec![
        recipe("Tacos", "u1"),
        recipe("Mac & Cheese", "u2"),
        recipe("Plain Rice", "u3"),
        recipe("Soup", "u4"),
    ])
}

#[test]
fn same_key_keeps_the_later_recipe() {
    let book = aggregate(vec![recipe("Mac & Cheese", "first"), recipe("Mac + Cheese", "second")]);
    assert_eq!(book.len(), 1);
    assert_eq!(book.keys(), vec!["Mac___Cheese".to_string()]);
    assert_eq!(book.get("Mac___Cheese"), Some(&recipe("Mac + Cheese", "second")));
}

#[test]
fn single_recipe_is_filed_under_its_key() {
    let tacos = Recipe {
        name: "Tacos".to_string(),
        url: "https://example.com/recipes/tacos-aaaaaaaaaaaaaaaaaaaaaaaa".to_string(),
        ingredients: vec![
            Ingredient { name: "Tortillas".to_string(), quantity: "2".to_string() },
            Ingredient { name: "Lime".to_string(), quantity: "1".to_string() },
        ],
        instructions: vec![],
    };
    let book = aggregate(vec![tacos.clone()]);
    assert_eq!(book.len(), 1);
    assert_eq!(book.keys(), vec!["Tacos".to_string()]);
    assert_eq!(book.get("Tacos"), Some(&tacos));
    assert_eq!(book.get("tacos"), None);
}

#[test]
fn later_recipe_takes_the_place_of_the_earlier() {
    let book = aggregate(vec![
        recipe("A b", "1"),
        recipe("C", "2"),
        recipe("A-b", "3"),
        recipe("D", "4"),
        recipe("C", "5"),
    ]);
    assert_eq!(book.keys(), vec!["A_b".to_string(), "C".to_string(), "D".to_string()]);
    assert_eq!(book.get("A_b").unwrap().url, "3");
    assert_eq!(book.get("C").unwrap().url, "5");
    assert_eq!(book.get("D").unwrap().url, "4");
    assert_eq!(book.slice(0, 3), vec![recipe("A-b", "3"), recipe("C", "5"), recipe("D", "4")]);
}

#[test]
fn empty_book() {
    let book = RecipeBook::new();
    assert_eq!(book.len(), 0);
    assert_eq!(book.get(""), None);
    assert!(book.keys().is_empty());
    assert_eq!(RecipeBook::default().len(), 0);
    assert_eq!(aggregate(Vec::new()).len(), 0);
    assert_eq!(book.find("x"), None);
}

#[test]
fn insert_files_and_overwrites() {
    let mut book = RecipeBook::new();
    book.insert(recipe("Soup", "old"));
    book.insert(recipe("Stew", "s"));
    assert_eq!(book.find("Soup"), Some(0));
    assert_eq!(book.find("Stew"), Some(1));
    book.insert(recipe("Soup", "new"));
    assert_eq!(book.len(), 2);
    assert_eq!(book.find("Soup"), Some(0));
    assert_eq!(book.get("Soup").unwrap().url, "new");
    let (keys, recipes) = book.into_entries();
    assert_eq!(keys, vec!["Soup".to_string(), "Stew".to_string()]);
    assert_eq!(recipes, vec![recipe("Soup", "new"), recipe("Stew", "s")]);
}

#[test]
fn names_without_letters_share_the_empty_key() {
    let book = aggregate(vec![recipe("123", "a"), recipe("456", "b")]);
    assert_eq!(book.len(), 1);
    assert_eq!(book.get("").unwrap().url, "b");
}

#[test]
fn query_by_key() {
    let book = sample();
    let context = Context::new(&book);
    assert_eq!(Query::recipe(&context, "Soup".to_string()), Ok(&recipe("Soup", "u4")));
    assert_eq!(
        Query::recipe(&context, "Mac___Cheese".to_string()),
        Ok(&recipe("Mac & Cheese", "u2"))
    );
    assert_eq!(Query::recipe(&context, "Mac & Cheese".to_string()), Err(QueryError::NotFound));
    assert_eq!(Query::recipe(&context, String::new()), Err(QueryError::NotFound));
}

#[test]
fn query_pages() {
    let book = sample();
    let context = Context::new(&book);
    let all = vec![
        recipe("Tacos", "u1"),
        recipe("Mac & Cheese", "u2"),
        recipe("Plain Rice", "u3"),
        recipe("Soup", "u4"),
    ];
    assert_eq!(Query::recipes(&context, 0, 4), Ok(all.clone()));
    assert_eq!(Query::recipes(&context, 0, 100), Ok(all.clone()));
    assert_eq!(Query::recipes(&context, 0, i32::MAX), Ok(all.clone()));
    assert_eq!(Query::recipes(&context, 1, 2), Ok(all[1..3].to_vec()));
    assert_eq!(Query::recipes(&context, 3, 5), Ok(all[3..].to_vec()));
    assert_eq!(Query::recipes(&context, 2, 0), Ok(Vec::new()));
    assert_eq!(Query::recipes(&context, 4, 1), Ok(Vec::new()));
    assert_eq!(Query::recipes(&context, 4, i32::MAX), Ok(Vec::new()));
}

#[test]
fn query_pages_refused() {
    let book = sample();
    let context = Context::new(&book);
    assert_eq!(Query::recipes(&context, -1, 1), Err(QueryError::NegativeArgument));
    assert_eq!(Query::recipes(&context, 1, -1), Err(QueryError::NegativeArgument));
    assert_eq!(Query::recipes(&context, i32::MIN, i32::MIN), Err(QueryError::NegativeArgument));
    assert_eq!(Query::recipes(&context, 9, -1), Err(QueryError::NegativeArgument));
    assert_eq!(Query::recipes(&context, 5, 1), Err(QueryError::StartOutOfRange));
    assert_eq!(Query::recipes(&context, i32::MAX, 0), Err(QueryError::StartOutOfRange));
    let empty = RecipeBook::new();
    let context = Context::new(&empty);
    assert_eq!(Query::recipes(&context, 0, 3), Ok(Vec::new()));
    assert_eq!(Query::recipes(&context, 1, 3), Err(QueryError::StartOutOfRange));
}

#[test]
fn query_names_and_version() {
    let book = sample();
    let context = Context::new(&book);
    assert_eq!(
        Query::recipe_names(&context),
        Ok(vec![
            "Tacos".to_string(),
            "Mac___Cheese".to_string(),
            "Plain_Rice".to_string(),
            "Soup".to_string()
        ])
    );
    assert_eq!(Query::apiVersion(), "1.0");
}

#[test]
fn query_error_messages() {
    assert_eq!(QueryError::NotFound.message(), "Could not find recipe with key");
    assert_eq!(QueryError::NegativeArgument.message(), "Must provide positive start and count");
    assert_eq!(
        QueryError::StartOutOfRange.message(),
        "Tried to start off the end of the set of recipes"
    );
}
