use recipe_book::book::aggregate;
use recipe_book::parse_main::parse_main;
use recipe_book::parse_recipe::{parse_recipe, ExtractionError};
use recipe_book::patterns::{
    Patterns, HELLOFRESH_INGREDIENTS, HELLOFRESH_INSTRUCTIONS, HELLOFRESH_NAME,
};
use recipe_book::pipeline::run;
use recipe_book::types::{Ingredient, Recipe};
use recipe_book::url_set::UrlSet;

const FIRST: &str = "https://example.com/recipes/foo-bar-aaaaaaaaaaaaaaaaaaaaaaaa";
const SECOND: &str = "https://example.com/recipes/foo-bar-bbbbbbbbbbbbbbbbbbbbbbbb";
const OTHER: &str = "https://example.com/recipes/category";

fn fetch(url: &str) -> Result<String, String> {
    if url == "https://example.com/recipes" {
        Ok(format!(
            "<a href=\"{}\">one</a><a href=\"{}\">all</a><a href=\"{}\">two</a>",
            FIRST, OTHER, SECOND
        ))
    } else if url == FIRST {
        Ok("<h1 data-test-id=\"recipeDetailFragment.recipe-name\">Tacos</h1>\
<div data-test-id=\"recipeDetailFragment.ingredients\">\
<div><p>2</p><p>Tortillas</p></div><div><p>1</p><p>Lime</p></div></div>"
            .to_string())
    } else if url == SECOND {
        Ok("<h2>no name heading</h2>".to_string())
    } else {
        Err(format!("cannot fetch {}", url))
    }
}

#[test]
fn crawl_of_one_index_page() {
    let patterns = Patterns::new(
        "a[href^=\"https://example.com/recipes/\"]",
        "https://example\\.com/recipes/.*-[a-f0-9]{24}$",
        HELLOFRESH_NAME,
        HELLOFRESH_INGREDIENTS,
        HELLOFRESH_INSTRUCTIONS,
    )
    .unwrap();

    let index_pages =
        vec!["https://example.com/recipes".to_string(), "https://example.com/gone".to_string()];
    let bodies = run(&index_pages, |url: &String| fetch(url), 30);
    assert_eq!(bodies.len(), 1);
    let mut urls = UrlSet::new();
    for body in &bodies {
        urls.extend(parse_main(&patterns, body).into_vec());
    }
    assert_eq!(urls.len(), 2);
    let urls = urls.into_vec();
    assert_eq!(urls, vec![FIRST.to_string(), SECOND.to_string()]);

    let pages = run(
        &urls,
        |url: &String| fetch(url).map(|body| parse_recipe(&patterns, &body, url)),
        50,
    );
    assert_eq!(pages.len(), 2);
    assert_eq!(
        pages[1],
        Err(ExtractionError {
            source_url: SECOND.to_string(),
            reason: "name not found".to_string()
        })
    );
    let recipes: Vec<Recipe> = pages.into_iter().flatten().collect();
    let tacos = Recipe {
        name: "Tacos".to_string(),
        url: FIRST.to_string(),
        ingredients: vec![
            Ingredient { quantity: "2".to_string(), name: "Tortillas".to_string() },
            Ingredient { quantity: "1".to_string(), name: "Lime".to_string() },
        ],
        instructions: vec![],
    };
    assert_eq!(recipes, vec![tacos.clone()]);

    let book = aggregate(recipes);
    assert_eq!(book.len(), 1);
    assert_eq!(book.keys(), vec!["Tacos".to_string()]);
    assert_eq!(book.get("Tacos"), Some(&tacos));
}
