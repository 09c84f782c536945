use recipe_book::parse_recipe::{
    flatten_text, heading_text, join_text, pair_ingredients, parse_ingredients,
    parse_instructions, parse_name, parse_recipe, to_instructions, ExtractionError,
};
use recipe_book::markup::{fits_a_page, MAX_PAGE_CHARS};
use recipe_book::patterns::Patterns;
use recipe_book::types::{clone_ingredients, clone_instructions, Ingredient, Instruction, Recipe};

fn ingredient(quantity: &str, name: &str) -> Ingredient {
    Ingredient { name: name.to_string(), quantity: quantity.to_string() }
}

fn step(text: &str) -> Instruction {
    Instruction { instruction: text.to_string() }
}

fn strings(items: &[&str]) -> Vec<String> {
    items.iter().map(|s| s.to_string()).collect()
}

const TACOS: &str = "<html><body>\
<h1 data-test-id=\"recipeDetailFragment.recipe-name\">Tacos</h1>\
<div data-test-id=\"recipeDetailFragment.ingredients\">\
<div><p>2</p><p>Tortillas</p></div>\
<div><p>1</p><p>Lime</p></div>\
</div>\
<div data-test-id=\"recipeDetailFragment.instructions.step-1\"><p>Warm the tortillas.</p></div>\
<div data-test-id=\"recipeDetailFragment.instructions.step-2\"><p>Squeeze the lime.</p></div>\
</body></html>";

const URL: &str = "https://example.com/recipes/tacos-aaaaaaaaaaaaaaaaaaaaaaaa";

#[test]
fn tacos_page_gives_the_tacos_recipe() {
    let patterns = Patterns::hellofresh().unwrap();
    let recipe = parse_recipe(&patterns, TACOS, URL).unwrap();
    assert_eq!(
        recipe,
        Recipe {
            name: "Tacos".to_string(),
            url: URL.to_string(),
            ingredients: vec![ingredient("2", "Tortillas"), ingredient("1", "Lime")],
            instructions: vec![step("Warm the tortillas."), step("Squeeze the lime.")],
        }
    );
}

#[test]
fn name_alone_gives_an_empty_recipe() {
    let patterns = Patterns::hellofresh().unwrap();
    let page = "<h1 data-test-id=\"recipeDetailFragment.recipe-name\">Plain Rice</h1><p>text</p>";
    let recipe = parse_recipe(&patterns, page, "u").unwrap();
    assert_eq!(recipe.name, "Plain Rice");
    assert_eq!(recipe.url, "u");
    assert!(recipe.ingredients.is_empty());
    assert!(recipe.instructions.is_empty());
}

#[test]
fn missing_name_is_the_extraction_error() {
    let patterns = Patterns::hellofresh().unwrap();
    let page = "<html><body>\
<h1>Tacos</h1>\
<div data-test-id=\"recipeDetailFragment.ingredients\"><div><p>2</p><p>Tortillas</p></div></div>\
</body></html>";
    assert_eq!(
        parse_recipe(&patterns, page, URL),
        Err(ExtractionError { source_url: URL.to_string(), reason: "name not found".to_string() })
    );
    assert_eq!(
        parse_recipe(&patterns, "", "x"),
        Err(ExtractionError { source_url: "x".to_string(), reason: "name not found".to_string() })
    );
    assert_eq!(parse_name(&patterns, page), None);
}

#[test]
fn the_first_name_heading_counts() {
    let patterns = Patterns::new("a", "x", "h1.name", "li", "p").unwrap();
    let page = "<h1 class=name>First</h1><h1 class=name>Second</h1>";
    assert_eq!(parse_name(&patterns, page), Some("First".to_string()));
}

#[test]
fn the_name_is_the_text_content_of_the_heading() {
    let patterns = Patterns::new("a", "x", "h1.name", "li", "p").unwrap();
    let page = "<h1 class=name>Mac &amp; <em>Cheese</em></h1>";
    assert_eq!(parse_name(&patterns, page), Some("Mac & Cheese".to_string()));
    assert_eq!(parse_name(&patterns, "<h1 class=name></h1>"), Some(String::new()));
}

#[test]
fn odd_fragment_is_dropped() {
    let patterns = Patterns::new("a", "x", "h1", "li.ing", "p.step").unwrap();
    let page = "<ul><li class=ing>2</li><li class=ing>Tortillas</li><li class=ing>1</li></ul>";
    assert_eq!(parse_ingredients(&patterns, page), vec![ingredient("2", "Tortillas")]);
    let page = "<ul><li class=ing>2</li></ul>";
    assert_eq!(parse_ingredients(&patterns, page), Vec::<Ingredient>::new());
    let page = "<ul><li class=ing>a</li><li class=ing>b</li><li class=ing>c</li>\
<li class=ing>d</li><li class=ing>e</li></ul>";
    assert_eq!(
        parse_ingredients(&patterns, page),
        vec![ingredient("a", "b"), ingredient("c", "d")]
    );
}

#[test]
fn ingredient_fragments_are_text_nodes_in_document_order() {
    let patterns = Patterns::new("a", "x", "h1", "li.ing", "p.step").unwrap();
    let page = "<ul><li class=ing>1 <b>cup</b></li><li class=ing>Rice</li><li>skip</li></ul>";
    assert_eq!(parse_ingredients(&patterns, page), vec![ingredient("1 ", "cup")]);
}

#[test]
fn each_matched_element_is_one_step() {
    let patterns = Patterns::new("a", "x", "h1", "li.ing", "p.step").unwrap();
    let page = "<p class=step>Boil <i>gently</i>.</p><p>skip</p><p class=step>Serve.</p>";
    assert_eq!(parse_instructions(&patterns, page), vec![step("Boil gently."), step("Serve.")]);
    let page = "<p class=step>Mix <b>well</b></p>";
    assert_eq!(parse_instructions(&patterns, page), vec![step("Mix well")]);
    let page = "<p class=step></p><p class=step>Rest.</p>";
    assert_eq!(parse_instructions(&patterns, page), vec![step(""), step("Rest.")]);
    assert_eq!(parse_instructions(&patterns, "<p>no steps</p>"), Vec::<Instruction>::new());
}

#[test]
fn hellofresh_steps_join_their_text() {
    let patterns = Patterns::hellofresh().unwrap();
    let page = "<div data-test-id=\"recipeDetailFragment.instructions.step-1\">\
<p>Warm the <b>tortillas</b>.</p></div>\
<div data-test-id=\"recipeDetailFragment.instructions.step-2\"><p>Serve.</p></div>";
    assert_eq!(
        parse_instructions(&patterns, page),
        vec![step("Warm the tortillas."), step("Serve.")]
    );
}

#[test]
fn pairs_are_quantity_then_name() {
    assert_eq!(
        pair_ingredients(&strings(&["2", "Tortillas", "1", "Lime"])),
        vec![ingredient("2", "Tortillas"), ingredient("1", "Lime")]
    );
    assert_eq!(
        pair_ingredients(&strings(&["2", "Tortillas", "1"])),
        vec![ingredient("2", "Tortillas")]
    );
    assert_eq!(pair_ingredients(&strings(&["2"])), Vec::<Ingredient>::new());
    assert_eq!(pair_ingredients(&strings(&[])), Vec::<Ingredient>::new());
    for n in 0..9usize {
        let fragments: Vec<String> = (0..n).map(|i| i.to_string()).collect();
        assert_eq!(pair_ingredients(&fragments).len(), n / 2);
    }
}

#[test]
fn steps_keep_their_order() {
    let found =
        vec![strings(&["one"]), strings(&["t", "w", "o"]), strings(&[]), strings(&["three"])];
    assert_eq!(to_instructions(&found), vec![step("one"), step("two"), step(""), step("three")]);
    assert_eq!(to_instructions(&Vec::new()), Vec::<Instruction>::new());
}

#[test]
fn text_nodes_join_in_order() {
    assert_eq!(join_text(&strings(&["Mix ", "well", "."])), "Mix well.");
    assert_eq!(join_text(&strings(&["alone"])), "alone");
    assert_eq!(join_text(&strings(&[])), "");
}

#[test]
fn flattening_and_heading() {
    let found = vec![strings(&["a", "b"]), strings(&[]), strings(&["c"])];
    assert_eq!(flatten_text(&found), strings(&["a", "b", "c"]));
    assert_eq!(heading_text(&found), Some("ab".to_string()));
    assert_eq!(flatten_text(&Vec::new()), Vec::<String>::new());
    assert_eq!(heading_text(&Vec::new()), None);
    assert_eq!(heading_text(&vec![strings(&[]), strings(&["x"])]), Some(String::new()));
}

#[test]
fn clones_are_equal() {
    let patterns = Patterns::hellofresh().unwrap();
    let recipe = parse_recipe(&patterns, TACOS, URL).unwrap();
    let copy = recipe.clone();
    assert_eq!(copy, recipe);
    assert_eq!(clone_ingredients(&recipe.ingredients), recipe.ingredients);
    assert_eq!(clone_instructions(&recipe.instructions), recipe.instructions);
    assert_eq!(ingredient("1", "Lime").clone(), ingredient("1", "Lime"));
    assert_eq!(step("Serve.").clone(), step("Serve."));
}

#[test]
fn extraction_is_repeatable() {
    let patterns = Patterns::hellofresh().unwrap();
    let first = parse_recipe(&patterns, TACOS, URL);
    let second = parse_recipe(&patterns, TACOS, URL);
    assert_eq!(first, second);
    let other = Patterns::hellofresh().unwrap();
    assert_eq!(parse_recipe(&other, TACOS, URL), first);
}

#[test]
fn ordinary_pages_fit_the_parser() {
    assert!(fits_a_page(""));
    assert!(fits_a_page(TACOS));
    assert_eq!(MAX_PAGE_CHARS, 0x1000_0000);
}

#[test]
fn a_page_beyond_the_limit_does_not_fit() {
    let long = "a".repeat(MAX_PAGE_CHARS + 1);
    assert!(!fits_a_page(&long));
    assert!(fits_a_page(&long[1..]));
}

#[test]
fn characters_count_not_bytes() {
    // Two bytes each: more bytes than the limit, fewer characters.
    let wide = "é".repeat(MAX_PAGE_CHARS / 2 + 1);
    assert!(wide.len() > MAX_PAGE_CHARS);
    assert!(fits_a_page(&wide));
}
