//! Recipe extraction: the name, the ingredients and the steps of one page.

use vstd::prelude::*;
use crate::markup::{page_fits, select_text, selected_text};
use crate::patterns::Patterns;
use crate::types::{
    Ingredient,
    IngredientView,
    Instruction,
    InstructionView,
    Recipe,
    RecipeView,
    ingredient_views,
    instruction_views,
};
use crate::text::texts;

verus! {

/// Why a page gave no recipe, and which page it was.
#[derive(Debug, PartialEq, Eq)]
pub struct ExtractionError {
    pub source_url: String,
    pub reason: String,
}

/// Mathematical value of an [`ExtractionError`].
pub ghost struct ExtractionErrorView {
    pub source_url: Seq<char>,
    pub reason: Seq<char>,
}

impl View for ExtractionError {
    type V = ExtractionErrorView;

    open spec fn view(&self) -> ExtractionErrorView {
        ExtractionErrorView { source_url: self.source_url@, reason: self.reason@ }
    }
}

/// The one reason for which extraction fails.
pub open spec fn name_not_found() -> Seq<char> {
    "name not found"@
}

/// The text fragments of all matched elements, one after the other.
pub open spec fn fragments(found: Seq<Seq<Seq<char>>>) -> Seq<Seq<char>> {
    found.flatten()
}

/// The text content of one element: its text nodes, joined in order.
pub open spec fn text_content(parts: Seq<Seq<char>>) -> Seq<char> {
    parts.flatten()
}

/// The text content of the first matched element, if anything matched.
pub open spec fn heading(found: Seq<Seq<Seq<char>>>) -> Option<Seq<char>> {
    if found.len() == 0 {
        None
    } else {
        Some(text_content(found[0]))
    }
}

/// The ingredients that a sequence of text fragments stands for: each two
/// adjacent fragments are a quantity and a name; a last fragment without a
/// partner is dropped.
pub open spec fn paired(fragments: Seq<Seq<char>>) -> Seq<IngredientView> {
    Seq::new(
        (fragments.len() / 2) as nat,
        |i: int| IngredientView { quantity: fragments[2 * i], name: fragments[2 * i + 1] },
    )
}

/// The steps that a selection stands for: one for each matched element, in
/// order, with the text content of the element as its text.
pub open spec fn steps(found: Seq<Seq<Seq<char>>>) -> Seq<InstructionView> {
    found.map_values(|parts: Seq<Seq<char>>| InstructionView { instruction: text_content(parts) })
}

/// What extraction makes of the three selections of one page.
pub open spec fn extracted(
    url: Seq<char>,
    name: Seq<Seq<Seq<char>>>,
    ingredients: Seq<Seq<Seq<char>>>,
    instructions: Seq<Seq<Seq<char>>>,
) -> Result<RecipeView, ExtractionErrorView> {
    match heading(name) {
        Some(text) => Ok(
            RecipeView {
                name: text,
                url: url,
                ingredients: paired(fragments(ingredients)),
                instructions: steps(instructions),
            },
        ),
        None => Err(ExtractionErrorView { source_url: url, reason: name_not_found() }),
    }
}

/// An odd fragment at the end is dropped: a block of `2 * n + 1` fragments
/// gives the `n` ingredients of its first `2 * n` fragments, each with the
/// quantity first and the name second.
pub proof fn lemma_odd_fragment_dropped(fragments: Seq<Seq<char>>)
    requires
        fragments.len() % 2 == 1,
    ensures
        paired(fragments) == paired(fragments.drop_last()),
        paired(fragments).len() == (fragments.len() - 1) / 2,
        forall|i: int|
            0 <= i < paired(fragments).len() ==> (#[trigger] paired(fragments)[i]).quantity
                == fragments[2 * i] && paired(fragments)[i].name == fragments[2 * i + 1],
{
    assert(paired(fragments) =~= paired(fragments.drop_last()));
}

/// One step for each matched element: there are as many steps as elements
/// matched, and each step is the text content of its element, however many
/// text nodes the element holds.
pub proof fn lemma_one_step_per_element(found: Seq<Seq<Seq<char>>>)
    ensures
        steps(found).len() == found.len(),
        forall|i: int|
            0 <= i < found.len() ==> (#[trigger] steps(found)[i]).instruction == text_content(
                found[i],
            ),
{
}

/// A page with a name heading and nothing else gives a recipe without
/// ingredients and without steps; a page without a name heading gives the
/// error, whatever else it holds.
pub proof fn lemma_name_alone_decides(
    url: Seq<char>,
    name: Seq<Seq<Seq<char>>>,
    ingredients: Seq<Seq<Seq<char>>>,
    instructions: Seq<Seq<Seq<char>>>,
)
    ensures
        extracted(url, name, ingredients, instructions) is Err <==> name.len() == 0,
        name.len() > 0 && ingredients.len() == 0 && instructions.len() == 0 ==> {
            &&& extracted(url, name, ingredients, instructions) is Ok
            &&& extracted(url, name, ingredients, instructions)->Ok_0.ingredients.len() == 0
            &&& extracted(url, name, ingredients, instructions)->Ok_0.instructions.len() == 0
        },
{
}

/// Copies out the text fragments of all matched elements, one after the
/// other.
pub fn flatten_text(found: &Vec<Vec<String>>) -> (all: Vec<String>)
    ensures
        texts(all@) == fragments(found.deep_view()),
{
    let ghost deep = found.deep_view();
    let mut all: Vec<String> = Vec::new();
    let mut i: usize = 0;
    assert(deep.take(0) =~= Seq::<Seq<Seq<char>>>::empty());
    while i < found.len()
        invariant
            i <= found.len(),
            deep == found.deep_view(),
            texts(all@) == deep.take(i as int).flatten(),
        decreases found.len() - i,
    {
        let inner = &found[i];
        let ghost start = texts(all@);
        let mut j: usize = 0;
        while j < inner.len()
            invariant
                j <= inner.len(),
                texts(all@) == start + inner.deep_view().take(j as int),
            decreases inner.len() - j,
        {
            let ghost before = all@;
            all.push(inner[j].clone());
            proof {
                let parts = inner.deep_view();
                assert(parts[j as int] == inner@[j as int]@);
                assert(texts(all@) =~= texts(before).push(parts[j as int]));
                assert(parts.take(j as int + 1) =~= parts.take(j as int).push(parts[j as int]));
                assert(texts(all@) =~= start + parts.take(j as int + 1));
            }
            j += 1;
        }
        proof {
            assert(inner.deep_view().take(j as int) =~= inner.deep_view());
            assert(deep[i as int] == inner.deep_view());
            assert(deep.take(i as int + 1) =~= deep.take(i as int).push(deep[i as int]));
            deep.take(i as int).lemma_flatten_push(deep[i as int]);
        }
        i += 1;
    }
    proof {
        assert(deep.take(i as int) =~= deep);
    }
    all
}

/// Joins the text nodes of one element into its text content.
pub fn join_text(parts: &Vec<String>) -> (text: String)
    ensures
        text@ == text_content(parts.deep_view()),
{
    let ghost deep = parts.deep_view();
    let mut text = String::new();
    let mut i: usize = 0;
    assert(deep.take(0) =~= Seq::<Seq<char>>::empty());
    while i < parts.len()
        invariant
            i <= parts.len(),
            deep == parts.deep_view(),
            text@ == deep.take(i as int).flatten(),
        decreases parts.len() - i,
    {
        proof {
            assert(deep.take(i as int + 1) =~= deep.take(i as int).push(deep[i as int]));
            deep.take(i as int).lemma_flatten_push(deep[i as int]);
        }
        text.append(parts[i].as_str());
        i += 1;
    }
    proof {
        assert(deep.take(i as int) =~= deep);
    }
    text
}

/// The text content of the first matched element, if anything matched.
pub fn heading_text(found: &Vec<Vec<String>>) -> (name: Option<String>)
    ensures
        name.deep_view() == heading(found.deep_view()),
{
    if found.len() == 0 {
        None
    } else {
        assert(found.deep_view()[0] == found@[0].deep_view());
        Some(join_text(&found[0]))
    }
}

/// Groups text fragments into ingredients, two by two: the first of each two
/// is the quantity, the second the name. A last fragment without a partner is
/// dropped.
pub fn pair_ingredients(fragments: &Vec<String>) -> (ingredients: Vec<Ingredient>)
    ensures
        ingredient_views(ingredients@) == paired(texts(fragments@)),
{
    let mut ingredients: Vec<Ingredient> = Vec::new();
    let pairs = fragments.len() / 2;
    let mut i: usize = 0;
    while i < pairs
        invariant
            pairs == fragments.len() / 2,
            i <= pairs,
            ingredients@.len() == i,
            forall|k: int|
                0 <= k < i ==> (#[trigger] ingredients@[k])@ == (IngredientView {
                    quantity: fragments@[2 * k]@,
                    name: fragments@[2 * k + 1]@,
                }),
        decreases pairs - i,
    {
        ingredients.push(
            Ingredient { quantity: fragments[2 * i].clone(), name: fragments[2 * i + 1].clone() },
        );
        i += 1;
    }
    assert(ingredient_views(ingredients@) =~= paired(texts(fragments@)));
    ingredients
}

/// Turns a selection into steps: one for each matched element, in order, with
/// the text content of the element as its text.
pub fn to_instructions(found: &Vec<Vec<String>>) -> (instructions: Vec<Instruction>)
    ensures
        instruction_views(instructions@) == steps(found.deep_view()),
{
    let mut instructions: Vec<Instruction> = Vec::new();
    let mut i: usize = 0;
    while i < found.len()
        invariant
            i <= found.len(),
            instructions@.len() == i,
            forall|k: int|
                0 <= k < i ==> (#[trigger] instructions@[k])@ == (InstructionView {
                    instruction: text_content(found@[k].deep_view()),
                }),
        decreases found.len() - i,
    {
        instructions.push(Instruction { instruction: join_text(&found[i]) });
        i += 1;
    }
    assert(instruction_views(instructions@) =~= steps(found.deep_view()));
    instructions
}

/// The steps of the page `content`: one for each element that the
/// instructions selector matches, with the text content of the element as
/// its text. A page without such elements has no steps.
pub fn parse_instructions(patterns: &Patterns, content: &str) -> (instructions: Vec<Instruction>)
    requires
        page_fits(content@),
    ensures
        instruction_views(instructions@) == steps(
            selected_text(content@, patterns.instructions()),
        ),
{
    let found = select_text(content, patterns.instructions_selector());
    to_instructions(&found)
}

/// The ingredients of the page `content`: the text fragments of the elements
/// that the ingredients selector matches, two by two.
pub fn parse_ingredients(patterns: &Patterns, content: &str) -> (ingredients: Vec<Ingredient>)
    requires
        page_fits(content@),
    ensures
        ingredient_views(ingredients@) == paired(
            fragments(selected_text(content@, patterns.ingredients())),
        ),
{
    let found = select_text(content, patterns.ingredients_selector());
    let all = flatten_text(&found);
    pair_ingredients(&all)
}

/// The name of the recipe on the page `content`: the text content of the
/// first element that the name selector matches, `None` if nothing matches.
pub fn parse_name(patterns: &Patterns, content: &str) -> (name: Option<String>)
    requires
        page_fits(content@),
    ensures
        name.deep_view() == heading(selected_text(content@, patterns.name())),
{
    let found = select_text(content, patterns.name_selector());
    heading_text(&found)
}

/// Extracts the recipe of the page `content`, which was fetched from `url`.
/// The page must have a name heading; ingredients and steps may be missing.
/// The page has to be short enough for the parser.
pub fn parse_recipe(patterns: &Patterns, content: &str, url: &str) -> (recipe: Result<
    Recipe,
    ExtractionError,
>)
    requires
        page_fits(content@),
    ensures
        result_view(recipe) == extracted(
            url@,
            selected_text(content@, patterns.name()),
            selected_text(content@, patterns.ingredients()),
            selected_text(content@, patterns.instructions()),
        ),
{
    match parse_name(patterns, content) {
        Some(name) => Ok(
            Recipe {
                name,
                url: url.to_owned(),
                ingredients: parse_ingredients(patterns, content),
                instructions: parse_instructions(patterns, content),
            },
        ),
        None => Err(
            ExtractionError { source_url: url.to_owned(), reason: "name not found".to_owned() },
        ),
    }
}

/// The mathematical value of the outcome of an extraction.
pub open spec fn result_view(outcome: Result<Recipe, ExtractionError>) -> Result<
    RecipeView,
    ExtractionErrorView,
> {
    match outcome {
        Ok(recipe) => Ok(recipe@),
        Err(error) => Err(error@),
    }
}

} // verus!
