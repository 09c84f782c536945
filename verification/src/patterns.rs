//! The structural patterns by which links and recipe fields are found.

use vstd::prelude::*;
use crate::markup::{selector_is_valid, selector_parses};
use crate::url_shape::{regex_compiles, regex_is_valid};

verus! {

/// The set of patterns that extraction works with: four selectors and the
/// shape of a recipe URL. A value of this type holds patterns that parse.
pub struct Patterns {
    link: String,
    recipe_url: String,
    name: String,
    ingredients: String,
    instructions: String,
}

/// Anchors of the HelloFresh site whose target begins with its recipe path.
pub const HELLOFRESH_LINK: &'static str =
    "a[href^=https\\:\\/\\/www\\.hellofresh\\.com\\/recipes\\/]";

/// The shape of a HelloFresh recipe URL: the recipe path, a slug, a hyphen
/// and an identifier of 24 lower-case hexadecimal digits, with which the URL
/// ends.
pub const HELLOFRESH_RECIPE_URL: &'static str =
    "https://www\\.hellofresh\\.com/recipes/.*-[a-f0-9]{24}$";

/// The heading that holds the name of a HelloFresh recipe.
pub const HELLOFRESH_NAME: &'static str = "h1[data-test-id=recipeDetailFragment\\.recipe-name]";

/// The two paragraphs of each entry of the ingredients block of a HelloFresh
/// recipe: the quantity and the name.
pub const HELLOFRESH_INGREDIENTS: &'static str =
    "div[data-test-id=recipeDetailFragment\\.ingredients] p:nth-child(1):nth-last-child(2), \
     div[data-test-id=recipeDetailFragment\\.ingredients] p:nth-child(2):nth-last-child(1)";

/// The paragraphs of the instruction steps of a HelloFresh recipe.
pub const HELLOFRESH_INSTRUCTIONS: &'static str =
    "div[data-test-id^=recipeDetailFragment\\.instructions\\.step] p";

/// Whether all five patterns are accepted by the crates that read them.
pub open spec fn patterns_parse(
    link: Seq<char>,
    recipe_url: Seq<char>,
    name: Seq<char>,
    ingredients: Seq<char>,
    instructions: Seq<char>,
) -> bool {
    &&& selector_parses(link)
    &&& regex_compiles(recipe_url)
    &&& selector_parses(name)
    &&& selector_parses(ingredients)
    &&& selector_parses(instructions)
}

impl Patterns {
    /// Selector for the anchors that may lead to a recipe.
    pub closed spec fn link(&self) -> Seq<char> {
        self.link@
    }

    /// Regular expression that a recipe URL matches.
    pub closed spec fn recipe_url(&self) -> Seq<char> {
        self.recipe_url@
    }

    /// Selector for the heading that holds the recipe's name.
    pub closed spec fn name(&self) -> Seq<char> {
        self.name@
    }

    /// Selector for the text of the ingredients block.
    pub closed spec fn ingredients(&self) -> Seq<char> {
        self.ingredients@
    }

    /// Selector for the text of the instruction steps.
    pub closed spec fn instructions(&self) -> Seq<char> {
        self.instructions@
    }

    #[verifier::type_invariant]
    spec fn parses(&self) -> bool {
        patterns_parse(
            self.link@,
            self.recipe_url@,
            self.name@,
            self.ingredients@,
            self.instructions@,
        )
    }

    /// Builds the pattern set from its five texts, if all of them parse.
    pub fn new(
        link: &str,
        recipe_url: &str,
        name: &str,
        ingredients: &str,
        instructions: &str,
    ) -> (patterns: Option<Patterns>)
        ensures
            patterns is Some <==> patterns_parse(
                link@,
                recipe_url@,
                name@,
                ingredients@,
                instructions@,
            ),
            patterns is Some ==> {
                &&& patterns.unwrap().link() == link@
                &&& patterns.unwrap().recipe_url() == recipe_url@
                &&& patterns.unwrap().name() == name@
                &&& patterns.unwrap().ingredients() == ingredients@
                &&& patterns.unwrap().instructions() == instructions@
            },
    {
        if selector_is_valid(link) && regex_is_valid(recipe_url) && selector_is_valid(name)
            && selector_is_valid(ingredients) && selector_is_valid(instructions) {
            Some(
                Patterns {
                    link: link.to_owned(),
                    recipe_url: recipe_url.to_owned(),
                    name: name.to_owned(),
                    ingredients: ingredients.to_owned(),
                    instructions: instructions.to_owned(),
                },
            )
        } else {
            None
        }
    }

    /// The patterns of the HelloFresh site, if they parse.
    pub fn hellofresh() -> (patterns: Option<Patterns>)
        ensures
            patterns is Some <==> patterns_parse(
                HELLOFRESH_LINK@,
                HELLOFRESH_RECIPE_URL@,
                HELLOFRESH_NAME@,
                HELLOFRESH_INGREDIENTS@,
                HELLOFRESH_INSTRUCTIONS@,
            ),
            patterns is Some ==> {
                &&& patterns.unwrap().link() == HELLOFRESH_LINK@
                &&& patterns.unwrap().recipe_url() == HELLOFRESH_RECIPE_URL@
                &&& patterns.unwrap().name() == HELLOFRESH_NAME@
                &&& patterns.unwrap().ingredients() == HELLOFRESH_INGREDIENTS@
                &&& patterns.unwrap().instructions() == HELLOFRESH_INSTRUCTIONS@
            },
    {
        Patterns::new(
            HELLOFRESH_LINK,
            HELLOFRESH_RECIPE_URL,
            HELLOFRESH_NAME,
            HELLOFRESH_INGREDIENTS,
            HELLOFRESH_INSTRUCTIONS,
        )
    }

    /// The selector for candidate links.
    pub fn link_selector(&self) -> (s: &str)
        ensures
            s@ == self.link(),
            selector_parses(s@),
    {
        proof {
            use_type_invariant(self);
        }
        self.link.as_str()
    }

    /// The regular expression for recipe URLs.
    pub fn recipe_url_pattern(&self) -> (s: &str)
        ensures
            s@ == self.recipe_url(),
            regex_compiles(s@),
    {
        proof {
            use_type_invariant(self);
        }
        self.recipe_url.as_str()
    }

    /// The selector for the name heading.
    pub fn name_selector(&self) -> (s: &str)
        ensures
            s@ == self.name(),
            selector_parses(s@),
    {
        proof {
            use_type_invariant(self);
        }
        self.name.as_str()
    }

    /// The selector for the ingredients text.
    pub fn ingredients_selector(&self) -> (s: &str)
        ensures
            s@ == self.ingredients(),
            selector_parses(s@),
    {
        proof {
            use_type_invariant(self);
        }
        self.ingredients.as_str()
    }

    /// The selector for the instruction steps.
    pub fn instructions_selector(&self) -> (s: &str)
        ensures
            s@ == self.instructions(),
            selector_parses(s@),
    {
        proof {
            use_type_invariant(self);
        }
        self.instructions.as_str()
    }
}

} // verus!
