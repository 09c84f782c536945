//! The records that extraction produces: ingredients, instructions, recipes.

use vstd::prelude::*;

verus! {

/// One ingredient of a recipe: what it is and how much of it.
#[derive(Debug, PartialEq, Eq)]
pub struct Ingredient {
    pub name: String,
    pub quantity: String,
}

/// One step of a recipe.
#[derive(Debug, PartialEq, Eq)]
pub struct Instruction {
    pub instruction: String,
}

/// A whole recipe: its name, the page it came from, and its ingredients and
/// steps in the order of the page.
#[derive(Debug, PartialEq, Eq)]
pub struct Recipe {
    pub name: String,
    pub url: String,
    pub ingredients: Vec<Ingredient>,
    pub instructions: Vec<Instruction>,
}

/// Mathematical value of an [`Ingredient`].
pub ghost struct IngredientView {
    pub name: Seq<char>,
    pub quantity: Seq<char>,
}

/// Mathematical value of an [`Instruction`].
pub ghost struct InstructionView {
    pub instruction: Seq<char>,
}

/// Mathematical value of a [`Recipe`].
pub ghost struct RecipeView {
    pub name: Seq<char>,
    pub url: Seq<char>,
    pub ingredients: Seq<IngredientView>,
    pub instructions: Seq<InstructionView>,
}

impl View for Ingredient {
    type V = IngredientView;

    open spec fn view(&self) -> IngredientView {
        IngredientView { name: self.name@, quantity: self.quantity@ }
    }
}

impl View for Instruction {
    type V = InstructionView;

    open spec fn view(&self) -> InstructionView {
        InstructionView { instruction: self.instruction@ }
    }
}

impl View for Recipe {
    type V = RecipeView;

    open spec fn view(&self) -> RecipeView {
        RecipeView {
            name: self.name@,
            url: self.url@,
            ingredients: ingredient_views(self.ingredients@),
            instructions: instruction_views(self.instructions@),
        }
    }
}

/// The values of a sequence of ingredients, in order.
pub open spec fn ingredient_views(items: Seq<Ingredient>) -> Seq<IngredientView> {
    items.map_values(|i: Ingredient| i@)
}

/// The values of a sequence of instructions, in order.
pub open spec fn instruction_views(items: Seq<Instruction>) -> Seq<InstructionView> {
    items.map_values(|i: Instruction| i@)
}

/// The values of a sequence of recipes, in order.
pub open spec fn recipe_views(items: Seq<Recipe>) -> Seq<RecipeView> {
    items.map_values(|r: Recipe| r@)
}

impl Clone for Ingredient {
    fn clone(&self) -> (r: Self)
        ensures
            r@ == self@,
    {
        Ingredient { name: self.name.clone(), quantity: self.quantity.clone() }
    }
}

impl Clone for Instruction {
    fn clone(&self) -> (r: Self)
        ensures
            r@ == self@,
    {
        Instruction { instruction: self.instruction.clone() }
    }
}

impl Clone for Recipe {
    fn clone(&self) -> (r: Self)
        ensures
            r@ == self@,
    {
        Recipe {
            name: self.name.clone(),
            url: self.url.clone(),
            ingredients: clone_ingredients(&self.ingredients),
            instructions: clone_instructions(&self.instructions),
        }
    }
}

/// Copies a list of ingredients, item by item.
pub fn clone_ingredients(items: &Vec<Ingredient>) -> (copy: Vec<Ingredient>)
    ensures
        ingredient_views(copy@) == ingredient_views(items@),
{
    let mut copy: Vec<Ingredient> = Vec::new();
    let mut i: usize = 0;
    while i < items.len()
        invariant
            i <= items.len(),
            copy@.len() == i,
            forall|k: int| 0 <= k < i ==> (#[trigger] copy@[k])@ == items@[k]@,
        decreases items.len() - i,
    {
        copy.push(items[i].clone());
        i += 1;
    }
    assert(ingredient_views(copy@) =~= ingredient_views(items@));
    copy
}

/// Copies a list of instructions, item by item.
pub fn clone_instructions(items: &Vec<Instruction>) -> (copy: Vec<Instruction>)
    ensures
        instruction_views(copy@) == instruction_views(items@),
{
    let mut copy: Vec<Instruction> = Vec::new();
    let mut i: usize = 0;
    while i < items.len()
        invariant
            i <= items.len(),
            copy@.len() == i,
            forall|k: int| 0 <= k < i ==> (#[trigger] copy@[k])@ == items@[k]@,
        decreases items.len() - i,
    {
        copy.push(items[i].clone());
        i += 1;
    }
    assert(instruction_views(copy@) =~= instruction_views(items@));
    copy
}

} // verus!
