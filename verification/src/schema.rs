//! The read-only queries over a recipe book: one recipe by key, a page of
//! recipes, and the list of keys.

use vstd::prelude::*;
use crate::book::{keys_of, RecipeBook};
use crate::types::{Recipe, RecipeView, recipe_views};
use crate::text::texts;

verus! {

/// What the queries work on: the book that was loaded.
pub struct Context<'a> {
    pub database: &'a RecipeBook,
}

impl<'a> Context<'a> {
    /// A context over `database`.
    pub fn new(database: &'a RecipeBook) -> (context: Self)
        ensures
            context.database == database,
    {
        Context { database }
    }
}

/// Why a query was refused.
#[derive(Debug, Clone, Copy, PartialEq, Eq, Structural)]
pub enum QueryError {
    /// No recipe is filed under the key.
    NotFound,
    /// `start` or `count` is negative.
    NegativeArgument,
    /// `start` lies beyond the last recipe.
    StartOutOfRange,
}

impl QueryError {
    /// The message that goes to the caller.
    pub fn message(&self) -> (text: &'static str)
        ensures
            text@ == match *self {
                QueryError::NotFound => "Could not find recipe with key"@,
                QueryError::NegativeArgument => "Must provide positive start and count"@,
                QueryError::StartOutOfRange => "Tried to start off the end of the set of recipes"@,
            },
    {
        match self {
            QueryError::NotFound => "Could not find recipe with key",
            QueryError::NegativeArgument => "Must provide positive start and count",
            QueryError::StartOutOfRange => "Tried to start off the end of the set of recipes",
        }
    }
}

/// The page of `count` entries that begins after the first `start` entries,
/// cut off at the end of the book; or why there is no such page.
pub open spec fn page(entries: Seq<RecipeView>, start: int, count: int) -> Result<
    Seq<RecipeView>,
    QueryError,
> {
    if start < 0 || count < 0 {
        Err(QueryError::NegativeArgument)
    } else if start > entries.len() {
        Err(QueryError::StartOutOfRange)
    } else if start + count > entries.len() {
        Ok(entries.subrange(start, entries.len() as int))
    } else {
        Ok(entries.subrange(start, start + count))
    }
}

/// The mathematical value of the outcome of a page query.
pub open spec fn page_view(outcome: Result<Vec<Recipe>, QueryError>) -> Result<
    Seq<RecipeView>,
    QueryError,
> {
    match outcome {
        Ok(recipes) => Ok(recipe_views(recipes@)),
        Err(error) => Err(error),
    }
}

/// The root of the queries.
pub struct Query;

impl Query {
    /// The version of the query interface.
    #[allow(non_snake_case)]
    pub fn apiVersion() -> (version: &'static str)
        ensures
            version@ == "1.0"@,
    {
        "1.0"
    }

    /// The recipe filed under `key`.
    pub fn recipe<'a>(context: &Context<'a>, key: String) -> (found: Result<&'a Recipe, QueryError>)
        requires
            context.database.wf(),
        ensures
            found is Ok <==> context.database@.contains_key(key@),
            found is Ok ==> found->Ok_0@ == context.database@[key@],
            found is Err ==> found->Err_0 == QueryError::NotFound,
    {
        match context.database.get(key.as_str()) {
            Some(recipe) => Ok(recipe),
            None => Err(QueryError::NotFound),
        }
    }

    /// A page of recipes: `count` of them after the first `start`, fewer where
    /// the book ends before.
    pub fn recipes(context: &Context, start: i32, count: i32) -> (found: Result<
        Vec<Recipe>,
        QueryError,
    >)
        ensures
            page_view(found) == page(context.database.entries(), start as int, count as int),
    {
        if start < 0 || count < 0 {
            return Err(QueryError::NegativeArgument);
        }
        let len = context.database.len();
        let first = start as usize;
        if first > len {
            return Err(QueryError::StartOutOfRange);
        }
        let end = if count as usize > len - first {
            len
        } else {
            first + count as usize
        };
        Ok(context.database.slice(first, end))
    }

    /// The keys of all recipes, in the order of the book.
    pub fn recipe_names(context: &Context) -> (names: Result<Vec<String>, QueryError>)
        requires
            context.database.wf(),
        ensures
            names is Ok,
            texts(names->Ok_0@) == keys_of(context.database.entries()),
    {
        Ok(context.database.keys())
    }
}

} // verus!
