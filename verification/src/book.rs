//! The recipe book: recipes filed under the keys of their names, and the
//! aggregation of extracted recipes into it.

use vstd::hash_map::StringHashMap;
use vstd::prelude::*;
use crate::types::{Recipe, RecipeView, recipe_views};
use crate::text::texts;
use crate::utils::{normalized, prep_name_for_file};

verus! {

/// The key under which a recipe is filed: its normalized name.
pub open spec fn key_of(recipe: RecipeView) -> Seq<char> {
    normalized(recipe.name)
}

/// Whether some entry is filed under `key`.
pub open spec fn has_key(entries: Seq<RecipeView>, key: Seq<char>) -> bool {
    exists|i: int| 0 <= i < entries.len() && key_of(#[trigger] entries[i]) == key
}

/// The place of an entry filed under `key`, where there is one.
pub open spec fn position(entries: Seq<RecipeView>, key: Seq<char>) -> int {
    choose|i: int| 0 <= i < entries.len() && key_of(#[trigger] entries[i]) == key
}

/// No two entries are filed under one key.
pub open spec fn distinct_keys(entries: Seq<RecipeView>) -> bool {
    forall|i: int, j: int|
        0 <= i < entries.len() && 0 <= j < entries.len() && i != j ==> key_of(
            #[trigger] entries[i],
        ) != key_of(#[trigger] entries[j])
}

/// The keys of the entries, in order.
pub open spec fn keys_of(entries: Seq<RecipeView>) -> Seq<Seq<char>> {
    entries.map_values(|r: RecipeView| key_of(r))
}

/// The entries as a mapping from key to recipe.
pub open spec fn as_map(entries: Seq<RecipeView>) -> Map<Seq<char>, RecipeView> {
    Map::new(|k: Seq<char>| has_key(entries, k), |k: Seq<char>| entries[position(entries, k)])
}

/// `entries` after filing `recipe`: it takes the place of the entry with its
/// key where there is one, and goes to the end otherwise.
pub open spec fn upsert(entries: Seq<RecipeView>, recipe: RecipeView) -> Seq<RecipeView> {
    if has_key(entries, key_of(recipe)) {
        entries.update(position(entries, key_of(recipe)), recipe)
    } else {
        entries.push(recipe)
    }
}

/// The entries that filing `recipes` one after the other leaves behind.
pub open spec fn collected(recipes: Seq<RecipeView>) -> Seq<RecipeView>
    decreases recipes.len(),
{
    if recipes.len() == 0 {
        Seq::empty()
    } else {
        upsert(collected(recipes.drop_last()), recipes.last())
    }
}

/// Every recipe of the mapping is filed under the key of its own name.
pub proof fn lemma_filed_under_own_key(entries: Seq<RecipeView>, key: Seq<char>)
    requires
        as_map(entries).contains_key(key),
    ensures
        key_of(as_map(entries)[key]) == key,
        entries.contains(as_map(entries)[key]),
{
    let i = position(entries, key);
    assert(entries[i] == as_map(entries)[key]);
}

/// Filing a recipe keeps the keys distinct and, as a mapping, is an insertion
/// under the recipe's key: whatever was filed under that key is overwritten.
pub proof fn lemma_upsert(entries: Seq<RecipeView>, recipe: RecipeView)
    requires
        distinct_keys(entries),
    ensures
        distinct_keys(upsert(entries, recipe)),
        as_map(upsert(entries, recipe)) == as_map(entries).insert(key_of(recipe), recipe),
{
    let after = upsert(entries, recipe);
    let key = key_of(recipe);
    if has_key(entries, key) {
        let p = position(entries, key);
        assert(after[p] == recipe);
        assert forall|i: int, j: int|
            0 <= i < after.len() && 0 <= j < after.len() && i != j implies key_of(
            #[trigger] after[i],
        ) != key_of(#[trigger] after[j]) by {
            assert(key_of(after[i]) == key_of(entries[i]));
            assert(key_of(after[j]) == key_of(entries[j]));
        }
    } else {
        assert(after[entries.len() as int] == recipe);
        assert forall|i: int, j: int|
            0 <= i < after.len() && 0 <= j < after.len() && i != j implies key_of(
            #[trigger] after[i],
        ) != key_of(#[trigger] after[j]) by {
            if i < entries.len() {
                assert(after[i] == entries[i]);
            }
            if j < entries.len() {
                assert(after[j] == entries[j]);
            }
        }
    }
    assert forall|k: Seq<char>| has_key(after, k) <==> (k == key || has_key(entries, k)) by {
        if has_key(after, k) {
            let i = choose|i: int| 0 <= i < after.len() && key_of(#[trigger] after[i]) == k;
            if k != key {
                assert(after[i] == entries[i]);
            }
        }
        if has_key(entries, k) {
            let i = choose|i: int| 0 <= i < entries.len() && key_of(#[trigger] entries[i]) == k;
            assert(key_of(after[i]) == k);
        }
        if k == key {
            if has_key(entries, key) {
                assert(key_of(after[position(entries, key)]) == k);
            } else {
                assert(key_of(after[entries.len() as int]) == k);
            }
        }
    }
    assert forall|k: Seq<char>| has_key(after, k) implies #[trigger] as_map(after)[k] == as_map(
        entries,
    ).insert(key, recipe)[k] by {
        let i = position(after, k);
        if k == key {
            if has_key(entries, key) {
                let p = position(entries, key);
                assert(key_of(after[p]) == key);
                assert(i == p);
            } else {
                assert(key_of(after[entries.len() as int]) == key);
                assert(i == entries.len());
            }
        } else {
            let p = position(entries, k);
            assert(after[p] == entries[p]);
            assert(key_of(after[p]) == k);
            assert(i == p);
        }
    }
    assert(as_map(after) =~= as_map(entries).insert(key, recipe));
}

/// What aggregation leaves behind has distinct keys.
pub proof fn lemma_collected_distinct(recipes: Seq<RecipeView>)
    ensures
        distinct_keys(collected(recipes)),
    decreases recipes.len(),
{
    if recipes.len() > 0 {
        lemma_collected_distinct(recipes.drop_last());
        lemma_upsert(collected(recipes.drop_last()), recipes.last());
    }
}

/// Last write wins: after aggregation a key is present exactly when some
/// input has it, and it then maps to the last input with that key.
pub proof fn lemma_last_write_wins(recipes: Seq<RecipeView>, i: int)
    requires
        0 <= i < recipes.len(),
        forall|j: int|
            i < j < recipes.len() ==> key_of(#[trigger] recipes[j]) != key_of(recipes[i]),
    ensures
        as_map(collected(recipes)).contains_key(key_of(recipes[i])),
        as_map(collected(recipes))[key_of(recipes[i])] == recipes[i],
    decreases recipes.len(),
{
    let rest = recipes.drop_last();
    lemma_collected_distinct(rest);
    lemma_upsert(collected(rest), recipes.last());
    if i < recipes.len() - 1 {
        assert(recipes[recipes.len() - 1] == recipes.last());
        assert(rest[i] == recipes[i]);
        assert forall|j: int| i < j < rest.len() implies key_of(#[trigger] rest[j]) != key_of(
            rest[i],
        ) by {
            assert(rest[j] == recipes[j]);
        }
        lemma_last_write_wins(rest, i);
    }
}

/// Aggregation invents nothing: every entry that it leaves behind is one of
/// the inputs.
pub proof fn lemma_collected_from_inputs(recipes: Seq<RecipeView>)
    ensures
        forall|i: int|
            0 <= i < collected(recipes).len() ==> recipes.contains(
                #[trigger] collected(recipes)[i],
            ),
        collected(recipes).len() <= recipes.len(),
    decreases recipes.len(),
{
    if recipes.len() > 0 {
        let rest = recipes.drop_last();
        let before = collected(rest);
        let after = collected(recipes);
        lemma_collected_from_inputs(rest);
        assert forall|i: int| 0 <= i < after.len() implies recipes.contains(
            #[trigger] after[i],
        ) by {
            if after[i] == recipes.last() {
                assert(recipes[recipes.len() - 1] == after[i]);
            } else {
                assert(after[i] == before[i]);
                let j = choose|j: int| 0 <= j < rest.len() && rest[j] == before[i];
                assert(recipes[j] == after[i]);
            }
        }
    }
}

/// After aggregation the keys present are exactly the keys of the inputs.
pub proof fn lemma_collected_keys(recipes: Seq<RecipeView>)
    ensures
        as_map(collected(recipes)).dom() == keys_of(recipes).to_set(),
    decreases recipes.len(),
{
    if recipes.len() == 0 {
        assert(as_map(collected(recipes)).dom() =~= keys_of(recipes).to_set());
    } else {
        let rest = recipes.drop_last();
        lemma_collected_keys(rest);
        lemma_collected_distinct(rest);
        lemma_upsert(collected(rest), recipes.last());
        assert(keys_of(recipes) =~= keys_of(rest).push(key_of(recipes.last())));
        keys_of(rest).lemma_push_to_set_commute(key_of(recipes.last()));
        assert(as_map(collected(recipes)).dom() =~= keys_of(recipes).to_set());
    }
}

/// Two recipes whose names normalize to one key leave exactly one entry, and
/// it holds the later recipe.
pub proof fn lemma_same_key_keeps_later(first: RecipeView, second: RecipeView)
    requires
        key_of(first) == key_of(second),
    ensures
        collected(seq![first, second]) == seq![second],
        as_map(collected(seq![first, second])) == Map::<Seq<char>, RecipeView>::empty().insert(
            key_of(second),
            second,
        ),
{
    let both = seq![first, second];
    assert(both.drop_last() =~= seq![first]);
    assert(seq![first].drop_last() =~= Seq::<RecipeView>::empty());
    reveal_with_fuel(collected, 3);
    let one = collected(seq![first]);
    assert(!has_key(Seq::<RecipeView>::empty(), key_of(first)));
    assert(one =~= seq![first]);
    assert(key_of(one[0]) == key_of(second));
    assert(has_key(one, key_of(second)));
    assert(position(one, key_of(second)) == 0);
    assert(collected(both) =~= seq![second]);
    lemma_upsert(Seq::empty(), second);
    assert(upsert(Seq::empty(), second) =~= seq![second]);
    assert(as_map(Seq::<RecipeView>::empty()) =~= Map::<Seq<char>, RecipeView>::empty());
}

/// Recipes filed under the keys of their names. Each key occurs once; the
/// entries keep the order in which their keys first came, and a hash map
/// leads from each key to the place of its entry.
pub struct RecipeBook {
    keys: Vec<String>,
    recipes: Vec<Recipe>,
    places: StringHashMap<usize>,
}

impl View for RecipeBook {
    type V = Map<Seq<char>, RecipeView>;

    open spec fn view(&self) -> Map<Seq<char>, RecipeView> {
        as_map(self.entries())
    }
}

impl RecipeBook {
    /// The recipes of the book, in the order of its entries.
    pub closed spec fn entries(&self) -> Seq<RecipeView> {
        recipe_views(self.recipes@)
    }

    /// The stored keys, in the order of the entries.
    pub closed spec fn stored_keys(&self) -> Seq<Seq<char>> {
        texts(self.keys@)
    }

    /// The hash map holds exactly the keys of the entries, each with the
    /// place of its entry.
    pub closed spec fn indexed(&self) -> bool {
        &&& forall|key: Seq<char>| #[trigger]
            self.places@.contains_key(key) ==> 0 <= self.places@[key] < self.entries().len()
                && key_of(self.entries()[self.places@[key] as int]) == key
        &&& forall|i: int|
            0 <= i < self.entries().len() ==> self.places@.contains_key(
                key_of(#[trigger] self.entries()[i]),
            )
    }

    /// Every entry is filed under the key of its own name, no key occurs
    /// twice, and the hash map and the entries agree.
    pub open spec fn wf(&self) -> bool {
        &&& self.stored_keys() == keys_of(self.entries())
        &&& distinct_keys(self.entries())
        &&& self.indexed()
    }

    /// The empty book.
    pub fn new() -> (book: RecipeBook)
        ensures
            book.wf(),
            book.entries() == Seq::<RecipeView>::empty(),
            book@ == Map::<Seq<char>, RecipeView>::empty(),
    {
        let book =
            RecipeBook { keys: Vec::new(), recipes: Vec::new(), places: StringHashMap::new() };
        assert(book.entries() =~= Seq::<RecipeView>::empty());
        assert(book.stored_keys() =~= keys_of(book.entries()));
        assert(book@ =~= Map::<Seq<char>, RecipeView>::empty());
        book
    }

    /// Number of entries.
    pub fn len(&self) -> (n: usize)
        ensures
            n == self.entries().len(),
    {
        self.recipes.len()
    }

    /// The place of the entry filed under `key`, if there is one.
    pub fn find(&self, key: &str) -> (place: Option<usize>)
        requires
            self.wf(),
        ensures
            place is Some <==> has_key(self.entries(), key@),
            place is Some ==> place.unwrap() == position(self.entries(), key@),
    {
        match self.places.get(key) {
            Some(place) => {
                assert(key_of(self.entries()[*place as int]) == key@);
                Some(*place)
            },
            None => None,
        }
    }

    /// The recipe filed under `key`, if there is one.
    pub fn get(&self, key: &str) -> (found: Option<&Recipe>)
        requires
            self.wf(),
        ensures
            found is Some <==> self@.contains_key(key@),
            found is Some ==> found.unwrap()@ == self@[key@],
    {
        match self.find(key) {
            Some(i) => {
                assert(self.entries()[i as int] == self.recipes@[i as int]@);
                Some(&self.recipes[i])
            },
            None => None,
        }
    }

    /// Files `recipe` under the key of its name. A recipe already filed under
    /// that key is overwritten.
    pub fn insert(&mut self, recipe: Recipe)
        requires
            old(self).wf(),
        ensures
            final(self).wf(),
            final(self).entries() == upsert(old(self).entries(), recipe@),
            final(self)@ == old(self)@.insert(key_of(recipe@), recipe@),
    {
        proof {
            lemma_upsert(self.entries(), recipe@);
        }
        let key = prep_name_for_file(recipe.name.as_str());
        match self.find(key.as_str()) {
            Some(i) => {
                self.recipes.set(i, recipe);
                assert(self.entries() =~= old(self).entries().update(i as int, recipe@));
                assert(keys_of(self.entries()) =~= keys_of(old(self).entries()));
                assert forall|k: int| 0 <= k < self.entries().len() implies key_of(
                    #[trigger] self.entries()[k],
                ) == key_of(old(self).entries()[k]) by {}
            },
            None => {
                let place = self.recipes.len();
                self.places.insert(key.clone(), place);
                self.keys.push(key);
                self.recipes.push(recipe);
                assert(self.entries() =~= old(self).entries().push(recipe@));
                assert(self.stored_keys() =~= old(self).stored_keys().push(key@));
                assert(keys_of(self.entries()) =~= keys_of(old(self).entries()).push(key@));
                assert forall|k: int| 0 <= k < old(self).entries().len() implies
                    #[trigger] self.entries()[k] == old(self).entries()[k] by {}
            },
        }
    }

    /// The keys of the book, in the order of its entries.
    pub fn keys(&self) -> (keys: Vec<String>)
        requires
            self.wf(),
        ensures
            texts(keys@) == keys_of(self.entries()),
    {
        let mut keys: Vec<String> = Vec::new();
        let mut i: usize = 0;
        while i < self.keys.len()
            invariant
                i <= self.keys.len(),
                keys@.len() == i,
                forall|k: int| 0 <= k < i ==> (#[trigger] keys@[k])@ == self.keys@[k]@,
            decreases self.keys.len() - i,
        {
            keys.push(self.keys[i].clone());
            i += 1;
        }
        assert(texts(keys@) =~= texts(self.keys@));
        keys
    }

    /// Copies of the entries from place `start` up to, not including, place
    /// `end`.
    pub fn slice(&self, start: usize, end: usize) -> (page: Vec<Recipe>)
        requires
            start <= end <= self.entries().len(),
        ensures
            recipe_views(page@) == self.entries().subrange(start as int, end as int),
    {
        let mut page: Vec<Recipe> = Vec::new();
        let mut i: usize = start;
        while i < end
            invariant
                start <= i <= end,
                end <= self.recipes.len(),
                page@.len() == i - start,
                forall|k: int|
                    0 <= k < i - start ==> (#[trigger] page@[k])@ == self.recipes@[start + k]@,
            decreases end - i,
        {
            page.push(self.recipes[i].clone());
            i += 1;
        }
        assert(recipe_views(page@) =~= self.entries().subrange(start as int, end as int));
        page
    }

    /// The keys and the recipes of the entries, in order.
    pub fn into_entries(self) -> (pairs: (Vec<String>, Vec<Recipe>))
        ensures
            texts(pairs.0@) == self.stored_keys(),
            recipe_views(pairs.1@) == self.entries(),
    {
        (self.keys, self.recipes)
    }
}

impl Default for RecipeBook {
    fn default() -> (book: RecipeBook)
        ensures
            book.wf(),
            book.entries() == Seq::<RecipeView>::empty(),
    {
        RecipeBook::new()
    }
}

/// Aggregates extracted recipes into a book, filing them in the order given:
/// of several recipes with one key the last one stays.
pub fn aggregate(recipes: Vec<Recipe>) -> (book: RecipeBook)
    ensures
        book.wf(),
        book.entries() == collected(recipe_views(recipes@)),
{
    let ghost all = recipes@;
    let mut book = RecipeBook::new();
    for recipe in it: recipes
        invariant
            it.seq() == all,
            book.wf(),
            book.entries() == collected(recipe_views(all.take(it.index() as int))),
    {
        proof {
            let done = all.take(it.index() as int);
            let next = all.take(it.index() as int + 1);
            assert(recipe_views(next).drop_last() =~= recipe_views(done));
            assert(recipe_views(next).last() == recipe@);
        }
        book.insert(recipe);
    }
    proof {
        assert(all.take(all.len() as int) =~= all);
    }
    book
}

} // verus!
