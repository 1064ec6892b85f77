//! Crafting recipes and the registry that checks and holds them.
use vstd::prelude::*;
use crate::components::ItemType;

verus! {

/// An item type and how many of it a recipe consumes.
#[derive(Debug, Clone, PartialEq, Eq)]
pub struct IngredientSpec {
    pub item: ItemType,
    pub count: u32,
}

/// An item type and how many of it a recipe produces.
#[derive(Debug, Clone, PartialEq, Eq)]
pub struct ProductSpec {
    pub item: ItemType,
    pub count: u32,
    /// A side product rather than the main one.
    pub byproduct: bool,
}

/// Turns inputs into outputs at one of the listed stations over some ticks.
#[derive(Debug, Clone, PartialEq, Eq)]
pub struct Recipe {
    pub id: String,
    pub stations: Vec<String>,
    pub inputs: Vec<IngredientSpec>,
    pub outputs: Vec<ProductSpec>,
    pub work_time_ticks: u32,
}

/// Why a set of recipes was refused.
#[derive(Debug, Clone, PartialEq, Eq)]
pub enum RecipeRegistryError {
    /// A second recipe with this id.
    DuplicateRecipeId(String),
    /// The recipe with this id fails `validate`.
    InvalidRecipe(String),
    /// The recipe data could not be read.
    ParseError(String),
    /// An item type name that is not known.
    UnknownItemType(String),
}

/// The item type a recipe file names, or `UnknownItemType` with the name.
pub fn item_type_from_name(name: &str) -> (r: Result<ItemType, RecipeRegistryError>)
    ensures
        name@ == "Stone"@ ==> r == Ok::<ItemType, RecipeRegistryError>(ItemType::Stone),
        name@ != "Stone"@ ==> (r matches Err(RecipeRegistryError::UnknownItemType(s)) && s@ == name@),
{
    let given = name.to_owned();
    let stone = "Stone".to_owned();
    proof {
        reveal_strlit("Stone");
    }
    if given == stone {
        Ok(ItemType::Stone)
    } else {
        Err(RecipeRegistryError::UnknownItemType(given))
    }
}

impl IngredientSpec {
    pub fn new(item: ItemType, count: u32) -> (r: IngredientSpec)
        ensures
            r.item == item,
            r.count == count,
    {
        IngredientSpec { item, count }
    }
}

impl ProductSpec {
    /// A main product.
    pub fn new(item: ItemType, count: u32) -> (r: ProductSpec)
        ensures
            r.item == item,
            r.count == count,
            !r.byproduct,
    {
        ProductSpec { item, count, byproduct: false }
    }

    /// A side product.
    pub fn new_byproduct(item: ItemType, count: u32) -> (r: ProductSpec)
        ensures
            r.item == item,
            r.count == count,
            r.byproduct,
    {
        ProductSpec { item, count, byproduct: true }
    }
}

/// An id, a station, an input and an output at least, every count positive,
/// and a positive work time.
pub open spec fn recipe_valid(r: Recipe) -> bool {
    &&& r.id@.len() > 0
    &&& r.stations@.len() > 0
    &&& r.inputs@.len() > 0
    &&& r.outputs@.len() > 0
    &&& forall|i: int| 0 <= i < r.inputs@.len() ==> (#[trigger] r.inputs@[i]).count > 0
    &&& forall|i: int| 0 <= i < r.outputs@.len() ==> (#[trigger] r.outputs@[i]).count > 0
    &&& r.work_time_ticks > 0
}

impl Recipe {
    pub fn new(
        id: String,
        stations: Vec<String>,
        inputs: Vec<IngredientSpec>,
        outputs: Vec<ProductSpec>,
        work_time_ticks: u32,
    ) -> (r: Recipe)
        ensures
            r.id == id,
            r.stations == stations,
            r.inputs == inputs,
            r.outputs == outputs,
            r.work_time_ticks == work_time_ticks,
    {
        Recipe { id, stations, inputs, outputs, work_time_ticks }
    }

    /// Whether the recipe is consistent (see `recipe_valid`).
    pub fn validate(&self) -> (r: bool)
        ensures
            r == recipe_valid(*self),
    {
        if self.id.as_str().is_empty() || self.stations.len() == 0 || self.inputs.len() == 0 || self.outputs.len() == 0 {
            return false;
        }
        let mut i: usize = 0;
        while i < self.inputs.len()
            invariant
                0 <= i <= self.inputs@.len(),
                forall|k: int| 0 <= k < i ==> (#[trigger] self.inputs@[k]).count > 0,
            decreases self.inputs@.len() - i,
        {
            if self.inputs[i].count == 0 {
                return false;
            }
            i += 1;
        }
        let mut j: usize = 0;
        while j < self.outputs.len()
            invariant
                0 <= j <= self.outputs@.len(),
                forall|k: int| 0 <= k < j ==> (#[trigger] self.outputs@[k]).count > 0,
            decreases self.outputs@.len() - j,
        {
            if self.outputs[j].count == 0 {
                return false;
            }
            j += 1;
        }
        self.work_time_ticks > 0
    }
}

/// Recipe `k` is valid and no earlier recipe has its id.
pub open spec fn accepted_at(s: Seq<Recipe>, k: int) -> bool {
    &&& recipe_valid(s[k])
    &&& forall|j: int| 0 <= j < k ==> (#[trigger] s[j]).id@ != s[k].id@
}

/// Recipe `k` is the first one that is refused, and `e` says why.
pub open spec fn refused_first_at(s: Seq<Recipe>, k: int, e: RecipeRegistryError) -> bool {
    &&& 0 <= k < s.len()
    &&& forall|j: int| 0 <= j < k ==> #[trigger] accepted_at(s, j)
    &&& !accepted_at(s, k)
    &&& if !recipe_valid(s[k]) {
        e matches RecipeRegistryError::InvalidRecipe(id) && id@ == s[k].id@
    } else {
        e matches RecipeRegistryError::DuplicateRecipeId(id) && id@ == s[k].id@
    }
}

/// Recipes by id, in the order they were added; ids are distinct.
#[derive(Debug, Clone)]
pub struct RecipeRegistry {
    recipes: Vec<Recipe>,
}

impl RecipeRegistry {
    /// The recipes held, in order.
    pub closed spec fn view(&self) -> Seq<Recipe> {
        self.recipes@
    }

    pub open spec fn ids_distinct(&self) -> bool {
        forall|i: int, j: int| 0 <= i < j < self@.len() ==> (#[trigger] self@[i]).id@ != (#[trigger] self@[j]).id@
    }

    /// An empty registry.
    pub fn new() -> (r: RecipeRegistry)
        ensures
            r@.len() == 0,
    {
        RecipeRegistry { recipes: Vec::new() }
    }

    fn holds_id(&self, id: &String) -> (r: bool)
        ensures
            r == exists|i: int| 0 <= i < self@.len() && (#[trigger] self@[i]).id@ == id@,
    {
        let mut i: usize = 0;
        while i < self.recipes.len()
            invariant
                0 <= i <= self.recipes@.len(),
                forall|k: int| 0 <= k < i ==> (#[trigger] self.recipes@[k]).id@ != id@,
            decreases self.recipes@.len() - i,
        {
            if self.recipes[i].id == *id {
                assert(self@[i as int].id@ == id@);
                return true;
            }
            i += 1;
        }
        false
    }

    /// Builds a registry from recipes in order, refusing the first one that
    /// is invalid or repeats an earlier id.
    pub fn from_recipes(list: Vec<Recipe>) -> (r: Result<RecipeRegistry, RecipeRegistryError>)
        ensures
            r is Ok <==> forall|k: int| 0 <= k < list@.len() ==> #[trigger] accepted_at(list@, k),
            r matches Ok(reg) ==> reg@ == list@ && reg.ids_distinct(),
            r matches Err(e) ==> exists|k: int| refused_first_at(list@, k, e),
    {
        let ghost all = list@;
        let mut rest = list;
        let n = rest.len();
        let mut reg = RecipeRegistry::new();
        let mut i: usize = 0;
        while rest.len() > 0
            invariant
                all == list@,
                all.len() == n,
                i <= all.len(),
                reg@ == all.take(i as int),
                rest@ == all.skip(i as int),
                forall|k: int| 0 <= k < i ==> #[trigger] accepted_at(all, k),
            decreases rest@.len(),
        {
            assert(rest@[0] == all[i as int] && i < all.len());
            let recipe = rest.remove(0);
            assert(recipe == all[i as int]);
            if !recipe.validate() {
                let e = RecipeRegistryError::InvalidRecipe(recipe.id.clone());
                assert(refused_first_at(all, i as int, e));
                return Err(e);
            }
            if reg.holds_id(&recipe.id) {
                let e = RecipeRegistryError::DuplicateRecipeId(recipe.id.clone());
                assert(!accepted_at(all, i as int)) by {
                    let k = choose|k: int| 0 <= k < reg@.len() && (#[trigger] reg@[k]).id@ == recipe.id@;
                    assert(all.take(i as int)[k] == all[k]);
                    assert(all[k].id@ == all[i as int].id@);
                }
                assert(refused_first_at(all, i as int, e));
                return Err(e);
            }
            assert(accepted_at(all, i as int)) by {
                assert forall|j: int| 0 <= j < i implies (#[trigger] all[j]).id@ != all[i as int].id@ by {
                    assert(reg@[j] == all[j]);
                }
            }
            reg.recipes.push(recipe);
            i += 1;
            assert(reg@ =~= all.take(i as int));
            assert(rest@ =~= all.skip(i as int));
        }
        assert(all.take(all.len() as int) == all);
        assert(reg.ids_distinct()) by {
            assert forall|a: int, b: int| 0 <= a < b < reg@.len() implies (#[trigger] reg@[a]).id@ != (#[trigger] reg@[b]).id@ by {
                assert(accepted_at(all, b));
            }
        }
        Ok(reg)
    }

    /// The recipe with this id, if any.
    pub fn get_recipe(&self, id: &str) -> (r: Option<&Recipe>)
        ensures
            r matches Some(rec) ==> rec.id@ == id@ && exists|i: int| 0 <= i < self@.len() && self@[i] == *rec,
            r is None ==> forall|i: int| 0 <= i < self@.len() ==> (#[trigger] self@[i]).id@ != id@,
    {
        let key = id.to_owned();
        let mut i: usize = 0;
        while i < self.recipes.len()
            invariant
                0 <= i <= self.recipes@.len(),
                key@ == id@,
                forall|k: int| 0 <= k < i ==> (#[trigger] self.recipes@[k]).id@ != id@,
            decreases self.recipes@.len() - i,
        {
            if self.recipes[i].id == key {
                assert(self@[i as int] == self.recipes@[i as int]);
                return Some(&self.recipes[i]);
            }
            i += 1;
        }
        None
    }

    /// The ids of all recipes, in order.
    pub fn recipe_ids(&self) -> (r: Vec<String>)
        ensures
            r@.len() == self@.len(),
            forall|i: int| 0 <= i < r@.len() ==> (#[trigger] r@[i])@ == self@[i].id@,
    {
        let mut out: Vec<String> = Vec::new();
        let mut i: usize = 0;
        while i < self.recipes.len()
            invariant
                0 <= i <= self.recipes@.len(),
                out@.len() == i,
                forall|k: int| 0 <= k < i ==> (#[trigger] out@[k])@ == self.recipes@[k].id@,
            decreases self.recipes@.len() - i,
        {
            out.push(self.recipes[i].id.clone());
            i += 1;
        }
        out
    }

    /// All recipes, in order.
    pub fn recipes(&self) -> (r: &Vec<Recipe>)
        ensures
            r@ == self@,
    {
        &self.recipes
    }

    pub fn len(&self) -> (r: usize)
        ensures
            r == self@.len(),
    {
        self.recipes.len()
    }

    pub fn is_empty(&self) -> (r: bool)
        ensures
            r == (self@.len() == 0),
    {
        self.recipes.len() == 0
    }

    /// Indices of the recipes that list `station_type` among their stations,
    /// in order.
    pub fn recipes_for_station(&self, station_type: &str) -> (r: Vec<usize>)
        ensures
            forall|k: int| 0 <= k < r@.len() ==> (#[trigger] r@[k]) < self@.len() && lists_station(self@[r@[k] as int], station_type@),
            forall|i: int| 0 <= i < self@.len() && #[trigger] lists_station(self@[i], station_type@) ==> r@.contains(i as usize),
            forall|a: int, b: int| 0 <= a < b < r@.len() ==> r@[a] < r@[b],
    {
        let key = station_type.to_owned();
        let mut out: Vec<usize> = Vec::new();
        let mut i: usize = 0;
        while i < self.recipes.len()
            invariant
                0 <= i <= self.recipes@.len(),
                key@ == station_type@,
                forall|k: int| 0 <= k < out@.len() ==> (#[trigger] out@[k]) < i && lists_station(self.recipes@[out@[k] as int], station_type@),
                forall|m: int| 0 <= m < i && #[trigger] lists_station(self.recipes@[m], station_type@) ==> out@.contains(m as usize),
                forall|a: int, b: int| 0 <= a < b < out@.len() ==> out@[a] < out@[b],
            decreases self.recipes@.len() - i,
        {
            let stations = &self.recipes[i].stations;
            let mut found = false;
            let mut s: usize = 0;
            while s < stations.len()
                invariant
                    0 <= s <= stations@.len(),
                    key@ == station_type@,
                    found == exists|t: int| 0 <= t < s && (#[trigger] stations@[t])@ == station_type@,
                decreases stations@.len() - s,
            {
                if stations[s] == key {
                    found = true;
                }
                s += 1;
            }
            assert(found == lists_station(self.recipes@[i as int], station_type@));
            let ghost before = out@;
            if found {
                out.push(i);
                assert(out@[out@.len() - 1] == i);
                assert forall|m: int| 0 <= m < i && #[trigger] lists_station(self.recipes@[m], station_type@) implies out@.contains(m as usize) by {
                    let w = choose|w: int| 0 <= w < before.len() && before[w] == m as usize;
                    assert(out@[w] == m as usize);
                }
            }
            i += 1;
        }
        out
    }
}

/// The recipe can be made at `station`.
pub open spec fn lists_station(r: Recipe, station: Seq<char>) -> bool {
    exists|s: int| 0 <= s < r.stations@.len() && (#[trigger] r.stations@[s])@ == station
}

impl Default for RecipeRegistry {
    fn default() -> (r: RecipeRegistry)
        ensures
            r@.len() == 0,
    {
        RecipeRegistry::new()
    }
}

} // verus!
