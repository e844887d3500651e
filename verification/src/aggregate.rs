//! The aggregation engine: given recipe references (with per-recipe
//! scaling) and custom entries, compute the merged, pantry-adjusted,
//! aisle-categorized shopping list.
//!
//! The ingredient list, the aisle configuration and the pantry
//! configuration are cooklang's; their parsing, quantity arithmetic and
//! categorization are cooklang's work, called through trusted wrappers.
//! What this module decides itself — which entries are extracted, how a
//! scaled reference is spelled, which pantry entries count as
//! available, and how custom entries form their own trailing
//! category — is verified.
use vstd::prelude::*;

use crate::requests::ClientInputError;
use crate::store::ShoppingListItemKind;
use crate::text::{chars_eq, str_to_chars};

verus! {

#[verifier::external_type_specification]
#[verifier::external_body]
pub struct ExIngredientList(cooklang::ingredient_list::IngredientList);

/// The ingredient names held in a list, in insertion order. Quantities
/// are not modelled; cooklang owns them.
pub uninterp spec fn list_contents(l: cooklang::ingredient_list::IngredientList) -> Seq<Seq<char>>;

/// The listable ingredient display names of a recipe text, in recipe
/// order, or nothing when the text does not parse as a recipe.
pub uninterp spec fn recipe_list_names(text: Seq<char>) -> Option<Seq<Seq<char>>>;

/// The ingredient names after common-name resolution against an aisle
/// configuration text: a pure rename-and-merge pass over the names.
pub uninterp spec fn renamed_names(aisle_text: Seq<char>, names: Seq<Seq<char>>) -> Seq<
    Seq<char>,
>;

/// The `(category, item names)` structure that categorizing ingredients
/// with those names against an aisle configuration text yields.
pub uninterp spec fn categorized_names(aisle_text: Seq<char>, names: Seq<Seq<char>>) -> Seq<
    (Seq<char>, Seq<Seq<char>>),
>;

/// Whether a pantry configuration text yields a configuration at all.
pub uninterp spec fn pantry_parses(text: Seq<char>) -> bool;

/// The lookup of an ingredient name in a pantry text: `None` when no
/// entry matches, `Some(None)` for an entry with no quantity field, and
/// `Some(Some(q))` for an entry with quantity text `q`.
pub uninterp spec fn pantry_lookup_of(text: Seq<char>, name: Seq<char>) -> Option<
    Option<Seq<char>>,
>;

/// The display text of the numeric value parsed out of a pantry
/// quantity string, or nothing when no number can be parsed from it.
pub uninterp spec fn parsed_value_display(q: Seq<char>) -> Option<Seq<char>>;

/// One aggregation request entry: a recipe reference with an optional
/// scale (decimal text), or a custom item. A custom entry's display
/// name falls back from `name` to `recipe`.
pub struct RecipeRequest {
    pub recipe: String,
    pub scale: Option<String>,
    pub kind: ShoppingListItemKind,
    pub name: Option<String>,
    pub quantity: Option<String>,
}

/// The mathematical image of a request entry.
pub ghost struct SpecRequest {
    pub recipe: Seq<char>,
    pub scale: Option<Seq<char>>,
    pub kind: ShoppingListItemKind,
    pub name: Option<Seq<char>>,
    pub quantity: Option<Seq<char>>,
}

impl View for RecipeRequest {
    type V = SpecRequest;

    open spec fn view(&self) -> SpecRequest {
        SpecRequest {
            recipe: self.recipe@,
            scale: match self.scale {
                Some(s) => Some(s@),
                None => None,
            },
            kind: self.kind,
            name: match self.name {
                Some(n) => Some(n@),
                None => None,
            },
            quantity: match self.quantity {
                Some(q) => Some(q@),
                None => None,
            },
        }
    }
}

/// One item of a categorized result: a name with its quantity texts.
pub struct CategoryItem {
    pub name: String,
    pub quantities: Vec<String>,
}

/// The mathematical image of a result item.
pub ghost struct SpecCategoryItem {
    pub name: Seq<char>,
    pub quantities: Seq<Seq<char>>,
}

impl View for CategoryItem {
    type V = SpecCategoryItem;

    open spec fn view(&self) -> SpecCategoryItem {
        SpecCategoryItem {
            name: self.name@,
            quantities: self.quantities@.map_values(|q: String| q@),
        }
    }
}

/// One ordered category of the result.
pub struct Category {
    pub name: String,
    pub items: Vec<CategoryItem>,
}

/// The mathematical image of a category.
pub ghost struct SpecCategory {
    pub name: Seq<char>,
    pub items: Seq<SpecCategoryItem>,
}

impl View for Category {
    type V = SpecCategory;

    open spec fn view(&self) -> SpecCategory {
        SpecCategory { name: self.name@, items: self.items@.map_values(|i: CategoryItem| i@) }
    }
}

/// The categorized result: ordered categories, plus the names of the
/// pantry items that covered demand.
pub struct ShoppingListResult {
    pub categories: Vec<Category>,
    pub pantry_items: Vec<String>,
}

/// The `(category, item names)` structure of a category sequence.
pub open spec fn spec_structure(cats: Seq<SpecCategory>) -> Seq<(Seq<char>, Seq<Seq<char>>)> {
    cats.map_values(
        |c: SpecCategory| (c.name, c.items.map_values(|i: SpecCategoryItem| i.name)),
    )
}

/// Names merged into a list: each incoming name keeps existing entries
/// in place and lands at the end when new.
pub open spec fn spec_merge_names(a: Seq<Seq<char>>, b: Seq<Seq<char>>) -> Seq<Seq<char>>
    decreases b.len(),
{
    if b.len() == 0 {
        a
    } else {
        spec_merge_names(
            if a.contains(b[0]) {
                a
            } else {
                a.push(b[0])
            },
            b.drop_first(),
        )
    }
}

/// Whether `a` is a subsequence of `b`: every name of `a` occurs in `b`,
/// in the same order.
pub open spec fn spec_is_subseq(a: Seq<Seq<char>>, b: Seq<Seq<char>>) -> bool
    decreases a.len() + b.len(),
{
    if a.len() == 0 {
        true
    } else if b.len() == 0 {
        false
    } else if a[0] == b[0] {
        spec_is_subseq(a.drop_first(), b.drop_first())
    } else {
        spec_is_subseq(a, b.drop_first())
    }
}

/// Relies on `IngredientList::new`: the fresh list holds nothing.
#[verifier::external_body]
fn new_ingredient_list_w() -> (r: cooklang::ingredient_list::IngredientList)
    ensures
        list_contents(r) == Seq::<Seq<char>>::empty(),
{
    cooklang::ingredient_list::IngredientList::new()
}

/// Relies on `CooklangParser::parse` and `IngredientList::add_recipe`
/// (with the bundled converter, references not listed): a cleanly
/// parsed recipe's listable display names merge into the list in
/// order, new names at the end; a text whose parse reports an error
/// leaves the list alone.
#[verifier::external_body]
fn add_recipe_text_w(list: &mut cooklang::ingredient_list::IngredientList, text: &str) -> (r:
    Result<(), String>)
    ensures
        match r {
            Ok(_) => recipe_list_names(text@) is Some && list_contents(*final(list))
                == spec_merge_names(
                list_contents(*old(list)),
                recipe_list_names(text@)->Some_0,
            ),
            Err(_) => recipe_list_names(text@) is None && list_contents(*final(list))
                == list_contents(*old(list)),
        },
{
    let parser = cooklang::CooklangParser::new(
        cooklang::Extensions::all(),
        cooklang::Converter::bundled(),
    );
    let res = parser.parse(text);
    if res.report().has_errors() {
        return Err(res.report().errors().next().map(|e| e.to_string()).unwrap_or_default());
    }
    match res.output() {
        Some(recipe) => {
            let _ = list.add_recipe(recipe, parser.converter(), false);
            Ok(())
        },
        None => Err(String::new()),
    }
}

/// Relies on `aisle::parse_lenient` and
/// `IngredientList::use_common_names`: renaming to common names is a
/// pure pass over the names, so the resulting name sequence depends on
/// the aisle text and the input names alone.
#[verifier::external_body]
fn use_common_names_w(
    list: cooklang::ingredient_list::IngredientList,
    aisle_text: &str,
) -> (r: cooklang::ingredient_list::IngredientList)
    ensures
        list_contents(r) == renamed_names(aisle_text@, list_contents(list)),
{
    let aisle = cooklang::aisle::parse_lenient(aisle_text).output().cloned().unwrap_or_default();
    list.use_common_names(&aisle, &cooklang::Converter::bundled())
}

/// Relies on `IngredientList::iter`: the names held in the list, in
/// insertion order.
#[verifier::external_body]
fn list_names_w(list: &cooklang::ingredient_list::IngredientList) -> (r: Vec<String>)
    ensures
        r@.map_values(|s: String| s@) == list_contents(*list),
{
    list.iter().map(|(n, _)| n.clone()).collect()
}

/// Relies on `pantry::parse_lenient`: whether the text yields a pantry
/// configuration at all; a missing one means no subtraction happens.
#[verifier::external_body]
fn pantry_parses_w(text: &str) -> (r: bool)
    ensures
        r == pantry_parses(text@),
{
    cooklang::pantry::parse_lenient(text).output().is_some()
}

/// Relies on `PantryConf::find_ingredient` and `PantryItem::quantity`:
/// the first pantry entry matching the name, reduced to its quantity
/// text; lookup is a function of the pantry text and the name.
#[verifier::external_body]
fn pantry_lookup_w(text: &str, name: &str) -> (r: Option<Option<String>>)
    ensures
        match r {
            None => pantry_lookup_of(text@, name@) is None,
            Some(None) => pantry_lookup_of(text@, name@) == Some(None::<Seq<char>>),
            Some(Some(q)) => pantry_lookup_of(text@, name@) == Some(Some(q@)),
        },
{
    let conf = cooklang::pantry::parse_lenient(text).output().cloned().unwrap_or_default();
    conf.find_ingredient(name).map(|(_, item)| item.quantity().map(|s| s.to_string()))
}

/// Relies on `PantryItem::parsed_quantity` and the display form of the
/// parsed number: the numeric value cooklang reads out of a quantity
/// string, rendered as text, or nothing when no number parses at all.
/// A negative value's text is `-`-prefixed, zero's is `0`, and a
/// quantity spelled as not-a-number displays as `NaN`; the text of a
/// value greater than zero is none of those.
#[verifier::external_body]
fn parsed_quantity_display_w(q: &str) -> (r: Option<String>)
    ensures
        match r {
            None => parsed_value_display(q@) is None,
            Some(d) => parsed_value_display(q@) == Some(d@),
        },
{
    let item = cooklang::pantry::PantryItem::WithAttributes(
        cooklang::pantry::ItemWithAttributes {
            name: String::new(),
            bought: None,
            expire: None,
            quantity: Some(q.to_string()),
            low: None,
        },
    );
    item.parsed_quantity().map(|(value, _unit)| format!("{}", value))
}

/// What pantry subtraction does to the listed names: it keeps a
/// subsequence, always keeps a name with no pantry entry, and always
/// removes one whose entry is `unlim`/`unlimited` or carries no
/// quantity field. What happens to the names in between is the
/// delegated quantity arithmetic.
pub open spec fn spec_subtraction_names_ok(
    ptext: Seq<char>,
    before: Seq<Seq<char>>,
    after: Seq<Seq<char>>,
) -> bool {
    &&& spec_is_subseq(after, before)
    &&& forall|i: int|
        0 <= i < before.len() ==> (match pantry_lookup_of(ptext, #[trigger] before[i]) {
            None => after.contains(before[i]),
            Some(None) => !after.contains(before[i]),
            Some(Some(q)) => (q == "unlim"@ || q == "unlimited"@) ==> !after.contains(
                before[i],
            ),
        })
}

/// Relies on `pantry::parse_lenient` and
/// `IngredientList::subtract_pantry` (with the bundled converter):
/// subtraction iterates the input names in order and keeps or removes
/// each, never inventing one; a name with no pantry entry is kept, and
/// one whose entry is `unlim`/`unlimited` or has no quantity field is
/// removed.
#[verifier::external_body]
fn subtract_pantry_w(
    list: &cooklang::ingredient_list::IngredientList,
    pantry_text: &str,
) -> (r: cooklang::ingredient_list::IngredientList)
    ensures
        spec_subtraction_names_ok(pantry_text@, list_contents(*list), list_contents(r)),
{
    let conf = cooklang::pantry::parse_lenient(pantry_text).output().cloned().unwrap_or_default();
    list.subtract_pantry(&conf, &cooklang::Converter::bundled())
}

/// Relies on `aisle::parse_lenient`, `IngredientList::categorize` and
/// the display form of cooklang quantities: the category and item-name
/// structure is a function of the aisle text and the listed names;
/// uncategorized names land in a final `other` group, and no returned
/// group is empty.
#[verifier::external_body]
fn categorize_w(list: cooklang::ingredient_list::IngredientList, aisle_text: &str) -> (r: Vec<
    Category,
>)
    ensures
        spec_structure(r@.map_values(|c: Category| c@)) == categorized_names(
            aisle_text@,
            list_contents(list),
        ),
        forall|j: int| 0 <= j < r@.len() ==> (#[trigger] r@[j])@.items.len() > 0,
{
    let aisle = cooklang::aisle::parse_lenient(aisle_text).output().cloned().unwrap_or_default();
    let cats = list.categorize(&aisle);
    let mut out: Vec<Category> = Vec::new();
    for (name, l) in cats.categories {
        out.push(Category { name, items: category_items_w(l) });
    }
    if !cats.other.is_empty() {
        out.push(Category { name: "other".to_string(), items: category_items_w(cats.other) });
    }
    out
}

/// Relies on `IngredientList` iteration, `GroupedQuantity::into_vec`
/// and `Quantity`'s display form: the items of one category, each name
/// with its quantity texts.
#[verifier::external_body]
fn category_items_w(l: cooklang::ingredient_list::IngredientList) -> (r: Vec<CategoryItem>)
    ensures
        r@.map_values(|i: CategoryItem| i@.name) == list_contents(l),
{
    l.into_iter().map(
        |(n, q)| CategoryItem {
            name: n,
            quantities: q.into_vec().iter().map(|x| format!("{}", x)).collect(),
        },
    ).collect()
}

/// A fresh, empty ingredient list.
pub fn empty_ingredient_list() -> (r: cooklang::ingredient_list::IngredientList)
    ensures
        list_contents(r) == Seq::<Seq<char>>::empty(),
{
    new_ingredient_list_w()
}

/// Merge one recipe text's ingredients into the running list. A text
/// that does not parse rejects the whole request as a client-input
/// error and leaves the list untouched.
pub fn add_recipe_ingredients(
    list: &mut cooklang::ingredient_list::IngredientList,
    text: &str,
) -> (r: Result<(), ClientInputError>)
    ensures
        match r {
            Ok(_) => recipe_list_names(text@) is Some && list_contents(*final(list))
                == spec_merge_names(
                list_contents(*old(list)),
                recipe_list_names(text@)->Some_0,
            ),
            Err(e) => e matches ClientInputError::InvalidRecipe(_) && recipe_list_names(text@)
                is None && list_contents(*final(list)) == list_contents(*old(list)),
        },
{
    match add_recipe_text_w(list, text) {
        Ok(_) => Ok(()),
        Err(m) => Err(ClientInputError::InvalidRecipe(m)),
    }
}

/// The reference handed to the extractor for one entry: the recipe
/// name, with `:<scale>` appended when a scale is present; nothing for
/// a custom entry, which never touches the ingredient list.
pub fn scaled_recipe_ref(entry: &RecipeRequest) -> (r: Option<String>)
    ensures
        entry@.kind == ShoppingListItemKind::Custom ==> r is None,
        entry@.kind == ShoppingListItemKind::Recipe ==> match r {
            Some(s) => s@ == (match entry@.scale {
                Some(sc) => entry@.recipe + ":"@ + sc,
                None => entry@.recipe,
            }),
            None => false,
        },
{
    if entry.kind == ShoppingListItemKind::Custom {
        return None;
    }
    match &entry.scale {
        Some(sc) => {
            let mut s = entry.recipe.clone();
            s.append(":");
            s.append(sc.as_str());
            proof {
                reveal_strlit(":");
            }
            Some(s)
        },
        None => Some(entry.recipe.clone()),
    }
}

/// Whether the display text of a parsed quantity value denotes a number
/// strictly greater than zero: negative values are `-`-prefixed, zero
/// displays as `0`, and an unparsable number as `NaN`.
pub open spec fn spec_display_positive(d: Seq<char>) -> bool {
    d != "0"@ && d != "NaN"@ && !(d.len() > 0 && d[0] == '-')
}

/// Whether a pantry entry covers an ingredient: it exists and has no
/// quantity field (unlimited by convention), or its quantity is exactly
/// `unlim` or `unlimited`, or its quantity parses to a value strictly
/// greater than zero. A zero, negative or unparsable quantity does not
/// count.
pub open spec fn spec_pantry_available(ptext: Seq<char>, name: Seq<char>) -> bool {
    match pantry_lookup_of(ptext, name) {
        None => false,
        Some(None) => true,
        Some(Some(q)) => q == "unlim"@ || q == "unlimited"@ || (match parsed_value_display(q) {
            Some(d) => spec_display_positive(d),
            None => false,
        }),
    }
}

/// The names among `names` that the pantry covers, in order.
pub open spec fn spec_available_filter(ptext: Seq<char>, names: Seq<Seq<char>>) -> Seq<Seq<char>>
    decreases names.len(),
{
    if names.len() == 0 {
        Seq::empty()
    } else {
        (if spec_pantry_available(ptext, names[0]) {
            seq![names[0]]
        } else {
            Seq::<Seq<char>>::empty()
        }) + spec_available_filter(ptext, names.drop_first())
    }
}

/// A pantry entry with no quantity field counts as available (the
/// backward-compatibility default), and so does one whose quantity text
/// is exactly `unlim` or `unlimited`; an ingredient with no pantry
/// entry never does.
pub proof fn lemma_pantry_availability_defaults(ptext: Seq<char>, name: Seq<char>)
    ensures
        pantry_lookup_of(ptext, name) == Some(None::<Seq<char>>) ==> spec_pantry_available(
            ptext,
            name,
        ),
        pantry_lookup_of(ptext, name) == Some(Some("unlim"@)) ==> spec_pantry_available(
            ptext,
            name,
        ),
        pantry_lookup_of(ptext, name) == Some(Some("unlimited"@)) ==> spec_pantry_available(
            ptext,
            name,
        ),
        pantry_lookup_of(ptext, name) is None ==> !spec_pantry_available(ptext, name),
{
}

fn display_positive(d: &str) -> (r: bool)
    ensures
        r == spec_display_positive(d@),
{
    let dv = str_to_chars(d);
    let zero = str_to_chars("0");
    let nan = str_to_chars("NaN");
    proof {
        reveal_strlit("0");
        reveal_strlit("NaN");
    }
    let eq_zero = chars_eq(&dv, &zero);
    let eq_nan = chars_eq(&dv, &nan);
    let negative = dv.len() > 0 && dv[0] == '-';
    !eq_zero && !eq_nan && !negative
}

/// Whether the pantry described by `ptext` covers `name`.
pub fn pantry_available(ptext: &str, name: &str) -> (r: bool)
    ensures
        r == spec_pantry_available(ptext@, name@),
{
    match pantry_lookup_w(ptext, name) {
        None => false,
        Some(None) => true,
        Some(Some(q)) => {
            let qv = str_to_chars(q.as_str());
            let unlim = str_to_chars("unlim");
            let unlimited = str_to_chars("unlimited");
            proof {
                reveal_strlit("unlim");
                reveal_strlit("unlimited");
            }
            if chars_eq(&qv, &unlim) || chars_eq(&qv, &unlimited) {
                true
            } else {
                match parsed_quantity_display_w(q.as_str()) {
                    Some(d) => display_positive(d.as_str()),
                    None => false,
                }
            }
        },
    }
}

/// The display name of a custom entry: its `name`, or its `recipe`
/// field when no name was given.
pub open spec fn spec_custom_display(e: SpecRequest) -> Seq<char> {
    match e.name {
        Some(n) => n,
        None => e.recipe,
    }
}

/// The items of the trailing `Custom Items` category: every custom
/// entry in input order, never merged or deduplicated; the quantity
/// payload is the raw quantity string, or nothing.
pub open spec fn spec_custom_items(entries: Seq<SpecRequest>) -> Seq<SpecCategoryItem>
    decreases entries.len(),
{
    if entries.len() == 0 {
        Seq::empty()
    } else {
        (if entries[0].kind == ShoppingListItemKind::Custom {
            seq![
                SpecCategoryItem {
                    name: spec_custom_display(entries[0]),
                    quantities: match entries[0].quantity {
                        Some(q) => seq![q],
                        None => Seq::empty(),
                    },
                },
            ]
        } else {
            Seq::<SpecCategoryItem>::empty()
        }) + spec_custom_items(entries.drop_first())
    }
}

fn build_custom_items(entries: &Vec<RecipeRequest>) -> (r: Vec<CategoryItem>)
    ensures
        r@.map_values(|i: CategoryItem| i@) == spec_custom_items(
            entries@.map_values(|e: RecipeRequest| e@),
        ),
{
    let ghost ev = entries@.map_values(|e: RecipeRequest| e@);
    let mut out: Vec<CategoryItem> = Vec::new();
    proof {
        assert(ev.skip(0) == ev);
        assert(out@.map_values(|i: CategoryItem| i@) =~= Seq::<SpecCategoryItem>::empty());
        assert(Seq::<SpecCategoryItem>::empty() + spec_custom_items(ev) =~= spec_custom_items(
            ev,
        ));
    }
    let mut i: usize = 0;
    while i < entries.len()
        invariant
            0 <= i <= entries@.len(),
            ev == entries@.map_values(|e: RecipeRequest| e@),
            spec_custom_items(ev) == out@.map_values(|i2: CategoryItem| i2@)
                + spec_custom_items(ev.skip(i as int)),
        decreases entries@.len() - i,
    {
        proof {
            assert(ev.skip(i as int).drop_first() =~= ev.skip(i + 1 as int));
            assert(ev.skip(i as int)[0] == ev[i as int]);
        }
        let e = &entries[i];
        if e.kind == ShoppingListItemKind::Custom {
            let name = match &e.name {
                Some(n) => n.clone(),
                None => e.recipe.clone(),
            };
            let quantities = match &e.quantity {
                Some(q) => {
                    let mut v: Vec<String> = Vec::new();
                    v.push(q.clone());
                    proof {
                        assert(v@.map_values(|s: String| s@) =~= seq![q@]);
                    }
                    v
                },
                None => {
                    let v: Vec<String> = Vec::new();
                    proof {
                        assert(v@.map_values(|s: String| s@) =~= Seq::<Seq<char>>::empty());
                    }
                    v
                },
            };
            let item = CategoryItem { name, quantities };
            let ghost prevv = out@;
            proof {
                assert(item@ == spec_custom_items(ev.skip(i as int))[0]);
            }
            out.push(item);
            proof {
                prevv.lemma_push_map_commute(|i2: CategoryItem| i2@, item);
                assert(prevv.map_values(|i2: CategoryItem| i2@) + (seq![item@]
                    + spec_custom_items(ev.skip(i + 1 as int))) =~= out@.map_values(
                    |i2: CategoryItem| i2@,
                ) + spec_custom_items(ev.skip(i + 1 as int)));
            }
        }
        i = i + 1;
    }
    proof {
        assert(ev.skip(ev.len() as int) =~= Seq::<SpecRequest>::empty());
        assert(out@.map_values(|i2: CategoryItem| i2@) + Seq::<SpecCategoryItem>::empty()
            =~= out@.map_values(|i2: CategoryItem| i2@));
    }
    out
}

/// Whether a no-pantry aggregation result is the one owed to these
/// entries, this aisle text and an ingredient list with these names.
pub open spec fn spec_no_pantry_ok(
    r: ShoppingListResult,
    entries: Seq<SpecRequest>,
    atext: Seq<char>,
    names: Seq<Seq<char>>,
) -> bool {
    let customs = spec_custom_items(entries);
    let cs = r.categories@.map_values(|c: Category| c@);
    let recipe_part = if customs.len() > 0 {
        cs.drop_last()
    } else {
        cs
    };
    &&& r.pantry_items@.len() == 0
    &&& (customs.len() > 0 ==> cs.len() == recipe_part.len() + 1 && cs.last().name
        == "Custom Items"@ && cs.last().items == customs)
    &&& spec_structure(recipe_part) == categorized_names(atext, renamed_names(atext, names))
}

/// Aggregate entries into a categorized shopping list.
///
/// `list` holds the ingredients already extracted for the recipe
/// entries; custom entries never touch it. The aisle text renames
/// ingredients to their common names and orders the categories; when a
/// pantry text is present and parses, covered ingredient names are
/// reported and pantry stock is subtracted from demand before
/// categorization. Custom entries form one trailing `Custom Items`
/// category, in input order, never merged.
pub fn aggregate(
    entries: &Vec<RecipeRequest>,
    list: cooklang::ingredient_list::IngredientList,
    aisle_text: &str,
    pantry_text: Option<&String>,
) -> (r: ShoppingListResult)
    ensures
        ({
            let renamed = renamed_names(aisle_text@, list_contents(list));
            let customs = spec_custom_items(entries@.map_values(|e: RecipeRequest| e@));
            let cs = r.categories@.map_values(|c: Category| c@);
            let recipe_part = if customs.len() > 0 {
                cs.drop_last()
            } else {
                cs
            };
            &&& (match pantry_text {
                Some(t) => r.pantry_items@.map_values(|s: String| s@) == (if pantry_parses(t@) {
                    spec_available_filter(t@, renamed)
                } else {
                    Seq::<Seq<char>>::empty()
                }),
                None => r.pantry_items@.len() == 0,
            })
            &&& (customs.len() > 0 ==> cs.len() == recipe_part.len() + 1 && cs.last().name
                == "Custom Items"@ && cs.last().items == customs)
            &&& (customs.len() == 0 ==> cs == recipe_part)
            &&& (match pantry_text {
                Some(t) => if pantry_parses(t@) {
                    exists|ns: Seq<Seq<char>>|
                        #[trigger] spec_subtraction_names_ok(t@, renamed, ns) && spec_structure(
                            recipe_part,
                        ) == categorized_names(aisle_text@, ns)
                } else {
                    spec_structure(recipe_part) == categorized_names(aisle_text@, renamed)
                },
                None => spec_structure(recipe_part) == categorized_names(aisle_text@, renamed),
            })
            &&& (forall|j: int|
                0 <= j < recipe_part.len() ==> (#[trigger] recipe_part[j]).items.len() > 0)
            &&& (pantry_text is None ==> spec_no_pantry_ok(
                r,
                entries@.map_values(|e: RecipeRequest| e@),
                aisle_text@,
                list_contents(list),
            ))
        }),
{
    let ghost renamed_g = renamed_names(aisle_text@, list_contents(list));
    let renamed = use_common_names_w(list, aisle_text);
    let mut pantry_items: Vec<String> = Vec::new();
    let mut subtracted: Option<cooklang::ingredient_list::IngredientList> = None;
    match pantry_text {
        Some(t) => {
            if pantry_parses_w(t.as_str()) {
                let names = list_names_w(&renamed);
                let ghost nv = names@.map_values(|s: String| s@);
                proof {
                    assert(nv.skip(0) == nv);
                    assert(pantry_items@.map_values(|s: String| s@)
                        =~= Seq::<Seq<char>>::empty());
                    assert(Seq::<Seq<char>>::empty() + spec_available_filter(t@, nv)
                        =~= spec_available_filter(t@, nv));
                }
                let mut k: usize = 0;
                while k < names.len()
                    invariant
                        0 <= k <= names@.len(),
                        nv == names@.map_values(|s: String| s@),
                        spec_available_filter(t@, nv) == pantry_items@.map_values(
                            |s: String| s@,
                        ) + spec_available_filter(t@, nv.skip(k as int)),
                    decreases names@.len() - k,
                {
                    proof {
                        assert(nv.skip(k as int).drop_first() =~= nv.skip(k + 1 as int));
                        assert(nv.skip(k as int)[0] == nv[k as int]);
                    }
                    if pantry_available(t.as_str(), names[k].as_str()) {
                        let picked = names[k].clone();
                        let ghost prevv = pantry_items@;
                        pantry_items.push(picked);
                        proof {
                            prevv.lemma_push_map_commute(|s: String| s@, picked);
                            assert(prevv.map_values(|s: String| s@) + (seq![nv[k as int]]
                                + spec_available_filter(t@, nv.skip(k + 1 as int)))
                                =~= pantry_items@.map_values(|s: String| s@)
                                + spec_available_filter(t@, nv.skip(k + 1 as int)));
                        }
                    }
                    k = k + 1;
                }
                proof {
                    assert(nv.skip(nv.len() as int) =~= Seq::<Seq<char>>::empty());
                    assert(pantry_items@.map_values(|s: String| s@) + Seq::<Seq<char>>::empty()
                        =~= pantry_items@.map_values(|s: String| s@));
                }
                subtracted = Some(subtract_pantry_w(&renamed, t.as_str()));
            }
        },
        None => {},
    }
    let final_list = match subtracted {
        Some(l) => l,
        None => renamed,
    };
    let ghost final_names = list_contents(final_list);
    let cats = categorize_w(final_list, aisle_text);
    let customs = build_custom_items(entries);
    let mut categories = cats;
    if customs.len() > 0 {
        let ghost pre = categories@;
        let trailing = Category { name: String::from_str("Custom Items"), items: customs };
        proof {
            assert(trailing@.items == spec_custom_items(
                entries@.map_values(|e: RecipeRequest| e@),
            ));
        }
        categories.push(trailing);
        proof {
            pre.lemma_push_map_commute(|c: Category| c@, trailing);
            assert(categories@.map_values(|c: Category| c@).drop_last() =~= pre.map_values(
                |c: Category| c@,
            ));
        }
    }
    let r = ShoppingListResult { categories, pantry_items };
    proof {
        match pantry_text {
            Some(t) => {
                if pantry_parses(t@) {
                    assert(spec_subtraction_names_ok(t@, renamed_g, final_names));
                } else {
                    assert(final_names == renamed_g);
                }
            },
            None => {
                assert(final_names == renamed_g);
            },
        }
    }
    r
}

/// Aggregating the same entry list twice — over ingredient lists with
/// the same contents, the same aisle text and no pantry — yields
/// identical categorized structure: the same categories, holding the
/// same item names, and the same trailing custom category.
pub proof fn lemma_aggregation_idempotent(
    r1: ShoppingListResult,
    r2: ShoppingListResult,
    entries: Seq<SpecRequest>,
    atext: Seq<char>,
    names: Seq<Seq<char>>,
)
    ensures
        spec_no_pantry_ok(r1, entries, atext, names) && spec_no_pantry_ok(
            r2,
            entries,
            atext,
            names,
        ) ==> spec_structure(r1.categories@.map_values(|c: Category| c@)) == spec_structure(
            r2.categories@.map_values(|c: Category| c@),
        ) && r1.pantry_items@.len() == 0 && r2.pantry_items@.len() == 0,
{
    if spec_no_pantry_ok(r1, entries, atext, names) && spec_no_pantry_ok(
        r2,
        entries,
        atext,
        names,
    ) {
        let customs = spec_custom_items(entries);
        let cs1 = r1.categories@.map_values(|c: Category| c@);
        let cs2 = r2.categories@.map_values(|c: Category| c@);
        if customs.len() > 0 {
            let rp1 = cs1.drop_last();
            let rp2 = cs2.drop_last();
            assert(spec_structure(rp1) == spec_structure(rp2));
            assert(rp1.len() == spec_structure(rp1).len());
            assert(rp2.len() == spec_structure(rp2).len());
            assert(cs1.len() == cs2.len());
            assert forall|j: int| 0 <= j < cs1.len() implies spec_structure(cs1)[j]
                == spec_structure(cs2)[j] by {
                if j < cs1.len() - 1 {
                    assert(spec_structure(rp1)[j] == spec_structure(rp2)[j]);
                    assert(cs1[j] == rp1[j] && cs2[j] == rp2[j]);
                } else {
                    assert(cs1[j] == cs1.last() && cs2[j] == cs2.last());
                }
            }
            assert(spec_structure(cs1) =~= spec_structure(cs2));
        } else {
            assert(spec_structure(cs1) == spec_structure(cs2));
        }
    }
}

} // verus!
