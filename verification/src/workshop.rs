//! Workshop constructible objects: which recipes convert, which FO4
//! workbench a FO76 workshop category belongs to, and the category a
//! recipe's editor id suggests when its bench is the catch-all one.
use vstd::prelude::*;
use vstd::string::StringSliceAdditionalSpecFns;
use vstd::pervasive::VecAdditionalExecFns;
use crate::effects::Fo76Fo4Hook;
use crate::model::{Sym, FormKey, FieldValue, FieldEntry, SubrecordSig, Record, RecordView, EntryView,
    FieldView, code, tag, sig_is, entries_view};
use crate::fields::{first_with_sig, has_sig, find_sig, any_sig};
use crate::text::{StringInterner, lower, contains, starts_with, eq_ignore_case, lit, to_lower,
    bytes_contains, bytes_starts_with, bytes_eq_ignore_case, interned, handle_of, lemma_handle_of};

verus! {


pub const FO76_WORKSHOP_WORKBENCH_ALL_TYPE: u32 = 0x89383D;
pub const FO4_WORKSHOP_WORKBENCH_EXTERIOR: u32 = 0x05A0C8;
pub const FO4_WORKSHOP_WORKBENCH_FURNITURE: u32 = 0x05B5E3;
pub const FO4_WORKSHOP_WORKBENCH_DECORATIONS: u32 = 0x08280B;
pub const FO4_WORKSHOP_WORKBENCH_POWER: u32 = 0x05A0CA;
pub const FO4_WORKSHOP_WORKBENCH_CRAFTING: u32 = 0x12E2C8;
pub const FO4_WORKSHOP_WORKBENCH_SETTLEMENT: u32 = 0x246F85;

pub const FO76_WORKSHOP_CATEGORY_APPLIANCES: u32 = 0x04422C;
pub const FO76_WORKSHOP_CATEGORY_BEDS: u32 = 0x04640E;
pub const FO76_WORKSHOP_CATEGORY_BLUEPRINTS: u32 = 0x046411;
pub const FO76_WORKSHOP_CATEGORY_CEILING_DECOR: u32 = 0x4249B6;
pub const FO76_WORKSHOP_CATEGORY_CHAIRS: u32 = 0x04642D;
pub const FO76_WORKSHOP_CATEGORY_CONTAINERS: u32 = 0x046433;
pub const FO76_WORKSHOP_CATEGORY_CRAFTING: u32 = 0x046471;
pub const FO76_WORKSHOP_CATEGORY_DEFENSE: u32 = 0x386054;
pub const FO76_WORKSHOP_CATEGORY_DISPLAYS: u32 = 0x060B21;
pub const FO76_WORKSHOP_CATEGORY_DOORS: u32 = 0x061FA1;
pub const FO76_WORKSHOP_CATEGORY_FLOOR_DECOR: u32 = 0x062011;
pub const FO76_WORKSHOP_CATEGORY_FLOORS: u32 = 0x06201B;
pub const FO76_WORKSHOP_CATEGORY_FOOD: u32 = 0x06201D;
pub const FO76_WORKSHOP_CATEGORY_GENERATORS: u32 = 0x06201E;
pub const FO76_WORKSHOP_CATEGORY_LIGHTS: u32 = 0x06201F;
pub const FO76_WORKSHOP_CATEGORY_MISC_STRUCTURES: u32 = 0x11C420;
pub const FO76_WORKSHOP_CATEGORY_POWER_CONNECTORS: u32 = 0x08032C;
pub const FO76_WORKSHOP_CATEGORY_RESOURCES: u32 = 0x095A38;
pub const FO76_WORKSHOP_CATEGORY_ROOFS: u32 = 0x12882C;
pub const FO76_WORKSHOP_CATEGORY_SHELTERS: u32 = 0x5A60A0;
pub const FO76_WORKSHOP_CATEGORY_SHELVES: u32 = 0x12882D;
pub const FO76_WORKSHOP_CATEGORY_STAIRS: u32 = 0x12882E;
pub const FO76_WORKSHOP_CATEGORY_TABLES: u32 = 0x1573C7;
pub const FO76_WORKSHOP_CATEGORY_TURRETS_TRAPS: u32 = 0x05294F;
pub const FO76_WORKSHOP_CATEGORY_VENDORS: u32 = 0x12882F;
pub const FO76_WORKSHOP_CATEGORY_WALL_DECOR: u32 = 0x1573EE;
pub const FO76_WORKSHOP_CATEGORY_WALLS: u32 = 0x1573F0;
pub const FO76_WORKSHOP_CATEGORY_WATER: u32 = 0x1573F7;
pub const FO76_WORKSHOP_CATEGORY_DWELLERS: u32 = 0x54EB71;
pub const FO76_WORKSHOP_CATEGORY_PETS: u32 = 0x411B84;
pub const FO76_WORKSHOP_CATEGORY_QUEST: u32 = 0x5895EE;
pub const FO76_WORKSHOP_CATEGORY_MAIN_STRUCTURE: u32 = 0x8229E6;
pub const FO76_WORKSHOP_CATEGORY_MAIN_FURNITURE: u32 = 0x8229E2;
pub const FO76_WORKSHOP_CATEGORY_MAIN_DECORATIONS: u32 = 0x8229E3;
pub const FO76_WORKSHOP_CATEGORY_MAIN_DEFENSE: u32 = 0x8229DF;
pub const FO76_WORKSHOP_CATEGORY_MAIN_POWER: u32 = 0x8229E0;
pub const FO76_WORKSHOP_CATEGORY_MAIN_RESOURCES: u32 = 0x8229E1;
pub const FO76_WORKSHOP_CATEGORY_MAIN_STORAGE: u32 = 0x8229E5;
pub const FO76_WORKSHOP_CATEGORY_MAIN_UTILITY: u32 = 0x822A19;
pub const FO76_WORKSHOP_CATEGORY_MAIN_DWELLERS: u32 = 0x8229E7;
pub const FO76_WORKSHOP_CATEGORY_MAIN_QUEST: u32 = 0x8229DD;

/// Categories whose pieces are built at the FO4 furniture workbench.
pub open spec fn furniture_category(c: u32) -> bool {
    c == FO76_WORKSHOP_CATEGORY_APPLIANCES || c == FO76_WORKSHOP_CATEGORY_BEDS
        || c == FO76_WORKSHOP_CATEGORY_CHAIRS || c == FO76_WORKSHOP_CATEGORY_CONTAINERS
        || c == FO76_WORKSHOP_CATEGORY_DISPLAYS || c == FO76_WORKSHOP_CATEGORY_SHELVES
        || c == FO76_WORKSHOP_CATEGORY_TABLES || c == FO76_WORKSHOP_CATEGORY_MAIN_FURNITURE
        || c == FO76_WORKSHOP_CATEGORY_MAIN_STORAGE
}

/// Categories whose pieces are built at the FO4 decorations workbench.
pub open spec fn decoration_category(c: u32) -> bool {
    c == FO76_WORKSHOP_CATEGORY_CEILING_DECOR || c == FO76_WORKSHOP_CATEGORY_FLOOR_DECOR
        || c == FO76_WORKSHOP_CATEGORY_WALL_DECOR || c == FO76_WORKSHOP_CATEGORY_MAIN_DECORATIONS
}

/// Categories whose pieces are built at the FO4 power workbench.
pub open spec fn power_category(c: u32) -> bool {
    c == FO76_WORKSHOP_CATEGORY_GENERATORS || c == FO76_WORKSHOP_CATEGORY_LIGHTS
        || c == FO76_WORKSHOP_CATEGORY_POWER_CONNECTORS || c == FO76_WORKSHOP_CATEGORY_MAIN_POWER
}

/// Categories whose pieces are built at the FO4 crafting workbench.
pub open spec fn crafting_category(c: u32) -> bool {
    c == FO76_WORKSHOP_CATEGORY_CRAFTING || c == FO76_WORKSHOP_CATEGORY_MAIN_UTILITY
}

/// Categories whose pieces are built at the FO4 settlement workbench.
pub open spec fn settlement_category(c: u32) -> bool {
    c == FO76_WORKSHOP_CATEGORY_RESOURCES || c == FO76_WORKSHOP_CATEGORY_VENDORS
        || c == FO76_WORKSHOP_CATEGORY_DWELLERS || c == FO76_WORKSHOP_CATEGORY_PETS
        || c == FO76_WORKSHOP_CATEGORY_MAIN_DWELLERS
}

/// Categories whose pieces are built at the FO4 exterior workbench.
pub open spec fn exterior_category(c: u32) -> bool {
    c == FO76_WORKSHOP_CATEGORY_BLUEPRINTS || c == FO76_WORKSHOP_CATEGORY_DEFENSE
        || c == FO76_WORKSHOP_CATEGORY_DOORS || c == FO76_WORKSHOP_CATEGORY_FLOORS
        || c == FO76_WORKSHOP_CATEGORY_FOOD || c == FO76_WORKSHOP_CATEGORY_MISC_STRUCTURES
        || c == FO76_WORKSHOP_CATEGORY_ROOFS || c == FO76_WORKSHOP_CATEGORY_SHELTERS
        || c == FO76_WORKSHOP_CATEGORY_STAIRS || c == FO76_WORKSHOP_CATEGORY_TURRETS_TRAPS
        || c == FO76_WORKSHOP_CATEGORY_WALLS || c == FO76_WORKSHOP_CATEGORY_WATER
        || c == FO76_WORKSHOP_CATEGORY_QUEST || c == FO76_WORKSHOP_CATEGORY_MAIN_STRUCTURE
        || c == FO76_WORKSHOP_CATEGORY_MAIN_DEFENSE || c == FO76_WORKSHOP_CATEGORY_MAIN_RESOURCES
        || c == FO76_WORKSHOP_CATEGORY_MAIN_QUEST
}

/// The FO4 workbench that builds the pieces of a FO76 workshop category.
pub open spec fn category_workbench(c: u32) -> Option<u32> {
    if furniture_category(c) {
        Some(FO4_WORKSHOP_WORKBENCH_FURNITURE)
    } else if decoration_category(c) {
        Some(FO4_WORKSHOP_WORKBENCH_DECORATIONS)
    } else if power_category(c) {
        Some(FO4_WORKSHOP_WORKBENCH_POWER)
    } else if crafting_category(c) {
        Some(FO4_WORKSHOP_WORKBENCH_CRAFTING)
    } else if settlement_category(c) {
        Some(FO4_WORKSHOP_WORKBENCH_SETTLEMENT)
    } else if exterior_category(c) {
        Some(FO4_WORKSHOP_WORKBENCH_EXTERIOR)
    } else {
        None
    }
}

/// Whether `s` names either word.
pub open spec fn names_either(s: Seq<u8>, a: &str, b: &str) -> bool {
    contains(s, a.spec_bytes()) || contains(s, b.spec_bytes())
}

/// Whether `s` names any of three words.
pub open spec fn names_any3(s: Seq<u8>, a: &str, b: &str, c: &str) -> bool {
    contains(s, a.spec_bytes()) || contains(s, b.spec_bytes()) || contains(s, c.spec_bytes())
}

/// The workshop category that a lower-case editor id names, by the first
/// keyword family it contains (camp fires are handled before this).
#[verifier::opaque]
pub open spec fn named_category(e: Seq<u8>) -> u32 {
    if names_either(e, "walldecor", "wall_decor") {
        FO76_WORKSHOP_CATEGORY_WALL_DECOR
    } else if names_either(e, "floordecor", "floor_decor") {
        FO76_WORKSHOP_CATEGORY_FLOOR_DECOR
    } else if names_either(e, "ceilingdecor", "ceiling_decor") {
        FO76_WORKSHOP_CATEGORY_CEILING_DECOR
    } else if contains(e, "generator".spec_bytes()) {
        FO76_WORKSHOP_CATEGORY_GENERATORS
    } else if names_either(e, "powerconnector", "power_connector") {
        FO76_WORKSHOP_CATEGORY_POWER_CONNECTORS
    } else if names_either(e, "light", "lamp") {
        FO76_WORKSHOP_CATEGORY_LIGHTS
    } else if names_either(e, "crafting", "workbench") {
        FO76_WORKSHOP_CATEGORY_CRAFTING
    } else if names_either(e, "vendor", "vending") {
        FO76_WORKSHOP_CATEGORY_VENDORS
    } else if contains(e, "display".spec_bytes()) {
        FO76_WORKSHOP_CATEGORY_DISPLAYS
    } else if names_either(e, "container", "stash") {
        FO76_WORKSHOP_CATEGORY_CONTAINERS
    } else if contains(e, "shelf".spec_bytes()) {
        FO76_WORKSHOP_CATEGORY_SHELVES
    } else if contains(e, "table".spec_bytes()) {
        FO76_WORKSHOP_CATEGORY_TABLES
    } else if names_either(e, "chair", "seating") {
        FO76_WORKSHOP_CATEGORY_CHAIRS
    } else if contains(e, "bed".spec_bytes()) {
        FO76_WORKSHOP_CATEGORY_BEDS
    } else if names_either(e, "appliance", "utility") {
        FO76_WORKSHOP_CATEGORY_APPLIANCES
    } else if names_any3(e, "turret", "trap", "defense") {
        FO76_WORKSHOP_CATEGORY_TURRETS_TRAPS
    } else if contains(e, "water".spec_bytes()) {
        FO76_WORKSHOP_CATEGORY_WATER
    } else if names_any3(e, "food", "crop", "plant") {
        FO76_WORKSHOP_CATEGORY_FOOD
    } else if names_any3(e, "resource", "collector", "producer") {
        FO76_WORKSHOP_CATEGORY_RESOURCES
    } else if contains(e, "door".spec_bytes()) {
        FO76_WORKSHOP_CATEGORY_DOORS
    } else if contains(e, "roof".spec_bytes()) {
        FO76_WORKSHOP_CATEGORY_ROOFS
    } else if contains(e, "stair".spec_bytes()) {
        FO76_WORKSHOP_CATEGORY_STAIRS
    } else if names_either(e, "floor", "foundation") {
        FO76_WORKSHOP_CATEGORY_FLOORS
    } else if contains(e, "wall".spec_bytes()) {
        FO76_WORKSHOP_CATEGORY_WALLS
    } else if contains(e, "shelter".spec_bytes()) {
        FO76_WORKSHOP_CATEGORY_SHELTERS
    } else if contains(e, "pet".spec_bytes()) {
        FO76_WORKSHOP_CATEGORY_PETS
    } else if names_either(e, "dweller", "ally") {
        FO76_WORKSHOP_CATEGORY_DWELLERS
    } else if contains(e, "quest".spec_bytes()) {
        FO76_WORKSHOP_CATEGORY_QUEST
    } else if names_any3(e, "decor", "rug", "statue") {
        FO76_WORKSHOP_CATEGORY_FLOOR_DECOR
    } else {
        FO76_WORKSHOP_CATEGORY_MISC_STRUCTURES
    }
}

/// Whether a lower-case editor id names a camp fire or fire barrel.
pub open spec fn names_fire(e: Seq<u8>) -> bool {
    names_either(e, "campfire", "camp_fire") || names_either(e, "firebarrel", "fire_barrel")
}

/// The (category, FO4 workbench) pair inferred from an editor id: camp
/// fires are lights built at the furniture bench; otherwise the named
/// category and its bench (the exterior bench when it has none).
#[verifier::opaque]
pub open spec fn inferred_category(eid: Seq<u8>) -> (u32, u32) {
    let e = lower(eid);
    if names_fire(e) {
        (FO76_WORKSHOP_CATEGORY_LIGHTS, FO4_WORKSHOP_WORKBENCH_FURNITURE)
    } else {
        let c = named_category(e);
        (c, match category_workbench(c) {
            Some(w) => w,
            None => FO4_WORKSHOP_WORKBENCH_EXTERIOR,
        })
    }
}

/// A recipe family that never converts: it starts with the family name or
/// contains it after an underscore.
pub open spec fn in_family(e: Seq<u8>, family: Seq<u8>) -> bool {
    starts_with(e, family) || contains(e, seq![95u8] + family)
}

/// Whether a lower-case editor id belongs to an excluded recipe family.
pub open spec fn excluded_recipe_family(e: Seq<u8>) -> bool {
    in_family(e, "co_mod".spec_bytes()) || in_family(e, "co_clothes".spec_bytes())
        || in_family(e, "co_cloths".spec_bytes())
}

/// Whether a lower-case editor id names a convertible workshop recipe.
pub open spec fn workshop_recipe_eid(e: Seq<u8>) -> bool {
    &&& (starts_with(e, "workshop_".spec_bytes()) || contains(e, "_workshop_".spec_bytes()))
    &&& !starts_with(e, "zzz".spec_bytes())
    &&& !excluded_recipe_family(e)
}

/// A `COBJ` whose editor id resolves and names a convertible workshop recipe.
pub open spec fn convertible_workshop_cobj(interner: StringInterner, r: RecordView) -> bool {
    &&& r.sig == code('C', 'O', 'B', 'J')
    &&& r.eid is Some
    &&& interner.spec_resolve(r.eid->0) is Some
    &&& workshop_recipe_eid(lower(interner.spec_resolve(r.eid->0)->0))
}


/// A `CNAM` entry naming a created object with a non-zero id.
pub open spec fn created_object_entry(e: EntryView) -> bool {
    e.sig == code('C', 'N', 'A', 'M') && (e.value matches FieldView::FormKey(fk) && fk.local != 0)
}

/// Whether some entry names a created object.
pub open spec fn creates_object(fields: Seq<EntryView>) -> bool {
    exists|j: int| 0 <= j < fields.len() && #[trigger] created_object_entry(fields[j])
}

/// Whether a plugin handle names the FO76 master, ignoring case.
pub open spec fn names_fo76_master(interner: StringInterner, plugin: Sym) -> bool {
    interner.spec_resolve(plugin) matches Some(p) && eq_ignore_case(p, "SeventySix.esm".spec_bytes())
}

/// When a workshop recipe is rewritten: the index of its bench entry and
/// the category and FO4 workbench it gets. A recipe is rewritten when it is
/// a convertible workshop `COBJ` that creates an object and whose first
/// `BNAM` is a FO76 form: the catch-all bench infers the category from the
/// editor id; any other bench is itself the category, and the recipe is
/// left alone when no FO4 bench builds that category.
pub open spec fn workshop_plan(interner: StringInterner, r: RecordView) -> Option<(int, u32, u32)> {
    if !convertible_workshop_cobj(interner, r) || !creates_object(r.fields) {
        None
    } else {
        match first_with_sig(r.fields, code('B', 'N', 'A', 'M')) {
            None => None,
            Some(b) => match r.fields[b].value {
                FieldView::FormKey(src) => if !names_fo76_master(interner, src.plugin) {
                    None
                } else if src.local == FO76_WORKSHOP_WORKBENCH_ALL_TYPE {
                    let pair = inferred_category(interner.spec_resolve(r.eid->0)->0);
                    Some((b, pair.0, pair.1))
                } else {
                    match category_workbench(src.local) {
                        Some(w) => Some((b, src.local, w)),
                        None => None,
                    }
                },
                _ => None,
            },
        }
    }
}

/// The recipe with its bench entry pointing at FO4 workbench `w` (a form of
/// the FO4 master `fo4`) and, when it has no `FNAM`, a `FNAM` listing
/// category `c` (a form of the FO76 master `fo76`) right after the bench.
pub open spec fn rewritten_workshop(r: RecordView, b: int, c: u32, w: u32, fo76: Sym, fo4: Sym) -> RecordView {
    let bench = EntryView {
        sig: code('B', 'N', 'A', 'M'),
        value: FieldView::FormKey(FormKey { local: w, plugin: fo4 }),
    };
    let updated = r.fields.update(b, bench);
    let category = EntryView {
        sig: code('F', 'N', 'A', 'M'),
        value: FieldView::List(seq![FieldView::FormKey(FormKey { local: c, plugin: fo76 })]),
    };
    RecordView {
        fields: if has_sig(r.fields, code('F', 'N', 'A', 'M')) {
            updated
        } else {
            updated.insert(b + 1, category)
        },
        ..r
    }
}

fn creates_object_exec(fields: &Vec<FieldEntry>) -> (r: bool)
    ensures
        r == creates_object(entries_view(fields@)),
{
    let ghost v = entries_view(fields@);
    let mut i: usize = 0;
    while i < fields.len()
        invariant
            i <= fields@.len(),
            v == entries_view(fields@),
            forall|j: int|
                0 <= j < i ==> !#[trigger] created_object_entry(v[j]),
        decreases fields@.len() - i,
    {
        assert(v[i as int] == fields@[i as int]@);
        if sig_is(fields[i].sig.0, 'C', 'N', 'A', 'M') {
            if let FieldValue::FormKey(fk) = &fields[i].value {
                if fk.local != 0 {
                    assert(created_object_entry(v[i as int]));
                    return true;
                }
            }
        }
        i = i + 1;
    }
    false
}

fn names_either_exec(e: &[u8], a: &str, b: &str) -> (r: bool)
    ensures
        r == names_either(e@, a, b),
{
    bytes_contains(e, lit(a)) || bytes_contains(e, lit(b))
}

fn names_any3_exec(e: &[u8], a: &str, b: &str, c: &str) -> (r: bool)
    ensures
        r == names_any3(e@, a, b, c),
{
    bytes_contains(e, lit(a)) || bytes_contains(e, lit(b)) || bytes_contains(e, lit(c))
}

fn named_category_exec(e: &[u8]) -> (r: u32)
    ensures
        r == named_category(e@),
{
    reveal(named_category);
    if names_either_exec(e, "walldecor", "wall_decor") {
        FO76_WORKSHOP_CATEGORY_WALL_DECOR
    } else if names_either_exec(e, "floordecor", "floor_decor") {
        FO76_WORKSHOP_CATEGORY_FLOOR_DECOR
    } else if names_either_exec(e, "ceilingdecor", "ceiling_decor") {
        FO76_WORKSHOP_CATEGORY_CEILING_DECOR
    } else if bytes_contains(e, lit("generator")) {
        FO76_WORKSHOP_CATEGORY_GENERATORS
    } else if names_either_exec(e, "powerconnector", "power_connector") {
        FO76_WORKSHOP_CATEGORY_POWER_CONNECTORS
    } else if names_either_exec(e, "light", "lamp") {
        FO76_WORKSHOP_CATEGORY_LIGHTS
    } else if names_either_exec(e, "crafting", "workbench") {
        FO76_WORKSHOP_CATEGORY_CRAFTING
    } else if names_either_exec(e, "vendor", "vending") {
        FO76_WORKSHOP_CATEGORY_VENDORS
    } else if bytes_contains(e, lit("display")) {
        FO76_WORKSHOP_CATEGORY_DISPLAYS
    } else if names_either_exec(e, "container", "stash") {
        FO76_WORKSHOP_CATEGORY_CONTAINERS
    } else if bytes_contains(e, lit("shelf")) {
        FO76_WORKSHOP_CATEGORY_SHELVES
    } else if bytes_contains(e, lit("table")) {
        FO76_WORKSHOP_CATEGORY_TABLES
    } else if names_either_exec(e, "chair", "seating") {
        FO76_WORKSHOP_CATEGORY_CHAIRS
    } else if bytes_contains(e, lit("bed")) {
        FO76_WORKSHOP_CATEGORY_BEDS
    } else if names_either_exec(e, "appliance", "utility") {
        FO76_WORKSHOP_CATEGORY_APPLIANCES
    } else if names_any3_exec(e, "turret", "trap", "defense") {
        FO76_WORKSHOP_CATEGORY_TURRETS_TRAPS
    } else if bytes_contains(e, lit("water")) {
        FO76_WORKSHOP_CATEGORY_WATER
    } else if names_any3_exec(e, "food", "crop", "plant") {
        FO76_WORKSHOP_CATEGORY_FOOD
    } else if names_any3_exec(e, "resource", "collector", "producer") {
        FO76_WORKSHOP_CATEGORY_RESOURCES
    } else if bytes_contains(e, lit("door")) {
        FO76_WORKSHOP_CATEGORY_DOORS
    } else if bytes_contains(e, lit("roof")) {
        FO76_WORKSHOP_CATEGORY_ROOFS
    } else if bytes_contains(e, lit("stair")) {
        FO76_WORKSHOP_CATEGORY_STAIRS
    } else if names_either_exec(e, "floor", "foundation") {
        FO76_WORKSHOP_CATEGORY_FLOORS
    } else if bytes_contains(e, lit("wall")) {
        FO76_WORKSHOP_CATEGORY_WALLS
    } else if bytes_contains(e, lit("shelter")) {
        FO76_WORKSHOP_CATEGORY_SHELTERS
    } else if bytes_contains(e, lit("pet")) {
        FO76_WORKSHOP_CATEGORY_PETS
    } else if names_either_exec(e, "dweller", "ally") {
        FO76_WORKSHOP_CATEGORY_DWELLERS
    } else if bytes_contains(e, lit("quest")) {
        FO76_WORKSHOP_CATEGORY_QUEST
    } else if names_any3_exec(e, "decor", "rug", "statue") {
        FO76_WORKSHOP_CATEGORY_FLOOR_DECOR
    } else {
        FO76_WORKSHOP_CATEGORY_MISC_STRUCTURES
    }
}

fn in_family_exec(e: &[u8], family: &str) -> (r: bool)
    ensures
        r == in_family(e@, family.spec_bytes()),
{
    let f = lit(family);
    let mut underscored: Vec<u8> = Vec::new();
    underscored.push(95u8);
    let mut i: usize = 0;
    while i < f.len()
        invariant
            i <= f@.len(),
            underscored@ == seq![95u8] + f@.take(i as int),
        decreases f@.len() - i,
    {
        underscored.push(f[i]);
        i = i + 1;
        assert(underscored@ =~= seq![95u8] + f@.take(i as int));
    }
    assert(f@.take(f@.len() as int) =~= f@);
    bytes_starts_with(e, f) || bytes_contains(e, underscored.as_slice())
}

impl Fo76Fo4Hook {
    /// The FO4 workbench for a FO76 workshop category; `None` for a
    /// category no FO4 bench builds.
    pub fn workshop_category_workbench(category: u32) -> (r: Option<u32>)
        ensures
            r == category_workbench(category),
    {
        let c = category;
        if c == FO76_WORKSHOP_CATEGORY_APPLIANCES || c == FO76_WORKSHOP_CATEGORY_BEDS
            || c == FO76_WORKSHOP_CATEGORY_CHAIRS || c == FO76_WORKSHOP_CATEGORY_CONTAINERS
            || c == FO76_WORKSHOP_CATEGORY_DISPLAYS || c == FO76_WORKSHOP_CATEGORY_SHELVES
            || c == FO76_WORKSHOP_CATEGORY_TABLES || c == FO76_WORKSHOP_CATEGORY_MAIN_FURNITURE
            || c == FO76_WORKSHOP_CATEGORY_MAIN_STORAGE {
            Some(FO4_WORKSHOP_WORKBENCH_FURNITURE)
        } else if c == FO76_WORKSHOP_CATEGORY_CEILING_DECOR
            || c == FO76_WORKSHOP_CATEGORY_FLOOR_DECOR || c == FO76_WORKSHOP_CATEGORY_WALL_DECOR
            || c == FO76_WORKSHOP_CATEGORY_MAIN_DECORATIONS {
            Some(FO4_WORKSHOP_WORKBENCH_DECORATIONS)
        } else if c == FO76_WORKSHOP_CATEGORY_GENERATORS || c == FO76_WORKSHOP_CATEGORY_LIGHTS
            || c == FO76_WORKSHOP_CATEGORY_POWER_CONNECTORS
            || c == FO76_WORKSHOP_CATEGORY_MAIN_POWER {
            Some(FO4_WORKSHOP_WORKBENCH_POWER)
        } else if c == FO76_WORKSHOP_CATEGORY_CRAFTING || c == FO76_WORKSHOP_CATEGORY_MAIN_UTILITY {
            Some(FO4_WORKSHOP_WORKBENCH_CRAFTING)
        } else if c == FO76_WORKSHOP_CATEGORY_RESOURCES || c == FO76_WORKSHOP_CATEGORY_VENDORS
            || c == FO76_WORKSHOP_CATEGORY_DWELLERS || c == FO76_WORKSHOP_CATEGORY_PETS
            || c == FO76_WORKSHOP_CATEGORY_MAIN_DWELLERS {
            Some(FO4_WORKSHOP_WORKBENCH_SETTLEMENT)
        } else if c == FO76_WORKSHOP_CATEGORY_BLUEPRINTS || c == FO76_WORKSHOP_CATEGORY_DEFENSE
            || c == FO76_WORKSHOP_CATEGORY_DOORS || c == FO76_WORKSHOP_CATEGORY_FLOORS
            || c == FO76_WORKSHOP_CATEGORY_FOOD || c == FO76_WORKSHOP_CATEGORY_MISC_STRUCTURES
            || c == FO76_WORKSHOP_CATEGORY_ROOFS || c == FO76_WORKSHOP_CATEGORY_SHELTERS
            || c == FO76_WORKSHOP_CATEGORY_STAIRS || c == FO76_WORKSHOP_CATEGORY_TURRETS_TRAPS
            || c == FO76_WORKSHOP_CATEGORY_WALLS || c == FO76_WORKSHOP_CATEGORY_WATER
            || c == FO76_WORKSHOP_CATEGORY_QUEST || c == FO76_WORKSHOP_CATEGORY_MAIN_STRUCTURE
            || c == FO76_WORKSHOP_CATEGORY_MAIN_DEFENSE
            || c == FO76_WORKSHOP_CATEGORY_MAIN_RESOURCES
            || c == FO76_WORKSHOP_CATEGORY_MAIN_QUEST {
            Some(FO4_WORKSHOP_WORKBENCH_EXTERIOR)
        } else {
            None
        }
    }

    /// The (category, FO4 workbench) pair an editor id suggests for a recipe
    /// made at the catch-all bench.
    pub fn infer_workshop_category(eid: &[u8]) -> (r: (u32, u32))
        ensures
            r == inferred_category(eid@),
    {
        reveal(inferred_category);
        let e = to_lower(eid);
        let s = e.as_slice();
        if names_either_exec(s, "campfire", "camp_fire") || names_either_exec(
            s,
            "firebarrel",
            "fire_barrel",
        ) {
            return (FO76_WORKSHOP_CATEGORY_LIGHTS, FO4_WORKSHOP_WORKBENCH_FURNITURE);
        }
        let category = named_category_exec(s);
        let workbench = match Self::workshop_category_workbench(category) {
            Some(w) => w,
            None => FO4_WORKSHOP_WORKBENCH_EXTERIOR,
        };
        (category, workbench)
    }

    /// Whether a record is a `COBJ` recipe for a convertible workshop piece.
    pub fn is_convertible_workshop_cobj(interner: &StringInterner, record: &Record) -> (r: bool)
        ensures
            r == convertible_workshop_cobj(*interner, record@),
    {
        if !sig_is(record.sig.0, 'C', 'O', 'B', 'J') {
            return false;
        }
        let Some(sym) = record.eid else {
            return false;
        };
        let Some(text) = interner.resolve(sym) else {
            return false;
        };
        let e = to_lower(text);
        let s = e.as_slice();
        let has_workshop_token = bytes_starts_with(s, lit("workshop_")) || bytes_contains(
            s,
            lit("_workshop_"),
        );
        let excluded = in_family_exec(s, "co_mod") || in_family_exec(s, "co_clothes")
            || in_family_exec(s, "co_cloths");
        has_workshop_token && !bytes_starts_with(s, lit("zzz")) && !excluded
    }

    /// Move a FO76 workshop recipe onto the matching FO4 workbench and give
    /// it its category. New master handles come from `interner`.
    pub fn normalize_workshop_cobj(interner: &mut StringInterner, record: &mut Record)
        requires
            old(interner).wf(),
            old(interner)@.len() + 2 <= u32::MAX,
        ensures
            old(interner)@.contains("SeventySix.esm".spec_bytes()) && old(interner)@.contains("Fallout4.esm".spec_bytes()) ==> *final(interner) == *old(interner),
            final(interner).wf(),
            workshop_plan(*old(interner), old(record)@) is None ==> final(record)@ == old(record)@
                && final(interner)@ == old(interner)@,
            workshop_plan(*old(interner), old(record)@) matches Some(plan) ==> {
                &&& final(interner)@ == interned(
                    interned(old(interner)@, "SeventySix.esm".spec_bytes()),
                    "Fallout4.esm".spec_bytes(),
                )
                &&& final(record)@ == rewritten_workshop(
                    old(record)@,
                    plan.0,
                    plan.1,
                    plan.2,
                    handle_of(final(interner)@, "SeventySix.esm".spec_bytes()),
                    handle_of(final(interner)@, "Fallout4.esm".spec_bytes()),
                )
            },
    {
        let ghost r0 = record@;
        let ghost i0 = *interner;
        if !Self::is_convertible_workshop_cobj(interner, record) {
            return;
        }
        if !creates_object_exec(&record.fields) {
            return;
        }
        let Some(b) = find_sig(&record.fields, tag('B', 'N', 'A', 'M')) else {
            return;
        };
        assert(r0.fields[b as int] == record.fields@[b as int]@);
        let source = match &record.fields[b].value {
            FieldValue::FormKey(fk) => *fk,
            _ => {
                return;
            },
        };
        let from_fo76 = match interner.resolve(source.plugin) {
            Some(p) => bytes_eq_ignore_case(p, lit("SeventySix.esm")),
            None => false,
        };
        if !from_fo76 {
            return;
        }
        let pair = if source.local == FO76_WORKSHOP_WORKBENCH_ALL_TYPE {
            let text = match record.eid {
                Some(sym) => match interner.resolve(sym) {
                    Some(t) => t,
                    None => lit(""),
                },
                None => lit(""),
            };
            Self::infer_workshop_category(text)
        } else {
            match Self::workshop_category_workbench(source.local) {
                Some(w) => (source.local, w),
                None => {
                    return;
                },
            }
        };
        assert(workshop_plan(i0, r0) == Some((b as int, pair.0, pair.1)));
        let fo76 = interner.intern_str("SeventySix.esm");
        let fo4 = interner.intern_str("Fallout4.esm");
        proof {
            assert(interner.spec_resolve(fo76) == Some("SeventySix.esm".spec_bytes())) by {
                reveal_strlit("SeventySix.esm");
                reveal_strlit("Fallout4.esm");
            }
            lemma_handle_of(*interner, fo76, "SeventySix.esm".spec_bytes());
            lemma_handle_of(*interner, fo4, "Fallout4.esm".spec_bytes());
        }
        let has_category = any_sig(&record.fields, tag('F', 'N', 'A', 'M'));
        let n = record.fields.len();
        record.fields.set(
            b,
            FieldEntry {
                sig: SubrecordSig(tag('B', 'N', 'A', 'M')),
                value: FieldValue::FormKey(FormKey { local: pair.1, plugin: fo4 }),
            },
        );
        if !has_category {
            let mut items: Vec<FieldValue> = Vec::new();
            items.push(FieldValue::FormKey(FormKey { local: pair.0, plugin: fo76 }));
            let entry = FieldEntry { sig: SubrecordSig(tag('F', 'N', 'A', 'M')), value: FieldValue::List(items) };
            proof {
                crate::model::lemma_list_view(entry.value);
                assert(crate::model::values_view(entry.value->List_0@) =~= seq![FieldView::FormKey(FormKey { local: pair.0, plugin: fo76 })]);
            }
            assert(record.fields@.len() == n && b < n);
            record.fields.insert(b + 1, entry);
        }
        let ghost target = rewritten_workshop(r0, b as int, pair.0, pair.1, fo76, fo4);
        assert(record@.fields =~= target.fields);
    }
}


/// The category inferred from an editor id does not depend on its case:
/// camp fires and fire barrels are lights built at the furniture bench, and
/// every other id gets a category together with the FO4 bench that builds
/// it.
pub proof fn law_workshop_category_ignores_case(eid: Seq<u8>)
    ensures
        inferred_category(eid) == inferred_category(lower(eid)),
        names_fire(lower(eid)) ==> inferred_category(eid) == (
            FO76_WORKSHOP_CATEGORY_LIGHTS,
            FO4_WORKSHOP_WORKBENCH_FURNITURE,
        ),
        !names_fire(lower(eid)) ==> category_workbench(inferred_category(eid).0) == Some(
            inferred_category(eid).1,
        ),
{
    reveal(inferred_category);
    reveal(named_category);
    assert(lower(lower(eid)) =~= lower(eid));
}


/// Each group of FO76 workshop categories is built at its own FO4
/// workbench: furniture (0x05B5E3), decorations (0x08280B), power
/// (0x05A0CA), crafting (0x12E2C8), settlement (0x246F85) and exterior
/// (0x05A0C8); any other category has no bench.
pub proof fn law_workbench_per_category(c: u32)
    ensures
        (c == 0x04422Cu32 || c == 0x04640Eu32 || c == 0x04642Du32 || c == 0x046433u32 || c == 0x060B21u32 || c == 0x12882Du32 || c == 0x1573C7u32 || c == 0x8229E2u32 || c == 0x8229E5u32) <==> category_workbench(c) == Some(0x05B5E3u32),
        (c == 0x4249B6u32 || c == 0x062011u32 || c == 0x1573EEu32 || c == 0x8229E3u32) <==> category_workbench(c) == Some(0x08280Bu32),
        (c == 0x06201Eu32 || c == 0x06201Fu32 || c == 0x08032Cu32 || c == 0x8229E0u32) <==> category_workbench(c) == Some(0x05A0CAu32),
        (c == 0x046471u32 || c == 0x822A19u32) <==> category_workbench(c) == Some(0x12E2C8u32),
        (c == 0x095A38u32 || c == 0x12882Fu32 || c == 0x54EB71u32 || c == 0x411B84u32 || c == 0x8229E7u32) <==> category_workbench(c) == Some(0x246F85u32),
        (c == 0x046411u32 || c == 0x386054u32 || c == 0x061FA1u32 || c == 0x06201Bu32 || c == 0x06201Du32 || c == 0x11C420u32 || c == 0x12882Cu32 || c == 0x5A60A0u32 || c == 0x12882Eu32 || c == 0x05294Fu32 || c == 0x1573F0u32 || c == 0x1573F7u32 || c == 0x5895EEu32 || c == 0x8229E6u32 || c == 0x8229DFu32 || c == 0x8229E1u32 || c == 0x8229DDu32) <==> category_workbench(c) == Some(0x05A0C8u32),
        category_workbench(c) is None <==> !((c == 0x04422Cu32 || c == 0x04640Eu32 || c == 0x04642Du32 || c == 0x046433u32 || c == 0x060B21u32 || c == 0x12882Du32 || c == 0x1573C7u32 || c == 0x8229E2u32 || c == 0x8229E5u32) || (c == 0x4249B6u32 || c == 0x062011u32 || c == 0x1573EEu32 || c == 0x8229E3u32) || (c == 0x06201Eu32 || c == 0x06201Fu32 || c == 0x08032Cu32 || c == 0x8229E0u32) || (c == 0x046471u32 || c == 0x822A19u32) || (c == 0x095A38u32 || c == 0x12882Fu32 || c == 0x54EB71u32 || c == 0x411B84u32 || c == 0x8229E7u32) || (c == 0x046411u32 || c == 0x386054u32 || c == 0x061FA1u32 || c == 0x06201Bu32 || c == 0x06201Du32 || c == 0x11C420u32 || c == 0x12882Cu32 || c == 0x5A60A0u32 || c == 0x12882Eu32 || c == 0x05294Fu32 || c == 0x1573F0u32 || c == 0x1573F7u32 || c == 0x5895EEu32 || c == 0x8229E6u32 || c == 0x8229DFu32 || c == 0x8229E1u32 || c == 0x8229DDu32)),
{
}

/// A converted crafting recipe (category Crafting 0x046471 or main Utility
/// 0x822A19) is moved onto the FO4 crafting workbench, 0x12E2C8.
pub proof fn law_crafting_recipes_on_crafting_bench(interner: StringInterner, r: RecordView)
    ensures
        workshop_plan(interner, r) matches Some((_b, c, w)) ==> ((c == 0x046471u32 || c == 0x822A19u32) ==> w
            == 0x12E2C8u32),
{
    if let Some((_b, c, _w)) = workshop_plan(interner, r) {
        law_workbench_per_category(c);
        if r.eid is Some && interner.spec_resolve(r.eid->0) is Some {
            law_workshop_category_ignores_case(interner.spec_resolve(r.eid->0)->0);
        }
    }
}

} // verus!
