//! The two record passes of the FO76 → FO4 pair: the steps before the
//! generic mapper sees a record, and the steps after it has mapped one.
//!
//! Every member name and master file the steps may write is interned once,
//! by `intern_hook_names`, before the passes run; with those names held the
//! passes leave the interner as it is.
use vstd::prelude::*;
use vstd::string::StringSliceAdditionalSpecFns;
use crate::actors::{
    bod2_without, has_upper_body_skin, is_chinese_stealth_arma, is_rd01_assassin, pipboy_mask, record_passed,
    upper_body_skin_mask, zero_health_scan, EntryPass,
};
use crate::conditions::without_incompatible_conditions;
use crate::effects::Fo76Fo4Hook;
use crate::furniture::{
    invalid_marker_bits, keyword_total, markers_cleared, needs_power_armor_vmad, player_path_added, rows_projected,
    term_scan,
};
use crate::leveled::{holds_leveled_names, leveled_converted, leveled_name_list, leveled_names, leveled_sig};
use crate::lights::{cage_bulb_normalized, fade_ensured, has_cage_bulb_gobo, light_data_normalized, light_radius_ensured};
use crate::markers::{dial_entry_remapped, tnam_mapped};
use crate::model::{code, EntryView, FieldView, Record, RecordView};
use crate::normalize::{idlf_masked, map_fields, truncated_entry, znam_renamed};
use crate::omod::{
    invalid_properties_stripped, material_models_stripped, material_swap_functions_normalized, mstt_data_dropped,
    redundant_target_keywords_stripped, tesla_receiver_stripped,
};
use crate::pack::{
    alias_target_neutralized, fallback_procedures_mapped, holds_pack_names, pack_name_list, pack_names, procedure_tree_bounds,
    procedure_tree_normalized,
};
use crate::quest::converted_qust;
use crate::radio::radio_namespaced;
use crate::scenes::{mgef_entry, scen_choices};
use crate::scopes::stripped_qust_scopes;
use crate::strip::{
    activation_condition_sig, global_drop_sig, is_nif_backed_empty_scol, is_scorched_statue, keep_only,
    scol_stat_sig, term_snam_kept, without_pack_runtime_refs, wrld_runtime_table_sig,
};
use crate::text::{intern_all, intern_each, strs_bytes, StringInterner};
use crate::workshop::{rewritten_workshop, workshop_plan};
use crate::xcri::{holds_xcri_names, xcri_converted};

verus! {

/// The names the passes write that are neither pack procedures nor the
/// FO4 leveled-entry layout: masters, member names of object-mod, actor,
/// light and cell data.
pub open spec fn base_names() -> Seq<Seq<u8>> {
    seq![
        "SeventySix.esm".spec_bytes(),
        "Fallout4.esm".spec_bytes(),
        "FunctionType".spec_bytes(),
        "Perk".spec_bytes(),
        "Rank".spec_bytes(),
        "faction".spec_bytes(),
        "rank".spec_bytes(),
        "Scalar".spec_bytes(),
        "Exponent".spec_bytes(),
        "NearClip".spec_bytes(),
        "Radius".spec_bytes(),
        "meshes_count".spec_bytes(),
        "references_count".spec_bytes(),
        "meshes".spec_bytes(),
        "references".spec_bytes(),
        "reference".spec_bytes(),
        "combined_mesh".spec_bytes(),
    ]
}

/// Every name the passes may write.
pub open spec fn hook_names() -> Seq<Seq<u8>> {
    base_names() + pack_names() + leveled_names()
}

/// Whether the interner holds every name the passes may write.
pub open spec fn holds_hook_names(held: Seq<Seq<u8>>) -> bool {
    forall|i: int| 0 <= i < hook_names().len() ==> held.contains(#[trigger] hook_names()[i])
}

fn base_name_list() -> (r: Vec<&'static str>)
    ensures
        strs_bytes(r@) == base_names(),
{
    let r: Vec<&'static str> = vec![
        "SeventySix.esm",
        "Fallout4.esm",
        "FunctionType",
        "Perk",
        "Rank",
        "faction",
        "rank",
        "Scalar",
        "Exponent",
        "NearClip",
        "Radius",
        "meshes_count",
        "references_count",
        "meshes",
        "references",
        "reference",
        "combined_mesh",
    ];
    assert(strs_bytes(r@) =~= base_names());
    r
}

fn hook_name_list() -> (r: Vec<&'static str>)
    ensures
        strs_bytes(r@) == hook_names(),
{
    let mut r = base_name_list();
    let mut p = pack_name_list();
    let mut l = leveled_name_list();
    let ghost (r0, p0, l0) = (r@, p@, l@);
    assert(strs_bytes(p0) =~= pack_names());
    r.append(&mut p);
    r.append(&mut l);
    assert(r@ == r0 + p0 + l0);
    assert(strs_bytes(r@) =~= strs_bytes(r0) + strs_bytes(p0) + strs_bytes(l0));
    r
}

/// What holding every hook name gives each step.
pub proof fn lemma_hook_names(held: Seq<Seq<u8>>)
    requires
        holds_hook_names(held),
    ensures
        holds_pack_names(held),
        holds_leveled_names(held),
        holds_xcri_names(held),
        forall|i: int| 0 <= i < base_names().len() ==> held.contains(#[trigger] base_names()[i]),
{
    let b = base_names().len() as int;
    let p = pack_names().len() as int;
    assert forall|i: int| 0 <= i < pack_names().len() implies held.contains(#[trigger] pack_names()[i]) by {
        assert(hook_names()[b + i] == pack_names()[i]);
        assert(held.contains(hook_names()[b + i]));
    }
    assert forall|i: int| 0 <= i < leveled_names().len() implies held.contains(#[trigger] leveled_names()[i]) by {
        assert(hook_names()[b + p + i] == leveled_names()[i]);
        assert(held.contains(hook_names()[b + p + i]));
    }
    assert forall|i: int| 0 <= i < base_names().len() implies held.contains(#[trigger] base_names()[i]) by {
        assert(hook_names()[i] == base_names()[i]);
        assert(held.contains(hook_names()[i]));
    }
    assert(held.contains(base_names()[11]));
    assert(held.contains(base_names()[12]));
    assert(held.contains(base_names()[13]));
    assert(held.contains(base_names()[14]));
    assert(held.contains(base_names()[15]));
    assert(held.contains(base_names()[16]));
}

impl Fo76Fo4Hook {
    /// The records this pair adds on its own: none.
    pub fn synthesize_records() -> (r: Vec<Record>)
        ensures
            r@.len() == 0,
    {
        Vec::new()
    }

    /// Intern every name the passes may write.
    pub fn intern_hook_names(interner: &mut StringInterner)
        requires
            old(interner).wf(),
            old(interner)@.len() + hook_names().len() <= u32::MAX,
        ensures
            final(interner).wf(),
            holds_hook_names(final(interner)@),
            final(interner)@ == intern_all(old(interner)@, hook_names()),
    {
        let names = hook_name_list();
        intern_each(interner, names.as_slice());
    }
}

} // verus!

verus! {

/// `normalize_arma_upper_body_skin_slots` as a function of the record.
pub open spec fn arma_skin_step(r: RecordView) -> RecordView {
    if has_upper_body_skin(r) { bod2_without(r, upper_body_skin_mask()) } else { r }
}

/// `normalize_chinese_stealth_arma_pipboy_slot` as a function of the record.
pub open spec fn stealth_pipboy_step(i: StringInterner, r: RecordView) -> RecordView {
    if is_chinese_stealth_arma(i, r) { bod2_without(r, pipboy_mask()) } else { r }
}

/// `drop_global_fields` as a function of the record.
pub open spec fn global_drop_step(r: RecordView) -> RecordView {
    keep_only(r, |e: EntryView| !global_drop_sig(e.sig))
}

/// `convert_nif_backed_empty_scol_to_stat` as a function of the record.
pub open spec fn scol_step(i: StringInterner, r: RecordView) -> RecordView {
    if is_nif_backed_empty_scol(i, r) {
        RecordView { sig: code('S', 'T', 'A', 'T'), fields: r.fields.filter(|e: EntryView| scol_stat_sig(e.sig)), ..r }
    } else {
        r
    }
}

/// `strip_wrld_runtime_tables` as a function of the record.
pub open spec fn wrld_step(r: RecordView) -> RecordView {
    if r.sig == code('W', 'R', 'L', 'D') { keep_only(r, |e: EntryView| !wrld_runtime_table_sig(e.sig)) } else { r }
}

/// `normalize_npc_perk_entries` as a function of the record.
pub open spec fn npc_perk_step(i: StringInterner, r: RecordView) -> RecordView {
    if r.sig == code('N', 'P', 'C', '_') { record_passed(EntryPass::Perks, i@, r) } else { r }
}

/// `normalize_npc_raw_form_refs` as a function of the record.
pub open spec fn npc_refs_step(i: StringInterner, r: RecordView) -> RecordView {
    if r.sig == code('N', 'P', 'C', '_') { record_passed(EntryPass::NpcRefs, i@, r) } else { r }
}

/// `normalize_cont_raw_form_refs` as a function of the record.
pub open spec fn cont_refs_step(i: StringInterner, r: RecordView) -> RecordView {
    if r.sig == code('C', 'O', 'N', 'T') || r.sig == code('F', 'U', 'R', 'N') {
        record_passed(EntryPass::ContRefs, i@, r)
    } else {
        r
    }
}

/// `strip_info_editor_id` as a function of the record.
pub open spec fn info_eid_step(r: RecordView) -> RecordView {
    if r.sig == code('I', 'N', 'F', 'O') { keep_only(r, |e: EntryView| e.sig != code('E', 'D', 'I', 'D')) } else { r }
}

/// `strip_orphan_term_conditions` as a function of the record.
pub open spec fn term_conditions_step(r: RecordView) -> RecordView {
    if r.sig == code('T', 'E', 'R', 'M') { RecordView { fields: term_scan(r.fields).out, ..r } } else { r }
}

/// `normalize_refr_map_marker_tnam` as a function of the record.
pub open spec fn refr_tnam_step(r: RecordView) -> RecordView {
    if r.sig == code('R', 'E', 'F', 'R') { map_fields(r, |e: EntryView| tnam_mapped(e)) } else { r }
}

/// `rename_furniture_marker_parameters` as a function of the record.
pub open spec fn furn_znam_step(r: RecordView) -> RecordView {
    if r.sig == code('F', 'U', 'R', 'N') { map_fields(r, |e: EntryView| znam_renamed(e)) } else { r }
}

/// `strip_zero_health_cont_destructibles` as a function of the record.
pub open spec fn cont_health_step(i: StringInterner, r: RecordView) -> RecordView {
    if r.sig == code('C', 'O', 'N', 'T') { RecordView { fields: zero_health_scan(i, r.fields).0, ..r } } else { r }
}

/// `normalize_note_scene_ref` as a function of the record.
pub open spec fn note_scene_step(r: RecordView) -> RecordView {
    if r.sig == code('N', 'O', 'T', 'E') { record_passed(EntryPass::NoteScene, Seq::empty(), r) } else { r }
}

/// `convert_mgef_data_to_fo4_layout` as a function of the record.
pub open spec fn mgef_step(r: RecordView) -> RecordView {
    if r.sig == code('M', 'G', 'E', 'F') { map_fields(r, |e: EntryView| mgef_entry(e)) } else { r }
}

/// `normalize_scen_player_dialogue_choices` as a function of the record.
pub open spec fn scen_step(r: RecordView) -> RecordView {
    if r.sig == code('S', 'C', 'E', 'N') { RecordView { fields: scen_choices(r.fields, r.form_key.plugin), ..r } } else { r }
}

/// `normalize_dial_data_category` as a function of the record.
pub open spec fn dial_step(i: StringInterner, r: RecordView) -> RecordView {
    if r.sig == code('D', 'I', 'A', 'L') { map_fields(r, |e: EntryView| dial_entry_remapped(i, e)) } else { r }
}

/// `strip_scorched_statue_activation_conditions` as a function of the
/// record.
pub open spec fn statue_step(i: StringInterner, r: RecordView) -> RecordView {
    if is_scorched_statue(i, r) { keep_only(r, |e: EntryView| !activation_condition_sig(e.sig)) } else { r }
}

/// `convert_fo76_leveled_list_entries` as a function of the record.
pub open spec fn leveled_step(i: StringInterner, r: RecordView) -> RecordView {
    if leveled_sig(r.sig) { leveled_converted(i, r) } else { r }
}

/// `convert_or_drop_cell_combined_reference_index` as a function of the
/// record.
pub open spec fn xcri_step(i: StringInterner, r: RecordView) -> RecordView {
    if r.sig == code('C', 'E', 'L', 'L') { RecordView { fields: xcri_converted(i, r.fields), ..r } } else { r }
}

/// `strip_qust_runtime_scopes` as a function of the record.
pub open spec fn qust_scopes_step(r: RecordView) -> RecordView {
    if r.sig == code('Q', 'U', 'S', 'T') { stripped_qust_scopes(r) } else { r }
}

/// The first steps before the mapper: armor slots, global drops, static
/// collections, world tables and object mods.
pub open spec fn pre_part_a(i: StringInterner, r: RecordView) -> RecordView {
    let r = arma_skin_step(r);
    let r = stealth_pipboy_step(i, r);
    let r = global_drop_step(r);
    let r = scol_step(i, r);
    let r = wrld_step(r);
    let r = redundant_target_keywords_stripped(i, r);
    let r = tesla_receiver_stripped(i, r);
    material_models_stripped(i, r)
}

/// The actor, container, dialogue-info and terminal steps before the
/// mapper.
pub open spec fn pre_part_b(i: StringInterner, r: RecordView) -> RecordView {
    let r = npc_perk_step(i, r);
    let r = npc_refs_step(i, r);
    let r = cont_refs_step(i, r);
    let r = info_eid_step(r);
    let r = term_conditions_step(r);
    let r = refr_tnam_step(r);
    let r = furn_znam_step(r);
    cont_health_step(i, r)
}

/// The note, effect, scene and dialogue steps before the mapper.
pub open spec fn pre_part_c(i: StringInterner, r: RecordView) -> RecordView {
    let r = note_scene_step(r);
    let r = mgef_step(r);
    let r = scen_step(r);
    let r = dial_step(i, r);
    statue_step(i, r)
}

/// The leveled-list, cell and quest steps before the mapper.
pub open spec fn pre_part_d(i: StringInterner, r: RecordView) -> RecordView {
    let r = leveled_step(i, r);
    let r = xcri_step(i, r);
    let r = converted_qust(i, r);
    qust_scopes_step(r)
}

/// The record after the steps of this library that run before the mapper.
pub open spec fn pre_translated(i: StringInterner, r: RecordView) -> RecordView {
    pre_part_d(i, pre_part_c(i, pre_part_b(i, pre_part_a(i, r))))
}

#[verifier::spinoff_prover]
#[verifier::rlimit(40)]
fn pre_steps_a(interner: &StringInterner, record: &mut Record)
    requires
        interner.wf(),
        holds_hook_names(interner@),
    ensures
        final(record)@ == pre_part_a(*interner, old(record)@),
{
    proof {
        lemma_hook_names(interner@);
        assert(interner@.contains(base_names()[0]));
    }
    Fo76Fo4Hook::normalize_arma_upper_body_skin_slots(record);
    Fo76Fo4Hook::normalize_chinese_stealth_arma_pipboy_slot(interner, record);
    Fo76Fo4Hook::drop_global_fields(record);
    Fo76Fo4Hook::convert_nif_backed_empty_scol_to_stat(interner, record);
    Fo76Fo4Hook::strip_wrld_runtime_tables(record);
    Fo76Fo4Hook::strip_redundant_omod_target_keywords_interned(interner, record);
    Fo76Fo4Hook::strip_tesla_cannon_receiver_model(interner, record);
    Fo76Fo4Hook::strip_material_omod_models(interner, record);
}

#[verifier::spinoff_prover]
#[verifier::rlimit(40)]
fn pre_steps_b(interner: &StringInterner, record: &mut Record)
    requires
        interner.wf(),
        holds_hook_names(interner@),
    ensures
        final(record)@ == pre_part_b(*interner, old(record)@),
{
    proof {
        lemma_hook_names(interner@);
        assert(interner@.contains(base_names()[3]));
        assert(interner@.contains(base_names()[4]));
        assert(interner@.contains(base_names()[5]));
        assert(interner@.contains(base_names()[6]));
        assert(interner@.contains(leveled_names()[3]));
        assert(interner@.contains(leveled_names()[6]));
    }
    Fo76Fo4Hook::normalize_npc_perk_entries_interned(interner, record);
    Fo76Fo4Hook::normalize_npc_raw_form_refs_interned(interner, record);
    Fo76Fo4Hook::normalize_cont_raw_form_refs_interned(interner, record);
    Fo76Fo4Hook::strip_info_editor_id(record);
    Fo76Fo4Hook::strip_orphan_term_conditions(record);
    Fo76Fo4Hook::normalize_refr_map_marker_tnam(record);
    Fo76Fo4Hook::rename_furniture_marker_parameters(record);
    Fo76Fo4Hook::strip_zero_health_cont_destructibles(interner, record);
}

#[verifier::spinoff_prover]
#[verifier::rlimit(40)]
fn pre_steps_c(interner: &StringInterner, record: &mut Record)
    ensures
        final(record)@ == pre_part_c(*interner, old(record)@),
{
    Fo76Fo4Hook::normalize_note_scene_ref(record);
    Fo76Fo4Hook::convert_mgef_data_to_fo4_layout(record);
    Fo76Fo4Hook::normalize_scen_player_dialogue_choices(record);
    Fo76Fo4Hook::normalize_dial_data_category(interner, record);
    Fo76Fo4Hook::strip_scorched_statue_activation_conditions(interner, record);
}

#[verifier::spinoff_prover]
#[verifier::rlimit(40)]
fn pre_steps_d(interner: &mut StringInterner, record: &mut Record)
    requires
        old(interner).wf(),
        holds_hook_names(old(interner)@),
        old(interner)@.len() + leveled_names().len() <= u32::MAX,
    ensures
        *final(interner) == *old(interner),
        final(record)@ == pre_part_d(*old(interner), old(record)@),
{
    proof {
        lemma_hook_names(interner@);
    }
    Fo76Fo4Hook::convert_fo76_leveled_list_entries_interned(interner, record);
    Fo76Fo4Hook::convert_or_drop_cell_combined_reference_index_interned(interner, record);
    Fo76Fo4Hook::convert_qust_data_to_fo4_dnam(interner, record);
    Fo76Fo4Hook::strip_qust_runtime_scopes(record);
}

impl Fo76Fo4Hook {
    /// Prepare a FO76 record for the mapper: the steps of the pre-mapping
    /// pass, in order. One step of that pass is not here: stripping race tint
    /// tables FO4 cannot load, which belongs to the target-normalization
    /// module, a module of its own that this library does not hold. The
    /// names the steps write are interned first.
    pub fn pre_translate(interner: &mut StringInterner, record: &mut Record)
        requires
            old(interner).wf(),
            old(interner)@.len() + hook_names().len() + leveled_names().len() <= u32::MAX,
        ensures
            final(interner).wf(),
            final(interner)@ == intern_all(old(interner)@, hook_names()),
            final(record)@ == pre_translated(*final(interner), old(record)@),
    {
        proof {
            crate::text::lemma_intern_all_len(old(interner)@, hook_names());
        }
        Self::intern_hook_names(interner);
        Self::pre_translate_interned(interner, record);
    }

    /// The steps of the pre-mapping pass, in order, with the names they
    /// write held already; the interner is left as it is.
    pub(crate) fn pre_translate_interned(interner: &mut StringInterner, record: &mut Record)
        requires
            old(interner).wf(),
            holds_hook_names(old(interner)@),
            old(interner)@.len() + leveled_names().len() <= u32::MAX,
        ensures
            *final(interner) == *old(interner),
            final(record)@ == pre_translated(*old(interner), old(record)@),
    {
        pre_steps_a(interner, record);
        pre_steps_b(interner, record);
        pre_steps_c(interner, record);
        pre_steps_d(interner, record);
    }
}

} // verus!

verus! {

/// `strip_pack_runtime_refs` as a function of the record.
pub open spec fn pack_refs_step(r: RecordView) -> RecordView {
    if r.sig == code('P', 'A', 'C', 'K') { without_pack_runtime_refs(r) } else { r }
}

/// `neutralize_dangling_package_alias_targets` as a function of the record.
pub open spec fn alias_targets_step(r: RecordView) -> RecordView {
    if r.sig == code('P', 'A', 'C', 'K') { map_fields(r, |e: EntryView| alias_target_neutralized(e)) } else { r }
}

/// `normalize_workshop_cobj` as a function of the record, with its masters
/// held.
pub open spec fn workshop_step(i: StringInterner, r: RecordView) -> RecordView {
    match workshop_plan(i, r) {
        Some(plan) => rewritten_workshop(
            r,
            plan.0,
            plan.1,
            plan.2,
            crate::text::handle_of(i@, "SeventySix.esm".spec_bytes()),
            crate::text::handle_of(i@, "Fallout4.esm".spec_bytes()),
        ),
        None => r,
    }
}

/// `drop_perk_vmad` as a function of the record.
pub open spec fn perk_vmad_step(r: RecordView) -> RecordView {
    if r.sig == code('P', 'E', 'R', 'K') { keep_only(r, |e: EntryView| e.sig != code('V', 'M', 'A', 'D')) } else { r }
}

/// `normalize_rd01_assassin_combat_style` as a function of the record.
pub open spec fn assassin_step(i: StringInterner, r: RecordView) -> RecordView {
    if is_rd01_assassin(i, r) { record_passed(EntryPass::Assassin, i@, r) } else { r }
}

/// `map_fo76_fallback_package_procedure` as a function of the record, with
/// `Sequence` held.
pub open spec fn fallback_step(i: StringInterner, r: RecordView) -> RecordView {
    if r.sig == code('P', 'A', 'C', 'K') { fallback_procedures_mapped(i, i@, r) } else { r }
}

/// `normalize_fo76_pack_procedure_tree` as a function of the record, with
/// the procedure names held.
pub open spec fn procedure_tree_step(i: StringInterner, r: RecordView) -> RecordView {
    if r.sig == code('P', 'A', 'C', 'K') {
        match procedure_tree_bounds(r) {
            Some(b) => procedure_tree_normalized(i, r, b.0, b.1),
            None => r,
        }
    } else {
        r
    }
}

/// `strip_fo76_only_subrecord_tails` as a function of the record.
pub open spec fn tails_step(r: RecordView) -> RecordView {
    if r.sig == code('F', 'U', 'R', 'N') || r.sig == code('T', 'E', 'R', 'M') {
        map_fields(r, |e: EntryView| truncated_entry(e, code('W', 'B', 'D', 'T'), 2))
    } else if r.sig == code('M', 'O', 'V', 'T') {
        map_fields(r, |e: EntryView| truncated_entry(e, code('S', 'P', 'E', 'D'), 112))
    } else if r.sig == code('A', 'R', 'M', 'O') || r.sig == code('W', 'E', 'A', 'P') {
        map_fields(r, |e: EntryView| rows_projected(e, code('D', 'A', 'M', 'A'), 12, 8))
    } else {
        r
    }
}

/// `normalize_idlm_flags` as a function of the record.
pub open spec fn idlm_step(r: RecordView) -> RecordView {
    if r.sig == code('I', 'D', 'L', 'M') { map_fields(r, |e: EntryView| idlf_masked(e)) } else { r }
}

/// `ensure_power_armor_furniture_vmad` as a function of the record and the
/// script payload.
pub open spec fn power_armor_vmad_step(i: StringInterner, vmad: Seq<u8>, r: RecordView) -> RecordView {
    if needs_power_armor_vmad(i, r) {
        RecordView { fields: seq![EntryView { sig: code('V', 'M', 'A', 'D'), value: FieldView::Bytes(vmad) }] + r.fields, ..r }
    } else {
        r
    }
}

/// `strip_term_looping_sound_snam` as a function of the record.
pub open spec fn term_snam_step(r: RecordView) -> RecordView {
    if r.sig == code('T', 'E', 'R', 'M') { keep_only(r, |e: EntryView| term_snam_kept(e)) } else { r }
}

/// `clear_invalid_furniture_active_marker_bits` as a function of the
/// record.
pub open spec fn marker_bits_step(r: RecordView) -> RecordView {
    if (r.sig == code('F', 'U', 'R', 'N') || r.sig == code('T', 'E', 'R', 'M')) && invalid_marker_bits(r) != 0 {
        map_fields(r, |e: EntryView| markers_cleared(e, invalid_marker_bits(r)))
    } else {
        r
    }
}

/// `ensure_light_radius` as a function of the record, with `Radius` held.
pub open spec fn radius_step(i: StringInterner, r: RecordView) -> RecordView {
    if r.sig == code('L', 'I', 'G', 'H') { light_radius_ensured(i, r) } else { r }
}

/// `normalize_light_data_for_fo4` as a function of the record, with its
/// member names held.
pub open spec fn light_data_step(i: StringInterner, r: RecordView) -> RecordView {
    if r.sig == code('L', 'I', 'G', 'H') { light_data_normalized(i, r) } else { r }
}

/// `normalize_cage_bulb_gobo_light_for_fo4` as a function of the record,
/// with `NearClip` held.
pub open spec fn cage_bulb_step(i: StringInterner, r: RecordView) -> RecordView {
    if r.sig == code('L', 'I', 'G', 'H') && has_cage_bulb_gobo(i, r) { cage_bulb_normalized(i, r) } else { r }
}

/// The radio, package, condition, workshop, effect and perk steps after
/// the mapper.
pub open spec fn post_part_a(i: StringInterner, r: RecordView) -> RecordView {
    let r = radio_namespaced(i, r);
    let r = pack_refs_step(r);
    let r = alias_targets_step(r);
    let r = without_incompatible_conditions(i, r);
    let r = workshop_step(i, r);
    let r = mgef_step(r);
    perk_vmad_step(r)
}

/// The object-mod and actor steps after the mapper.
pub open spec fn post_part_b(i: StringInterner, r: RecordView) -> RecordView {
    let r = mstt_data_dropped(i, r);
    let r = invalid_properties_stripped(i, r);
    let r = material_swap_functions_normalized(i, r);
    let r = npc_refs_step(i, r);
    assassin_step(i, r)
}

/// The package-procedure, tail, idle, furniture and terminal steps after
/// the mapper.
pub open spec fn post_part_c(i: StringInterner, vmad: Seq<u8>, r: RecordView) -> RecordView {
    let r = fallback_step(i, r);
    let r = procedure_tree_step(i, r);
    let r = tails_step(r);
    let r = idlm_step(r);
    let r = power_armor_vmad_step(i, vmad, r);
    let r = term_snam_step(r);
    marker_bits_step(r)
}

/// The record just before the terminal keyword step.
pub open spec fn post_before_keyword(i: StringInterner, vmad: Seq<u8>, r: RecordView) -> RecordView {
    post_part_c(i, vmad, post_part_b(i, post_part_a(i, r)))
}

/// The terminal-keyword and light steps after the mapper.
pub open spec fn post_part_d(i: StringInterner, r: RecordView) -> RecordView {
    let r = player_path_added(i, r);
    let r = radius_step(i, r);
    let r = light_data_step(i, r);
    let r = cage_bulb_step(i, r);
    fade_ensured(r)
}

/// The record after the steps of this library that run after the mapper.
pub open spec fn post_translated(i: StringInterner, vmad: Seq<u8>, r: RecordView) -> RecordView {
    post_part_d(i, post_before_keyword(i, vmad, r))
}

#[verifier::spinoff_prover]
#[verifier::rlimit(40)]
fn post_steps_a(interner: &mut StringInterner, record: &mut Record)
    requires
        old(interner).wf(),
        holds_hook_names(old(interner)@),
        old(interner)@.len() + 2 <= u32::MAX,
    ensures
        *final(interner) == *old(interner),
        final(record)@ == post_part_a(*old(interner), old(record)@),
{
    proof {
        lemma_hook_names(interner@);
        assert(interner@.contains(base_names()[0]));
        assert(interner@.contains(base_names()[1]));
    }
    Fo76Fo4Hook::namespace_radio_receiver_frequency(interner, record);
    Fo76Fo4Hook::strip_pack_runtime_refs(record);
    Fo76Fo4Hook::neutralize_dangling_package_alias_targets(record);
    Fo76Fo4Hook::drop_fo4_incompatible_conditions(interner, record);
    Fo76Fo4Hook::normalize_workshop_cobj(interner, record);
    Fo76Fo4Hook::convert_mgef_data_to_fo4_layout(record);
    Fo76Fo4Hook::drop_perk_vmad(record);
}

#[verifier::spinoff_prover]
#[verifier::rlimit(40)]
fn post_steps_b(interner: &StringInterner, record: &mut Record)
    requires
        interner.wf(),
        holds_hook_names(interner@),
    ensures
        final(record)@ == post_part_b(*interner, old(record)@),
{
    proof {
        lemma_hook_names(interner@);
        assert(interner@.contains(base_names()[2]));
        assert(interner@.contains(base_names()[5]));
        assert(interner@.contains(base_names()[6]));
        assert(interner@.contains(leveled_names()[3]));
        assert(interner@.contains(leveled_names()[6]));
    }
    Fo76Fo4Hook::drop_mstt_omod_data(interner, record);
    Fo76Fo4Hook::strip_invalid_object_mod_properties(interner, record);
    Fo76Fo4Hook::normalize_omod_material_swap_functions_interned(interner, record);
    Fo76Fo4Hook::normalize_npc_raw_form_refs_interned(interner, record);
    Fo76Fo4Hook::normalize_rd01_assassin_combat_style(interner, record);
}

#[verifier::spinoff_prover]
#[verifier::rlimit(40)]
fn post_steps_c(interner: &mut StringInterner, record: &mut Record, power_armor_vmad: Vec<u8>)
    requires
        old(interner).wf(),
        holds_hook_names(old(interner)@),
        old(interner)@.len() + pack_names().len() <= u32::MAX,
    ensures
        *final(interner) == *old(interner),
        final(record)@ == post_part_c(*old(interner), power_armor_vmad@, old(record)@),
{
    proof {
        lemma_hook_names(interner@);
        assert(interner@.contains(pack_names()[0]));
    }
    Fo76Fo4Hook::map_fo76_fallback_package_procedure(interner, record);
    Fo76Fo4Hook::normalize_fo76_pack_procedure_tree_interned(interner, record);
    Fo76Fo4Hook::strip_fo76_only_subrecord_tails(record);
    Fo76Fo4Hook::normalize_idlm_flags(record);
    Fo76Fo4Hook::ensure_power_armor_furniture_vmad(interner, record, power_armor_vmad);
    Fo76Fo4Hook::strip_term_looping_sound_snam(record);
    Fo76Fo4Hook::clear_invalid_furniture_active_marker_bits(record);
}

#[verifier::spinoff_prover]
#[verifier::rlimit(100)]
fn post_steps_d(interner: &mut StringInterner, record: &mut Record)
    requires
        old(interner).wf(),
        holds_hook_names(old(interner)@),
        old(interner)@.len() + 3 <= u32::MAX,
        keyword_total(old(record)@.fields) + 1 <= u32::MAX,
    ensures
        *final(interner) == *old(interner),
        final(record)@ == post_part_d(*old(interner), old(record)@),
{
    proof {
        lemma_hook_names(interner@);
        assert(interner@.contains(base_names()[1]));
        assert(interner@.contains(base_names()[7]));
        assert(interner@.contains(base_names()[8]));
        assert(interner@.contains(base_names()[9]));
        assert(interner@.contains(base_names()[10]));
    }
    Fo76Fo4Hook::ensure_terminal_player_path_keyword_interned(interner, record);
    Fo76Fo4Hook::ensure_light_radius_interned(interner, record);
    Fo76Fo4Hook::normalize_light_data_for_fo4_interned(interner, record);
    Fo76Fo4Hook::normalize_cage_bulb_gobo_light_for_fo4_interned(interner, record);
    Fo76Fo4Hook::ensure_light_fade_value(record);
}

impl Fo76Fo4Hook {
    /// Finish a mapped record for FO4: the steps of the post-mapping pass,
    /// in order. Two steps of that pass are not here, because each belongs to
    /// a module of its own that this library does not hold: converting or
    /// dropping a region's object lists (`RDOT`), and normalizing model
    /// paths. `power_armor_vmad` is the encoded battery-insert script a
    /// power-armor station receives. The names the steps write are interned
    /// first. A terminal whose keyword count would pass `u32::MAX` when its
    /// keywords are counted is out of reach.
    pub fn post_translate(interner: &mut StringInterner, record: &mut Record, power_armor_vmad: Vec<u8>)
        requires
            old(interner).wf(),
            old(interner)@.len() + hook_names().len() + pack_names().len() <= u32::MAX,
            forall|i: StringInterner|
                i@ == intern_all(old(interner)@, hook_names()) ==> #[trigger] keyword_total(
                    post_before_keyword(i, power_armor_vmad@, old(record)@).fields,
                ) + 1 <= u32::MAX,
        ensures
            final(interner).wf(),
            final(interner)@ == intern_all(old(interner)@, hook_names()),
            final(record)@ == post_translated(*final(interner), power_armor_vmad@, old(record)@),
    {
        proof {
            crate::text::lemma_intern_all_len(old(interner)@, hook_names());
        }
        Self::intern_hook_names(interner);
        Self::post_translate_interned(interner, record, power_armor_vmad);
    }

    /// The steps of the post-mapping pass, in order, with the names they
    /// write held already; the interner is left as it is.
    pub(crate) fn post_translate_interned(interner: &mut StringInterner, record: &mut Record, power_armor_vmad: Vec<u8>)
        requires
            old(interner).wf(),
            holds_hook_names(old(interner)@),
            old(interner)@.len() + pack_names().len() <= u32::MAX,
            keyword_total(post_before_keyword(*old(interner), power_armor_vmad@, old(record)@).fields) + 1 <= u32::MAX,
        ensures
            *final(interner) == *old(interner),
            final(record)@ == post_translated(*old(interner), power_armor_vmad@, old(record)@),
    {
        post_steps_a(interner, record);
        post_steps_b(interner, record);
        post_steps_c(interner, record, power_armor_vmad);
        post_steps_d(interner, record);
    }
}

} // verus!
