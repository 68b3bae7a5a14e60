use fo76_fo4::effects::Fo76Fo4Hook;
use fo76_fo4::model::{SigCode, SubrecordSig};

#[test]
fn effects_synthetic_true_for_alch_ench_perk_spel() {
    for sig in [*b"ALCH", *b"ENCH", *b"PERK", *b"SPEL"] {
        assert!(
            Fo76Fo4Hook::is_effects_synthetic(SigCode(sig)),
            "{sig:?} should be synthetic"
        );
    }
}

#[test]
fn effects_synthetic_false_for_other_records() {
    for sig in [*b"WEAP", *b"ARMO", *b"NPC_", *b"RACE"] {
        assert!(
            !Fo76Fo4Hook::is_effects_synthetic(SigCode(sig)),
            "{sig:?} should not be synthetic"
        );
    }
}

#[test]
fn translate_effects_key_reroutes_data_for_alch() {
    let route = Fo76Fo4Hook::translate_effects_key(SigCode(*b"ALCH"), SubrecordSig(*b"DATA"));
    assert!(route.is_some());
    let r = route.unwrap();
    assert_eq!(&r.target_sig.0, b"EFID");
}

#[test]
fn translate_effects_key_reroutes_efid_for_ench() {
    let route = Fo76Fo4Hook::translate_effects_key(SigCode(*b"ENCH"), SubrecordSig(*b"EFID"));
    assert!(route.is_some());
    assert_eq!(&route.unwrap().target_sig.0, b"EFID");
}

#[test]
fn translate_effects_key_reroutes_efit_for_spel() {
    let route = Fo76Fo4Hook::translate_effects_key(SigCode(*b"SPEL"), SubrecordSig(*b"EFIT"));
    assert!(route.is_some());
    assert_eq!(&route.unwrap().target_sig.0, b"EFID");
}

#[test]
fn translate_effects_key_reroutes_data_for_perk_to_data() {
    let route = Fo76Fo4Hook::translate_effects_key(SigCode(*b"PERK"), SubrecordSig(*b"DATA"));
    assert!(route.is_some());
    assert_eq!(&route.unwrap().target_sig.0, b"DATA");
}

#[test]
fn translate_effects_key_no_route_for_non_effects_record() {
    assert!(
        Fo76Fo4Hook::translate_effects_key(SigCode(*b"WEAP"), SubrecordSig(*b"DATA")).is_none()
    );
}

#[test]
fn translate_effects_key_no_route_for_unrelated_field_in_alch() {
    assert!(
        Fo76Fo4Hook::translate_effects_key(SigCode(*b"ALCH"), SubrecordSig(*b"FULL")).is_none()
    );
}

#[test]
fn translate_effects_key_keeps_the_matched_field_sig() {
    let route = Fo76Fo4Hook::translate_effects_key(SigCode(*b"SPEL"), SubrecordSig(*b"DATA"))
        .expect("routed");
    assert_eq!(&route.field_sig.0, b"DATA");
    assert!(Fo76Fo4Hook::translate_effects_key(SigCode(*b"PERK"), SubrecordSig(*b"EFID")).is_none());
}
