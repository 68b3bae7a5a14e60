//! Routing of effect subrecords for records whose `Effects` group is
//! synthesized rather than decoded from the source plugin.
use vstd::prelude::*;
use crate::model::{code, sig_is, tag, SigCode, SubrecordSig};

verus! {

/// The FO76 to FO4 record hook.
pub struct Fo76Fo4Hook;

/// Where a source field of an effects-bearing record is routed: the field it
/// matched and the target subrecord code to emit for it.
pub struct EffectsKeyRoute {
    /// The field code matched on the source record.
    pub field_sig: SubrecordSig,
    /// The target subrecord code to emit.
    pub target_sig: SubrecordSig,
}

/// Record types whose `Effects` group is synthesized: ALCH, ENCH, PERK, SPEL.
pub open spec fn effects_synthetic(sig: [u8; 4]) -> bool {
    ||| sig == code('A', 'L', 'C', 'H')
    ||| sig == code('E', 'N', 'C', 'H')
    ||| sig == code('P', 'E', 'R', 'K')
    ||| sig == code('S', 'P', 'E', 'L')
}

/// The target code a field of an effects-bearing record is routed to:
/// DATA, EFID and EFIT of ALCH/ENCH/SPEL go to EFID; DATA of PERK goes to
/// DATA; nothing else is routed.
pub open spec fn effects_route(record_sig: [u8; 4], field_sig: [u8; 4]) -> Option<[u8; 4]> {
    if record_sig == code('A', 'L', 'C', 'H') || record_sig == code('E', 'N', 'C', 'H')
        || record_sig == code('S', 'P', 'E', 'L') {
        if field_sig == code('D', 'A', 'T', 'A') || field_sig == code('E', 'F', 'I', 'D')
            || field_sig == code('E', 'F', 'I', 'T') {
            Some(code('E', 'F', 'I', 'D'))
        } else {
            None
        }
    } else if record_sig == code('P', 'E', 'R', 'K') && field_sig == code('D', 'A', 'T', 'A') {
        Some(code('D', 'A', 'T', 'A'))
    } else {
        None
    }
}

impl Fo76Fo4Hook {
    /// Whether this record type synthesizes its `Effects` group.
    pub fn is_effects_synthetic(record_sig: SigCode) -> (r: bool)
        ensures
            r == effects_synthetic(record_sig.0),
    {
        let s = record_sig.0;
        sig_is(s, 'A', 'L', 'C', 'H') || sig_is(s, 'E', 'N', 'C', 'H') || sig_is(
            s,
            'P',
            'E',
            'R',
            'K',
        ) || sig_is(s, 'S', 'P', 'E', 'L')
    }

    /// The effects key rerouting for the given record type and field, or
    /// `None` when no rerouting is needed.
    pub fn translate_effects_key(record_sig: SigCode, field_sig: SubrecordSig) -> (r: Option<
        EffectsKeyRoute,
    >)
        ensures
            r is None <==> effects_route(record_sig.0, field_sig.0) is None,
            r matches Some(route) ==> route.field_sig.0 == field_sig.0 && effects_route(
                record_sig.0,
                field_sig.0,
            ) == Some(route.target_sig.0),
    {
        if !Self::is_effects_synthetic(record_sig) {
            return None;
        }
        let r = record_sig.0;
        let f = field_sig.0;
        if sig_is(r, 'A', 'L', 'C', 'H') || sig_is(r, 'E', 'N', 'C', 'H') || sig_is(
            r,
            'S',
            'P',
            'E',
            'L',
        ) {
            if sig_is(f, 'D', 'A', 'T', 'A') || sig_is(f, 'E', 'F', 'I', 'D') || sig_is(
                f,
                'E',
                'F',
                'I',
                'T',
            ) {
                Some(EffectsKeyRoute { field_sig, target_sig: SubrecordSig(tag('E', 'F', 'I', 'D')) })
            } else {
                None
            }
        } else if sig_is(r, 'P', 'E', 'R', 'K') {
            if sig_is(f, 'D', 'A', 'T', 'A') {
                Some(EffectsKeyRoute { field_sig, target_sig: SubrecordSig(tag('D', 'A', 'T', 'A')) })
            } else {
                None
            }
        } else {
            None
        }
    }
}

} // verus!
