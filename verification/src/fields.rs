//! Dynamic field resolution for behavior components.
//!
//! The catalog addresses a component's stats by textual field name. The
//! engine resolves such a name to one of the closed set of known fields,
//! then applies a [`Value`] to the field's current contents according to the
//! value's mode. An unknown name, or a value whose shape does not match the
//! field (a fixed-point change on a whole-number field, or the reverse), is a
//! configuration error: the field is left unchanged and the mismatch is
//! reported to the caller.

use vstd::prelude::*;

use crate::fixed::clamp_i64;
use crate::fixed::fixed_add;
use crate::fixed::fixed_grow_by_percent;
use crate::fixed::grow_by_percent;
use crate::fixed::sat_add_u32;
use crate::fixed::u32_saturating_add;
use crate::values::Value;

verus! {

/// The closed set of field names a behavior component may expose.
#[derive(Copy, Clone, Debug, PartialEq, Eq, Structural)]
pub enum FieldName {
    MaxHp,
    HpPerSec,
    Range,
    Acceleration,
    Dps,
    Duration,
    Cooldown,
    Speed,
}

/// A behavior-component field's contents: fixed-point thousandths for
/// continuous stats, or a whole `u32` amount.
#[derive(Copy, Clone, Debug, PartialEq, Eq, Structural)]
pub enum FieldVal {
    Fx(i64),
    Uint(u32),
}

/// The text under which catalog data addresses each known field.
pub open spec fn spec_resolve_field(name: Seq<char>) -> Option<FieldName> {
    if name == "max_hp"@ {
        Some(FieldName::MaxHp)
    } else if name == "hp_per_sec"@ {
        Some(FieldName::HpPerSec)
    } else if name == "range"@ {
        Some(FieldName::Range)
    } else if name == "acceleration"@ {
        Some(FieldName::Acceleration)
    } else if name == "dps"@ {
        Some(FieldName::Dps)
    } else if name == "duration"@ {
        Some(FieldName::Duration)
    } else if name == "cooldown"@ {
        Some(FieldName::Cooldown)
    } else if name == "speed"@ {
        Some(FieldName::Speed)
    } else {
        None
    }
}

/// Resolves a catalog field name to a known component field, or `None` for a
/// name no component exposes.
pub fn resolve_field(name: &String) -> (r: Option<FieldName>)
    ensures
        r == spec_resolve_field(name@),
{
    if *name == "max_hp".to_owned() {
        Some(FieldName::MaxHp)
    } else if *name == "hp_per_sec".to_owned() {
        Some(FieldName::HpPerSec)
    } else if *name == "range".to_owned() {
        Some(FieldName::Range)
    } else if *name == "acceleration".to_owned() {
        Some(FieldName::Acceleration)
    } else if *name == "dps".to_owned() {
        Some(FieldName::Dps)
    } else if *name == "duration".to_owned() {
        Some(FieldName::Duration)
    } else if *name == "cooldown".to_owned() {
        Some(FieldName::Cooldown)
    } else if *name == "speed".to_owned() {
        Some(FieldName::Speed)
    } else {
        None
    }
}

/// How one stat change lands on a field: absolute values replace, additive
/// deltas add (saturating), and a percentage grows the field's value as it
/// stood before this change. `None` marks a shape mismatch, which leaves the
/// field unchanged.
pub open spec fn spec_apply_value(f: FieldVal, v: Value) -> Option<FieldVal> {
    match f {
        FieldVal::Fx(o) => match v {
            Value::F(x) => Some(FieldVal::Fx(x)),
            Value::AddF(x) => Some(FieldVal::Fx(clamp_i64(o + x) as i64)),
            Value::Perc(p) => Some(FieldVal::Fx(grow_by_percent(o as int, p as int) as i64)),
            _ => None,
        },
        FieldVal::Uint(o) => match v {
            Value::U(x) => Some(FieldVal::Uint(x)),
            Value::AddU(x) => Some(FieldVal::Uint(sat_add_u32(o as int, x as int) as u32)),
            _ => None,
        },
    }
}

/// Whether a stat change lands cleanly on a component: the component exposes
/// the field and the value's shape matches the field's.
pub open spec fn field_applies(fields: Map<FieldName, FieldVal>, name: FieldName, v: Value) -> bool {
    fields.contains_key(name) && spec_apply_value(fields[name], v) is Some
}

/// A component's fields after one stat change: the touched field is updated
/// when the change lands cleanly, and everything is left alone otherwise.
pub open spec fn updated_fields(
    fields: Map<FieldName, FieldVal>,
    name: FieldName,
    v: Value,
) -> Map<FieldName, FieldVal> {
    if field_applies(fields, name, v) {
        fields.insert(name, spec_apply_value(fields[name], v)->Some_0)
    } else {
        fields
    }
}

/// Applies one stat change to a field's contents; `None` reports a shape
/// mismatch and stands for "leave the field unchanged".
pub fn apply_value(f: FieldVal, v: Value) -> (r: Option<FieldVal>)
    ensures
        r == spec_apply_value(f, v),
{
    match f {
        FieldVal::Fx(o) => match v {
            Value::F(x) => Some(FieldVal::Fx(x)),
            Value::AddF(x) => Some(FieldVal::Fx(fixed_add(o, x))),
            Value::Perc(p) => Some(FieldVal::Fx(fixed_grow_by_percent(o, p))),
            _ => None,
        },
        FieldVal::Uint(o) => match v {
            Value::U(x) => Some(FieldVal::Uint(x)),
            Value::AddU(x) => Some(FieldVal::Uint(u32_saturating_add(o, x))),
            _ => None,
        },
    }
}

} // verus!
