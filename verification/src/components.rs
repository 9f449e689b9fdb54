//! Behavior components: the live numeric state of each skill family.
//!
//! Each component realizes one [`Skill`] and exposes its stats under the
//! closed set of field names, through the [`IsSkill`] trait that the
//! reconciliation engine is generic over. Continuous stats are fixed-point
//! thousandths; whole-number stats are `u32`.

use vstd::prelude::*;

use crate::fields::apply_value;
use crate::fields::field_applies;
use crate::fields::spec_apply_value;
use crate::fields::updated_fields;
use crate::fields::FieldName;
use crate::fields::FieldVal;
use crate::skill::Skill;
use crate::values::Value;

verus! {

/// A skill family's behavior component: its skill tag, a default value for
/// agents that newly gain the family, and field access by name for the
/// reconciliation engine.
pub trait IsSkill: Sized {
    /// The skill category this component realizes.
    spec fn spec_skill() -> Skill;

    /// The component's stats by field name.
    spec fn fields(&self) -> Map<FieldName, FieldVal>;

    /// The value a newly inserted component starts from.
    spec fn spec_default() -> Self;

    /// The skill category this component realizes.
    fn skill() -> (s: Skill)
        ensures
            s == Self::spec_skill(),
    ;

    /// A newly inserted component.
    fn fresh() -> (t: Self)
        ensures
            t == Self::spec_default(),
    ;

    /// Applies one stat change to the named field. Returns whether the change
    /// landed: an unknown field, or a value whose shape does not match the
    /// field, changes nothing and reports `false`.
    fn set_field(&mut self, name: FieldName, value: Value) -> (ok: bool)
        ensures
            ok == field_applies(old(self).fields(), name, value),
            final(self).fields() == updated_fields(old(self).fields(), name, value),
    ;
}

/// Applies a stat change to a fixed-point field slot.
fn apply_fx(slot: &mut i64, value: Value) -> (ok: bool)
    ensures
        ok == (spec_apply_value(FieldVal::Fx(*old(slot)), value) is Some),
        ok ==> spec_apply_value(FieldVal::Fx(*old(slot)), value) == Some(
            FieldVal::Fx(*final(slot)),
        ),
        !ok ==> *final(slot) == *old(slot),
{
    match apply_value(FieldVal::Fx(*slot), value) {
        Some(nv) => match nv {
            FieldVal::Fx(x) => {
                *slot = x;
                true
            },
            FieldVal::Uint(_) => false,
        },
        None => false,
    }
}

/// Applies a stat change to a whole-number field slot.
fn apply_uint(slot: &mut u32, value: Value) -> (ok: bool)
    ensures
        ok == (spec_apply_value(FieldVal::Uint(*old(slot)), value) is Some),
        ok ==> spec_apply_value(FieldVal::Uint(*old(slot)), value) == Some(
            FieldVal::Uint(*final(slot)),
        ),
        !ok ==> *final(slot) == *old(slot),
{
    match apply_value(FieldVal::Uint(*slot), value) {
        Some(nv) => match nv {
            FieldVal::Uint(x) => {
                *slot = x;
                true
            },
            FieldVal::Fx(_) => false,
        },
        None => false,
    }
}

/// Hit-point capacity.
#[derive(Copy, Clone, Debug, PartialEq, Eq, Structural)]
pub struct MaxHealth {
    pub max_hp: u32,
}

impl IsSkill for MaxHealth {
    open spec fn spec_skill() -> Skill {
        Skill::Health
    }

    open spec fn fields(&self) -> Map<FieldName, FieldVal> {
        map![FieldName::MaxHp => FieldVal::Uint(self.max_hp)]
    }

    open spec fn spec_default() -> Self {
        MaxHealth { max_hp: 0 }
    }

    fn skill() -> Skill {
        Skill::Health
    }

    fn fresh() -> Self {
        MaxHealth { max_hp: 0 }
    }

    fn set_field(&mut self, name: FieldName, value: Value) -> (ok: bool) {
        match name {
            FieldName::MaxHp => {
                let ok = apply_uint(&mut self.max_hp, value);
                proof {
                    if ok {
                        assert(self.fields() =~= updated_fields(
                            old(self).fields(),
                            name,
                            value,
                        ));
                    }
                }
                ok
            },
            _ => false,
        }
    }
}

/// Hit-point regeneration rate.
#[derive(Copy, Clone, Debug, PartialEq, Eq, Structural)]
pub struct HealthRegen {
    pub hp_per_sec: i64,
}

impl IsSkill for HealthRegen {
    open spec fn spec_skill() -> Skill {
        Skill::HealthRegen
    }

    open spec fn fields(&self) -> Map<FieldName, FieldVal> {
        map![FieldName::HpPerSec => FieldVal::Fx(self.hp_per_sec)]
    }

    open spec fn spec_default() -> Self {
        HealthRegen { hp_per_sec: 0 }
    }

    fn skill() -> Skill {
        Skill::HealthRegen
    }

    fn fresh() -> Self {
        HealthRegen { hp_per_sec: 0 }
    }

    fn set_field(&mut self, name: FieldName, value: Value) -> (ok: bool) {
        match name {
            FieldName::HpPerSec => {
                let ok = apply_fx(&mut self.hp_per_sec, value);
                proof {
                    if ok {
                        assert(self.fields() =~= updated_fields(
                            old(self).fields(),
                            name,
                            value,
                        ));
                    }
                }
                ok
            },
            _ => false,
        }
    }
}

/// Experience-drop gathering: pull radius and pull acceleration.
#[derive(Copy, Clone, Debug, PartialEq, Eq, Structural)]
pub struct XpGather {
    pub range: i64,
    pub acceleration: i64,
}

impl IsSkill for XpGather {
    open spec fn spec_skill() -> Skill {
        Skill::XpGather
    }

    open spec fn fields(&self) -> Map<FieldName, FieldVal> {
        map![
            FieldName::Range => FieldVal::Fx(self.range),
            FieldName::Acceleration => FieldVal::Fx(self.acceleration),
        ]
    }

    open spec fn spec_default() -> Self {
        XpGather { range: 0, acceleration: 0 }
    }

    fn skill() -> Skill {
        Skill::XpGather
    }

    fn fresh() -> Self {
        XpGather { range: 0, acceleration: 0 }
    }

    fn set_field(&mut self, name: FieldName, value: Value) -> (ok: bool) {
        match name {
            FieldName::Range => {
                let ok = apply_fx(&mut self.range, value);
                proof {
                    if ok {
                        assert(self.fields() =~= updated_fields(
                            old(self).fields(),
                            name,
                            value,
                        ));
                    }
                }
                ok
            },
            FieldName::Acceleration => {
                let ok = apply_fx(&mut self.acceleration, value);
                proof {
                    if ok {
                        assert(self.fields() =~= updated_fields(
                            old(self).fields(),
                            name,
                            value,
                        ));
                    }
                }
                ok
            },
            _ => false,
        }
    }
}

/// Swarm movement: approach speed and aggression radius.
#[derive(Copy, Clone, Debug, PartialEq, Eq, Structural)]
pub struct Swarm {
    pub speed: i64,
    pub range: i64,
}

impl IsSkill for Swarm {
    open spec fn spec_skill() -> Skill {
        Skill::Swarm
    }

    open spec fn fields(&self) -> Map<FieldName, FieldVal> {
        map![
            FieldName::Speed => FieldVal::Fx(self.speed),
            FieldName::Range => FieldVal::Fx(self.range),
        ]
    }

    open spec fn spec_default() -> Self {
        Swarm { speed: 0, range: 0 }
    }

    fn skill() -> Skill {
        Skill::Swarm
    }

    fn fresh() -> Self {
        Swarm { speed: 0, range: 0 }
    }

    fn set_field(&mut self, name: FieldName, value: Value) -> (ok: bool) {
        match name {
            FieldName::Speed => {
                let ok = apply_fx(&mut self.speed, value);
                proof {
                    if ok {
                        assert(self.fields() =~= updated_fields(
                            old(self).fields(),
                            name,
                            value,
                        ));
                    }
                }
                ok
            },
            FieldName::Range => {
                let ok = apply_fx(&mut self.range, value);
                proof {
                    if ok {
                        assert(self.fields() =~= updated_fields(
                            old(self).fields(),
                            name,
                            value,
                        ));
                    }
                }
                ok
            },
            _ => false,
        }
    }
}

/// Close-quarters damage: reach and whole damage per second.
#[derive(Copy, Clone, Debug, PartialEq, Eq, Structural)]
pub struct Melee {
    pub range: i64,
    pub dps: u32,
}

impl IsSkill for Melee {
    open spec fn spec_skill() -> Skill {
        Skill::Melee
    }

    open spec fn fields(&self) -> Map<FieldName, FieldVal> {
        map![
            FieldName::Range => FieldVal::Fx(self.range),
            FieldName::Dps => FieldVal::Uint(self.dps),
        ]
    }

    open spec fn spec_default() -> Self {
        Melee { range: 0, dps: 0 }
    }

    fn skill() -> Skill {
        Skill::Melee
    }

    fn fresh() -> Self {
        Melee { range: 0, dps: 0 }
    }

    fn set_field(&mut self, name: FieldName, value: Value) -> (ok: bool) {
        match name {
            FieldName::Range => {
                let ok = apply_fx(&mut self.range, value);
                proof {
                    if ok {
                        assert(self.fields() =~= updated_fields(
                            old(self).fields(),
                            name,
                            value,
                        ));
                    }
                }
                ok
            },
            FieldName::Dps => {
                let ok = apply_uint(&mut self.dps, value);
                proof {
                    if ok {
                        assert(self.fields() =~= updated_fields(
                            old(self).fields(),
                            name,
                            value,
                        ));
                    }
                }
                ok
            },
            _ => false,
        }
    }
}

/// Beam weapon: targeting range, damage per second, beam duration, and
/// cooldown between shots.
#[derive(Copy, Clone, Debug, PartialEq, Eq, Structural)]
pub struct Laser {
    pub range: i64,
    pub dps: i64,
    pub duration: i64,
    pub cooldown: i64,
}

impl IsSkill for Laser {
    open spec fn spec_skill() -> Skill {
        Skill::Laser
    }

    open spec fn fields(&self) -> Map<FieldName, FieldVal> {
        map![
            FieldName::Range => FieldVal::Fx(self.range),
            FieldName::Dps => FieldVal::Fx(self.dps),
            FieldName::Duration => FieldVal::Fx(self.duration),
            FieldName::Cooldown => FieldVal::Fx(self.cooldown),
        ]
    }

    open spec fn spec_default() -> Self {
        Laser { range: 0, dps: 0, duration: 0, cooldown: 0 }
    }

    fn skill() -> Skill {
        Skill::Laser
    }

    fn fresh() -> Self {
        Laser { range: 0, dps: 0, duration: 0, cooldown: 0 }
    }

    fn set_field(&mut self, name: FieldName, value: Value) -> (ok: bool) {
        match name {
            FieldName::Range => {
                let ok = apply_fx(&mut self.range, value);
                proof {
                    if ok {
                        assert(self.fields() =~= updated_fields(
                            old(self).fields(),
                            name,
                            value,
                        ));
                    }
                }
                ok
            },
            FieldName::Dps => {
                let ok = apply_fx(&mut self.dps, value);
                proof {
                    if ok {
                        assert(self.fields() =~= updated_fields(
                            old(self).fields(),
                            name,
                            value,
                        ));
                    }
                }
                ok
            },
            FieldName::Duration => {
                let ok = apply_fx(&mut self.duration, value);
                proof {
                    if ok {
                        assert(self.fields() =~= updated_fields(
                            old(self).fields(),
                            name,
                            value,
                        ));
                    }
                }
                ok
            },
            FieldName::Cooldown => {
                let ok = apply_fx(&mut self.cooldown, value);
                proof {
                    if ok {
                        assert(self.fields() =~= updated_fields(
                            old(self).fields(),
                            name,
                            value,
                        ));
                    }
                }
                ok
            },
            _ => false,
        }
    }
}

} // verus!
