//! The reconciliation engine.
//!
//! [`apply_skill_specs`] drains an agent's pending skill specification for
//! one skill family into that family's behavior component: it inserts a
//! default component where one is missing, resolves every attribute through
//! the catalog's field-name table, applies each value according to its mode,
//! records the applied level in the agent's loadout, and removes the consumed
//! queue entry — dropping the queue entirely once it is empty. A missing
//! table entry, an unknown field name, or a value of the wrong shape is a
//! configuration error: that attribute is skipped (and reported), the rest
//! of the specification still applies.

use vstd::prelude::*;

use crate::catalog::AttributeMeta;
use crate::catalog::Skills;
use crate::components::IsSkill;
use crate::equipped::EquippedSkills;
use crate::fields::field_applies;
use crate::fields::spec_apply_value;
use crate::fields::spec_resolve_field;
use crate::fields::updated_fields;
use crate::fields::resolve_field;
use crate::fields::FieldName;
use crate::fields::FieldVal;
use crate::skill::Skill;
use crate::skill_spec::SkillSpecs;
use crate::values::Attribute;
use crate::values::Value;

verus! {

/// Whether one attribute's change lands cleanly: the catalog resolves it to
/// a known field and the value's shape matches that field on the component.
pub open spec fn lands(
    fields: Map<FieldName, FieldVal>,
    attrs: Map<Attribute, AttributeMeta>,
    a: Attribute,
    v: Value,
) -> bool {
    &&& attrs.contains_key(a)
    &&& spec_resolve_field(attrs[a].field_name@) is Some
    &&& field_applies(fields, spec_resolve_field(attrs[a].field_name@)->Some_0, v)
}

/// A component's fields after applying a specification's entries in order,
/// resolving each attribute through the catalog's field-name table. Entries
/// that do not resolve, or whose shape does not match, leave the fields
/// unchanged.
pub open spec fn reconciled_fields(
    fields: Map<FieldName, FieldVal>,
    attrs: Map<Attribute, AttributeMeta>,
    entries: Seq<(Attribute, Value)>,
) -> Map<FieldName, FieldVal>
    decreases entries.len(),
{
    if entries.len() == 0 {
        fields
    } else {
        let prior = reconciled_fields(fields, attrs, entries.drop_last());
        let a = entries.last().0;
        let v = entries.last().1;
        if attrs.contains_key(a) && spec_resolve_field(attrs[a].field_name@) is Some {
            updated_fields(prior, spec_resolve_field(attrs[a].field_name@)->Some_0, v)
        } else {
            prior
        }
    }
}

/// The attributes of a specification that do not land, in entry order:
/// the configuration errors one reconciliation pass reports.
pub open spec fn skipped_attrs(
    fields: Map<FieldName, FieldVal>,
    attrs: Map<Attribute, AttributeMeta>,
    entries: Seq<(Attribute, Value)>,
) -> Seq<Attribute>
    decreases entries.len(),
{
    if entries.len() == 0 {
        Seq::empty()
    } else {
        let rest = skipped_attrs(fields, attrs, entries.drop_last());
        if lands(fields, attrs, entries.last().0, entries.last().1) {
            rest
        } else {
            rest.push(entries.last().0)
        }
    }
}

/// Two field contents of the same shape: both fixed-point or both whole.
pub open spec fn same_shape(a: FieldVal, b: FieldVal) -> bool {
    match a {
        FieldVal::Fx(_) => b is Fx,
        FieldVal::Uint(_) => b is Uint,
    }
}

/// Whether a value applies to a field depends only on the field's shape.
proof fn lemma_applies_same_shape(a: FieldVal, b: FieldVal, v: Value)
    requires
        same_shape(a, b),
    ensures
        (spec_apply_value(a, v) is Some) == (spec_apply_value(b, v) is Some),
{
}

/// A successful application keeps the field's shape.
proof fn lemma_apply_keeps_shape(f: FieldVal, v: Value)
    requires
        spec_apply_value(f, v) is Some,
    ensures
        same_shape(f, spec_apply_value(f, v)->Some_0),
{
}

/// Reconciliation neither adds nor removes fields, and keeps every field's
/// shape: only the numbers change.
pub proof fn lemma_reconciled_fields_shape(
    fields: Map<FieldName, FieldVal>,
    attrs: Map<Attribute, AttributeMeta>,
    entries: Seq<(Attribute, Value)>,
)
    ensures
        forall|n: FieldName|
            reconciled_fields(fields, attrs, entries).contains_key(n)
                <==> fields.contains_key(n),
        forall|n: FieldName|
            fields.contains_key(n) ==> same_shape(
                fields[n],
                #[trigger] reconciled_fields(fields, attrs, entries)[n],
            ),
    decreases entries.len(),
{
    if entries.len() > 0 {
        lemma_reconciled_fields_shape(fields, attrs, entries.drop_last());
        let prior = reconciled_fields(fields, attrs, entries.drop_last());
        let a = entries.last().0;
        let v = entries.last().1;
        if attrs.contains_key(a) && spec_resolve_field(attrs[a].field_name@) is Some {
            let name = spec_resolve_field(attrs[a].field_name@)->Some_0;
            if field_applies(prior, name, v) {
                lemma_apply_keeps_shape(prior[name], v);
            }
        }
    }
}

/// Whether an entry lands does not depend on how earlier entries changed the
/// fields: shapes are stable across one reconciliation pass.
proof fn lemma_lands_stable(
    fields: Map<FieldName, FieldVal>,
    attrs: Map<Attribute, AttributeMeta>,
    entries: Seq<(Attribute, Value)>,
    a: Attribute,
    v: Value,
)
    ensures
        lands(reconciled_fields(fields, attrs, entries), attrs, a, v) == lands(
            fields,
            attrs,
            a,
            v,
        ),
{
    lemma_reconciled_fields_shape(fields, attrs, entries);
    if attrs.contains_key(a) && spec_resolve_field(attrs[a].field_name@) is Some {
        let name = spec_resolve_field(attrs[a].field_name@)->Some_0;
        if fields.contains_key(name) {
            lemma_applies_same_shape(
                fields[name],
                reconciled_fields(fields, attrs, entries)[name],
                v,
            );
        }
    }
}

/// Whether a queue holds a pending entry for a skill.
pub open spec fn pending(specs: Option<SkillSpecs>, sk: Skill) -> bool {
    match specs {
        Some(q) => q.to_map().contains_key(sk),
        None => false,
    }
}

/// The pending `(level, spec)` entry for a skill.
pub open spec fn pending_entry(specs: Option<SkillSpecs>, sk: Skill) -> (
    crate::skill::Level,
    crate::skill_spec::SkillSpec,
) {
    specs->Some_0.to_map()[sk]
}

/// The fields reconciliation starts from: the component's, or the family
/// default's for an agent that newly gains the family.
pub open spec fn base_fields<T: IsSkill>(component: Option<T>) -> Map<FieldName, FieldVal> {
    match component {
        Some(c) => c.fields(),
        None => T::spec_default().fields(),
    }
}

/// Drains the pending specification for component family `T` into the
/// agent's component, records the applied level in the loadout without
/// touching the selected set, removes the consumed queue entry, and drops
/// the queue once empty. With nothing pending for this family everything is
/// left exactly as it was. Returns the attributes that did not land, in
/// entry order.
pub fn apply_skill_specs<T: IsSkill>(
    catalog: &Skills,
    component: &mut Option<T>,
    equipped: &mut EquippedSkills,
    specs: &mut Option<SkillSpecs>,
) -> (skipped: Vec<Attribute>)
    requires
        catalog.wf(),
        old(equipped).wf(),
        match *old(specs) {
            Some(q) => q.wf(),
            None => true,
        },
    ensures
        final(equipped).wf(),
        match *final(specs) {
            Some(q) => q.wf(),
            None => true,
        },
        !pending(*old(specs), T::spec_skill()) ==> (*final(component) == *old(component)
            && *final(equipped) == *old(equipped) && *final(specs) == *old(specs) && skipped@
            =~= Seq::<Attribute>::empty()),
        pending(*old(specs), T::spec_skill()) ==> (*final(component)) is Some,
        pending(*old(specs), T::spec_skill()) ==> ((*final(component))->Some_0.fields()
            == reconciled_fields(
            base_fields::<T>(*old(component)),
            catalog.attributes_map(),
            pending_entry(*old(specs), T::spec_skill()).1@,
        )),
        pending(*old(specs), T::spec_skill()) ==> skipped@ == skipped_attrs(
            base_fields::<T>(*old(component)),
            catalog.attributes_map(),
            pending_entry(*old(specs), T::spec_skill()).1@,
        ),
        pending(*old(specs), T::spec_skill()) ==> final(equipped).equipped_map() == old(equipped).equipped_map().insert(
            T::spec_skill(),
            pending_entry(*old(specs), T::spec_skill()).0,
        ),
        pending(*old(specs), T::spec_skill()) ==> final(equipped).selected_set() == old(equipped).selected_set(),
        pending(*old(specs), T::spec_skill()) ==> (((*final(specs)) is None) <==> (*old(specs))->Some_0.entries_seq().len()
            == 1),
        (pending(*old(specs), T::spec_skill()) && (*final(specs)) is Some) ==> (*final(specs))->Some_0.to_map()
            == (*old(specs))->Some_0.to_map().remove(T::spec_skill()),
{
    let skill = T::skill();
    let mut skipped: Vec<Attribute> = Vec::new();
    let (lvl, spec) = match specs {
        Some(q) => match q.get(skill) {
            Some(p) => {
                proof {
                    crate::assoc::lemma_assoc_map_contains(q.entries_seq(), skill);
                    let m = choose|m: int|
                        0 <= m < q.entries_seq().len() && (#[trigger] q.entries_seq()[m]).0
                            == skill;
                    crate::assoc::lemma_assoc_map_index(q.entries_seq(), m);
                }
                (p.0, p.1.clone())
            },
            None => {
                return skipped;
            },
        },
        None => {
            return skipped;
        },
    };
    let ghost base = base_fields::<T>(*old(component));
    let ghost attrs = catalog.attributes_map();
    match component {
        Some(_) => {},
        None => {
            *component = Some(T::fresh());
        },
    }
    match component {
        Some(c) => {
            proof {
                assert(c.fields() == base);
                assert(spec@ == pending_entry(*old(specs), T::spec_skill()).1@);
            }
            let m = spec.len();
            let mut i: usize = 0;
            while i < m
                invariant
                    m == spec@.len(),
                    i <= m,
                    catalog.wf(),
                    attrs == catalog.attributes_map(),
                    spec.wf(),
                    c.fields() == reconciled_fields(base, attrs, spec@.take(i as int)),
                    skipped@ == skipped_attrs(base, attrs, spec@.take(i as int)),
                decreases m - i,
            {
                let (a, v) = spec.entry_at(i);
                proof {
                    assert(spec@.take(i + 1).drop_last() =~= spec@.take(i as int));
                    assert(spec@.take(i + 1).last() == spec@[i as int]);
                    lemma_lands_stable(base, attrs, spec@.take(i as int), a, v);
                }
                match catalog.get_attribute_meta(a) {
                    Some(meta) => {
                        match resolve_field(&meta.field_name) {
                            Some(fname) => {
                                let ok = c.set_field(fname, v);
                                if !ok {
                                    skipped.push(a);
                                }
                            },
                            None => {
                                skipped.push(a);
                            },
                        }
                    },
                    None => {
                        skipped.push(a);
                    },
                }
                i = i + 1;
            }
            proof {
                assert(spec@.take(m as int) =~= spec@);
            }
        },
        None => {},
    }
    equipped.set_level(skill, lvl, false);
    let drop_queue = match specs {
        Some(q) => {
            q.remove(skill);
            q.is_empty()
        },
        None => false,
    };
    if drop_queue {
        *specs = None;
    }
    skipped
}

} // verus!
