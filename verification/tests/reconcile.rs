use skill_engine::catalog::initial_skill_specs;
use skill_engine::catalog::AttributeMeta;
use skill_engine::catalog::Skills;
use skill_engine::catalog::SkillsAsset;
use skill_engine::components::Laser;
use skill_engine::components::Melee;
use skill_engine::equipped::EquippedSkills;
use skill_engine::fields::apply_value;
use skill_engine::fields::FieldVal;
use skill_engine::progression::XpGatherState;
use skill_engine::reconcile::apply_skill_specs;
use skill_engine::skill::Level;
use skill_engine::skill::Skill;
use skill_engine::skill_spec::SkillSpec;
use skill_engine::skill_spec::SkillSpecs;
use skill_engine::upgrade::apply_upgrade_selection;
use skill_engine::upgrade::init_upgrade_options;
use skill_engine::upgrade::MaxUpgradableSkills;
use skill_engine::upgrade::SkillUpgradeOptions;
use skill_engine::values::Attribute;
use skill_engine::values::Value;

fn meta(field_name: &str, ui_name: &str) -> AttributeMeta {
    AttributeMeta { field_name: field_name.to_string(), ui_name: ui_name.to_string() }
}

/// A catalog with one skill, `Laser`, whose two levels set dps to 5.0 and
/// then add 5.0 (fixed-point thousandths).
fn laser_catalog() -> Skills {
    let mut spec0 = SkillSpec::new();
    spec0.insert(Attribute::Dps, Value::F(5000));
    let mut spec1 = SkillSpec::new();
    spec1.insert(Attribute::Dps, Value::AddF(5000));
    let asset = SkillsAsset {
        skills: vec![(Skill::Laser, "Laser".to_string())],
        attributes: vec![(Attribute::Dps, meta("dps", "DPS"))],
        upgrades: vec![(Skill::Laser, vec![spec0, spec1])],
    };
    let mut cat = Skills::new();
    cat.reload(asset);
    cat
}

#[test]
fn absolute_sets_additive_adds_percentage_grows() {
    assert_eq!(apply_value(FieldVal::Fx(1234), Value::F(500)), Some(FieldVal::Fx(500)));
    assert_eq!(apply_value(FieldVal::Fx(1000), Value::AddF(234)), Some(FieldVal::Fx(1234)));
    // 0.2 grown by 50% is 0.3
    assert_eq!(apply_value(FieldVal::Fx(200), Value::Perc(50_000)), Some(FieldVal::Fx(300)));
    // 1.0 shrunk by 25% is 0.75
    assert_eq!(apply_value(FieldVal::Fx(1000), Value::Perc(-25_000)), Some(FieldVal::Fx(750)));
    assert_eq!(apply_value(FieldVal::Uint(3), Value::U(9)), Some(FieldVal::Uint(9)));
    assert_eq!(apply_value(FieldVal::Uint(3), Value::AddU(4)), Some(FieldVal::Uint(7)));
}

#[test]
fn application_saturates_at_type_bounds() {
    assert_eq!(
        apply_value(FieldVal::Uint(u32::MAX), Value::AddU(1)),
        Some(FieldVal::Uint(u32::MAX))
    );
    assert_eq!(
        apply_value(FieldVal::Fx(i64::MAX), Value::AddF(1)),
        Some(FieldVal::Fx(i64::MAX))
    );
    assert_eq!(
        apply_value(FieldVal::Fx(i64::MIN), Value::AddF(-1)),
        Some(FieldVal::Fx(i64::MIN))
    );
}

#[test]
fn shape_mismatch_applies_nothing() {
    assert_eq!(apply_value(FieldVal::Uint(3), Value::Perc(10_000)), None);
    assert_eq!(apply_value(FieldVal::Uint(3), Value::F(5)), None);
    assert_eq!(apply_value(FieldVal::Fx(3), Value::U(5)), None);
    assert_eq!(apply_value(FieldVal::Fx(3), Value::AddU(5)), None);
}

#[test]
fn empty_queue_is_a_no_op() {
    let cat = laser_catalog();
    let mut equipped = EquippedSkills::new(&Vec::new());
    let mut laser: Option<Laser> = Some(Laser { range: 7, dps: 8, duration: 9, cooldown: 10 });
    let mut specs: Option<SkillSpecs> = None;
    let skipped = apply_skill_specs::<Laser>(&cat, &mut laser, &mut equipped, &mut specs);
    assert!(skipped.is_empty());
    assert_eq!(laser, Some(Laser { range: 7, dps: 8, duration: 9, cooldown: 10 }));
    assert!(specs.is_none());
    assert!(!equipped.is_equipped(Skill::Laser));
}

#[test]
fn queue_for_another_skill_is_untouched() {
    let cat = laser_catalog();
    let mut equipped = EquippedSkills::new(&Vec::new());
    let mut laser: Option<Laser> = None;
    let mut queue = SkillSpecs::new();
    let mut spec = SkillSpec::new();
    spec.insert(Attribute::Dps, Value::U(3));
    queue.insert(Skill::Melee, Level::new(0), spec);
    let mut specs = Some(queue);
    let skipped = apply_skill_specs::<Laser>(&cat, &mut laser, &mut equipped, &mut specs);
    assert!(skipped.is_empty());
    assert!(laser.is_none());
    let q = specs.as_ref().expect("pending melee entry must remain");
    assert!(q.get(Skill::Melee).is_some());
}

#[test]
fn equip_then_upgrade_doubles_laser_dps() {
    // Level 0 sets dps absolutely to 5.0; level 1 adds 5.0: the component
    // reads 5.0 and then 10.0 (in thousandths).
    let cat = laser_catalog();
    let mut equipped = EquippedSkills::new(&vec![Skill::Laser]);
    let defaults: Vec<(Skill, SkillSpec)> = Vec::new();
    let mut specs = Some(initial_skill_specs(&cat, &defaults, &vec![Skill::Laser]));
    let mut laser: Option<Laser> = None;

    let skipped = apply_skill_specs::<Laser>(&cat, &mut laser, &mut equipped, &mut specs);
    assert!(skipped.is_empty());
    assert_eq!(laser.as_ref().expect("component inserted").dps, 5000);
    assert!(specs.is_none(), "drained queue drops the marker");
    assert_eq!(equipped.get_level(Skill::Laser), Some(Level::new(0)));

    let mut gather = XpGatherState::new();
    gather.gather(10, 10);
    let mut offer = SkillUpgradeOptions::new();
    let opened = init_upgrade_options(
        &cat,
        &mut offer,
        7,
        &gather,
        &MaxUpgradableSkills(1),
        &equipped,
    );
    assert!(opened);
    assert_eq!(offer.skills, vec![(Skill::Laser, Level::new(1))]);
    offer.select(0);
    let committed =
        apply_upgrade_selection(&cat, &mut offer, &mut gather, &mut equipped, &mut specs);
    assert!(committed);
    assert!(offer.entity.is_none() && offer.skills.is_empty() && offer.selected.is_none());

    let skipped = apply_skill_specs::<Laser>(&cat, &mut laser, &mut equipped, &mut specs);
    assert!(skipped.is_empty());
    assert_eq!(laser.as_ref().unwrap().dps, 10000);
    assert_eq!(equipped.get_level(Skill::Laser), Some(Level::new(1)));
    assert!(equipped.is_selected(Skill::Laser));
}

#[test]
fn missing_attribute_table_entry_is_skipped() {
    // The catalog has no row for Dps, so the attribute cannot be resolved:
    // it is reported and the field stays at its default.
    let mut spec0 = SkillSpec::new();
    spec0.insert(Attribute::Dps, Value::F(5000));
    spec0.insert(Attribute::Range, Value::F(1500));
    let asset = SkillsAsset {
        skills: vec![(Skill::Laser, "Laser".to_string())],
        attributes: vec![(Attribute::Range, meta("range", "Range"))],
        upgrades: vec![(Skill::Laser, vec![spec0])],
    };
    let mut cat = Skills::new();
    cat.reload(asset);

    let mut equipped = EquippedSkills::new(&Vec::new());
    let defaults: Vec<(Skill, SkillSpec)> = Vec::new();
    let mut specs = Some(initial_skill_specs(&cat, &defaults, &vec![Skill::Laser]));
    let mut laser: Option<Laser> = None;
    let skipped = apply_skill_specs::<Laser>(&cat, &mut laser, &mut equipped, &mut specs);
    assert_eq!(skipped, vec![Attribute::Dps]);
    let c = laser.as_ref().unwrap();
    assert_eq!(c.dps, 0, "unresolved attribute leaves the field unchanged");
    assert_eq!(c.range, 1500, "the rest of the spec still applies");
}

#[test]
fn unknown_field_name_is_skipped() {
    let mut spec0 = SkillSpec::new();
    spec0.insert(Attribute::Dps, Value::F(5000));
    let asset = SkillsAsset {
        skills: vec![(Skill::Laser, "Laser".to_string())],
        attributes: vec![(Attribute::Dps, meta("damage", "DPS"))],
        upgrades: vec![(Skill::Laser, vec![spec0])],
    };
    let mut cat = Skills::new();
    cat.reload(asset);

    let mut equipped = EquippedSkills::new(&Vec::new());
    let defaults: Vec<(Skill, SkillSpec)> = Vec::new();
    let mut specs = Some(initial_skill_specs(&cat, &defaults, &vec![Skill::Laser]));
    let mut laser: Option<Laser> = None;
    let skipped = apply_skill_specs::<Laser>(&cat, &mut laser, &mut equipped, &mut specs);
    assert_eq!(skipped, vec![Attribute::Dps]);
    assert_eq!(laser.as_ref().unwrap().dps, 0);
}

#[test]
fn field_absent_from_component_is_skipped() {
    // "speed" is a known field name, but Melee has no such field.
    let mut spec0 = SkillSpec::new();
    spec0.insert(Attribute::Speed, Value::F(2000));
    spec0.insert(Attribute::Dps, Value::U(3));
    let asset = SkillsAsset {
        skills: vec![(Skill::Melee, "Melee".to_string())],
        attributes: vec![
            (Attribute::Speed, meta("speed", "Speed")),
            (Attribute::Dps, meta("dps", "DPS")),
        ],
        upgrades: vec![(Skill::Melee, vec![spec0])],
    };
    let mut cat = Skills::new();
    cat.reload(asset);

    let mut equipped = EquippedSkills::new(&Vec::new());
    let defaults: Vec<(Skill, SkillSpec)> = Vec::new();
    let mut specs = Some(initial_skill_specs(&cat, &defaults, &vec![Skill::Melee]));
    let mut melee: Option<Melee> = None;
    let skipped = apply_skill_specs::<Melee>(&cat, &mut melee, &mut equipped, &mut specs);
    assert_eq!(skipped, vec![Attribute::Speed]);
    assert_eq!(melee.as_ref().unwrap().dps, 3);
}

#[test]
fn wrong_shape_for_component_field_is_skipped() {
    // Melee's dps is a whole number; a percentage cannot grow it.
    let mut spec0 = SkillSpec::new();
    spec0.insert(Attribute::Dps, Value::Perc(10_000));
    let asset = SkillsAsset {
        skills: vec![(Skill::Melee, "Melee".to_string())],
        attributes: vec![(Attribute::Dps, meta("dps", "DPS"))],
        upgrades: vec![(Skill::Melee, vec![spec0])],
    };
    let mut cat = Skills::new();
    cat.reload(asset);

    let mut equipped = EquippedSkills::new(&Vec::new());
    let defaults: Vec<(Skill, SkillSpec)> = Vec::new();
    let mut specs = Some(initial_skill_specs(&cat, &defaults, &vec![Skill::Melee]));
    let mut melee: Option<Melee> = None;
    let skipped = apply_skill_specs::<Melee>(&cat, &mut melee, &mut equipped, &mut specs);
    assert_eq!(skipped, vec![Attribute::Dps]);
    assert_eq!(melee.as_ref().unwrap().dps, 0);
}

#[test]
fn default_skills_equip_at_level_zero() {
    let cat = laser_catalog();
    let mut dspec = SkillSpec::new();
    dspec.insert(Attribute::Dps, Value::U(3));
    let defaults = vec![(Skill::Melee, dspec)];
    let specs = initial_skill_specs(&cat, &defaults, &Vec::new());
    let entry = specs.get(Skill::Melee).expect("default skill queued");
    assert_eq!(entry.0, Level::new(0));
    assert_eq!(entry.1.get(Attribute::Dps), Some(Value::U(3)));
    assert!(specs.get(Skill::Laser).is_none());
}

#[test]
fn preselected_skill_without_catalog_levels_is_not_queued() {
    let asset = SkillsAsset {
        skills: vec![(Skill::Melee, "Melee".to_string())],
        attributes: vec![(Attribute::Dps, meta("dps", "DPS"))],
        upgrades: vec![(Skill::Melee, Vec::new())],
    };
    let mut cat = Skills::new();
    cat.reload(asset);
    let defaults: Vec<(Skill, SkillSpec)> = Vec::new();
    let specs = initial_skill_specs(&cat, &defaults, &vec![Skill::Melee, Skill::Laser]);
    assert!(specs.is_empty());
}
