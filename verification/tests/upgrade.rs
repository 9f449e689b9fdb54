use skill_engine::catalog::initial_skill_specs;
use skill_engine::catalog::AttributeMeta;
use skill_engine::catalog::Skills;
use skill_engine::catalog::SkillsAsset;
use skill_engine::components::Melee;
use skill_engine::equipped::EquippedSkills;
use skill_engine::progression::XpGatherState;
use skill_engine::reconcile::apply_skill_specs;
use skill_engine::skill::Level;
use skill_engine::skill::Skill;
use skill_engine::skill_spec::SkillSpec;
use skill_engine::skill_spec::SkillSpecs;
use skill_engine::upgrade::apply_upgrade_selection;
use skill_engine::upgrade::build_upgrade_candidates;
use skill_engine::upgrade::init_upgrade_options;
use skill_engine::upgrade::MaxUpgradableSkills;
use skill_engine::upgrade::SkillUpgradeOptions;
use skill_engine::values::Attribute;
use skill_engine::values::Value;

fn meta(field_name: &str, ui_name: &str) -> AttributeMeta {
    AttributeMeta { field_name: field_name.to_string(), ui_name: ui_name.to_string() }
}

fn dps_spec(v: Value) -> SkillSpec {
    let mut s = SkillSpec::new();
    s.insert(Attribute::Dps, v);
    s
}

/// A catalog with three skills: Melee with two levels, Laser and XpGather
/// with one level each.
fn three_skill_catalog() -> Skills {
    let asset = SkillsAsset {
        skills: vec![
            (Skill::Melee, "Melee".to_string()),
            (Skill::Laser, "Laser".to_string()),
            (Skill::XpGather, "Gatherer".to_string()),
        ],
        attributes: vec![(Attribute::Dps, meta("dps", "DPS"))],
        upgrades: vec![
            (Skill::Melee, vec![dps_spec(Value::U(3)), dps_spec(Value::AddU(2))]),
            (Skill::Laser, vec![dps_spec(Value::F(5000))]),
            (Skill::XpGather, vec![SkillSpec::new()]),
        ],
    };
    let mut cat = Skills::new();
    cat.reload(asset);
    cat
}

/// An agent with Melee selected and equipped at level 0.
fn melee_agent(cat: &Skills) -> (EquippedSkills, Option<SkillSpecs>, Option<Melee>) {
    let mut equipped = EquippedSkills::new(&vec![Skill::Melee]);
    let defaults: Vec<(Skill, SkillSpec)> = Vec::new();
    let mut specs = Some(initial_skill_specs(cat, &defaults, &vec![Skill::Melee]));
    let mut melee: Option<Melee> = None;
    let skipped = apply_skill_specs::<Melee>(cat, &mut melee, &mut equipped, &mut specs);
    assert!(skipped.is_empty());
    (equipped, specs, melee)
}

#[test]
fn candidate_set_is_next_level_plus_unselected_skills() {
    // With Melee selected at level 0 (of two levels) and room for one more
    // skill, the candidates are Melee's level 1 and the two unselected
    // skills at level 0.
    let cat = three_skill_catalog();
    let (equipped, _specs, _melee) = melee_agent(&cat);
    let mut cands = build_upgrade_candidates(&cat, &equipped, 2);
    cands.sort();
    let mut expected = vec![
        (Skill::Melee, Level::new(1)),
        (Skill::Laser, Level::new(0)),
        (Skill::XpGather, Level::new(0)),
    ];
    expected.sort();
    assert_eq!(cands, expected);
}

#[test]
fn offer_of_three_candidates_omits_none() {
    let cat = three_skill_catalog();
    let (equipped, _specs, _melee) = melee_agent(&cat);
    let mut gather = XpGatherState::new();
    gather.gather(10, 10);
    let mut offer = SkillUpgradeOptions::new();
    let opened = init_upgrade_options(
        &cat,
        &mut offer,
        1,
        &gather,
        &MaxUpgradableSkills(2),
        &equipped,
    );
    assert!(opened);
    assert_eq!(offer.entity, Some(1));
    assert!(offer.selected.is_none());
    let mut got = offer.skills.clone();
    got.sort();
    let mut expected = vec![
        (Skill::Melee, Level::new(1)),
        (Skill::Laser, Level::new(0)),
        (Skill::XpGather, Level::new(0)),
    ];
    expected.sort();
    assert_eq!(got, expected, "three or fewer candidates are offered whole");
}

#[test]
fn offer_samples_three_of_many_candidates() {
    // Four candidates: Melee level 1 and three fresh skills is too many for
    // one offer, so exactly three distinct candidates come back.
    let asset = SkillsAsset {
        skills: Vec::new(),
        attributes: vec![(Attribute::Dps, meta("dps", "DPS"))],
        upgrades: vec![
            (Skill::Melee, vec![dps_spec(Value::U(3)), dps_spec(Value::AddU(2))]),
            (Skill::Laser, vec![dps_spec(Value::F(5000))]),
            (Skill::XpGather, vec![SkillSpec::new()]),
            (Skill::Swarm, vec![SkillSpec::new()]),
        ],
    };
    let mut cat = Skills::new();
    cat.reload(asset);
    let (equipped, _specs, _melee) = melee_agent(&cat);
    let cands = build_upgrade_candidates(&cat, &equipped, 9);
    assert_eq!(cands.len(), 4);
    let mut gather = XpGatherState::new();
    gather.gather(10, 10);
    let mut offer = SkillUpgradeOptions::new();
    let opened = init_upgrade_options(
        &cat,
        &mut offer,
        1,
        &gather,
        &MaxUpgradableSkills(9),
        &equipped,
    );
    assert!(opened);
    assert_eq!(offer.skills.len(), 3);
    for c in &offer.skills {
        assert!(cands.contains(c), "offered option {c:?} is not a candidate");
    }
    for i in 0..offer.skills.len() {
        for j in 0..i {
            assert_ne!(offer.skills[i], offer.skills[j], "offer repeats an option");
        }
    }
}

#[test]
fn no_offer_while_slot_is_busy() {
    // The slot is a global mutual-exclusion gate: while one agent is
    // mid-offer, another owed agent gets nothing.
    let cat = three_skill_catalog();
    let (equipped, _specs, _melee) = melee_agent(&cat);
    let mut gather = XpGatherState::new();
    gather.gather(10, 10);
    let mut offer = SkillUpgradeOptions::new();
    assert!(init_upgrade_options(
        &cat,
        &mut offer,
        1,
        &gather,
        &MaxUpgradableSkills(2),
        &equipped,
    ));
    let held = offer.skills.clone();
    let opened_again = init_upgrade_options(
        &cat,
        &mut offer,
        2,
        &gather,
        &MaxUpgradableSkills(2),
        &equipped,
    );
    assert!(!opened_again);
    assert_eq!(offer.entity, Some(1), "the open offer still belongs to the first agent");
    assert_eq!(offer.skills, held);
}

#[test]
fn settled_agent_gets_no_offer() {
    let cat = three_skill_catalog();
    let (equipped, _specs, _melee) = melee_agent(&cat);
    let gather = XpGatherState::new();
    let mut offer = SkillUpgradeOptions::new();
    let opened = init_upgrade_options(
        &cat,
        &mut offer,
        1,
        &gather,
        &MaxUpgradableSkills(2),
        &equipped,
    );
    assert!(!opened);
    assert!(offer.entity.is_none());
}

#[test]
fn maxed_out_agent_gets_no_offer() {
    // Melee already at its last level and no room for another skill: the
    // candidate set is empty and the agent silently stays owed.
    let cat = three_skill_catalog();
    let (mut equipped, _specs, _melee) = melee_agent(&cat);
    equipped.set_level(Skill::Melee, Level::new(1), true);
    let mut gather = XpGatherState::new();
    gather.gather(30, 10);
    let mut offer = SkillUpgradeOptions::new();
    let opened = init_upgrade_options(
        &cat,
        &mut offer,
        1,
        &gather,
        &MaxUpgradableSkills(1),
        &equipped,
    );
    assert!(!opened);
    assert!(offer.entity.is_none());
}

#[test]
fn commit_applies_the_chosen_upgrade() {
    let cat = three_skill_catalog();
    let (mut equipped, mut specs, mut melee) = melee_agent(&cat);
    let mut gather = XpGatherState::new();
    gather.gather(10, 10);
    let mut offer = SkillUpgradeOptions::new();
    offer.entity = Some(1);
    offer.skills = vec![(Skill::Melee, Level::new(1))];
    offer.select(0);
    let committed =
        apply_upgrade_selection(&cat, &mut offer, &mut gather, &mut equipped, &mut specs);
    assert!(committed);
    assert_eq!(gather.get_player_level(), 2);
    assert_eq!(equipped.get_level(Skill::Melee), Some(Level::new(1)));
    assert!(offer.entity.is_none() && offer.skills.is_empty() && offer.selected.is_none());
    let skipped = apply_skill_specs::<Melee>(&cat, &mut melee, &mut equipped, &mut specs);
    assert!(skipped.is_empty());
    assert_eq!(melee.as_ref().unwrap().dps, 5, "3 plus the level-1 delta of 2");
}

#[test]
fn commit_without_selection_changes_nothing() {
    let cat = three_skill_catalog();
    let (mut equipped, mut specs, _melee) = melee_agent(&cat);
    let mut gather = XpGatherState::new();
    gather.gather(10, 10);
    let mut offer = SkillUpgradeOptions::new();
    offer.entity = Some(1);
    offer.skills = vec![(Skill::Melee, Level::new(1))];
    let committed =
        apply_upgrade_selection(&cat, &mut offer, &mut gather, &mut equipped, &mut specs);
    assert!(!committed);
    assert_eq!(offer.entity, Some(1), "an offer without a selection stays open");
    assert_eq!(gather.get_player_level(), 1);
}

#[test]
fn stale_selection_aborts_the_commit() {
    // A reload removed Melee's level 1 between offer and commit: the commit
    // aborts without touching progression, and the slot is cleared so the
    // next tick can offer afresh.
    let cat = three_skill_catalog();
    let (mut equipped, mut specs, _melee) = melee_agent(&cat);
    let mut gather = XpGatherState::new();
    gather.gather(10, 10);
    let mut offer = SkillUpgradeOptions::new();
    offer.entity = Some(1);
    offer.skills = vec![(Skill::Melee, Level::new(1))];
    offer.select(0);
    let shrunk = SkillsAsset {
        skills: Vec::new(),
        attributes: vec![(Attribute::Dps, meta("dps", "DPS"))],
        upgrades: vec![(Skill::Melee, vec![dps_spec(Value::U(3))])],
    };
    let mut cat2 = Skills::new();
    cat2.reload(shrunk);
    let committed =
        apply_upgrade_selection(&cat2, &mut offer, &mut gather, &mut equipped, &mut specs);
    assert!(!committed);
    assert_eq!(gather.get_player_level(), 1, "progression untouched");
    assert_eq!(equipped.get_level(Skill::Melee), Some(Level::new(0)));
    assert!(offer.entity.is_none() && offer.skills.is_empty() && offer.selected.is_none());
    let _ = cat;
}

#[test]
fn commit_for_a_settled_agent_aborts() {
    let cat = three_skill_catalog();
    let (mut equipped, mut specs, _melee) = melee_agent(&cat);
    let mut gather = XpGatherState::new();
    let mut offer = SkillUpgradeOptions::new();
    offer.entity = Some(1);
    offer.skills = vec![(Skill::Melee, Level::new(1))];
    offer.select(0);
    let committed =
        apply_upgrade_selection(&cat, &mut offer, &mut gather, &mut equipped, &mut specs);
    assert!(!committed);
    assert_eq!(gather.get_player_level(), 1);
    assert!(offer.entity.is_none());
}

#[test]
fn selecting_past_the_offer_clears_the_selection() {
    let mut offer = SkillUpgradeOptions::new();
    offer.entity = Some(1);
    offer.skills = vec![(Skill::Melee, Level::new(1))];
    offer.select(0);
    assert_eq!(offer.selected, Some((Skill::Melee, Level::new(1))));
    offer.select(5);
    assert!(offer.selected.is_none());
}

#[test]
fn preselection_collapses_repeats() {
    let equipped = EquippedSkills::new(&vec![Skill::Melee, Skill::Melee, Skill::Laser]);
    assert!(equipped.is_selected(Skill::Melee));
    assert!(equipped.is_selected(Skill::Laser));
    assert!(!equipped.is_selected(Skill::Swarm));
    assert_eq!(equipped.selected_len(), 2);
}
