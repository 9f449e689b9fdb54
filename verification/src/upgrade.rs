//! Upgrade offers and commits.
//!
//! When an agent's gathered level runs ahead of its acknowledged level, the
//! offer generator builds the candidate set — the next level of every
//! selected skill that is not maxed out, plus, while the agent has selection
//! room, every catalog skill not yet selected at level zero — and publishes a
//! bounded random sample of it into the single global offer slot. The commit
//! step applies the player's choice: it advances the acknowledged level,
//! records the selection, queues the chosen level's specification for
//! reconciliation, and clears the slot. The slot is exclusive: at most one
//! agent holds an open offer at any time ([`lemma_offer_exclusive`]).

use vstd::prelude::*;

use rand::seq::SliceRandom;

use crate::assoc::lemma_assoc_map_contains;
use crate::assoc::lemma_assoc_map_index;
use crate::catalog::Skills;
use crate::equipped::EquippedSkills;
use crate::progression::XpGatherState;
use crate::skill::Level;
use crate::skill::Skill;
use crate::skill_spec::SkillSpec;
use crate::skill_spec::SkillSpecs;

verus! {

broadcast use vstd::seq_lib::lemma_seq_contains_after_push;

/// An agent's identity, as the surrounding simulation names it.
pub type AgentId = u64;

/// How many skills an agent may select over a whole run.
pub struct MaxUpgradableSkills(pub u8);

/// The single global offer slot: the agent mid-offer, the candidate levels
/// presented, and the player's selection once made.
pub struct SkillUpgradeOptions {
    pub entity: Option<AgentId>,
    pub skills: Vec<(Skill, Level)>,
    pub selected: Option<(Skill, Level)>,
}

impl SkillUpgradeOptions {
    /// A non-empty offer names its agent, and a selection is always one of
    /// the offered options.
    pub open spec fn wf(&self) -> bool {
        &&& self.skills@.len() > 0 ==> self.entity is Some
        &&& self.selected is Some ==> self.skills@.contains(self.selected->Some_0)
    }

    /// A slot with no offer in it.
    pub open spec fn slot_free(&self) -> bool {
        &&& self.entity is None
        &&& self.skills@.len() == 0
        &&& self.selected is None
    }

    /// An empty slot.
    pub fn new() -> (r: SkillUpgradeOptions)
        ensures
            r.wf(),
            r.slot_free(),
    {
        SkillUpgradeOptions { entity: None, skills: Vec::new(), selected: None }
    }

    /// Abandons whatever offer is in the slot.
    pub fn clear(&mut self)
        ensures
            final(self).wf(),
            final(self).slot_free(),
    {
        self.entity = None;
        self.skills = Vec::new();
        self.selected = None;
    }

    /// Records the player's pick of one offered option, by its position in
    /// the offer; a position past the offer clears the selection.
    pub fn select(&mut self, idx: usize)
        ensures
            final(self).entity == old(self).entity,
            final(self).skills == old(self).skills,
            final(self).selected == (if idx < old(self).skills@.len() {
                Some(old(self).skills@[idx as int])
            } else {
                None::<(Skill, Level)>
            }),
            old(self).wf() ==> final(self).wf(),
    {
        if idx < self.skills.len() {
            self.selected = Some(self.skills[idx]);
        } else {
            self.selected = None;
        }
    }

    /// Whether the slot currently holds no offer.
    pub fn is_free(&self) -> (r: bool)
        ensures
            r == self.slot_free(),
    {
        self.entity.is_none() && self.skills.len() == 0 && self.selected.is_none()
    }
}

impl Default for SkillUpgradeOptions {
    /// An empty slot.
    fn default() -> (r: SkillUpgradeOptions)
        ensures
            r.wf(),
            r.slot_free(),
    {
        SkillUpgradeOptions::new()
    }
}

/// Whether an agent holds an open (non-empty) offer in the slot.
pub open spec fn holds_offer(slot: SkillUpgradeOptions, agent: AgentId) -> bool {
    slot.entity == Some(agent) && slot.skills@.len() > 0
}

/// Offer exclusivity: the single slot admits at most one agent mid-offer at
/// any time.
pub proof fn lemma_offer_exclusive(slot: SkillUpgradeOptions, a: AgentId, b: AgentId)
    requires
        holds_offer(slot, a),
        holds_offer(slot, b),
    ensures
        a == b,
{
}

/// Whether one `(skill, level)` pair belongs to an agent's upgrade candidate
/// set: the next level of a selected, not-yet-maxed skill; or, while the
/// agent has selection room, level zero of a catalog skill not yet selected.
pub open spec fn is_candidate(
    catalog: Skills,
    equipped: EquippedSkills,
    max_skills: int,
    c: (Skill, Level),
) -> bool {
    ||| {
        &&& equipped.selected_set().contains(c.0)
        &&& equipped.equipped_map().contains_key(c.0)
        &&& catalog.upgrades_map().contains_key(c.0)
        &&& equipped.equipped_map()[c.0].ordinal() < 255
        &&& equipped.equipped_map()[c.0].ordinal() + 1 < catalog.upgrades_map()[c.0]@.len()
        &&& c.1.ordinal() == equipped.equipped_map()[c.0].ordinal() + 1
    }
    ||| {
        &&& equipped.selected_seq().len() < max_skills
        &&& catalog.upgrades_map().contains_key(c.0)
        &&& !equipped.selected_set().contains(c.0)
        &&& c.1.ordinal() == 0
    }
}

/// Builds the full candidate set for an agent, each skill at most once.
pub fn build_upgrade_candidates(
    catalog: &Skills,
    equipped: &EquippedSkills,
    max_skills: u8,
) -> (r: Vec<(Skill, Level)>)
    requires
        catalog.wf(),
        equipped.wf(),
    ensures
        r@.no_duplicates(),
        forall|c: (Skill, Level)|
            #[trigger] r@.contains(c) <==> is_candidate(*catalog, *equipped, max_skills as int, c),
{
    let ghost sel = equipped.selected_seq();
    let mut r: Vec<(Skill, Level)> = Vec::new();
    let n1 = equipped.selected_len();
    let mut i: usize = 0;
    while i < n1
        invariant
            i <= n1,
            n1 == sel.len(),
            sel == equipped.selected_seq(),
            catalog.wf(),
            equipped.wf(),
            r@.no_duplicates(),
            forall|c: (Skill, Level)|
                #[trigger] r@.contains(c) <==> ((exists|m: int| 0 <= m < i && (#[trigger] sel[m])
                    == c.0) && equipped.equipped_map().contains_key(c.0)
                    && catalog.upgrades_map().contains_key(c.0)
                    && equipped.equipped_map()[c.0].ordinal() < 255
                    && equipped.equipped_map()[c.0].ordinal() + 1
                    < catalog.upgrades_map()[c.0]@.len() && c.1.ordinal()
                    == equipped.equipped_map()[c.0].ordinal() + 1),
        decreases n1 - i,
    {
        let sk = equipped.selected_at(i);
        proof {
            assert(forall|m: int| 0 <= m < i ==> sel[m] != sk);
        }
        match equipped.get_level(sk) {
            Some(lv) => {
                match catalog.get_upgrades(sk) {
                    Some(levels) => {
                        match lv.next(levels.len()) {
                            Some(nlv) => {
                                let ghost r0 = r@;
                                r.push((sk, nlv));
                                proof {
                                    assert(!r0.contains((sk, nlv)));
                                    assert(r@.no_duplicates()) by {
                                        assert(r@.drop_last() =~= r0);
                                        assert(forall|m: int|
                                            0 <= m < r0.len() ==> r@[m] == r0[m]);
                                        assert(r@.last() == (sk, nlv));
                                    }
                                }
                            },
                            None => {},
                        }
                    },
                    None => {},
                }
            },
            None => {},
        }
        i = i + 1;
    }
    proof {
        assert(forall|c: (Skill, Level)|
            #[trigger] r@.contains(c) ==> equipped.selected_set().contains(c.0));
    }
    if equipped.selected_len() < max_skills as usize {
        let ghost upg = catalog.upgrades_seq();
        let n2 = catalog.upgrades_len();
        let mut j: usize = 0;
        while j < n2
            invariant
                j <= n2,
                n2 == upg.len(),
                upg == catalog.upgrades_seq(),
                sel == equipped.selected_seq(),
                sel.len() < max_skills as int,
                catalog.wf(),
                equipped.wf(),
                r@.no_duplicates(),
                forall|c: (Skill, Level)|
                    #[trigger] r@.contains(c) <==> ((sel.contains(c.0)
                        && equipped.equipped_map().contains_key(c.0)
                        && catalog.upgrades_map().contains_key(c.0)
                        && equipped.equipped_map()[c.0].ordinal() < 255
                        && equipped.equipped_map()[c.0].ordinal() + 1
                        < catalog.upgrades_map()[c.0]@.len() && c.1.ordinal()
                        == equipped.equipped_map()[c.0].ordinal() + 1) || ((exists|m: int|
                        0 <= m < j && (#[trigger] upg[m]).0 == c.0) && !sel.contains(c.0)
                        && c.1.ordinal() == 0)),
            decreases n2 - j,
        {
            let sk = catalog.upgrades_key_at(j);
            proof {
                lemma_assoc_map_index(upg, j as int);
                assert(forall|m: int| 0 <= m < j ==> (#[trigger] upg[m]).0 != sk);
            }
            if !equipped.is_selected(sk) {
                let nlv = Level::new(0);
                let ghost r0 = r@;
                r.push((sk, nlv));
                proof {
                    assert(!r0.contains((sk, nlv)));
                    assert(r@.no_duplicates()) by {
                        assert(r@.drop_last() =~= r0);
                        assert(forall|m: int| 0 <= m < r0.len() ==> r@[m] == r0[m]);
                        assert(r@.last() == (sk, nlv));
                    }
                }
            }
            j = j + 1;
        }
        proof {
            assert forall|c: (Skill, Level)|
                #[trigger] r@.contains(c) <==> is_candidate(
                    *catalog,
                    *equipped,
                    max_skills as int,
                    c,
                ) by {
                lemma_assoc_map_contains(upg, c.0);
            }
        }
    } else {
        proof {
            assert forall|c: (Skill, Level)|
                #[trigger] r@.contains(c) <==> is_candidate(
                    *catalog,
                    *equipped,
                    max_skills as int,
                    c,
                ) by {}
        }
    }
    r
}

/// Relies on rand's `SliceRandom::choose_multiple` (with `thread_rng` as the
/// source): it samples `min(3, n)` elements of the slice at distinct
/// positions, so the result is drawn from the slice without repetition, and
/// a slice of at most three elements comes back whole.
#[verifier::external_body]
fn choose_up_to_three(options: &Vec<(Skill, Level)>) -> (r: Vec<(Skill, Level)>)
    ensures
        r@.len() == (if options@.len() < 3 {
            options@.len() as int
        } else {
            3int
        }),
        r@.to_multiset().subset_of(options@.to_multiset()),
        options@.len() <= 3 ==> r@.to_multiset() == options@.to_multiset(),
{
    let mut rng = rand::thread_rng();
    options.choose_multiple(&mut rng, 3).cloned().collect()
}

/// Opens an upgrade offer for an agent owed one: while the global slot is
/// free, publishes a uniform random sample of up to three of the agent's
/// candidates. With the slot busy, the agent settled, or no candidate left
/// (the agent is maxed out), the slot is left untouched and no offer opens.
pub fn init_upgrade_options(
    catalog: &Skills,
    upgrades: &mut SkillUpgradeOptions,
    agent: AgentId,
    gather: &XpGatherState,
    max_skills: &MaxUpgradableSkills,
    equipped: &EquippedSkills,
) -> (opened: bool)
    requires
        catalog.wf(),
        equipped.wf(),
        old(upgrades).wf(),
    ensures
        final(upgrades).wf(),
        opened == (old(upgrades).slot_free() && gather.owed() && (exists|c: (Skill, Level)|
            is_candidate(*catalog, *equipped, max_skills.0 as int, c))),
        !opened ==> *final(upgrades) == *old(upgrades),
        opened ==> final(upgrades).entity == Some(agent),
        opened ==> final(upgrades).selected is None,
        opened ==> 1 <= final(upgrades).skills@.len() <= 3,
        opened ==> final(upgrades).skills@.no_duplicates(),
        opened ==> forall|i: int|
            0 <= i < final(upgrades).skills@.len() ==> is_candidate(
                *catalog,
                *equipped,
                max_skills.0 as int,
                #[trigger] final(upgrades).skills@[i],
            ),
        opened ==> (final(upgrades).skills@.len() == 3 || (forall|c: (Skill, Level)|
            is_candidate(*catalog, *equipped, max_skills.0 as int, c)
                ==> final(upgrades).skills@.contains(c))),
{
    if !upgrades.is_free() {
        return false;
    }
    if !gather.is_upgrade_owed() {
        return false;
    }
    let candidates = build_upgrade_candidates(catalog, equipped, max_skills.0);
    let picked = choose_up_to_three(&candidates);
    if picked.len() == 0 {
        proof {
            assert(candidates@.len() == 0);
            assert forall|c: (Skill, Level)| !is_candidate(
                *catalog,
                *equipped,
                max_skills.0 as int,
                c,
            ) by {
                if is_candidate(*catalog, *equipped, max_skills.0 as int, c) {
                    assert(candidates@.contains(c));
                }
            }
        }
        return false;
    }
    proof {
        broadcast use vstd::seq_lib::group_to_multiset_ensures;

        assert(candidates@.len() > 0);
        assert(candidates@.contains(candidates@[0]));
        assert(is_candidate(*catalog, *equipped, max_skills.0 as int, candidates@[0]));
        candidates@.lemma_multiset_has_no_duplicates();
        assert forall|i: int| 0 <= i < picked@.len() implies is_candidate(
            *catalog,
            *equipped,
            max_skills.0 as int,
            #[trigger] picked@[i],
        ) by {
            assert(picked@.contains(picked@[i]));
            assert(picked@.to_multiset().count(picked@[i]) > 0);
            assert(candidates@.to_multiset().count(picked@[i]) > 0);
            assert(candidates@.contains(picked@[i]));
        }
        assert forall|x: (Skill, Level)|
            picked@.to_multiset().contains(x) implies picked@.to_multiset().count(x) == 1 by {
            assert(picked@.to_multiset().count(x) <= candidates@.to_multiset().count(x));
            assert(picked@.to_multiset().count(x) > 0);
            assert(candidates@.contains(x));
        }
        picked@.lemma_multiset_has_no_duplicates_conv();
        if candidates@.len() <= 3 {
            assert forall|c: (Skill, Level)|
                is_candidate(*catalog, *equipped, max_skills.0 as int, c) implies picked@.contains(
                c,
            ) by {
                assert(candidates@.contains(c));
                assert(candidates@.to_multiset().count(c) > 0);
                assert(picked@.to_multiset().count(c) > 0);
            }
        }
    }
    upgrades.entity = Some(agent);
    upgrades.skills = picked;
    upgrades.selected = None;
    true
}

/// Commits the player's selected upgrade, atomically within one tick:
/// advances the acknowledged level, marks the skill selected at its new
/// level, queues the chosen level's specification for reconciliation, and
/// clears the slot. With no selection (or no agent) in the slot nothing
/// happens at all. A selection whose level the catalog no longer carries
/// (a reload intervened), or an agent that is no longer owed a level, aborts
/// the commit without touching progression or the loadout — the slot is
/// still cleared, and the next tick may open a fresh offer.
pub fn apply_upgrade_selection(
    catalog: &Skills,
    upgrades: &mut SkillUpgradeOptions,
    gather: &mut XpGatherState,
    equipped: &mut EquippedSkills,
    specs: &mut Option<SkillSpecs>,
) -> (committed: bool)
    requires
        catalog.wf(),
        old(equipped).wf(),
        match *old(specs) {
            Some(q) => q.wf(),
            None => true,
        },
    ensures
        final(equipped).wf(),
        match *final(specs) {
            Some(q) => q.wf(),
            None => true,
        },
        (old(upgrades).entity is None || old(upgrades).selected is None) ==> (*final(upgrades)
            == *old(upgrades) && *final(gather) == *old(gather) && *final(equipped) == *old(equipped) && *final(specs) == *old(specs) && !committed),
        (old(upgrades).entity is Some && old(upgrades).selected is Some) ==> final(upgrades).slot_free(),
        committed == (old(upgrades).entity is Some && old(upgrades).selected is Some
            && catalog.has_level(
            old(upgrades).selected->Some_0.0,
            old(upgrades).selected->Some_0.1,
        ) && old(gather).owed()),
        !committed ==> (*final(gather) == *old(gather) && *final(equipped) == *old(equipped)
            && *final(specs) == *old(specs)),
        committed ==> (final(gather).player_level() == old(gather).player_level() + 1 && final(gather).xp() == old(gather).xp() && final(gather).gather_level() == old(gather).gather_level()),
        committed ==> final(equipped).equipped_map() == old(equipped).equipped_map().insert(
            old(upgrades).selected->Some_0.0,
            old(upgrades).selected->Some_0.1,
        ),
        committed ==> final(equipped).selected_set() == old(equipped).selected_set().insert(
            old(upgrades).selected->Some_0.0,
        ),
        committed ==> (*final(specs)) is Some,
        committed ==> final(specs)->Some_0.wf(),
        committed ==> (forall|s: Skill|
            #[trigger] final(specs)->Some_0.to_map().contains_key(s) <==> (queue_map(
                *old(specs),
            ).contains_key(s) || s == old(upgrades).selected->Some_0.0)),
        committed ==> (forall|s: Skill|
            (#[trigger] final(specs)->Some_0.to_map().contains_key(s) && s != old(upgrades).selected->Some_0.0) ==> final(specs)->Some_0.to_map()[s] == queue_map(
                *old(specs),
            )[s]),
        committed ==> final(specs)->Some_0.to_map()[old(upgrades).selected->Some_0.0].0 == old(upgrades).selected->Some_0.1,
        committed ==> final(specs)->Some_0.to_map()[old(upgrades).selected->Some_0.0].1@
            == catalog.spec_at(
            old(upgrades).selected->Some_0.0,
            old(upgrades).selected->Some_0.1,
        )@,
{
    let (skill, level) = match (upgrades.entity, upgrades.selected) {
        (Some(_), Some(p)) => p,
        _ => {
            return false;
        },
    };
    let committed = match catalog.get_upgrades(skill) {
        Some(levels) => {
            match level.index(levels) {
                Some(spec) => {
                    if gather.is_upgrade_owed() {
                        proof {
                            assert(gather.player_level() < gather.gather_level());
                        }
                        gather.upgrade_player_level();
                        equipped.set_level(skill, level, true);
                        proof {
                            assert(catalog.has_level(skill, level));
                            assert(*spec == catalog.spec_at(skill, level));
                            assert(spec.wf());
                        }
                        let spec_clone = spec.clone();
                        match specs {
                            Some(q) => {
                                q.insert(skill, level, spec_clone);
                            },
                            None => {
                                let mut q = SkillSpecs::new();
                                q.insert(skill, level, spec_clone);
                                *specs = Some(q);
                            },
                        }
                        true
                    } else {
                        false
                    }
                },
                None => false,
            }
        },
        None => false,
    };
    upgrades.entity = None;
    upgrades.skills = Vec::new();
    upgrades.selected = None;
    committed
}

/// The mapping a possibly absent queue denotes: absent stands for empty.
pub open spec fn queue_map(specs: Option<SkillSpecs>) -> Map<Skill, (Level, SkillSpec)> {
    match specs {
        Some(q) => q.to_map(),
        None => Map::empty(),
    }
}

} // verus!
