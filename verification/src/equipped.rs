//! An agent's current skill loadout.
//!
//! For every equipped skill the loadout records the level currently applied;
//! a subset is marked "player-selected" (eligible for future upgrade offers)
//! as opposed to granted by default. A loadout never shrinks: skills are
//! never un-equipped mid-run.

use vstd::prelude::*;

use crate::assoc::assoc_map;
use crate::assoc::assoc_wf;
use crate::assoc::find_skill;
use crate::assoc::lemma_assoc_map_remove;
use crate::assoc::lemma_assoc_push_fresh;
use crate::skill::Level;
use crate::skill::Skill;

verus! {

broadcast use vstd::seq_lib::lemma_seq_contains_after_push;

/// Whether a vector of skills holds the given one.
fn contains_skill(v: &Vec<Skill>, skill: Skill) -> (r: bool)
    ensures
        r == v@.contains(skill),
{
    let mut j: usize = 0;
    let mut present = false;
    while j < v.len()
        invariant
            j <= v@.len(),
            present <==> exists|m: int| 0 <= m < j && v@[m] == skill,
        decreases v@.len() - j,
    {
        if v[j] == skill {
            present = true;
        }
        j = j + 1;
    }
    proof {
        assert(present <==> v@.contains(skill));
    }
    present
}

/// The per-agent loadout: applied level per equipped skill, and the set of
/// player-selected skills.
pub struct EquippedSkills {
    pub(crate) equipped: Vec<(Skill, Level)>,
    pub(crate) selected: Vec<Skill>,
}

impl EquippedSkills {
    /// The ordered equipped entries backing [`Self::equipped_map`].
    pub closed spec fn equipped_seq(&self) -> Seq<(Skill, Level)> {
        self.equipped@
    }

    /// The applied level per equipped skill.
    pub open spec fn equipped_map(&self) -> Map<Skill, Level> {
        assoc_map(self.equipped_seq())
    }

    /// The ordered selected skills backing [`Self::selected_set`].
    pub closed spec fn selected_seq(&self) -> Seq<Skill> {
        self.selected@
    }

    /// The player-selected skills.
    pub open spec fn selected_set(&self) -> Set<Skill> {
        self.selected_seq().to_set()
    }

    /// How many skills are equipped.
    pub fn equipped_len(&self) -> (n: usize)
        ensures
            n == self.equipped_seq().len(),
    {
        self.equipped.len()
    }

    /// The equipped entry at a position.
    pub fn equipped_at(&self, i: usize) -> (r: (Skill, Level))
        requires
            i < self.equipped_seq().len(),
        ensures
            r == self.equipped_seq()[i as int],
    {
        self.equipped[i]
    }

    /// How many skills are player-selected.
    pub fn selected_len(&self) -> (n: usize)
        ensures
            n == self.selected_seq().len(),
    {
        self.selected.len()
    }

    /// The player-selected skill at a position.
    pub fn selected_at(&self, i: usize) -> (r: Skill)
        requires
            i < self.selected_seq().len(),
        ensures
            r == self.selected_seq()[i as int],
    {
        self.selected[i]
    }

    /// Equipped skills and selected skills are each free of repeats.
    pub open spec fn wf(&self) -> bool {
        &&& assoc_wf(self.equipped_seq())
        &&& self.selected_seq().no_duplicates()
    }

    /// A fresh loadout: nothing equipped yet, with the given skills already
    /// marked as player-selected (repeats collapse).
    pub fn new(preselected: &Vec<Skill>) -> (r: EquippedSkills)
        ensures
            r.wf(),
            r.equipped_map() =~= Map::<Skill, Level>::empty(),
            forall|s: Skill| r.selected_set().contains(s) <==> preselected@.contains(s),
    {
        let mut selected: Vec<Skill> = Vec::new();
        let mut i: usize = 0;
        while i < preselected.len()
            invariant
                i <= preselected@.len(),
                selected@.no_duplicates(),
                forall|s: Skill|
                    selected@.contains(s) <==> preselected@.take(i as int).contains(s),
            decreases preselected@.len() - i,
        {
            let skill = preselected[i];
            let ghost sel0 = selected@;
            if !contains_skill(&selected, skill) {
                selected.push(skill);
                proof {
                    assert(selected@.no_duplicates()) by {
                        assert(selected@.drop_last() =~= sel0);
                        assert(forall|m: int| 0 <= m < sel0.len() ==> selected@[m] == sel0[m]);
                        assert(selected@.last() == skill);
                    }
                }
            }
            proof {
                assert(preselected@.take(i + 1) =~= preselected@.take(i as int).push(
                    preselected@[i as int],
                ));
            }
            i = i + 1;
        }
        proof {
            assert(preselected@.take(preselected@.len() as int) =~= preselected@);
        }
        EquippedSkills { equipped: Vec::new(), selected }
    }

    /// Whether a skill is part of the loadout.
    pub fn is_equipped(&self, skill: Skill) -> (r: bool)
        requires
            self.wf(),
        ensures
            r == self.equipped_map().contains_key(skill),
    {
        proof {
            crate::assoc::lemma_assoc_map_contains(self.equipped_seq(), skill);
        }
        match find_skill(&self.equipped, skill) {
            Some(_) => true,
            None => false,
        }
    }

    /// The level currently applied for a skill, if it is equipped.
    pub fn get_level(&self, skill: Skill) -> (r: Option<Level>)
        requires
            self.wf(),
        ensures
            r == (if self.equipped_map().contains_key(skill) {
                Some(self.equipped_map()[skill])
            } else {
                None::<Level>
            }),
    {
        proof {
            crate::assoc::lemma_assoc_map_contains(self.equipped_seq(), skill);
        }
        match find_skill(&self.equipped, skill) {
            Some(i) => {
                proof {
                    crate::assoc::lemma_assoc_map_index(self.equipped_seq(), i as int);
                }
                Some(self.equipped[i].1)
            },
            None => None,
        }
    }

    /// Whether a skill is player-selected.
    pub fn is_selected(&self, skill: Skill) -> (r: bool)
        ensures
            r == self.selected_set().contains(skill),
    {
        contains_skill(&self.selected, skill)
    }

    /// Records the level applied for a skill, marking it selected when the
    /// application came from a player choice. Selection is never withdrawn.
    pub fn set_level(&mut self, skill: Skill, level: Level, is_selected: bool)
        requires
            old(self).wf(),
        ensures
            final(self).wf(),
            final(self).equipped_map() == old(self).equipped_map().insert(skill, level),
            final(self).selected_set() == (if is_selected {
                old(self).selected_set().insert(skill)
            } else {
                old(self).selected_set()
            }),
    {
        proof {
            crate::assoc::lemma_assoc_map_contains(self.equipped_seq(), skill);
        }
        match find_skill(&self.equipped, skill) {
            Some(i) => {
                proof {
                    lemma_assoc_map_remove(self.equipped_seq(), i as int);
                }
                let ghost removed = self.equipped@.remove(i as int);
                self.equipped.remove(i);
                proof {
                    assert(forall|m: int|
                        0 <= m < removed.len() ==> (#[trigger] removed[m]).0 != skill);
                    lemma_assoc_push_fresh(removed, skill, level);
                    assert(assoc_map(removed).insert(skill, level) =~= assoc_map(
                        old(self).equipped@,
                    ).insert(skill, level));
                }
                self.equipped.push((skill, level));
            },
            None => {
                proof {
                    lemma_assoc_push_fresh(self.equipped@, skill, level);
                }
                self.equipped.push((skill, level));
            },
        }
        if is_selected {
            let ghost sel0 = self.selected@;
            if !contains_skill(&self.selected, skill) {
                self.selected.push(skill);
                proof {
                    assert(self.selected@.no_duplicates()) by {
                        assert(self.selected@.drop_last() =~= sel0);
                        assert(forall|m: int| 0 <= m < sel0.len() ==> self.selected@[m] == sel0[m]);
                        assert(self.selected@.last() == skill);
                    }
                    assert(self.selected@.to_set() =~= sel0.to_set().insert(skill));
                }
            } else {
                proof {
                    assert(self.selected@.to_set() =~= sel0.to_set().insert(skill));
                }
            }
        }
    }
}

impl Default for EquippedSkills {
    /// A loadout with nothing equipped and nothing selected.
    fn default() -> (r: EquippedSkills)
        ensures
            r.wf(),
            r.equipped_map() =~= Map::<Skill, Level>::empty(),
            r.selected_set() =~= Set::<Skill>::empty(),
    {
        EquippedSkills { equipped: Vec::new(), selected: Vec::new() }
    }
}

} // verus!
