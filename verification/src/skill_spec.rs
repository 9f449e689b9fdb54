//! Skill specifications and the per-agent queue of pending applications.
//!
//! A [`SkillSpec`] is the set of stat changes one skill carries at one level:
//! a mapping from [`Attribute`] to [`Value`], possibly partial. A
//! [`SkillSpecs`] is an agent's transient queue of `(skill, level, spec)`
//! entries awaiting reconciliation, keyed by skill.

use vstd::prelude::*;

use crate::assoc::assoc_map;
use crate::assoc::assoc_wf;
use crate::assoc::find_attribute;
use crate::assoc::find_skill;
use crate::assoc::lemma_assoc_map_remove;
use crate::assoc::lemma_assoc_push_fresh;
use crate::skill::Level;
use crate::skill::Skill;
use crate::values::Attribute;
use crate::values::Value;

verus! {

/// The full set of stat changes associated with one skill at one level.
pub struct SkillSpec {
    entries: Vec<(Attribute, Value)>,
}

impl View for SkillSpec {
    type V = Seq<(Attribute, Value)>;

    /// The ordered attribute entries of this specification.
    closed spec fn view(&self) -> Seq<(Attribute, Value)> {
        self.entries@
    }
}

impl SkillSpec {
    /// The attribute-to-value mapping this specification denotes.
    pub open spec fn to_map(&self) -> Map<Attribute, Value> {
        assoc_map(self@)
    }

    /// Attributes are pairwise distinct.
    pub open spec fn wf(&self) -> bool {
        assoc_wf(self@)
    }

    /// An empty specification.
    pub fn new() -> (r: SkillSpec)
        ensures
            r.wf(),
            r@ =~= Seq::<(Attribute, Value)>::empty(),
            r.to_map() =~= Map::<Attribute, Value>::empty(),
    {
        SkillSpec { entries: Vec::new() }
    }

    /// Sets the change for one attribute, replacing any change it already
    /// carried. A fresh attribute lands at the end of the entry order.
    pub fn insert(&mut self, attr: Attribute, value: Value)
        requires
            old(self).wf(),
        ensures
            final(self).wf(),
            final(self).to_map() == old(self).to_map().insert(attr, value),
            !old(self).to_map().contains_key(attr) ==> final(self)@ == old(self)@.push(
                (attr, value),
            ),
    {
        proof {
            crate::assoc::lemma_assoc_map_contains(self@, attr);
        }
        match find_attribute(&self.entries, attr) {
            Some(i) => {
                proof {
                    lemma_assoc_map_remove(self@, i as int);
                }
                let ghost removed = self@.remove(i as int);
                self.entries.remove(i);
                proof {
                    assert(forall|m: int|
                        0 <= m < removed.len() ==> (#[trigger] removed[m]).0 != attr);
                    lemma_assoc_push_fresh(removed, attr, value);
                    assert(assoc_map(removed).insert(attr, value) =~= assoc_map(
                        old(self)@,
                    ).insert(attr, value));
                }
                self.entries.push((attr, value));
            },
            None => {
                proof {
                    lemma_assoc_push_fresh(self@, attr, value);
                }
                self.entries.push((attr, value));
            },
        }
    }

    /// The change this specification carries for an attribute, if any.
    pub fn get(&self, attr: Attribute) -> (r: Option<Value>)
        requires
            self.wf(),
        ensures
            r == (if self.to_map().contains_key(attr) {
                Some(self.to_map()[attr])
            } else {
                None::<Value>
            }),
    {
        proof {
            crate::assoc::lemma_assoc_map_contains(self@, attr);
        }
        match find_attribute(&self.entries, attr) {
            Some(i) => {
                proof {
                    crate::assoc::lemma_assoc_map_index(self@, i as int);
                }
                Some(self.entries[i].1)
            },
            None => None,
        }
    }

    /// How many attributes this specification touches.
    pub fn len(&self) -> (n: usize)
        ensures
            n == self@.len(),
    {
        self.entries.len()
    }

    /// The entry at a position in the entry order.
    pub fn entry_at(&self, i: usize) -> (r: (Attribute, Value))
        requires
            i < self@.len(),
        ensures
            r == self@[i as int],
    {
        self.entries[i]
    }

    /// Whether this specification touches no attribute at all.
    pub fn is_empty(&self) -> (r: bool)
        ensures
            r == (self@.len() == 0),
            r ==> self.to_map() =~= Map::<Attribute, Value>::empty(),
    {
        self.entries.len() == 0
    }

    /// The restriction of this specification to its absolute entries: the
    /// part a hot reload may safely re-apply.
    pub fn absolute_entries(&self) -> (out: SkillSpec)
        requires
            self.wf(),
        ensures
            out.wf(),
            forall|a: Attribute|
                out.to_map().contains_key(a) <==> (self.to_map().contains_key(a)
                    && crate::values::is_absolute(self.to_map()[a])),
            forall|a: Attribute|
                out.to_map().contains_key(a) ==> out.to_map()[a] == self.to_map()[a],
            (out@.len() == 0) <==> !(exists|a: Attribute|
                self.to_map().contains_key(a) && crate::values::is_absolute(self.to_map()[a])),
    {
        let mut out = SkillSpec::new();
        let mut i: usize = 0;
        while i < self.entries.len()
            invariant
                i <= self@.len(),
                self.wf(),
                out.wf(),
                forall|a: Attribute|
                    out.to_map().contains_key(a) <==> (exists|m: int|
                        0 <= m < i && (#[trigger] self@[m]).0 == a && crate::values::is_absolute(
                            self@[m].1,
                        )),
                forall|a: Attribute, m: int|
                    (0 <= m < i && (#[trigger] self@[m]).0 == a && crate::values::is_absolute(
                        self@[m].1,
                    ) && out.to_map().contains_key(a)) ==> (#[trigger] out.to_map()[a])
                        == self@[m].1,
                (out@.len() == 0) <==> !(exists|m: int|
                    0 <= m < i && crate::values::is_absolute((#[trigger] self@[m]).1)),
            decreases self@.len() - i,
        {
            let (attr, value) = self.entries[i];
            let keep = match value {
                Value::F(_) => true,
                Value::U(_) => true,
                _ => false,
            };
            if keep {
                out.insert(attr, value);
                proof {
                    assert(out@.len() > 0);
                }
            }
            i = i + 1;
        }
        proof {
            assert forall|a: Attribute|
                out.to_map().contains_key(a) <==> (self.to_map().contains_key(a)
                    && crate::values::is_absolute(self.to_map()[a])) by {
                crate::assoc::lemma_assoc_map_contains(self@, a);
                if exists|m: int|
                    0 <= m < self@.len() && (#[trigger] self@[m]).0 == a
                        && crate::values::is_absolute(self@[m].1) {
                    let m = choose|m: int|
                        0 <= m < self@.len() && (#[trigger] self@[m]).0 == a
                            && crate::values::is_absolute(self@[m].1);
                    crate::assoc::lemma_assoc_map_index(self@, m);
                } else {
                    if self.to_map().contains_key(a) {
                        let m = choose|m: int| 0 <= m < self@.len() && (#[trigger] self@[m]).0 == a;
                        crate::assoc::lemma_assoc_map_index(self@, m);
                    }
                }
            }
            assert forall|a: Attribute| out.to_map().contains_key(a) implies out.to_map()[a]
                == self.to_map()[a] by {
                let m = choose|m: int|
                    0 <= m < self@.len() && (#[trigger] self@[m]).0 == a
                        && crate::values::is_absolute(self@[m].1);
                crate::assoc::lemma_assoc_map_index(self@, m);
            }
            assert((out@.len() == 0) <==> !(exists|a: Attribute|
                self.to_map().contains_key(a) && crate::values::is_absolute(
                    self.to_map()[a],
                ))) by {
                if exists|m: int|
                    0 <= m < self@.len() && crate::values::is_absolute((#[trigger] self@[m]).1) {
                    let m = choose|m: int|
                        0 <= m < self@.len() && crate::values::is_absolute(
                            (#[trigger] self@[m]).1,
                        );
                    crate::assoc::lemma_assoc_map_index(self@, m);
                    assert(self.to_map().contains_key(self@[m].0) && crate::values::is_absolute(
                        self.to_map()[self@[m].0],
                    ));
                }
                if exists|a: Attribute|
                    self.to_map().contains_key(a) && crate::values::is_absolute(
                        self.to_map()[a],
                    ) {
                    let a = choose|a: Attribute|
                        self.to_map().contains_key(a) && crate::values::is_absolute(
                            self.to_map()[a],
                        );
                    crate::assoc::lemma_assoc_map_contains(self@, a);
                    let m = choose|m: int| 0 <= m < self@.len() && (#[trigger] self@[m]).0 == a;
                    crate::assoc::lemma_assoc_map_index(self@, m);
                    assert(crate::values::is_absolute(self@[m].1));
                }
            }
        }
        out
    }
}

impl Clone for SkillSpec {
    /// An exact copy: same entries in the same order.
    fn clone(&self) -> (r: Self)
        ensures
            r@ == self@,
    {
        let mut entries: Vec<(Attribute, Value)> = Vec::new();
        let mut i: usize = 0;
        while i < self.entries.len()
            invariant
                i <= self.entries@.len(),
                entries@ =~= self.entries@.take(i as int),
            decreases self.entries@.len() - i,
        {
            entries.push(self.entries[i]);
            i = i + 1;
        }
        proof {
            assert(entries@ =~= self.entries@);
        }
        SkillSpec { entries }
    }
}

impl Default for SkillSpec {
    /// An empty specification.
    fn default() -> (r: SkillSpec)
        ensures
            r.wf(),
            r@ =~= Seq::<(Attribute, Value)>::empty(),
    {
        SkillSpec::new()
    }
}

/// Whether a specification's mapping carries any absolute entry.
pub open spec fn has_absolute(m: Map<Attribute, Value>) -> bool {
    exists|a: Attribute| m.contains_key(a) && crate::values::is_absolute(m[a])
}

/// `filtered` is exactly the absolute part of `full`: the same attributes
/// restricted to absolute entries, with unchanged values.
pub open spec fn absolute_restriction(
    filtered: Map<Attribute, Value>,
    full: Map<Attribute, Value>,
) -> bool {
    &&& forall|a: Attribute|
        #[trigger] filtered.contains_key(a) <==> (full.contains_key(a)
            && crate::values::is_absolute(full[a]))
    &&& forall|a: Attribute| #[trigger] filtered.contains_key(a) ==> filtered[a] == full[a]
}

/// An agent's transient queue of pending skill applications, keyed by skill:
/// each entry carries the level being applied and that level's specification.
pub struct SkillSpecs {
    entries: Vec<(Skill, (Level, SkillSpec))>,
}

impl SkillSpecs {
    /// The pending entries, keyed by skill.
    pub closed spec fn entries_seq(&self) -> Seq<(Skill, (Level, SkillSpec))> {
        self.entries@
    }

    /// The queue as a map from skill to pending `(level, spec)`.
    pub open spec fn to_map(&self) -> Map<Skill, (Level, SkillSpec)> {
        assoc_map(self.entries_seq())
    }

    /// Skills are pairwise distinct and every queued spec is well-formed.
    pub open spec fn wf(&self) -> bool {
        &&& assoc_wf(self.entries_seq())
        &&& forall|i: int|
            0 <= i < self.entries_seq().len() ==> (#[trigger] self.entries_seq()[i]).1.1.wf()
    }

    /// An empty queue.
    pub fn new() -> (r: SkillSpecs)
        ensures
            r.wf(),
            r.entries_seq() =~= Seq::<(Skill, (Level, SkillSpec))>::empty(),
            r.to_map() =~= Map::<Skill, (Level, SkillSpec)>::empty(),
    {
        SkillSpecs { entries: Vec::new() }
    }

    /// Queues a specification for one skill at one level, superseding any
    /// entry already pending for that skill.
    pub fn insert(&mut self, skill: Skill, level: Level, spec: SkillSpec)
        requires
            old(self).wf(),
            spec.wf(),
        ensures
            final(self).wf(),
            final(self).to_map() == old(self).to_map().insert(skill, (level, spec)),
    {
        proof {
            crate::assoc::lemma_assoc_map_contains(self.entries_seq(), skill);
        }
        match find_skill(&self.entries, skill) {
            Some(i) => {
                proof {
                    lemma_assoc_map_remove(self.entries_seq(), i as int);
                }
                let ghost removed = self.entries_seq().remove(i as int);
                self.entries.remove(i);
                proof {
                    assert(forall|m: int|
                        0 <= m < removed.len() ==> (#[trigger] removed[m]).0 != skill);
                    lemma_assoc_push_fresh(removed, skill, (level, spec));
                    assert(assoc_map(removed).insert(skill, (level, spec)) =~= assoc_map(
                        old(self).entries_seq(),
                    ).insert(skill, (level, spec)));
                }
                self.entries.push((skill, (level, spec)));
            },
            None => {
                proof {
                    lemma_assoc_push_fresh(self.entries_seq(), skill, (level, spec));
                }
                self.entries.push((skill, (level, spec)));
            },
        }
    }

    /// The pending entry for a skill, if any.
    pub fn get(&self, skill: Skill) -> (r: Option<&(Level, SkillSpec)>)
        requires
            self.wf(),
        ensures
            r == (if self.to_map().contains_key(skill) {
                Some(&self.to_map()[skill])
            } else {
                None::<&(Level, SkillSpec)>
            }),
    {
        proof {
            crate::assoc::lemma_assoc_map_contains(self.entries_seq(), skill);
        }
        match find_skill(&self.entries, skill) {
            Some(i) => {
                proof {
                    crate::assoc::lemma_assoc_map_index(self.entries_seq(), i as int);
                }
                Some(&self.entries[i].1)
            },
            None => None,
        }
    }

    /// Drops the pending entry for a skill, if any.
    pub fn remove(&mut self, skill: Skill)
        requires
            old(self).wf(),
        ensures
            final(self).wf(),
            final(self).to_map() == old(self).to_map().remove(skill),
            final(self).entries_seq().len() == old(self).entries_seq().len() - (
            if old(self).to_map().contains_key(skill) {
                1int
            } else {
                0int
            }),
    {
        proof {
            crate::assoc::lemma_assoc_map_contains(self.entries_seq(), skill);
        }
        match find_skill(&self.entries, skill) {
            Some(i) => {
                proof {
                    lemma_assoc_map_remove(self.entries_seq(), i as int);
                }
                self.entries.remove(i);
            },
            None => {
                proof {
                    assert(!self.to_map().contains_key(skill));
                    assert(self.to_map().remove(skill) =~= self.to_map());
                }
            },
        }
    }

    /// Whether no application is pending.
    pub fn is_empty(&self) -> (r: bool)
        ensures
            r == (self.entries_seq().len() == 0),
            r ==> self.to_map() =~= Map::<Skill, (Level, SkillSpec)>::empty(),
    {
        self.entries.len() == 0
    }
}

impl Default for SkillSpecs {
    /// An empty queue.
    fn default() -> (r: SkillSpecs)
        ensures
            r.wf(),
            r.entries_seq() =~= Seq::<(Skill, (Level, SkillSpec))>::empty(),
    {
        SkillSpecs::new()
    }
}

} // verus!
