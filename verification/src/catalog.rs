//! The process-wide skill catalog.
//!
//! The catalog carries, for every skill, a display name and an ordered list
//! of per-level specifications, plus the attribute-to-field-name table used
//! for dynamic field resolution and its inverse. It is constructed empty,
//! populated from loaded asset data, and replaced wholesale on every reload:
//! readers between reloads always observe one consistent snapshot.

use vstd::prelude::*;

use crate::assoc::assoc_map;
use crate::assoc::assoc_wf;
use crate::assoc::find_attribute;
use crate::assoc::find_skill;
use crate::assoc::lemma_assoc_map_contains;
use crate::assoc::lemma_assoc_map_index;
use crate::equipped::EquippedSkills;
use crate::skill::Level;
use crate::skill::Skill;
use crate::skill_spec::absolute_restriction;
use crate::skill_spec::has_absolute;
use crate::skill_spec::SkillSpec;
use crate::skill_spec::SkillSpecs;
use crate::values::Attribute;

verus! {

broadcast use vstd::seq_lib::lemma_seq_contains_after_push;

/// Where an attribute lands on a behavior component (`field_name`) and how
/// it is presented to the player (`ui_name`).
pub struct AttributeMeta {
    pub field_name: String,
    pub ui_name: String,
}

impl Clone for AttributeMeta {
    /// An exact copy.
    fn clone(&self) -> (r: Self)
        ensures
            r == *self,
    {
        AttributeMeta { field_name: self.field_name.clone(), ui_name: self.ui_name.clone() }
    }
}

/// One load of catalog data: per-skill display names, the attribute table,
/// and per-skill ordered level specifications.
pub struct SkillsAsset {
    pub skills: Vec<(Skill, String)>,
    pub attributes: Vec<(Attribute, AttributeMeta)>,
    pub upgrades: Vec<(Skill, Vec<SkillSpec>)>,
}

impl SkillsAsset {
    /// Keys are pairwise distinct and every level specification is
    /// well-formed.
    pub open spec fn wf(&self) -> bool {
        &&& assoc_wf(self.skills@)
        &&& assoc_wf(self.attributes@)
        &&& assoc_wf(self.upgrades@)
        &&& forall|i: int, j: int|
            (0 <= i < self.upgrades@.len() && 0 <= j < self.upgrades@[i].1@.len()) ==> (
            #[trigger] self.upgrades@[i].1@[j]).wf()
    }
}

/// The map an inverse field-name table denotes, keyed by the name's text.
pub open spec fn inv_map(s: Seq<(String, Attribute)>) -> Map<Seq<char>, Attribute>
    decreases s.len(),
{
    if s.len() == 0 {
        Map::empty()
    } else {
        inv_map(s.drop_last()).insert(s.last().0@, s.last().1)
    }
}

/// Every inverse entry comes from some attribute-table entry: its name text
/// is that entry's field name and its attribute is that entry's key.
pub open spec fn inverse_sound(
    inv: Seq<(String, Attribute)>,
    attrs: Seq<(Attribute, AttributeMeta)>,
) -> bool {
    forall|k: int|
        0 <= k < inv.len() ==> (exists|m: int|
            0 <= m < attrs.len() && (#[trigger] attrs[m]).1.field_name@ == (
            #[trigger] inv[k]).0@ && attrs[m].0 == inv[k].1)
}

/// Well-formedness of an inverse table: name texts are pairwise distinct.
pub open spec fn inv_wf(s: Seq<(String, Attribute)>) -> bool {
    forall|i: int, j: int|
        0 <= i < j < s.len() ==> (#[trigger] s[i]).0@ != (#[trigger] s[j]).0@
}

/// A name text is in the denoted inverse map exactly when some entry
/// carries it.
proof fn lemma_inv_map_contains(s: Seq<(String, Attribute)>, n: Seq<char>)
    ensures
        inv_map(s).contains_key(n) <==> (exists|i: int|
            0 <= i < s.len() && (#[trigger] s[i]).0@ == n),
    decreases s.len(),
{
    if s.len() > 0 {
        lemma_inv_map_contains(s.drop_last(), n);
        assert(forall|i: int|
            0 <= i < s.len() - 1 ==> #[trigger] s.drop_last()[i] == s[i]);
        if s.last().0@ == n {
            assert(s[s.len() - 1].0@ == n);
        } else {
            if exists|i: int| 0 <= i < s.len() && (#[trigger] s[i]).0@ == n {
                let i = choose|i: int| 0 <= i < s.len() && (#[trigger] s[i]).0@ == n;
                assert(i < s.len() - 1);
                assert(s.drop_last()[i].0@ == n);
            }
        }
    }
}

/// In a well-formed inverse table, each entry gives the denoted map's value
/// at its name text.
proof fn lemma_inv_map_index(s: Seq<(String, Attribute)>, i: int)
    requires
        inv_wf(s),
        0 <= i < s.len(),
    ensures
        inv_map(s).contains_key(s[i].0@),
        inv_map(s)[s[i].0@] == s[i].1,
    decreases s.len(),
{
    if i < s.len() - 1 {
        assert(forall|m: int|
            0 <= m < s.len() - 1 ==> #[trigger] s.drop_last()[m] == s[m]);
        lemma_inv_map_index(s.drop_last(), i);
        assert(s[s.len() - 1].0@ != s[i].0@);
    }
}

/// Appending a fresh name keeps an inverse table well-formed.
proof fn lemma_inv_push_fresh(s: Seq<(String, Attribute)>, k: String, v: Attribute)
    requires
        inv_wf(s),
        forall|i: int| 0 <= i < s.len() ==> (#[trigger] s[i]).0@ != k@,
    ensures
        inv_wf(s.push((k, v))),
        inv_map(s.push((k, v))) == inv_map(s).insert(k@, v),
{
    let t = s.push((k, v));
    assert(forall|m: int| 0 <= m < s.len() ==> #[trigger] t[m] == s[m]);
    assert(t.drop_last() =~= s);
}

/// Position of a name text in an inverse table, if any.
fn find_field_name(entries: &Vec<(String, Attribute)>, name: &String) -> (r: Option<usize>)
    ensures
        match r {
            Some(i) => i < entries@.len() && entries@[i as int].0@ == name@,
            None => forall|i: int|
                0 <= i < entries@.len() ==> (#[trigger] entries@[i]).0@ != name@,
        },
{
    let mut i: usize = 0;
    while i < entries.len()
        invariant
            i <= entries@.len(),
            forall|m: int| 0 <= m < i ==> (#[trigger] entries@[m]).0@ != name@,
        decreases entries@.len() - i,
    {
        if entries[i].0 == *name {
            return Some(i);
        }
        i = i + 1;
    }
    None
}

/// Marks an agent whose equipped skills are refreshed when the catalog hot
/// reloads: the driver builds a fresh queue for every agent so marked (see
/// [`Skills::build_hot_reload_specs`]).
pub struct HotReloadEquippedSkills;

/// The reloadable catalog snapshot: display names, per-skill level
/// specifications, and the attribute-to-field-name table with its inverse.
pub struct Skills {
    pub(crate) skills: Vec<(Skill, String)>,
    pub(crate) attributes: Vec<(Attribute, AttributeMeta)>,
    pub(crate) attributes_inv: Vec<(String, Attribute)>,
    pub(crate) upgrades: Vec<(Skill, Vec<SkillSpec>)>,
}

impl Skills {
    /// The display name per skill.
    pub closed spec fn skills_seq(&self) -> Seq<(Skill, String)> {
        self.skills@
    }

    /// The attribute table entries.
    pub closed spec fn attributes_seq(&self) -> Seq<(Attribute, AttributeMeta)> {
        self.attributes@
    }

    /// The inverse field-name table entries.
    pub closed spec fn inverse_seq(&self) -> Seq<(String, Attribute)> {
        self.attributes_inv@
    }

    /// The per-skill level lists.
    pub closed spec fn upgrades_seq(&self) -> Seq<(Skill, Vec<SkillSpec>)> {
        self.upgrades@
    }

    /// The display name per skill, as a map.
    pub open spec fn skills_map(&self) -> Map<Skill, String> {
        assoc_map(self.skills_seq())
    }

    /// The attribute-to-field-name table, as a map.
    pub open spec fn attributes_map(&self) -> Map<Attribute, AttributeMeta> {
        assoc_map(self.attributes_seq())
    }

    /// The per-skill level lists, as a map.
    pub open spec fn upgrades_map(&self) -> Map<Skill, Vec<SkillSpec>> {
        assoc_map(self.upgrades_seq())
    }

    /// The field-name-to-attribute inverse, as a map keyed by name text.
    pub open spec fn inverse_map(&self) -> Map<Seq<char>, Attribute> {
        inv_map(self.inverse_seq())
    }

    /// Keys pairwise distinct throughout, and every level specification
    /// well-formed.
    pub open spec fn wf(&self) -> bool {
        &&& assoc_wf(self.skills_seq())
        &&& assoc_wf(self.attributes_seq())
        &&& assoc_wf(self.upgrades_seq())
        &&& inv_wf(self.inverse_seq())
        &&& forall|s: Skill, j: int|
            (self.upgrades_map().contains_key(s) && 0 <= j < self.upgrades_map()[s]@.len())
                ==> (#[trigger] self.upgrades_map()[s]@[j]).wf()
    }

    /// Whether the catalog carries the given level for a skill.
    pub open spec fn has_level(&self, s: Skill, lv: Level) -> bool {
        self.upgrades_map().contains_key(s) && lv.ordinal() < self.upgrades_map()[s]@.len()
    }

    /// The specification the catalog gives for a skill at a level.
    pub open spec fn spec_at(&self, s: Skill, lv: Level) -> SkillSpec {
        self.upgrades_map()[s]@[lv.ordinal() as int]
    }

    /// An empty catalog, as it stands before any data has loaded.
    pub fn new() -> (r: Skills)
        ensures
            r.wf(),
            r.skills_map() =~= Map::<Skill, String>::empty(),
            r.attributes_map() =~= Map::<Attribute, AttributeMeta>::empty(),
            r.upgrades_map() =~= Map::<Skill, Vec<SkillSpec>>::empty(),
            r.inverse_map() =~= Map::<Seq<char>, Attribute>::empty(),
    {
        Skills {
            skills: Vec::new(),
            attributes: Vec::new(),
            attributes_inv: Vec::new(),
            upgrades: Vec::new(),
        }
    }

    /// The ordered level specifications for a skill, if the catalog has it.
    pub fn get_upgrades(&self, skill: Skill) -> (r: Option<&Vec<SkillSpec>>)
        requires
            self.wf(),
        ensures
            r == (if self.upgrades_map().contains_key(skill) {
                Some(&self.upgrades_map()[skill])
            } else {
                None::<&Vec<SkillSpec>>
            }),
    {
        proof {
            lemma_assoc_map_contains(self.upgrades_seq(), skill);
        }
        match find_skill(&self.upgrades, skill) {
            Some(i) => {
                proof {
                    lemma_assoc_map_index(self.upgrades_seq(), i as int);
                }
                Some(&self.upgrades[i].1)
            },
            None => None,
        }
    }

    /// The field-resolution entry for an attribute, if the catalog has it.
    pub fn get_attribute_meta(&self, attr: Attribute) -> (r: Option<&AttributeMeta>)
        requires
            self.wf(),
        ensures
            r == (if self.attributes_map().contains_key(attr) {
                Some(&self.attributes_map()[attr])
            } else {
                None::<&AttributeMeta>
            }),
    {
        proof {
            lemma_assoc_map_contains(self.attributes_seq(), attr);
        }
        match find_attribute(&self.attributes, attr) {
            Some(i) => {
                proof {
                    lemma_assoc_map_index(self.attributes_seq(), i as int);
                }
                Some(&self.attributes[i].1)
            },
            None => None,
        }
    }

    /// The display name for a skill, if the catalog has it.
    pub fn get_skill_name(&self, skill: Skill) -> (r: Option<&String>)
        requires
            self.wf(),
        ensures
            r == (if self.skills_map().contains_key(skill) {
                Some(&self.skills_map()[skill])
            } else {
                None::<&String>
            }),
    {
        proof {
            lemma_assoc_map_contains(self.skills_seq(), skill);
        }
        match find_skill(&self.skills, skill) {
            Some(i) => {
                proof {
                    lemma_assoc_map_index(self.skills_seq(), i as int);
                }
                Some(&self.skills[i].1)
            },
            None => None,
        }
    }

    /// The attribute a component field name stands for, per the inverse
    /// table.
    pub fn attribute_for_field(&self, name: &String) -> (r: Option<Attribute>)
        requires
            self.wf(),
        ensures
            r == (if self.inverse_map().contains_key(name@) {
                Some(self.inverse_map()[name@])
            } else {
                None::<Attribute>
            }),
    {
        proof {
            lemma_inv_map_contains(self.inverse_seq(), name@);
        }
        match find_field_name(&self.attributes_inv, name) {
            Some(i) => {
                proof {
                    lemma_inv_map_index(self.inverse_seq(), i as int);
                }
                Some(self.attributes_inv[i].1)
            },
            None => None,
        }
    }

    /// How many skills the catalog carries level lists for.
    pub fn upgrades_len(&self) -> (n: usize)
        ensures
            n == self.upgrades_seq().len(),
    {
        self.upgrades.len()
    }

    /// The skill whose level list stands at a position.
    pub fn upgrades_key_at(&self, i: usize) -> (s: Skill)
        requires
            i < self.upgrades_seq().len(),
        ensures
            s == self.upgrades_seq()[i as int].0,
    {
        self.upgrades[i].0
    }

    /// Replaces the whole catalog with freshly loaded data and rebuilds the
    /// inverse field-name table. Earlier contents are fully superseded.
    pub fn reload(&mut self, asset: SkillsAsset)
        requires
            asset.wf(),
        ensures
            final(self).wf(),
            final(self).skills_seq() == asset.skills@,
            final(self).attributes_seq() == asset.attributes@,
            final(self).upgrades_seq() == asset.upgrades@,
            forall|n: Seq<char>|
                final(self).inverse_map().contains_key(n) <==> (exists|m: int|
                    0 <= m < asset.attributes@.len() && (#[trigger] asset.attributes@[m]).1.field_name@
                        == n),
            inverse_sound(final(self).inverse_seq(), asset.attributes@),
    {
        let SkillsAsset { skills, attributes, upgrades } = asset;
        let mut inv: Vec<(String, Attribute)> = Vec::new();
        let mut i: usize = 0;
        while i < attributes.len()
            invariant
                i <= attributes@.len(),
                inv_wf(inv@),
                forall|n: Seq<char>|
                    inv_map(inv@).contains_key(n) <==> (exists|m: int|
                        0 <= m < i && (#[trigger] attributes@[m]).1.field_name@ == n),
                inverse_sound(inv@, attributes@),
            decreases attributes@.len() - i,
        {
            let entry = &attributes[i];
            match find_field_name(&inv, &entry.1.field_name) {
                Some(_) => {
                    proof {
                        lemma_inv_map_contains(inv@, entry.1.field_name@);
                    }
                },
                None => {
                    proof {
                        lemma_inv_push_fresh(inv@, entry.1.field_name, entry.0);
                    }
                    let ghost inv0 = inv@;
                    inv.push((entry.1.field_name.clone(), entry.0));
                    proof {
                        assert(inv@ =~= inv0.push((attributes@[i as int].1.field_name, attributes@[i as int].0)));
                    }
                },
            }
            i = i + 1;
        }
        let ghost invv = inv@;
        let ghost attrs = attributes@;
        self.skills = skills;
        self.attributes = attributes;
        self.upgrades = upgrades;
        self.attributes_inv = inv;
        proof {
            assert(asset.attributes@ == attrs);
            assert(self.attributes_inv@ == invv);
            assert(inverse_sound(invv, attrs));
            assert(inverse_sound(self.attributes_inv@, asset.attributes@));
            assert forall|s: Skill, j: int|
                (self.upgrades_map().contains_key(s) && 0 <= j
                    < self.upgrades_map()[s]@.len()) implies (
            #[trigger] self.upgrades_map()[s]@[j]).wf() by {
                lemma_assoc_map_contains(self.upgrades_seq(), s);
                let m = choose|m: int|
                    0 <= m < self.upgrades_seq().len() && (#[trigger] self.upgrades_seq()[m]).0
                        == s;
                lemma_assoc_map_index(self.upgrades_seq(), m);
            }
        }
    }

    /// Re-enqueues, for every skill an agent has equipped, the same level's
    /// specification from this (freshly reloaded) catalog, restricted to its
    /// absolute entries: balance numbers refresh while progression stands.
    /// Skills whose stored level the catalog no longer carries are skipped
    /// and reported in the second component.
    pub fn build_hot_reload_specs(&self, equipped: &EquippedSkills) -> (r: (SkillSpecs, Vec<Skill>))
        requires
            self.wf(),
            equipped.wf(),
        ensures
            r.0.wf(),
            forall|s: Skill|
                #[trigger] r.0.to_map().contains_key(s) <==> (equipped.equipped_map().contains_key(
                    s,
                ) && self.has_level(s, equipped.equipped_map()[s]) && has_absolute(
                    self.spec_at(s, equipped.equipped_map()[s]).to_map(),
                )),
            forall|s: Skill|
                #[trigger] r.0.to_map().contains_key(s) ==> r.0.to_map()[s].0
                    == equipped.equipped_map()[s],
            forall|s: Skill|
                #[trigger] r.0.to_map().contains_key(s) ==> absolute_restriction(
                    r.0.to_map()[s].1.to_map(),
                    self.spec_at(s, equipped.equipped_map()[s]).to_map(),
                ),
            forall|s: Skill|
                #[trigger] r.1@.contains(s) <==> (equipped.equipped_map().contains_key(s)
                    && !self.has_level(s, equipped.equipped_map()[s])),
    {
        let ghost eq = equipped.equipped_seq();
        let mut out = SkillSpecs::new();
        let mut skipped: Vec<Skill> = Vec::new();
        let n = equipped.equipped_len();
        let mut i: usize = 0;
        while i < n
            invariant
                n == eq.len(),
                i <= n,
                self.wf(),
                equipped.wf(),
                eq == equipped.equipped_seq(),
                out.wf(),
                forall|s: Skill|
                    #[trigger] out.to_map().contains_key(s) <==> (exists|m: int|
                        0 <= m < i && (#[trigger] eq[m]).0 == s && self.has_level(s, eq[m].1)
                            && has_absolute(self.spec_at(s, eq[m].1).to_map())),
                forall|m: int|
                    (0 <= m < i && self.has_level((#[trigger] eq[m]).0, eq[m].1) && has_absolute(
                        self.spec_at(eq[m].0, eq[m].1).to_map(),
                    )) ==> (out.to_map().contains_key(eq[m].0) && out.to_map()[eq[m].0].0
                        == eq[m].1 && absolute_restriction(
                        out.to_map()[eq[m].0].1.to_map(),
                        self.spec_at(eq[m].0, eq[m].1).to_map(),
                    )),
                forall|s: Skill|
                    #[trigger] skipped@.contains(s) <==> (exists|m: int|
                        0 <= m < i && (#[trigger] eq[m]).0 == s && !self.has_level(s, eq[m].1)),
            decreases n - i,
        {
            let (sk, lv) = equipped.equipped_at(i);
            proof {
                assert(forall|m: int| 0 <= m < i ==> (#[trigger] eq[m]).0 != sk);
            }
            match self.get_upgrades(sk) {
                None => {
                    skipped.push(sk);
                },
                Some(levels) => {
                    match lv.index(levels) {
                        None => {
                            skipped.push(sk);
                        },
                        Some(spec) => {
                            proof {
                                assert(self.has_level(sk, lv));
                                assert(*spec == self.spec_at(sk, lv));
                                assert(spec.wf());
                            }
                            let filtered = spec.absolute_entries();
                            if !filtered.is_empty() {
                                out.insert(sk, lv, filtered);
                            }
                        },
                    }
                },
            }
            i = i + 1;
        }
        proof {
            assert forall|s: Skill|
                #[trigger] out.to_map().contains_key(s) <==> (equipped.equipped_map().contains_key(
                    s,
                ) && self.has_level(s, equipped.equipped_map()[s]) && has_absolute(
                    self.spec_at(s, equipped.equipped_map()[s]).to_map(),
                )) by {
                lemma_assoc_map_contains(eq, s);
                if out.to_map().contains_key(s) {
                    let m = choose|m: int|
                        0 <= m < eq.len() && (#[trigger] eq[m]).0 == s && self.has_level(
                            s,
                            eq[m].1,
                        ) && has_absolute(self.spec_at(s, eq[m].1).to_map());
                    lemma_assoc_map_index(eq, m);
                } else {
                    if equipped.equipped_map().contains_key(s) {
                        let m = choose|m: int| 0 <= m < eq.len() && (#[trigger] eq[m]).0 == s;
                        lemma_assoc_map_index(eq, m);
                    }
                }
            }
            assert forall|s: Skill| #[trigger] out.to_map().contains_key(s) implies (
            out.to_map()[s].0 == equipped.equipped_map()[s] && absolute_restriction(
                out.to_map()[s].1.to_map(),
                self.spec_at(s, equipped.equipped_map()[s]).to_map(),
            )) by {
                let m = choose|m: int|
                    0 <= m < eq.len() && (#[trigger] eq[m]).0 == s && self.has_level(s, eq[m].1)
                        && has_absolute(self.spec_at(s, eq[m].1).to_map());
                lemma_assoc_map_index(eq, m);
            }
            assert forall|s: Skill|
                #[trigger] skipped@.contains(s) <==> (equipped.equipped_map().contains_key(s)
                    && !self.has_level(s, equipped.equipped_map()[s])) by {
                lemma_assoc_map_contains(eq, s);
                if skipped@.contains(s) {
                    let m = choose|m: int|
                        0 <= m < eq.len() && (#[trigger] eq[m]).0 == s && !self.has_level(
                            s,
                            eq[m].1,
                        );
                    lemma_assoc_map_index(eq, m);
                } else {
                    if equipped.equipped_map().contains_key(s) {
                        let m = choose|m: int| 0 <= m < eq.len() && (#[trigger] eq[m]).0 == s;
                        lemma_assoc_map_index(eq, m);
                    }
                }
            }
        }
        (out, skipped)
    }
}

/// The queue of skill applications a freshly spawned agent starts with: its
/// default skills' specifications at level zero, and for each preselected
/// skill the catalog's level-zero specification (skipped when the catalog
/// has no levels for it).
pub fn initial_skill_specs(
    catalog: &Skills,
    default_skills: &Vec<(Skill, SkillSpec)>,
    selected_skills: &Vec<Skill>,
) -> (out: SkillSpecs)
    requires
        catalog.wf(),
        assoc_wf(default_skills@),
        forall|i: int| 0 <= i < default_skills@.len() ==> (#[trigger] default_skills@[i]).1.wf(),
    ensures
        out.wf(),
        forall|s: Skill|
            #[trigger] out.to_map().contains_key(s) <==> (assoc_map(
                default_skills@,
            ).contains_key(s) || (selected_skills@.contains(s)
                && catalog.upgrades_map().contains_key(s) && catalog.upgrades_map()[s]@.len()
                > 0)),
        forall|s: Skill|
            #[trigger] out.to_map().contains_key(s) ==> out.to_map()[s].0.ordinal() == 0,
        forall|s: Skill|
            (selected_skills@.contains(s) && catalog.upgrades_map().contains_key(s)
                && catalog.upgrades_map()[s]@.len() > 0) ==> (#[trigger] out.to_map()[s]).1@
                == catalog.upgrades_map()[s]@[0]@,
        forall|s: Skill|
            (#[trigger] out.to_map().contains_key(s) && !(selected_skills@.contains(s)
                && catalog.upgrades_map().contains_key(s) && catalog.upgrades_map()[s]@.len()
                > 0)) ==> out.to_map()[s].1@ == assoc_map(default_skills@)[s]@,
{
    let ghost dk = default_skills@;
    let ghost sel = selected_skills@;
    let lvl0 = Level::new(0);
    let mut out = SkillSpecs::new();
    let mut i: usize = 0;
    while i < default_skills.len()
        invariant
            i <= dk.len(),
            dk == default_skills@,
            assoc_wf(dk),
            forall|m: int| 0 <= m < dk.len() ==> (#[trigger] dk[m]).1.wf(),
            lvl0.ordinal() == 0,
            out.wf(),
            forall|s: Skill|
                #[trigger] out.to_map().contains_key(s) <==> (exists|m: int|
                    0 <= m < i && (#[trigger] dk[m]).0 == s),
            forall|m: int|
                0 <= m < i ==> (out.to_map().contains_key((#[trigger] dk[m]).0)
                    && out.to_map()[dk[m].0].0.ordinal() == 0 && out.to_map()[dk[m].0].1@
                    == dk[m].1@),
        decreases dk.len() - i,
    {
        let entry = &default_skills[i];
        proof {
            assert(forall|m: int| 0 <= m < i ==> (#[trigger] dk[m]).0 != entry.0);
        }
        out.insert(entry.0, lvl0, entry.1.clone());
        i = i + 1;
    }
    proof {
        assert forall|s: Skill|
            #[trigger] out.to_map().contains_key(s) <==> assoc_map(dk).contains_key(s) by {
            lemma_assoc_map_contains(dk, s);
        }
        assert forall|s: Skill| #[trigger] out.to_map().contains_key(s) implies (
        out.to_map()[s].0.ordinal() == 0 && out.to_map()[s].1@ == assoc_map(dk)[s]@) by {
            let m = choose|m: int| 0 <= m < dk.len() && (#[trigger] dk[m]).0 == s;
            lemma_assoc_map_index(dk, m);
        }
    }
    let mut j: usize = 0;
    while j < selected_skills.len()
        invariant
            j <= sel.len(),
            sel == selected_skills@,
            dk == default_skills@,
            assoc_wf(dk),
            catalog.wf(),
            lvl0.ordinal() == 0,
            out.wf(),
            forall|s: Skill|
                #[trigger] out.to_map().contains_key(s) <==> (assoc_map(dk).contains_key(s) || (
                exists|m: int|
                    0 <= m < j && (#[trigger] sel[m]) == s && catalog.upgrades_map().contains_key(
                        s,
                    ) && catalog.upgrades_map()[s]@.len() > 0)),
            forall|s: Skill|
                #[trigger] out.to_map().contains_key(s) ==> out.to_map()[s].0.ordinal() == 0,
            forall|s: Skill|
                ((exists|m: int| 0 <= m < j && (#[trigger] sel[m]) == s)
                    && catalog.upgrades_map().contains_key(s) && catalog.upgrades_map()[s]@.len()
                    > 0) ==> (#[trigger] out.to_map()[s]).1@ == catalog.upgrades_map()[s]@[0]@,
            forall|s: Skill|
                (#[trigger] out.to_map().contains_key(s) && !((exists|m: int|
                    0 <= m < j && (#[trigger] sel[m]) == s)
                    && catalog.upgrades_map().contains_key(s) && catalog.upgrades_map()[s]@.len()
                    > 0)) ==> out.to_map()[s].1@ == assoc_map(dk)[s]@,
        decreases sel.len() - j,
    {
        let sk = selected_skills[j];
        match catalog.get_upgrades(sk) {
            Some(levels) => {
                if levels.len() > 0 {
                    proof {
                        assert(catalog.upgrades_map()[sk]@[0].wf());
                    }
                    let spec0 = levels[0].clone();
                    out.insert(sk, lvl0, spec0);
                }
            },
            None => {},
        }
        j = j + 1;
    }
    out
}

impl Default for Skills {
    /// An empty catalog.
    fn default() -> (r: Skills)
        ensures
            r.wf(),
            r.skills_map() =~= Map::<Skill, String>::empty(),
            r.attributes_map() =~= Map::<Attribute, AttributeMeta>::empty(),
            r.upgrades_map() =~= Map::<Skill, Vec<SkillSpec>>::empty(),
            r.inverse_map() =~= Map::<Seq<char>, Attribute>::empty(),
    {
        Skills::new()
    }
}

/// Hot reload preserves progression: a queue built by
/// [`Skills::build_hot_reload_specs`] carries, for every skill it queues,
/// exactly the level the loadout already records — so when reconciliation
/// writes that level back, the loadout's equipped map is unchanged (and the
/// experience tracker is never touched by the reload path at all).
pub proof fn lemma_hot_reload_preserves_loadout(
    equipped: EquippedSkills,
    queue: SkillSpecs,
    s: Skill,
)
    requires
        queue.to_map().contains_key(s),
        equipped.equipped_map().contains_key(s),
        queue.to_map()[s].0 == equipped.equipped_map()[s],
    ensures
        equipped.equipped_map().insert(s, queue.to_map()[s].0) == equipped.equipped_map(),
{
    assert(equipped.equipped_map().insert(s, queue.to_map()[s].0) =~= equipped.equipped_map());
}

} // verus!
