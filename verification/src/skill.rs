//! Skill categories and level ordinals.

use vstd::prelude::*;

verus! {

/// The closed set of capability categories an agent may equip.
#[derive(Copy, Clone, Debug, PartialEq, Eq, Hash, PartialOrd, Ord, Structural)]
pub enum Skill {
    Health,
    HealthRegen,
    XpGather,
    Swarm,
    Melee,
    Laser,
}

/// An ordinal index into one skill's ordered list of level specifications:
/// zero-based internally, one-based for display. A level is only meaningful
/// relative to a specific skill's list length.
#[derive(Copy, Clone, Debug, PartialEq, Eq, Hash, PartialOrd, Ord, Structural)]
pub struct Level(pub u8);

impl Level {
    /// The zero-based ordinal this level stands for.
    pub open spec fn ordinal(self) -> nat {
        self.0 as nat
    }

    /// A level at the given zero-based ordinal.
    pub fn new(ordinal: u8) -> (l: Level)
        ensures
            l.ordinal() == ordinal,
    {
        Level(ordinal)
    }

    /// Whether this is the first (zero) level.
    pub fn is_first(&self) -> (r: bool)
        ensures
            r == (self.ordinal() == 0),
    {
        self.0 == 0
    }

    /// The level one above this one, bounded by the skill's level count:
    /// `None` at the last representable step rather than past it.
    pub fn next(&self, levels_count: usize) -> (r: Option<Level>)
        ensures
            (r is Some) <==> (self.ordinal() + 1 < levels_count && self.ordinal() < 255),
            r is Some ==> r->Some_0.ordinal() == self.ordinal() + 1,
            r is Some ==> r->Some_0.ordinal() + 1 <= levels_count,
    {
        if self.0 < u8::MAX && (self.0 as usize) + 1 < levels_count {
            Some(Level(self.0 + 1))
        } else {
            None
        }
    }

    /// The level one below this one: `None` below zero rather than past it.
    pub fn prev(&self) -> (r: Option<Level>)
        ensures
            (r is Some) <==> self.ordinal() > 0,
            r is Some ==> r->Some_0.ordinal() == self.ordinal() - 1,
    {
        if self.0 == 0 {
            None
        } else {
            Some(Level(self.0 - 1))
        }
    }

    /// Bounds-safe lookup of this level's entry in a per-level list.
    pub fn index<'a, T>(&self, list: &'a Vec<T>) -> (r: Option<&'a T>)
        ensures
            r == (if self.ordinal() < list@.len() {
                Some(&list@[self.ordinal() as int])
            } else {
                None::<&'a T>
            }),
    {
        if (self.0 as usize) < list.len() {
            Some(&list[self.0 as usize])
        } else {
            None
        }
    }

    /// The one-based number under which this level is displayed.
    pub fn display_number(&self) -> (n: u32)
        ensures
            n == self.ordinal() + 1,
    {
        self.0 as u32 + 1
    }
}

impl Default for Level {
    /// The first (zero) level.
    fn default() -> (l: Level)
        ensures
            l.ordinal() == 0,
    {
        Level(0)
    }
}

} // verus!
