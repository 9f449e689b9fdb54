//! The per-agent progression tracker.
//!
//! An agent accumulates experience; the level *implied* by that experience
//! (`gather_level`, recomputed as `xp / xp_per_level` on every gain) may run
//! ahead of the level the player has *acknowledged* by committing upgrades
//! (`player_level`). A strictly greater gathered level signals that an
//! upgrade is owed. The invariant `player_level <= gather_level` is proved
//! to hold across every sequence of gains and commits
//! ([`lemma_progression_invariant`]).

use vstd::prelude::*;

use vstd::arithmetic::div_mod::lemma_div_is_ordered;

verus! {

/// Experience points granted per level step.
pub const XP_PER_LEVEL: u32 = 10;

/// A dropped pickup carrying an amount of experience.
pub struct XpDrop(pub u32);

impl XpDrop {
    /// Whether a drop is large enough to get the big presentation.
    pub fn is_big(drop: u32) -> (r: bool)
        ensures
            r == (drop > 5),
    {
        drop > 5
    }

    /// The pickup's height over the ground, in fixed-point thousandths.
    pub fn get_height(drop: u32) -> (h: i64)
        ensures
            h == (if drop > 5 {
                400int
            } else {
                200int
            }),
    {
        if XpDrop::is_big(drop) {
            400
        } else {
            200
        }
    }
}

/// Accumulated experience and the two derived levels: implied by experience,
/// and acknowledged by upgrade commits.
pub struct XpGatherState {
    xp: u32,
    gather_level: u32,
    player_level: u32,
}

impl XpGatherState {
    /// Total experience gathered.
    pub closed spec fn xp(&self) -> nat {
        self.xp as nat
    }

    /// The level implied by the gathered experience.
    pub closed spec fn gather_level(&self) -> nat {
        self.gather_level as nat
    }

    /// The level the player has acknowledged through upgrade commits.
    pub closed spec fn player_level(&self) -> nat {
        self.player_level as nat
    }

    /// Whether an upgrade is owed: experience has outrun acknowledgement.
    pub open spec fn owed(&self) -> bool {
        self.player_level() < self.gather_level()
    }

    /// A fresh tracker: no experience, both levels at zero.
    pub fn new() -> (r: XpGatherState)
        ensures
            r.xp() == 0,
            r.gather_level() == 0,
            r.player_level() == 0,
    {
        XpGatherState { xp: 0, gather_level: 0, player_level: 0 }
    }

    /// The raw experience total.
    pub fn get_xp(&self) -> (r: u32)
        ensures
            r == self.xp(),
    {
        self.xp
    }

    /// The gathered level, displayed one-based.
    pub fn get_gather_level(&self) -> (r: u32)
        requires
            self.gather_level() < u32::MAX,
        ensures
            r == self.gather_level() + 1,
    {
        self.gather_level + 1
    }

    /// The acknowledged level, displayed one-based.
    pub fn get_player_level(&self) -> (r: u32)
        requires
            self.player_level() < u32::MAX,
        ensures
            r == self.player_level() + 1,
    {
        self.player_level + 1
    }

    /// Whether an upgrade is owed.
    pub fn is_upgrade_owed(&self) -> (r: bool)
        ensures
            r == self.owed(),
            r ==> self.player_level() < u32::MAX,
    {
        self.player_level < self.gather_level
    }

    /// Acknowledges one owed level.
    pub fn upgrade_player_level(&mut self)
        requires
            old(self).player_level() < u32::MAX,
        ensures
            final(self).player_level() == old(self).player_level() + 1,
            final(self).xp() == old(self).xp(),
            final(self).gather_level() == old(self).gather_level(),
    {
        self.player_level = self.player_level + 1;
    }

    /// Consumes one experience gain and rederives the gathered level by
    /// floor division; several level thresholds may be crossed at once. The
    /// acknowledged level is untouched.
    pub fn gather(&mut self, xp: u32, xp_per_level: u32)
        requires
            xp_per_level >= 1,
            old(self).xp() + xp <= u32::MAX,
        ensures
            final(self).xp() == old(self).xp() + xp,
            final(self).gather_level() == final(self).xp() as int / xp_per_level as int,
            final(self).player_level() == old(self).player_level(),
    {
        self.xp = self.xp + xp;
        self.gather_level = self.xp / xp_per_level;
    }
}

/// One progression input: an experience gain, or an upgrade commit.
pub enum ProgressEvent {
    Gain(u32),
    Commit,
}

/// The `(xp, gather_level, player_level)` triple after one event. A gain
/// that would overflow the experience counter is ignored, as the tracker
/// refuses it; a commit acknowledges a level only while one is owed, as the
/// offer flow only commits then.
pub open spec fn progress_step(s: (int, int, int), ev: ProgressEvent, per: int) -> (int, int, int) {
    match ev {
        ProgressEvent::Gain(a) => if s.0 + a <= u32::MAX as int {
            (s.0 + a, (s.0 + a) / per, s.2)
        } else {
            s
        },
        ProgressEvent::Commit => if s.2 < s.1 {
            (s.0, s.1, s.2 + 1)
        } else {
            s
        },
    }
}

/// The triple after a whole sequence of events, applied in order.
pub open spec fn progress_run(s: (int, int, int), evs: Seq<ProgressEvent>, per: int) -> (
    int,
    int,
    int,
)
    decreases evs.len(),
{
    if evs.len() == 0 {
        s
    } else {
        progress_step(progress_run(s, evs.drop_last(), per), evs.last(), per)
    }
}

/// A settled tracker state: the gathered level is derived from the
/// experience, and the acknowledged level has not outrun it.
pub open spec fn progress_wf(s: (int, int, int), per: int) -> bool {
    &&& per >= 1
    &&& 0 <= s.0 <= u32::MAX as int
    &&& s.1 == s.0 / per
    &&& 0 <= s.2 <= s.1
}

/// For every sequence of experience gains and upgrade commits, the
/// acknowledged level never exceeds the gathered level once the sequence
/// settles: progression is monotone and commits never overdraw it.
pub proof fn lemma_progression_invariant(s: (int, int, int), evs: Seq<ProgressEvent>, per: int)
    requires
        progress_wf(s, per),
    ensures
        progress_wf(progress_run(s, evs, per), per),
    decreases evs.len(),
{
    if evs.len() > 0 {
        lemma_progression_invariant(s, evs.drop_last(), per);
        let t = progress_run(s, evs.drop_last(), per);
        match evs.last() {
            ProgressEvent::Gain(a) => {
                if t.0 + a <= u32::MAX as int {
                    lemma_div_is_ordered(t.0, t.0 + a, per);
                }
            },
            ProgressEvent::Commit => {},
        }
    }
}

} // verus!
