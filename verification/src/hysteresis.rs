//! Hysteresis state machines behind level-of-detail selection and dynamic resolution.
//!
//! The floating-point comparisons that classify one observation (screen error, distance,
//! occupancy, frame-budget ratio) are made by the caller; the classification is a plain
//! signal. What is decided here is when a streak of equal signals is long enough to change
//! the level or the scale, by how much, and for how long a change is followed by a pause.
use vstd::prelude::*;

verus! {

/// Level-of-detail configuration or observation rejected.
#[derive(Clone, Copy, Debug, PartialEq, Eq, Structural)]
pub enum LodError {
    InvalidConfig,
    InvalidObservation,
}

/// Outcome of one level-of-detail observation.
#[derive(Clone, Copy, Debug, PartialEq, Eq, Structural)]
pub struct LodDecision {
    pub previous_level: u8,
    pub next_level: u8,
    pub changed: bool,
}

/// What one observation asks of the level: more detail (a lower level), less detail, or
/// neither.
#[derive(Clone, Copy, Debug, PartialEq, Eq, Structural)]
pub enum LodSignal {
    Promote,
    Demote,
    Neutral,
}

pub open spec fn saturating_inc(x: u32) -> u32 {
    if x == u32::MAX { x } else { (x + 1) as u32 }
}

/// Current level and the two streaks of a level-of-detail selector.
#[derive(Clone, Copy, Debug, PartialEq, Eq, Structural)]
pub struct LodLevels {
    max_level: u8,
    consecutive_frames: u32,
    level: u8,
    promote_streak: u32,
    demote_streak: u32,
}

impl LodLevels {
    pub closed spec fn max_spec(self) -> u8 {
        self.max_level
    }

    pub closed spec fn frames_spec(self) -> u32 {
        self.consecutive_frames
    }

    pub closed spec fn level_spec(self) -> u8 {
        self.level
    }

    pub closed spec fn promote_spec(self) -> u32 {
        self.promote_streak
    }

    pub closed spec fn demote_spec(self) -> u32 {
        self.demote_streak
    }

    /// The level never leaves `[0, max_level]` and a streak of one frame is needed at least.
    pub closed spec fn wf(self) -> bool {
        &&& self.level <= self.max_level
        &&& self.consecutive_frames > 0
    }

    /// The state after one signal.
    pub closed spec fn after(self, signal: LodSignal) -> LodLevels {
        let (p, d) = match signal {
            LodSignal::Promote => (saturating_inc(self.promote_streak), 0u32),
            LodSignal::Demote => (0u32, saturating_inc(self.demote_streak)),
            LodSignal::Neutral => (0u32, 0u32),
        };
        if p >= self.consecutive_frames && self.level > 0 {
            LodLevels { level: (self.level - 1) as u8, promote_streak: 0, demote_streak: d, ..self }
        } else if d >= self.consecutive_frames && self.level < self.max_level {
            LodLevels { level: (self.level + 1) as u8, promote_streak: p, demote_streak: 0, ..self }
        } else {
            LodLevels { promote_streak: p, demote_streak: d, ..self }
        }
    }

    /// The state after a sequence of signals, first to last.
    pub closed spec fn after_all(self, signals: Seq<LodSignal>) -> LodLevels
        decreases signals.len(),
    {
        if signals.len() == 0 {
            self
        } else {
            self.after_all(signals.drop_last()).after(signals.last())
        }
    }

    /// Integer part of a selector's configuration check.
    pub fn new(max_level: u8, consecutive_frames: u32, initial_level: u8) -> (r: Result<Self, LodError>)
        ensures
            match r {
                Ok(s) => {
                    &&& consecutive_frames > 0 && initial_level <= max_level
                    &&& s.wf()
                    &&& s.max_spec() == max_level
                    &&& s.frames_spec() == consecutive_frames
                    &&& s.level_spec() == initial_level
                    &&& s.promote_spec() == 0
                    &&& s.demote_spec() == 0
                },
                Err(e) => e == LodError::InvalidConfig && !(consecutive_frames > 0 && initial_level <= max_level),
            },
    {
        if consecutive_frames == 0 || initial_level > max_level {
            return Err(LodError::InvalidConfig);
        }
        Ok(LodLevels { max_level, consecutive_frames, level: initial_level, promote_streak: 0, demote_streak: 0 })
    }

    pub fn level(&self) -> (r: u8)
        ensures
            r == self.level_spec(),
    {
        self.level
    }

    pub fn max_level(&self) -> (r: u8)
        ensures
            r == self.max_spec(),
    {
        self.max_level
    }

    /// Applies one signal: a level changes by one step, towards the signal, once
    /// `consecutive_frames` equal signals have been seen in a row.
    pub fn step(&mut self, signal: LodSignal) -> (d: LodDecision)
        requires
            old(self).wf(),
        ensures
            *final(self) == old(self).after(signal),
            final(self).wf(),
            final(self).max_spec() == old(self).max_spec(),
            final(self).frames_spec() == old(self).frames_spec(),
            d.previous_level == old(self).level_spec(),
            d.next_level == final(self).level_spec(),
            d.changed == (d.next_level != d.previous_level),
            d.next_level == d.previous_level || d.next_level + 1 == d.previous_level || d.next_level
                == d.previous_level + 1,
            d.next_level < d.previous_level ==> signal == LodSignal::Promote
                && saturating_inc(old(self).promote_spec()) >= old(self).frames_spec(),
            d.next_level > d.previous_level ==> signal == LodSignal::Demote
                && saturating_inc(old(self).demote_spec()) >= old(self).frames_spec(),
            d.changed ==> final(self).promote_spec() == 0 && final(self).demote_spec() == 0,
    {
        let previous_level = self.level;
        match signal {
            LodSignal::Promote => {
                self.promote_streak = self.promote_streak.saturating_add(1);
                self.demote_streak = 0;
            },
            LodSignal::Demote => {
                self.demote_streak = self.demote_streak.saturating_add(1);
                self.promote_streak = 0;
            },
            LodSignal::Neutral => {
                self.promote_streak = 0;
                self.demote_streak = 0;
            },
        }
        if self.promote_streak >= self.consecutive_frames && self.level > 0 {
            self.level = self.level - 1;
            self.promote_streak = 0;
        } else if self.demote_streak >= self.consecutive_frames && self.level < self.max_level {
            self.level = self.level + 1;
            self.demote_streak = 0;
        }
        LodDecision { previous_level, next_level: self.level, changed: self.level != previous_level }
    }

    /// Every state reached by signals stays within `[0, max_level]`.
    pub proof fn lemma_levels_bounded(self, signals: Seq<LodSignal>)
        requires
            self.wf(),
        ensures
            self.after_all(signals).wf(),
            self.after_all(signals).max_spec() == self.max_spec(),
            self.after_all(signals).frames_spec() == self.frames_spec(),
        decreases signals.len(),
    {
        if signals.len() > 0 {
            self.lemma_levels_bounded(signals.drop_last());
        }
    }

    /// A level change starts both streaks afresh.
    pub proof fn lemma_change_resets_streaks(self, signal: LodSignal)
        requires
            self.wf(),
        ensures
            self.after(signal).level_spec() != self.level_spec() ==> self.after(signal).promote_spec() == 0
                && self.after(signal).demote_spec() == 0,
    {
    }

    /// Level changes are spaced: after a signal that changes the level, the next
    /// `consecutive_frames - 1` signals, whatever they are, leave the level where it is.
    pub proof fn lemma_changes_are_spaced(self, signal: LodSignal, rest: Seq<LodSignal>)
        requires
            self.wf(),
            rest.len() < self.frames_spec(),
        ensures
            self.after(signal).level_spec() != self.level_spec() ==> self.after(signal).after_all(rest).level_spec()
                == self.after(signal).level_spec(),
    {
        let next = self.after(signal);
        if next.level_spec() != self.level_spec() {
            self.lemma_change_resets_streaks(signal);
            next.lemma_short_runs_keep_level(rest);
        }
    }

    /// Hysteresis: from a state with no streak (a new selector, or one that just changed
    /// level in the same direction), fewer than `consecutive_frames` signals leave the level
    /// unchanged.
    pub proof fn lemma_short_runs_keep_level(self, signals: Seq<LodSignal>)
        requires
            self.wf(),
            self.promote_spec() == 0,
            self.demote_spec() == 0,
            signals.len() < self.frames_spec(),
        ensures
            self.after_all(signals).level_spec() == self.level_spec(),
            self.after_all(signals).promote_spec() <= signals.len(),
            self.after_all(signals).demote_spec() <= signals.len(),
        decreases signals.len(),
    {
        if signals.len() > 0 {
            self.lemma_short_runs_keep_level(signals.drop_last());
            self.lemma_levels_bounded(signals.drop_last());
        }
    }
}

/// Dynamic-resolution configuration rejected.
#[derive(Clone, Copy, Debug, PartialEq, Eq, Structural)]
pub enum DrsError {
    InvalidConfig,
}

/// Frame-budget pressure of one observation against the configured thresholds.
#[derive(Clone, Copy, Debug, PartialEq, Eq, Structural)]
pub enum Pressure {
    /// At or above the down threshold.
    Over,
    /// At or below the up threshold.
    Under,
    Neutral,
}

/// What the scale should do after one observation.
#[derive(Clone, Copy, Debug, PartialEq, Eq, Structural)]
pub enum ScaleStep {
    Hold,
    Lower,
    Raise,
}

/// Streaks and cooldown of a dynamic-resolution controller.
#[derive(Clone, Copy, Debug, PartialEq, Eq, Structural)]
pub struct DrsHysteresis {
    consecutive_frames: u32,
    cooldown_frames: u32,
    over_streak: u32,
    under_streak: u32,
    cooldown_remaining: u32,
}

impl DrsHysteresis {
    pub closed spec fn frames_spec(self) -> u32 {
        self.consecutive_frames
    }

    pub closed spec fn cooldown_frames_spec(self) -> u32 {
        self.cooldown_frames
    }

    pub closed spec fn over_spec(self) -> u32 {
        self.over_streak
    }

    pub closed spec fn under_spec(self) -> u32 {
        self.under_streak
    }

    pub closed spec fn cooldown_spec(self) -> u32 {
        self.cooldown_remaining
    }

    pub closed spec fn wf(self) -> bool {
        self.consecutive_frames > 0
    }

    /// The state after one observation.
    pub closed spec fn after(self, pressure: Pressure) -> DrsHysteresis {
        if self.cooldown_remaining > 0 {
            DrsHysteresis {
                cooldown_remaining: (self.cooldown_remaining - 1) as u32,
                over_streak: 0,
                under_streak: 0,
                ..self
            }
        } else {
            let (o, u) = match pressure {
                Pressure::Over => (saturating_inc(self.over_streak), 0u32),
                Pressure::Under => (0u32, saturating_inc(self.under_streak)),
                Pressure::Neutral => (0u32, 0u32),
            };
            if o >= self.consecutive_frames {
                DrsHysteresis { over_streak: 0, under_streak: u, cooldown_remaining: self.cooldown_frames, ..self }
            } else if u >= self.consecutive_frames {
                DrsHysteresis { over_streak: o, under_streak: 0, cooldown_remaining: self.cooldown_frames, ..self }
            } else {
                DrsHysteresis { over_streak: o, under_streak: u, ..self }
            }
        }
    }

    /// The step decided by one observation.
    pub closed spec fn step_for(self, pressure: Pressure) -> ScaleStep {
        if self.cooldown_remaining > 0 {
            ScaleStep::Hold
        } else {
            let (o, u) = match pressure {
                Pressure::Over => (saturating_inc(self.over_streak), 0u32),
                Pressure::Under => (0u32, saturating_inc(self.under_streak)),
                Pressure::Neutral => (0u32, 0u32),
            };
            if o >= self.consecutive_frames {
                ScaleStep::Lower
            } else if u >= self.consecutive_frames {
                ScaleStep::Raise
            } else {
                ScaleStep::Hold
            }
        }
    }

    /// The state after a sequence of observations, first to last.
    pub closed spec fn after_all(self, pressures: Seq<Pressure>) -> DrsHysteresis
        decreases pressures.len(),
    {
        if pressures.len() == 0 {
            self
        } else {
            self.after_all(pressures.drop_last()).after(pressures.last())
        }
    }

    /// Integer part of a controller's configuration check.
    pub fn new(consecutive_frames: u32, cooldown_frames: u32) -> (r: Result<Self, DrsError>)
        ensures
            match r {
                Ok(s) => {
                    &&& consecutive_frames > 0
                    &&& s.wf()
                    &&& s.frames_spec() == consecutive_frames
                    &&& s.cooldown_frames_spec() == cooldown_frames
                    &&& s.over_spec() == 0
                    &&& s.under_spec() == 0
                    &&& s.cooldown_spec() == 0
                },
                Err(e) => e == DrsError::InvalidConfig && consecutive_frames == 0,
            },
    {
        if consecutive_frames == 0 {
            return Err(DrsError::InvalidConfig);
        }
        Ok(DrsHysteresis { consecutive_frames, cooldown_frames, over_streak: 0, under_streak: 0, cooldown_remaining: 0 })
    }

    /// Applies one observation. During a cooldown the scale holds and the streaks are
    /// cleared; otherwise a streak of `consecutive_frames` equal pressures moves the scale
    /// one step and starts a cooldown of `cooldown_frames` observations.
    pub fn step(&mut self, pressure: Pressure) -> (s: ScaleStep)
        requires
            old(self).wf(),
        ensures
            *final(self) == old(self).after(pressure),
            s == old(self).step_for(pressure),
            final(self).wf(),
            old(self).cooldown_spec() > 0 ==> s == ScaleStep::Hold,
            s == ScaleStep::Lower ==> pressure == Pressure::Over,
            s == ScaleStep::Raise ==> pressure == Pressure::Under,
            s != ScaleStep::Hold ==> final(self).cooldown_spec() == old(self).cooldown_frames_spec(),
            old(self).cooldown_spec() > 0 ==> final(self).over_spec() == 0 && final(self).under_spec() == 0,
            s != ScaleStep::Hold ==> final(self).over_spec() == 0 && final(self).under_spec() == 0,
    {
        if self.cooldown_remaining > 0 {
            self.cooldown_remaining = self.cooldown_remaining - 1;
            self.over_streak = 0;
            self.under_streak = 0;
            return ScaleStep::Hold;
        }
        match pressure {
            Pressure::Over => {
                self.over_streak = self.over_streak.saturating_add(1);
                self.under_streak = 0;
            },
            Pressure::Under => {
                self.under_streak = self.under_streak.saturating_add(1);
                self.over_streak = 0;
            },
            Pressure::Neutral => {
                self.over_streak = 0;
                self.under_streak = 0;
            },
        }
        if self.over_streak >= self.consecutive_frames {
            self.over_streak = 0;
            self.cooldown_remaining = self.cooldown_frames;
            ScaleStep::Lower
        } else if self.under_streak >= self.consecutive_frames {
            self.under_streak = 0;
            self.cooldown_remaining = self.cooldown_frames;
            ScaleStep::Raise
        } else {
            ScaleStep::Hold
        }
    }

    /// An observation during a cooldown clears both streaks.
    pub proof fn lemma_cooldown_clears_streaks(self, pressure: Pressure)
        requires
            self.cooldown_spec() > 0,
        ensures
            self.after(pressure).over_spec() == 0,
            self.after(pressure).under_spec() == 0,
            self.after(pressure).cooldown_spec() == self.cooldown_spec() - 1,
    {
    }

    /// With no cooldown pending and both streaks empty, fewer than `consecutive_frames`
    /// observations all hold, and each streak is at most the number of observations.
    pub proof fn lemma_short_runs_hold(self, pressures: Seq<Pressure>)
        requires
            self.wf(),
            self.cooldown_spec() == 0,
            self.over_spec() == 0,
            self.under_spec() == 0,
            pressures.len() < self.frames_spec(),
        ensures
            forall|i: int| 0 <= i < pressures.len() ==> #[trigger] self.after_all(pressures.take(i)).step_for(pressures[i])
                == ScaleStep::Hold,
            self.after_all(pressures).cooldown_spec() == 0,
            self.after_all(pressures).over_spec() <= pressures.len(),
            self.after_all(pressures).under_spec() <= pressures.len(),
            self.after_all(pressures).frames_spec() == self.frames_spec(),
        decreases pressures.len(),
    {
        if pressures.len() > 0 {
            let init = pressures.drop_last();
            self.lemma_short_runs_hold(init);
            assert forall|i: int| 0 <= i < pressures.len() implies #[trigger] self.after_all(pressures.take(i)).step_for(
                pressures[i],
            ) == ScaleStep::Hold by {
                if i < init.len() {
                    assert(pressures.take(i) =~= init.take(i));
                    assert(pressures[i] == init[i]);
                } else {
                    assert(pressures.take(i) =~= init);
                }
            }
        }
    }

    proof fn lemma_after_all_concat(self, a: Seq<Pressure>, b: Seq<Pressure>)
        ensures
            self.after_all(a + b) == self.after_all(a).after_all(b),
        decreases b.len(),
    {
        if b.len() == 0 {
            assert(a + b =~= a);
        } else {
            self.lemma_after_all_concat(a, b.drop_last());
            assert((a + b).drop_last() =~= a + b.drop_last());
            assert((a + b).last() == b.last());
        }
    }

    proof fn lemma_after_all_keeps_config(self, pressures: Seq<Pressure>)
        ensures
            self.after_all(pressures).frames_spec() == self.frames_spec(),
            self.after_all(pressures).cooldown_frames_spec() == self.cooldown_frames_spec(),
        decreases pressures.len(),
    {
        if pressures.len() > 0 {
            self.lemma_after_all_keeps_config(pressures.drop_last());
        }
    }

    /// After a change, the scale holds for the rest of the cooldown and then until
    /// `consecutive_frames` fresh equal pressures have been seen: with a cooldown of `k > 0`
    /// pending, the next `k + consecutive_frames - 1` observations all hold, whatever they are.
    pub proof fn lemma_change_needs_fresh_run(self, pressures: Seq<Pressure>)
        requires
            self.wf(),
            self.cooldown_spec() > 0,
            pressures.len() < self.cooldown_spec() + self.frames_spec(),
        ensures
            forall|i: int| 0 <= i < pressures.len() ==> #[trigger] self.after_all(pressures.take(i)).step_for(pressures[i])
                == ScaleStep::Hold,
    {
        let c = self.cooldown_spec() as int;
        if pressures.len() <= c {
            self.lemma_cooldown_holds(pressures);
        } else {
            let head = pressures.take(c);
            let rest = pressures.skip(c);
            self.lemma_cooldown_holds(head);
            let before_last = self.after_all(head.drop_last());
            self.lemma_cooldown_holds(head.drop_last());
            before_last.lemma_cooldown_clears_streaks(head.last());
            let mid = self.after_all(head);
            assert(mid == before_last.after(head.last()));
            self.lemma_after_all_keeps_config(head);
            mid.lemma_short_runs_hold(rest);
            assert forall|i: int| 0 <= i < pressures.len() implies #[trigger] self.after_all(pressures.take(i)).step_for(
                pressures[i],
            ) == ScaleStep::Hold by {
                if i < c {
                    assert(pressures.take(i) =~= head.take(i));
                    assert(pressures[i] == head[i]);
                } else {
                    let j = i - c;
                    assert(pressures.take(i) =~= head + rest.take(j));
                    self.lemma_after_all_concat(head, rest.take(j));
                    assert(pressures[i] == rest[j]);
                }
            }
        }
    }

    /// Cooldown: while a cooldown of `k` observations is pending, the next `k` observations
    /// all hold, whatever their pressure, and the cooldown then has run out.
    pub proof fn lemma_cooldown_holds(self, pressures: Seq<Pressure>)
        requires
            pressures.len() <= self.cooldown_spec(),
        ensures
            forall|i: int| 0 <= i < pressures.len() ==> #[trigger] self.after_all(pressures.take(i)).step_for(pressures[i])
                == ScaleStep::Hold,
            self.after_all(pressures).cooldown_spec() == self.cooldown_spec() - pressures.len(),
        decreases pressures.len(),
    {
        if pressures.len() > 0 {
            let init = pressures.drop_last();
            self.lemma_cooldown_holds(init);
            assert forall|i: int| 0 <= i < pressures.len() implies #[trigger] self.after_all(pressures.take(i)).step_for(
                pressures[i],
            ) == ScaleStep::Hold by {
                if i < init.len() {
                    assert(pressures.take(i) =~= init.take(i));
                    assert(pressures[i] == init[i]);
                } else {
                    assert(pressures.take(i) =~= init);
                }
            }
        }
    }
}

} // verus!
