//! Swipe-gesture detector.
//!
//! A gesture is a run of trackpad movements. The detector is told, with each movement, how far the
//! gesture has come since it began. After the first few points it commits the gesture to a
//! direction: a horizontal gesture becomes a page swipe, a vertical one is left to normal
//! scrolling. The direction does not change until the gesture ends, and a gesture fires at most
//! one swipe.
use vstd::prelude::*;

verus! {

/// Where a swipe goes.
#[derive(Debug, Clone, Copy, PartialEq, Eq, Structural)]
pub enum SwipeDir {
    Left,
    Right,
}

/// What the caller should do after calling [`SwipeDetector::changed`].
#[derive(Debug, Clone, Copy, PartialEq, Eq, Structural)]
pub enum SwipeOutcome {
    /// A swipe was detected: switch pages.
    Triggered(SwipeDir),
    /// A horizontal swipe is being followed; the event goes no further.
    Consumed,
    /// A vertical gesture; the event is left to the scroll view.
    PassThrough,
}

/// What a gesture was committed to.
#[derive(Debug, Clone, Copy, PartialEq, Eq, Structural)]
pub enum GestureDir {
    Unknown,
    Horizontal,
    Vertical,
}

/// How far a gesture has come since it began.
#[derive(Debug, Clone, Copy, PartialEq, Eq, Structural)]
pub struct Movement {
    /// It has come far enough for its direction to be told.
    pub lockable: bool,
    /// It has come at least as far sideways as up or down.
    pub sideways: bool,
    /// It has come far enough sideways for a swipe.
    pub full: bool,
    /// It went to the left.
    pub leftward: bool,
}

/// What is known of the gesture.
#[derive(Debug, Clone, Copy, PartialEq, Eq, Structural)]
pub struct SwipeDetector {
    pub direction: GestureDir,
    pub active: bool,
    pub fired: bool,
}

impl SwipeDetector {
    /// No gesture is under way.
    pub open spec fn idle() -> SwipeDetector {
        SwipeDetector { direction: GestureDir::Unknown, active: false, fired: false }
    }

    /// A gesture has begun and nothing else is known.
    pub open spec fn fresh() -> SwipeDetector {
        SwipeDetector { direction: GestureDir::Unknown, active: true, fired: false }
    }

    /// The gesture that a movement belongs to: one that was not seen to begin begins with it.
    pub open spec fn under_way(self) -> SwipeDetector {
        if self.active {
            self
        } else {
            SwipeDetector::fresh()
        }
    }

    /// The direction after movement `m`: it is committed once and then kept.
    pub open spec fn committed(self, m: Movement) -> GestureDir {
        if self.direction != GestureDir::Unknown || !m.lockable {
            self.direction
        } else if m.sideways {
            GestureDir::Horizontal
        } else {
            GestureDir::Vertical
        }
    }

    /// What movement `m` of a gesture under way means.
    pub open spec fn outcome(self, m: Movement) -> SwipeOutcome {
        if self.fired {
            SwipeOutcome::Consumed
        } else {
            match self.committed(m) {
                GestureDir::Unknown => SwipeOutcome::Consumed,
                GestureDir::Horizontal => if m.full {
                    SwipeOutcome::Triggered(
                        if m.leftward {
                            SwipeDir::Left
                        } else {
                            SwipeDir::Right
                        },
                    )
                } else {
                    SwipeOutcome::Consumed
                },
                GestureDir::Vertical => SwipeOutcome::PassThrough,
            }
        }
    }

    /// What is known of a gesture under way after movement `m`.
    pub open spec fn after(self, m: Movement) -> SwipeDetector {
        if self.fired {
            self
        } else {
            SwipeDetector {
                direction: self.committed(m),
                fired: self.outcome(m) is Triggered,
                ..self
            }
        }
    }

    /// Call when a gesture begins.
    pub fn began(&mut self)
        ensures
            *final(self) == SwipeDetector::fresh(),
    {
        *self = SwipeDetector { direction: GestureDir::Unknown, active: true, fired: false };
    }

    /// Call for each movement of the gesture. Returns how the event is to be handled.
    pub fn changed(&mut self, m: Movement) -> (r: SwipeOutcome)
        ensures
            r == old(self).under_way().outcome(m),
            *final(self) == old(self).under_way().after(m),
    {
        // The beginning may have been missed.
        if !self.active {
            self.began();
        }
        // After the swipe, the rest of the gesture is eaten.
        if self.fired {
            return SwipeOutcome::Consumed;
        }
        if self.direction == GestureDir::Unknown {
            if !m.lockable {
                return SwipeOutcome::Consumed;
            }
            self.direction = if m.sideways {
                GestureDir::Horizontal
            } else {
                GestureDir::Vertical
            };
        }
        match self.direction {
            GestureDir::Horizontal => {
                if m.full {
                    self.fired = true;
                    SwipeOutcome::Triggered(
                        if m.leftward {
                            SwipeDir::Left
                        } else {
                            SwipeDir::Right
                        },
                    )
                } else {
                    SwipeOutcome::Consumed
                }
            },
            _ => SwipeOutcome::PassThrough,
        }
    }

    /// Call when the gesture ends or is cancelled.
    pub fn ended(&mut self)
        ensures
            *final(self) == SwipeDetector::idle(),
    {
        *self = SwipeDetector { direction: GestureDir::Unknown, active: false, fired: false };
    }
}

impl Default for SwipeDetector {
    fn default() -> (r: Self)
        ensures
            r == SwipeDetector::idle(),
    {
        SwipeDetector { direction: GestureDir::Unknown, active: false, fired: false }
    }
}

/// The gesture `d` after the movements `ms`.
pub open spec fn gesture(d: SwipeDetector, ms: Seq<Movement>) -> SwipeDetector
    decreases ms.len(),
{
    if ms.len() == 0 {
        d
    } else {
        gesture(d, ms.drop_last()).under_way().after(ms.last())
    }
}

/// A gesture fires at most one swipe: after it, every further movement is eaten.
pub proof fn a_gesture_fires_once(
    d: SwipeDetector,
    first: Movement,
    more: Seq<Movement>,
    m: Movement,
)
    requires
        d.under_way().outcome(first) is Triggered,
    ensures
        gesture(d.under_way().after(first), more).under_way().outcome(m) == SwipeOutcome::Consumed,
{
    lemma_fired_stays(d.under_way().after(first), more);
}

proof fn lemma_fired_stays(d: SwipeDetector, more: Seq<Movement>)
    requires
        d.active,
        d.fired,
    ensures
        gesture(d, more) == d,
    decreases more.len(),
{
    if more.len() > 0 {
        lemma_fired_stays(d, more.drop_last());
    }
}

/// The direction of a gesture does not change once it is committed.
pub proof fn the_direction_is_kept(d: SwipeDetector, more: Seq<Movement>)
    requires
        d.active,
        d.direction != GestureDir::Unknown,
    ensures
        gesture(d, more).direction == d.direction,
        gesture(d, more).active,
    decreases more.len(),
{
    if more.len() > 0 {
        the_direction_is_kept(d, more.drop_last());
    }
}

/// A vertical gesture is always left to the scroll view, a horizontal one never.
pub proof fn vertical_passes_and_horizontal_does_not(
    d: SwipeDetector,
    more: Seq<Movement>,
    m: Movement,
)
    requires
        d.active,
        !d.fired,
        d.direction != GestureDir::Unknown,
    ensures
        d.direction == GestureDir::Vertical ==> gesture(d, more).under_way().outcome(m)
            == SwipeOutcome::PassThrough,
        d.direction == GestureDir::Horizontal ==> gesture(d, more).under_way().outcome(m)
            != SwipeOutcome::PassThrough,
{
    the_direction_is_kept(d, more);
    lemma_vertical_never_fires(d, more);
}

proof fn lemma_vertical_never_fires(d: SwipeDetector, more: Seq<Movement>)
    requires
        d.active,
        !d.fired,
        d.direction == GestureDir::Vertical || d.direction == GestureDir::Horizontal,
    ensures
        d.direction == GestureDir::Vertical ==> !gesture(d, more).fired,
    decreases more.len(),
{
    if more.len() > 0 {
        lemma_vertical_never_fires(d, more.drop_last());
        the_direction_is_kept(d, more.drop_last());
    }
}

/// A gesture starts with no direction and no swipe; none is under way before the first and after
/// the end of each. One that was not seen to begin counts as beginning with its first movement, and
/// one under way goes on.
pub proof fn gestures_start_fresh(d: SwipeDetector)
    ensures
        SwipeDetector::fresh().active,
        !SwipeDetector::fresh().fired,
        SwipeDetector::fresh().direction == GestureDir::Unknown,
        !SwipeDetector::idle().active,
        !d.active ==> d.under_way() == SwipeDetector::fresh(),
        d.active ==> d.under_way() == d,
{
}

/// A gesture without a direction gets one with the first movement that has come far enough: it is
/// horizontal where that has come at least as far sideways, and vertical otherwise. Until then its
/// movements are eaten.
pub proof fn the_first_far_movement_gives_the_direction(d: SwipeDetector, m: Movement)
    requires
        d.active,
        !d.fired,
        d.direction == GestureDir::Unknown,
    ensures
        !m.lockable ==> d.after(m) == d && d.outcome(m) == SwipeOutcome::Consumed,
        m.lockable && m.sideways ==> d.after(m).direction == GestureDir::Horizontal,
        m.lockable && !m.sideways ==> d.after(m).direction == GestureDir::Vertical,
        m.lockable && !m.sideways ==> d.outcome(m) == SwipeOutcome::PassThrough,
        d.after(m).active,
{
}

/// A horizontal gesture fires a swipe with the first movement that has come far enough sideways,
/// this one included: to the left where it went to the left, and else to the right. Before that its
/// movements are eaten.
pub proof fn a_horizontal_gesture_fires_when_it_is_full(d: SwipeDetector, m: Movement)
    requires
        d.active,
        !d.fired,
        d.direction == GestureDir::Horizontal || d.direction == GestureDir::Unknown && m.lockable
            && m.sideways,
    ensures
        m.full && m.leftward ==> d.outcome(m) == SwipeOutcome::Triggered(SwipeDir::Left),
        m.full && !m.leftward ==> d.outcome(m) == SwipeOutcome::Triggered(SwipeDir::Right),
        !m.full ==> d.outcome(m) == SwipeOutcome::Consumed,
        d.after(m).fired <==> m.full,
        d.after(m).active,
{
}

} // verus!
