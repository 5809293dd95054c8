//! The life of one stream: it ages by the pixels it crosses and ends when it
//! is old enough or has left the simulated area.

use vstd::prelude::*;

verus! {

/// The two states of a stream. `Terminated` is final.
#[derive(Clone, Copy, Debug, PartialEq, Eq, Structural)]
pub enum Phase {
    Active,
    Terminated,
}

/// Mathematical model of a stream's life: unbounded age, age limit and phase.
pub struct Course {
    pub age: nat,
    pub max_age: nat,
    pub phase: Phase,
}

impl Course {
    /// A fresh stream: age zero, active.
    pub open spec fn start(max_age: nat) -> Course {
        Course { age: 0, max_age, phase: Phase::Active }
    }

    /// The stream may take a step: it is active and younger than its limit.
    pub open spec fn is_live(self) -> bool {
        self.phase is Active && self.age < self.max_age
    }

    /// The termination check made before every step. A stream ends once its
    /// age has reached the limit or its position has escaped, and never
    /// comes back.
    pub open spec fn observed(self, escaped: bool) -> Course {
        if self.is_live() && !escaped {
            self
        } else {
            Course { phase: Phase::Terminated, ..self }
        }
    }

    /// A step of `num_pixels` sub-steps may be taken: the stream is live and
    /// the age it would reach fits the counter.
    pub open spec fn admits(self, num_pixels: nat) -> bool {
        self.is_live() && self.age + Self::gain(num_pixels) <= u64::MAX
    }

    /// Age gained by a step that rasterized `num_pixels` sub-steps: one per
    /// sub-step, and one for a step too short to reach any pixel.
    pub open spec fn gain(num_pixels: nat) -> nat {
        if num_pixels == 0 {
            1
        } else {
            num_pixels
        }
    }

    /// One integration step.
    pub open spec fn advanced(self, num_pixels: nat) -> Course {
        Course { age: self.age + Self::gain(num_pixels), ..self }
    }

    /// Age at which the `i`-th sub-step of the next step is drawn
    /// (`1 <= i <= num_pixels`).
    pub open spec fn sub_step_age(self, i: nat) -> nat
        recommends
            i >= 1,
    {
        (self.age + i - 1) as nat
    }

    /// A check followed, if the stream is still active, by a step.
    pub open spec fn round(self, escaped: bool, num_pixels: nat) -> Course {
        let seen = self.observed(escaped);
        if seen.phase is Active {
            seen.advanced(num_pixels)
        } else {
            seen
        }
    }

    /// A whole history of rounds, oldest first. Each event is whether the
    /// position had escaped when checked and how many sub-steps the step took.
    pub open spec fn rounds(self, events: Seq<(bool, nat)>) -> Course
        decreases events.len(),
    {
        if events.len() == 0 {
            self
        } else {
            self.rounds(events.drop_last()).round(events.last().0, events.last().1)
        }
    }
}

/// Age and phase of one stream, advanced by the caller's integration loop.
pub struct Lifecycle {
    age: u64,
    max_age: u64,
    phase: Phase,
}

impl View for Lifecycle {
    type V = Course;

    closed spec fn view(&self) -> Course {
        Course { age: self.age as nat, max_age: self.max_age as nat, phase: self.phase }
    }
}

impl Lifecycle {
    /// A fresh stream that may age up to `max_age`.
    pub fn new(max_age: u64) -> (life: Lifecycle)
        ensures
            life@ == Course::start(max_age as nat),
    {
        Lifecycle { age: 0, max_age, phase: Phase::Active }
    }

    /// Pixels travelled so far.
    pub fn age(&self) -> (age: u64)
        ensures
            age == self@.age,
    {
        self.age
    }

    /// The age at which the stream ends.
    pub fn max_age(&self) -> (max_age: u64)
        ensures
            max_age == self@.max_age,
    {
        self.max_age
    }

    /// The phase as last observed.
    pub fn phase(&self) -> (phase: Phase)
        ensures
            phase == self@.phase,
    {
        self.phase
    }

    /// Makes the termination check that precedes a step. `escaped` says
    /// whether the stream's position lies outside the simulated area.
    pub fn observe(&mut self, escaped: bool) -> (phase: Phase)
        ensures
            final(self)@ == old(self)@.observed(escaped),
            phase == final(self)@.phase,
            phase is Active <==> old(self)@.is_live() && !escaped,
            phase is Active ==> final(self)@.is_live(),
    {
        let live = match self.phase {
            Phase::Active => self.age < self.max_age,
            Phase::Terminated => false,
        };
        if !(live && !escaped) {
            self.phase = Phase::Terminated;
        }
        self.phase
    }

    /// Age at which the `i`-th sub-step of the coming step is drawn, counted
    /// from one.
    pub fn sub_step_age(&self, i: usize) -> (age: u64)
        requires
            i >= 1,
            self@.age + i - 1 <= u64::MAX,
        ensures
            age == self@.sub_step_age(i as nat),
    {
        self.age + (i as u64 - 1)
    }

    /// Whether a step of `num_pixels` sub-steps may be taken now: the stream
    /// is live and the age it would reach can be counted.
    pub fn admits(&self, num_pixels: usize) -> (ok: bool)
        ensures
            ok == self@.admits(num_pixels as nat),
    {
        let gain: u64 = if num_pixels == 0 {
            1
        } else {
            num_pixels as u64
        };
        match self.phase {
            Phase::Active => self.age < self.max_age && gain <= u64::MAX - self.age,
            Phase::Terminated => false,
        }
    }

    /// Records one integration step that rasterized `num_pixels` sub-steps.
    pub fn advance(&mut self, num_pixels: usize)
        requires
            old(self)@.admits(num_pixels as nat),
        ensures
            final(self)@ == old(self)@.advanced(num_pixels as nat),
            final(self)@.age > old(self)@.age,
    {
        if num_pixels == 0 {
            self.age = self.age + 1;
        } else {
            self.age = self.age + num_pixels as u64;
        }
    }
}

/// Every step makes a stream strictly older.
pub proof fn lemma_step_ages(course: Course, num_pixels: nat)
    ensures
        course.advanced(num_pixels).age >= course.age + 1,
        course.advanced(num_pixels).max_age == course.max_age,
        course.advanced(num_pixels).phase == course.phase,
{
}

/// A terminated stream stays terminated, at the age it ended with, whatever
/// is observed or attempted afterwards.
pub proof fn lemma_terminated_is_final(course: Course, events: Seq<(bool, nat)>)
    requires
        course.phase is Terminated,
    ensures
        course.rounds(events) == course,
    decreases events.len(),
{
    if events.len() > 0 {
        lemma_terminated_is_final(course, events.drop_last());
    }
}

/// Rounds never change the age limit and never make a stream younger; a
/// stream that is still active has aged by at least one per round.
pub proof fn lemma_rounds_age(course: Course, events: Seq<(bool, nat)>)
    ensures
        course.rounds(events).max_age == course.max_age,
        course.rounds(events).age >= course.age,
        course.rounds(events).phase is Active ==> course.phase is Active
            && course.rounds(events).age >= course.age + events.len(),
    decreases events.len(),
{
    if events.len() > 0 {
        lemma_rounds_age(course, events.drop_last());
    }
}

/// Termination: whatever the positions and step lengths, a stream started
/// with age limit `max_age` is no longer live after `max_age` rounds.
pub proof fn lemma_terminates_within_max_age(max_age: nat, events: Seq<(bool, nat)>)
    requires
        events.len() >= max_age,
    ensures
        !Course::start(max_age).rounds(events).is_live(),
        Course::start(max_age).rounds(events).observed(false).phase is Terminated,
{
    lemma_rounds_age(Course::start(max_age), events);
}

/// Escape: a round whose check finds the position escaped leaves the stream
/// terminated, and so does every later round.
pub proof fn lemma_escape_terminates(
    course: Course,
    before: Seq<(bool, nat)>,
    num_pixels: nat,
    after: Seq<(bool, nat)>,
)
    ensures
        course.rounds(before.push((true, num_pixels)) + after).phase is Terminated,
        course.rounds(before.push((true, num_pixels)) + after).age == course.rounds(before).age,
{
    let hit = before.push((true, num_pixels));
    assert(hit.drop_last() == before);
    assert(course.rounds(hit).phase is Terminated);
    lemma_rounds_concat(course, hit, after);
    lemma_terminated_is_final(course.rounds(hit), after);
}

/// A history may be replayed in two parts.
pub proof fn lemma_rounds_concat(course: Course, first: Seq<(bool, nat)>, second: Seq<(bool, nat)>)
    ensures
        course.rounds(first + second) == course.rounds(first).rounds(second),
    decreases second.len(),
{
    if second.len() == 0 {
        assert(first + second == first);
    } else {
        assert((first + second).drop_last() == first + second.drop_last());
        lemma_rounds_concat(course, first, second.drop_last());
    }
}

} // verus!
