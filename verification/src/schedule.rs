//! Demand-driven frame scheduling and animation pacing.
//!
//! Instants and durations are whole nanoseconds (`u64`), instants counted from
//! an origin that the caller chooses.

use vstd::prelude::*;
use crate::render_core::FrameRequestReason;

verus! {

#[derive(Debug, Clone, Copy, PartialEq, Eq, Structural)]
pub enum FrameDecision {
    NoFrameNeeded,
    FrameNeeded(FrameRequestReason),
}

#[derive(Debug, Default)]
pub struct FrameScheduler {
    pending: Option<FrameRequestReason>,
    idle_wakeups: u64,
}

#[derive(Debug, Clone, Copy, PartialEq, Eq, Structural)]
pub enum AnimationFramePacerDecision {
    Idle,
    WaitUntil(u64),
    FrameDue,
}

#[derive(Debug, Default)]
pub struct AnimationFramePacer {
    deadline: Option<u64>,
}

impl AnimationFramePacer {
    pub fn new() -> (r: AnimationFramePacer)
        ensures
            r.deadline() is None,
    {
        AnimationFramePacer { deadline: None }
    }

    /// The frame deadline the pacer is waiting for.
    pub closed spec fn deadline(&self) -> Option<u64> {
        self.deadline
    }

    /// Keeps the earliest requested deadline: idle when nothing is animating,
    /// due once `now` reaches the deadline, otherwise a wait until it.
    pub fn poll(&mut self, now: u64, next_frame_after: Option<u64>) -> (r: AnimationFramePacerDecision)
        requires
            next_frame_after matches Some(delay) ==> now + delay <= u64::MAX,
        ensures
            match next_frame_after {
                None => r == AnimationFramePacerDecision::Idle && final(self).deadline() is None,
                Some(delay) => {
                    let requested = (now + delay) as u64;
                    let deadline = match old(self).deadline() {
                        Some(d) => if d < requested { d } else { requested },
                        None => requested,
                    };
                    if now >= deadline {
                        r == AnimationFramePacerDecision::FrameDue && final(self).deadline() is None
                    } else {
                        r == AnimationFramePacerDecision::WaitUntil(deadline)
                            && final(self).deadline() == Some(deadline)
                    }
                },
            },
    {
        let delay = match next_frame_after {
            None => {
                self.deadline = None;
                return AnimationFramePacerDecision::Idle;
            },
            Some(delay) => delay,
        };
        let requested = now + delay;
        let deadline = match self.deadline {
            Some(d) => if d < requested { d } else { requested },
            None => requested,
        };
        if now >= deadline {
            self.deadline = None;
            AnimationFramePacerDecision::FrameDue
        } else {
            self.deadline = Some(deadline);
            AnimationFramePacerDecision::WaitUntil(deadline)
        }
    }
}

/// How strongly a frame reason outranks the others.
pub open spec fn priority(reason: FrameRequestReason) -> u8 {
    match reason {
        FrameRequestReason::Explicit => 6,
        FrameRequestReason::WindowResized => 5,
        FrameRequestReason::TerminalContentChanged => 4,
        FrameRequestReason::SelectionChanged => 3,
        FrameRequestReason::CursorBlink => 2,
        FrameRequestReason::Animation => 1,
    }
}

fn frame_request_priority(reason: FrameRequestReason) -> (r: u8)
    ensures
        r == priority(reason),
{
    match reason {
        FrameRequestReason::Explicit => 6,
        FrameRequestReason::WindowResized => 5,
        FrameRequestReason::TerminalContentChanged => 4,
        FrameRequestReason::SelectionChanged => 3,
        FrameRequestReason::CursorBlink => 2,
        FrameRequestReason::Animation => 1,
    }
}

/// The pending reason after one more request: the higher-priority one wins.
pub open spec fn merge_request(pending: Option<FrameRequestReason>, reason: FrameRequestReason) -> Option<FrameRequestReason> {
    match pending {
        None => Some(reason),
        Some(p) => if priority(reason) > priority(p) {
            Some(reason)
        } else {
            Some(p)
        },
    }
}

/// Different reasons have different priorities.
pub proof fn lemma_priority_injective(a: FrameRequestReason, b: FrameRequestReason)
    ensures
        priority(a) == priority(b) ==> a == b,
{
}

/// The frame that a burst of requests schedules does not depend on their order.
pub proof fn lemma_requests_commute(
    pending: Option<FrameRequestReason>,
    a: FrameRequestReason,
    b: FrameRequestReason,
)
    ensures
        merge_request(merge_request(pending, a), b) == merge_request(merge_request(pending, b), a),
{
    lemma_priority_injective(a, b);
    if let Some(p) = pending {
        lemma_priority_injective(a, p);
        lemma_priority_injective(b, p);
    }
}

/// The pending reason after a run of requests, made one after another from `pending`.
pub open spec fn merge_requests(pending: Option<FrameRequestReason>, reasons: Seq<FrameRequestReason>) -> Option<FrameRequestReason>
    decreases reasons.len(),
{
    if reasons.len() == 0 {
        pending
    } else {
        merge_request(merge_requests(pending, reasons.drop_last()), reasons.last())
    }
}

/// However many requests arrive between two frames, the frame that is owed is the one
/// of highest priority among them (and the reason already pending, if any); with no
/// request, nothing new is owed.
pub proof fn lemma_burst_keeps_highest(pending: Option<FrameRequestReason>, reasons: Seq<FrameRequestReason>)
    ensures
        reasons.len() == 0 ==> merge_requests(pending, reasons) == pending,
        (pending is Some || reasons.len() > 0) ==> {
            let kept = merge_requests(pending, reasons);
            &&& kept is Some
            &&& (pending == Some(kept.unwrap())
                || exists|k: int| 0 <= k < reasons.len() && reasons[k] == kept.unwrap())
            &&& forall|i: int| 0 <= i < reasons.len() ==> priority(#[trigger] reasons[i]) <= priority(kept.unwrap())
            &&& (pending matches Some(p) ==> priority(p) <= priority(kept.unwrap()))
        },
    decreases reasons.len(),
{
    if reasons.len() > 0 {
        let front = reasons.drop_last();
        lemma_burst_keeps_highest(pending, front);
        let before = merge_requests(pending, front);
        let kept = merge_requests(pending, reasons);
        assert forall|i: int| 0 <= i < reasons.len() implies priority(#[trigger] reasons[i]) <= priority(kept.unwrap()) by {
            if i < reasons.len() - 1 {
                assert(reasons[i] == front[i]);
            }
        }
        if kept != before {
            assert(reasons[reasons.len() - 1] == kept.unwrap());
        } else if pending != Some(kept.unwrap()) {
            let k = choose|k: int| 0 <= k < front.len() && front[k] == before.unwrap();
            assert(reasons[k] == kept.unwrap());
        }
    }
}

impl FrameScheduler {
    pub fn new() -> (r: FrameScheduler)
        ensures
            r.pending() is None,
            r.idle_wakeups_spec() == 0,
    {
        FrameScheduler { pending: None, idle_wakeups: 0 }
    }

    /// The reason of the frame that is owed, if any.
    pub closed spec fn pending(&self) -> Option<FrameRequestReason> {
        self.pending
    }

    /// Polls that found no frame to draw.
    pub closed spec fn idle_wakeups_spec(&self) -> u64 {
        self.idle_wakeups
    }

    pub fn terminal_content_changed(&mut self)
        ensures
            final(self).pending() == merge_request(old(self).pending(), FrameRequestReason::TerminalContentChanged),
            final(self).idle_wakeups_spec() == old(self).idle_wakeups_spec(),
    {
        self.request(FrameRequestReason::TerminalContentChanged);
    }

    pub fn cursor_blink_changed(&mut self)
        ensures
            final(self).pending() == merge_request(old(self).pending(), FrameRequestReason::CursorBlink),
            final(self).idle_wakeups_spec() == old(self).idle_wakeups_spec(),
    {
        self.request(FrameRequestReason::CursorBlink);
    }

    pub fn animation_changed(&mut self)
        ensures
            final(self).pending() == merge_request(old(self).pending(), FrameRequestReason::Animation),
            final(self).idle_wakeups_spec() == old(self).idle_wakeups_spec(),
    {
        self.request(FrameRequestReason::Animation);
    }

    pub fn window_resized(&mut self)
        ensures
            final(self).pending() == merge_request(old(self).pending(), FrameRequestReason::WindowResized),
            final(self).idle_wakeups_spec() == old(self).idle_wakeups_spec(),
    {
        self.request(FrameRequestReason::WindowResized);
    }

    pub fn selection_changed(&mut self)
        ensures
            final(self).pending() == merge_request(old(self).pending(), FrameRequestReason::SelectionChanged),
            final(self).idle_wakeups_spec() == old(self).idle_wakeups_spec(),
    {
        self.request(FrameRequestReason::SelectionChanged);
    }

    /// Records a frame request; the pending reason becomes the higher-priority one.
    pub fn request(&mut self, reason: FrameRequestReason)
        ensures
            final(self).pending() == merge_request(old(self).pending(), reason),
            final(self).idle_wakeups_spec() == old(self).idle_wakeups_spec(),
    {
        let replace = match self.pending {
            None => true,
            Some(pending) => frame_request_priority(reason) > frame_request_priority(pending),
        };
        if replace {
            self.pending = Some(reason);
        }
    }

    pub fn has_pending_frame(&self) -> (r: bool)
        ensures
            r == self.pending() is Some,
    {
        self.pending.is_some()
    }

    /// Takes the owed frame; a poll that finds none counts as an idle wake-up.
    pub fn next_frame(&mut self) -> (r: FrameDecision)
        ensures
            final(self).pending() is None,
            match old(self).pending() {
                Some(reason) => r == FrameDecision::FrameNeeded(reason)
                    && final(self).idle_wakeups_spec() == old(self).idle_wakeups_spec(),
                None => r == FrameDecision::NoFrameNeeded
                    && final(self).idle_wakeups_spec() == (if old(self).idle_wakeups_spec() == u64::MAX {
                        u64::MAX
                    } else {
                        (old(self).idle_wakeups_spec() + 1) as u64
                    }),
            },
    {
        match self.pending.take() {
            Some(reason) => FrameDecision::FrameNeeded(reason),
            None => {
                self.idle_wakeups = self.idle_wakeups.saturating_add(1);
                FrameDecision::NoFrameNeeded
            },
        }
    }

    pub fn idle_wakeups(&self) -> (r: u64)
        ensures
            r == self.idle_wakeups_spec(),
    {
        self.idle_wakeups
    }

    /// Reads and resets the idle wake-up count.
    pub fn take_idle_wakeups(&mut self) -> (r: u64)
        ensures
            r == old(self).idle_wakeups_spec(),
            final(self).idle_wakeups_spec() == 0,
            final(self).pending() == old(self).pending(),
    {
        let idle_wakeups = self.idle_wakeups;
        self.idle_wakeups = 0;
        idle_wakeups
    }
}

} // verus!
