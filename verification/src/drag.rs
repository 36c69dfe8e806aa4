//! The drag gesture: a two-state machine over pointer events, and the
//! throttle that bounds how often a rectangle update leaves it.
//!
//! Time is a count of milliseconds on a monotonic clock that the caller
//! reads; the session itself never looks at a clock.

use vstd::prelude::*;
use crate::geometry::{Point, Region, region_of};

verus! {

/// The recommended minimum interval between two rectangle updates, in
/// milliseconds (about 60 updates per second).
pub const DEFAULT_INTERVAL_MS: u64 = 16;

/// An event of the pointer source, reduced to what the session reads.
#[derive(Clone, Copy, Debug, PartialEq, Eq, Structural)]
pub enum PointerEvent {
    /// The designated button went down at this point.
    Press(Point),
    /// The pointer moved to this point.
    Move(Point),
    /// The designated button came up at this point.
    Release(Point),
    /// Anything else: another button, a key, a wheel.
    Other,
}

/// Where a session stands between gestures or within one.
#[derive(Clone, Copy, Debug, PartialEq, Eq, Structural)]
pub enum DragState {
    Idle,
    /// A drag is under way; the point is where it started.
    Dragging(Point),
}

/// What the caller has to do after an event.
#[derive(Clone, Copy, Debug, PartialEq, Eq, Structural)]
pub enum DragAction {
    /// Nothing leaves the session.
    Nothing,
    /// Publish this rectangle to the overlay.
    Update(Region),
    /// The drag is over: publish this final rectangle and capture it.
    Finish(Region),
}

/// The mathematical state of a throttle.
pub struct ThrottleModel {
    pub interval: nat,
    pub last_emit: nat,
}

impl ThrottleModel {
    /// Whether an update offered at `now` goes through: at least `interval`
    /// has passed since the last one that did.
    pub open spec fn admits(self, now: nat) -> bool {
        now >= self.last_emit + self.interval
    }

    /// The throttle after an update was offered at `now`.
    pub open spec fn offered(self, now: nat) -> ThrottleModel {
        if self.admits(now) {
            ThrottleModel { interval: self.interval, last_emit: now }
        } else {
            self
        }
    }
}

/// Drops rectangle updates that come sooner than a fixed interval after the
/// last one that was let through. Nothing is queued.
#[derive(Clone, Copy, Debug)]
pub struct RegionThrottle {
    interval: u64,
    last_emit: u64,
}

impl View for RegionThrottle {
    type V = ThrottleModel;

    closed spec fn view(&self) -> ThrottleModel {
        ThrottleModel { interval: self.interval as nat, last_emit: self.last_emit as nat }
    }
}

impl RegionThrottle {
    /// A throttle with the given interval whose clock starts at `now`: the
    /// first update goes through once `interval` has passed since then.
    pub fn new(interval: u64, now: u64) -> (t: RegionThrottle)
        ensures
            t@ == (ThrottleModel { interval: interval as nat, last_emit: now as nat }),
    {
        RegionThrottle { interval, last_emit: now }
    }

    pub fn interval(&self) -> (i: u64)
        ensures
            i == self@.interval,
    {
        self.interval
    }

    pub fn last_emit(&self) -> (t: u64)
        ensures
            t == self@.last_emit,
    {
        self.last_emit
    }

    /// Offers an update at `now`. Returns whether it goes through, and if so
    /// remembers `now` as the time of the last emission.
    pub fn offer(&mut self, now: u64) -> (admitted: bool)
        ensures
            admitted == old(self)@.admits(now as nat),
            final(self)@ == old(self)@.offered(now as nat),
    {
        if now >= self.last_emit && now - self.last_emit >= self.interval {
            self.last_emit = now;
            true
        } else {
            false
        }
    }
}

/// The mathematical state of a session.
pub struct SessionModel {
    pub state: DragState,
    pub throttle: ThrottleModel,
}

impl SessionModel {
    /// The transition function: the state after `event` arrived at `now`, and
    /// what the caller has to do.
    ///
    /// A press starts a drag at its point, also when one is under way. A move
    /// during a drag offers the rectangle from the anchor to the pointer to
    /// the throttle. A release during a drag ends it with the final rectangle,
    /// whatever the throttle would say. Everything else changes nothing.
    pub open spec fn step(self, event: PointerEvent, now: nat) -> (SessionModel, DragAction) {
        match event {
            PointerEvent::Press(p) => (
                SessionModel { state: DragState::Dragging(p), throttle: self.throttle },
                DragAction::Nothing,
            ),
            PointerEvent::Move(p) => match self.state {
                DragState::Dragging(anchor) => if self.throttle.admits(now) {
                    (
                        SessionModel { state: self.state, throttle: self.throttle.offered(now) },
                        DragAction::Update(region_of(anchor, p)),
                    )
                } else {
                    (self, DragAction::Nothing)
                },
                DragState::Idle => (self, DragAction::Nothing),
            },
            PointerEvent::Release(p) => match self.state {
                DragState::Dragging(anchor) => (
                    SessionModel { state: DragState::Idle, throttle: self.throttle },
                    DragAction::Finish(region_of(anchor, p)),
                ),
                DragState::Idle => (self, DragAction::Nothing),
            },
            PointerEvent::Other => (self, DragAction::Nothing),
        }
    }
}

/// The state machine of one pointer: idle, or dragging from an anchor.
#[derive(Clone, Copy, Debug)]
pub struct DragSession {
    state: DragState,
    throttle: RegionThrottle,
}

impl View for DragSession {
    type V = SessionModel;

    closed spec fn view(&self) -> SessionModel {
        SessionModel { state: self.state, throttle: self.throttle@ }
    }
}

impl DragSession {
    /// An idle session whose throttle has the given interval and starts at
    /// `now`.
    pub fn new(interval: u64, now: u64) -> (s: DragSession)
        ensures
            s@ == (SessionModel {
                state: DragState::Idle,
                throttle: ThrottleModel { interval: interval as nat, last_emit: now as nat },
            }),
    {
        DragSession { state: DragState::Idle, throttle: RegionThrottle::new(interval, now) }
    }

    pub fn state(&self) -> (s: DragState)
        ensures
            s == self@.state,
    {
        self.state
    }

    pub fn is_dragging(&self) -> (b: bool)
        ensures
            b == (self@.state is Dragging),
    {
        match self.state {
            DragState::Dragging(_) => true,
            DragState::Idle => false,
        }
    }

    pub fn throttle(&self) -> (t: RegionThrottle)
        ensures
            t@ == self@.throttle,
    {
        self.throttle
    }

    /// Takes one event, read off the pointer source at time `now`, and says
    /// what to do about it.
    pub fn handle(&mut self, event: PointerEvent, now: u64) -> (action: DragAction)
        ensures
            (final(self)@, action) == old(self)@.step(event, now as nat),
    {
        match event {
            PointerEvent::Press(p) => {
                self.state = DragState::Dragging(p);
                DragAction::Nothing
            },
            PointerEvent::Move(p) => match self.state {
                DragState::Dragging(anchor) => {
                    if self.throttle.offer(now) {
                        DragAction::Update(Region::from_points(anchor, p))
                    } else {
                        DragAction::Nothing
                    }
                },
                DragState::Idle => DragAction::Nothing,
            },
            PointerEvent::Release(p) => match self.state {
                DragState::Dragging(anchor) => {
                    self.state = DragState::Idle;
                    DragAction::Finish(Region::from_points(anchor, p))
                },
                DragState::Idle => DragAction::Nothing,
            },
            PointerEvent::Other => DragAction::Nothing,
        }
    }
}

/// An event together with the time at which it arrived.
pub struct TimedEvent {
    pub event: PointerEvent,
    pub at: nat,
}

/// Feeds a sequence of events to a session, first to last: the state at the
/// end and the action that each event brought, in the order of the events.
pub open spec fn run(s: SessionModel, events: Seq<TimedEvent>) -> (SessionModel, Seq<DragAction>)
    decreases events.len(),
{
    if events.len() == 0 {
        (s, Seq::empty())
    } else {
        let first = s.step(events[0].event, events[0].at);
        let rest = run(first.0, events.drop_first());
        (rest.0, seq![first.1] + rest.1)
    }
}

/// How many of the actions are throttled updates.
pub open spec fn count_updates(actions: Seq<DragAction>) -> nat
    decreases actions.len(),
{
    if actions.len() == 0 {
        0
    } else {
        (if actions[0] is Update { 1nat } else { 0nat }) + count_updates(actions.drop_first())
    }
}

/// How many of the actions end a drag.
pub open spec fn count_finishes(actions: Seq<DragAction>) -> nat
    decreases actions.len(),
{
    if actions.len() == 0 {
        0
    } else {
        (if actions[0] is Finish { 1nat } else { 0nat }) + count_finishes(actions.drop_first())
    }
}

/// The events carry the times of a monotonic clock.
pub open spec fn in_time_order(events: Seq<TimedEvent>) -> bool {
    forall|i: int, j: int| 0 <= i <= j < events.len() ==> events[i].at <= events[j].at
}

/// No event of the sequence is a press.
pub open spec fn press_free(events: Seq<TimedEvent>) -> bool {
    forall|i: int| 0 <= i < events.len() ==> !(#[trigger] events[i].event is Press)
}

/// Every event of the sequence is a move.
pub open spec fn all_moves(events: Seq<TimedEvent>) -> bool {
    forall|i: int| 0 <= i < events.len() ==> #[trigger] events[i].event is Move
}

proof fn lemma_count_updates_cons(a: DragAction, rest: Seq<DragAction>)
    ensures
        count_updates(seq![a] + rest) == (if a is Update { 1nat } else { 0nat }) + count_updates(rest),
{
    assert((seq![a] + rest).drop_first() =~= rest);
}

proof fn lemma_count_finishes_cons(a: DragAction, rest: Seq<DragAction>)
    ensures
        count_finishes(seq![a] + rest) == (if a is Finish { 1nat } else { 0nat }) + count_finishes(rest),
{
    assert((seq![a] + rest).drop_first() =~= rest);
}

proof fn lemma_tail_in_time_order(events: Seq<TimedEvent>)
    requires
        in_time_order(events),
        events.len() > 0,
    ensures
        in_time_order(events.drop_first()),
        events.len() > 1 ==> events.drop_first().last() == events.last(),
        events.len() > 1 ==> events[0].at <= events.last().at,
{
    let tail = events.drop_first();
    assert forall|i: int, j: int| 0 <= i <= j < tail.len() implies tail[i].at <= tail[j].at by {
        assert(tail[i] == events[i + 1]);
        assert(tail[j] == events[j + 1]);
    }
}

/// A run answers every event with one action and never changes the throttle's
/// interval.
pub proof fn lemma_run_shape(s: SessionModel, events: Seq<TimedEvent>)
    ensures
        run(s, events).1.len() == events.len(),
        run(s, events).0.throttle.interval == s.throttle.interval,
    decreases events.len(),
{
    if events.len() > 0 {
        let first = s.step(events[0].event, events[0].at);
        lemma_run_shape(first.0, events.drop_first());
    }
}

/// Running two sequences one after the other is running their concatenation.
pub proof fn lemma_run_concat(s: SessionModel, a: Seq<TimedEvent>, b: Seq<TimedEvent>)
    ensures
        run(s, a + b) == (run(run(s, a).0, b).0, run(s, a).1 + run(run(s, a).0, b).1),
    decreases a.len(),
{
    if a.len() == 0 {
        assert(a + b =~= b);
        assert(run(s, a).1 + run(run(s, a).0, b).1 =~= run(s, b).1);
    } else {
        let first = s.step(a[0].event, a[0].at);
        assert((a + b).drop_first() =~= a.drop_first() + b);
        assert((a + b)[0] == a[0]);
        lemma_run_concat(first.0, a.drop_first(), b);
        let mid = run(first.0, a.drop_first());
        let end = run(mid.0, b);
        assert(seq![first.1] + (mid.1 + end.1) =~= (seq![first.1] + mid.1) + end.1);
    }
}

/// Emissions take time: `k` updates out of a run cannot end sooner than `k`
/// intervals after the throttle's last emission before the run.
proof fn lemma_updates_take_time(s: SessionModel, events: Seq<TimedEvent>)
    requires
        in_time_order(events),
    ensures
        events.len() == 0 ==> count_updates(run(s, events).1) == 0,
        events.len() > 0 && events.last().at < s.throttle.last_emit ==> count_updates(
            run(s, events).1,
        ) == 0,
        events.len() > 0 && events.last().at >= s.throttle.last_emit ==> count_updates(
            run(s, events).1,
        ) * s.throttle.interval <= events.last().at - s.throttle.last_emit,
    decreases events.len(),
{
    if events.len() > 0 {
        let interval = s.throttle.interval;
        let first = s.step(events[0].event, events[0].at);
        let tail = events.drop_first();
        let rest = run(first.0, tail);
        lemma_tail_in_time_order(events);
        lemma_updates_take_time(first.0, tail);
        lemma_count_updates_cons(first.1, rest.1);
        let k = count_updates(rest.1);
        if first.1 is Update {
            assert(first.0.throttle.last_emit == events[0].at);
            assert(first.0.throttle.interval == interval);
            assert(events[0].at >= s.throttle.last_emit + interval);
            assert((1 + k) * interval == interval + k * interval) by (nonlinear_arith);
        } else {
            assert(first.0.throttle == s.throttle);
        }
    }
}

/// The throttle bound. However fast events arrive, a run whose events span a
/// duration `T` on the clock lets at most `T / interval + 1` throttled updates
/// through (the quotient rounded down). This holds of every session and of
/// every sequence of events in time order, so in particular of the moves of
/// one drag.
pub proof fn lemma_throttle_bound(s: SessionModel, events: Seq<TimedEvent>)
    requires
        s.throttle.interval > 0,
        events.len() > 0,
        in_time_order(events),
    ensures
        count_updates(run(s, events).1) <= (events.last().at - events[0].at) / (
        s.throttle.interval as int) + 1,
    decreases events.len(),
{
    let interval = s.throttle.interval as int;
    let span = events.last().at - events[0].at;
    let first = s.step(events[0].event, events[0].at);
    let tail = events.drop_first();
    let rest = run(first.0, tail);
    let k = count_updates(rest.1) as int;
    lemma_tail_in_time_order(events);
    lemma_count_updates_cons(first.1, rest.1);
    assert(span / interval >= 0) by (nonlinear_arith)
        requires
            span >= 0,
            interval > 0,
    ;
    if tail.len() == 0 {
        lemma_updates_take_time(first.0, tail);
    } else if first.1 is Update {
        // The first event went through: the rest starts from its time, and
        // each further update costs one interval of the span.
        lemma_updates_take_time(first.0, tail);
        assert(first.0.throttle.last_emit == events[0].at);
        assert(k * interval <= span);
        assert(k <= span / interval) by (nonlinear_arith)
            requires
                k * interval <= span,
                interval > 0,
        ;
    } else {
        // The first event let nothing through: the bound of the rest, whose
        // span is no longer, carries over.
        lemma_throttle_bound(first.0, tail);
        let shorter = tail.last().at - tail[0].at;
        assert(tail[0] == events[1]);
        assert(shorter / interval <= span / interval) by (nonlinear_arith)
            requires
                shorter <= span,
                interval > 0,
        ;
    }
}

proof fn lemma_moves_keep_dragging(s: SessionModel, moves: Seq<TimedEvent>)
    requires
        all_moves(moves),
    ensures
        run(s, moves).0.state == s.state,
        count_finishes(run(s, moves).1) == 0,
    decreases moves.len(),
{
    if moves.len() > 0 {
        let first = s.step(moves[0].event, moves[0].at);
        let tail = moves.drop_first();
        assert(moves[0].event is Move);
        assert forall|i: int| 0 <= i < tail.len() implies #[trigger] tail[i].event is Move by {
            assert(tail[i] == moves[i + 1]);
        }
        lemma_moves_keep_dragging(first.0, tail);
        lemma_count_finishes_cons(first.1, run(first.0, tail).1);
    }
}

proof fn lemma_count_finishes_concat(a: Seq<DragAction>, b: Seq<DragAction>)
    ensures
        count_finishes(a + b) == count_finishes(a) + count_finishes(b),
    decreases a.len(),
{
    if a.len() == 0 {
        assert(a + b =~= b);
    } else {
        assert((a + b).drop_first() =~= a.drop_first() + b);
        lemma_count_finishes_concat(a.drop_first(), b);
    }
}

/// A completed drag ends with exactly one final update. Whatever the session
/// was doing before, and whatever the times of the events are, a press at `a`
/// followed by any number of moves and a release at `p` answers the release,
/// and no event before it, with the final rectangle from `a` to `p`, and
/// leaves the session idle.
pub proof fn lemma_release_finishes_once(
    s: SessionModel,
    a: Point,
    pressed_at: nat,
    moves: Seq<TimedEvent>,
    p: Point,
    released_at: nat,
)
    requires
        all_moves(moves),
    ensures
        ({
            let press = TimedEvent { event: PointerEvent::Press(a), at: pressed_at };
            let release = TimedEvent { event: PointerEvent::Release(p), at: released_at };
            let gesture = seq![press] + moves + seq![release];
            let end = run(s, gesture);
            &&& end.1.len() == gesture.len()
            &&& end.1.last() == DragAction::Finish(region_of(a, p))
            &&& count_finishes(end.1) == 1
            &&& end.0.state is Idle
            &&& end.0.throttle.interval == s.throttle.interval
        }),
{
    let press = TimedEvent { event: PointerEvent::Press(a), at: pressed_at };
    let release = TimedEvent { event: PointerEvent::Release(p), at: released_at };
    let head = seq![press] + moves;
    let gesture = head + seq![release];
    let pressed = s.step(press.event, press.at);
    // The press and the moves: the session drags from `a`, nothing is final.
    assert(head.drop_first() =~= moves);
    assert(head[0] == press);
    lemma_moves_keep_dragging(pressed.0, moves);
    let dragged = run(s, head);
    assert(dragged.0 == run(pressed.0, moves).0);
    assert(dragged.1 == seq![pressed.1] + run(pressed.0, moves).1);
    lemma_count_finishes_cons(pressed.1, run(pressed.0, moves).1);
    assert(dragged.0.state == DragState::Dragging(a));
    assert(count_finishes(dragged.1) == 0);
    // The release.
    let tail = seq![release];
    let released = dragged.0.step(release.event, release.at);
    assert(tail.drop_first() =~= Seq::<TimedEvent>::empty());
    assert(run(released.0, tail.drop_first()).1 =~= Seq::<DragAction>::empty());
    assert(run(dragged.0, tail).1 =~= seq![released.1]);
    assert(run(dragged.0, tail).0 == released.0);
    lemma_run_concat(s, head, tail);
    lemma_run_shape(s, gesture);
    lemma_count_finishes_concat(dragged.1, seq![released.1]);
    lemma_count_finishes_cons(released.1, Seq::empty());
    assert(seq![released.1] + Seq::<DragAction>::empty() =~= seq![released.1]);
    lemma_run_shape(s, head);
}

/// A release without a press before it changes nothing and asks for nothing.
pub proof fn lemma_stray_release_ignored(s: SessionModel, p: Point, now: nat)
    requires
        s.state is Idle,
    ensures
        s.step(PointerEvent::Release(p), now) == (s, DragAction::Nothing),
{
}

/// An idle session stays as it is, throttle included, and asks for nothing as
/// long as no press arrives: no release, no move and no other event starts a
/// capture or an update.
pub proof fn lemma_idle_without_press(s: SessionModel, events: Seq<TimedEvent>)
    requires
        s.state is Idle,
        press_free(events),
    ensures
        run(s, events).0 == s,
        run(s, events).1.len() == events.len(),
        forall|i: int| 0 <= i < events.len() ==> run(s, events).1[i] == DragAction::Nothing,
    decreases events.len(),
{
    if events.len() > 0 {
        let first = s.step(events[0].event, events[0].at);
        let tail = events.drop_first();
        assert(!(events[0].event is Press));
        assert forall|i: int| 0 <= i < tail.len() implies !(#[trigger] tail[i].event is Press) by {
            assert(tail[i] == events[i + 1]);
        }
        lemma_idle_without_press(s, tail);
        let rest = run(s, tail);
        assert forall|i: int| 0 <= i < events.len() implies run(s, events).1[i]
            == DragAction::Nothing by {
            if i > 0 {
                assert((seq![first.1] + rest.1)[i] == rest.1[i - 1]);
            }
        }
    }
}

} // verus!
