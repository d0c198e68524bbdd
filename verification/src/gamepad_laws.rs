//! Laws of the scheduler: what holds of the trace that a run of messages
//! and ticks leaves on the gamepad.

use crate::command::{Movement, PacketView, MOVEMENT_COUNT};
use crate::gamepad::{
    all_released, blocking_sequence, can_run, cancel_all, decay, directionals, drain, message_step,
    packet_step, pause, press_all, run, staggered_presses, staggered_releases, tick_step, turn,
    Effect, GamepadAction, SchedulerEvent, SchedulerView,
};
use vstd::prelude::*;

verus! {

/// `n` ticks in a row.
pub open spec fn ticks(n: nat) -> Seq<SchedulerEvent> {
    Seq::new(n, |i: int| SchedulerEvent::Tick)
}

/// The actions without the pauses.
pub open spec fn events_only(actions: Seq<GamepadAction>) -> Seq<GamepadAction>
    decreases actions.len(),
{
    if actions.len() == 0 {
        Seq::empty()
    } else if actions.last() is Sleep {
        events_only(actions.drop_last())
    } else {
        events_only(actions.drop_last()).push(actions.last())
    }
}

/// A press of each button, in order.
pub open spec fn presses(buttons: Seq<Movement>) -> Seq<GamepadAction> {
    Seq::new(buttons.len(), |i: int| GamepadAction::Press(buttons[i]))
}

/// A release of each button, the last button first.
pub open spec fn releases_reversed(buttons: Seq<Movement>) -> Seq<GamepadAction> {
    Seq::new(buttons.len(), |i: int| GamepadAction::Release(buttons[buttons.len() - 1 - i]))
}

/// A release of each of the first `n` buttons that is held, in the order of
/// the enum.
pub open spec fn releases_of(remaining: Seq<u64>, n: int) -> Seq<GamepadAction>
    decreases n,
{
    if n <= 0 {
        Seq::empty()
    } else if remaining[n - 1] > 0 {
        releases_of(remaining, n - 1).push(GamepadAction::Release(Movement::at(n - 1)))
    } else {
        releases_of(remaining, n - 1)
    }
}

/// Every button is free or held for `d`.
pub open spec fn uniform(remaining: Seq<u64>, d: u64) -> bool {
    &&& remaining.len() == MOVEMENT_COUNT
    &&& forall|i: int| 0 <= i < MOVEMENT_COUNT ==> #[trigger] remaining[i] == 0 || remaining[i] == d
}

/// Leaving the pauses out of two runs of actions in a row is leaving them
/// out of each.
pub proof fn lemma_events_only_add(a: Seq<GamepadAction>, b: Seq<GamepadAction>)
    ensures
        events_only(a + b) == events_only(a) + events_only(b),
    decreases b.len(),
{
    if b.len() == 0 {
        assert(a + b =~= a);
        assert(events_only(a) + events_only(b) =~= events_only(a));
    } else {
        lemma_events_only_add(a, b.drop_last());
        assert((a + b).drop_last() =~= a + b.drop_last());
        assert((a + b).last() == b.last());
        if !(b.last() is Sleep) {
            assert((events_only(a) + events_only(b.drop_last())).push(b.last()) =~= events_only(a)
                + events_only(b.drop_last()).push(b.last()));
        }
    }
}

proof fn lemma_events_only_small(a: GamepadAction)
    ensures
        events_only(seq![a]) == (if a is Sleep {
            Seq::<GamepadAction>::empty()
        } else {
            seq![a]
        }),
        events_only(Seq::<GamepadAction>::empty()) == Seq::<GamepadAction>::empty(),
{
    let s = seq![a];
    assert(s.drop_last() =~= Seq::<GamepadAction>::empty());
    assert(s.last() == a);
    assert(events_only(s.drop_last()) == Seq::<GamepadAction>::empty());
    if !(a is Sleep) {
        assert(Seq::<GamepadAction>::empty().push(a) =~= seq![a]);
    }
}

proof fn lemma_events_only_pause(ms: u64)
    ensures
        events_only(pause(ms)) == Seq::<GamepadAction>::empty(),
{
    lemma_events_only_small(GamepadAction::Sleep(ms));
}

proof fn lemma_staggered_presses(buttons: Seq<Movement>, stagger: u64)
    ensures
        events_only(staggered_presses(buttons, stagger)) == presses(buttons),
    decreases buttons.len(),
{
    if buttons.len() == 0 {
        assert(presses(buttons) =~= Seq::<GamepadAction>::empty());
    } else {
        let head = staggered_presses(buttons.drop_last(), stagger);
        let press = GamepadAction::Press(buttons.last());
        lemma_staggered_presses(buttons.drop_last(), stagger);
        assert(head.push(press) =~= head + seq![press]);
        lemma_events_only_add(head + seq![press], pause(stagger));
        lemma_events_only_add(head, seq![press]);
        lemma_events_only_small(press);
        lemma_events_only_pause(stagger);
        assert(presses(buttons.drop_last()) + seq![press] + Seq::<GamepadAction>::empty()
            =~= presses(buttons));
    }
}

proof fn lemma_staggered_releases(buttons: Seq<Movement>, stagger: u64)
    ensures
        events_only(staggered_releases(buttons, stagger)) == releases_reversed(buttons),
    decreases buttons.len(),
{
    if buttons.len() == 0 {
        assert(releases_reversed(buttons) =~= Seq::<GamepadAction>::empty());
    } else {
        let tail = staggered_releases(buttons.drop_last(), stagger);
        let release = GamepadAction::Release(buttons.last());
        lemma_staggered_releases(buttons.drop_last(), stagger);
        lemma_events_only_add(seq![release] + pause(stagger), tail);
        lemma_events_only_add(seq![release], pause(stagger));
        lemma_events_only_small(release);
        lemma_events_only_pause(stagger);
        assert(seq![release] + Seq::<GamepadAction>::empty() + releases_reversed(
            buttons.drop_last(),
        ) =~= releases_reversed(buttons));
    }
}

/// A blocking packet presses its buttons in order and then releases them
/// in reverse order; all else that it does is pause.
pub proof fn lemma_blocking_sequence_events(p: PacketView)
    ensures
        events_only(blocking_sequence(p)) == presses(p.movements) + releases_reversed(p.movements),
{
    let a = staggered_presses(p.movements, p.stagger);
    let b = seq![GamepadAction::Sleep(p.duration)];
    let c = staggered_releases(p.movements, p.stagger);
    let d = seq![GamepadAction::Sleep(crate::gamepad::BLOCKING_REST_MS)];
    lemma_events_only_add(a + b + c, d);
    lemma_events_only_add(a + b, c);
    lemma_events_only_add(a, b);
    lemma_events_only_small(GamepadAction::Sleep(p.duration));
    lemma_events_only_small(GamepadAction::Sleep(crate::gamepad::BLOCKING_REST_MS));
    lemma_staggered_presses(p.movements, p.stagger);
    lemma_staggered_releases(p.movements, p.stagger);
    assert(presses(p.movements) + Seq::<GamepadAction>::empty() + releases_reversed(p.movements)
        + Seq::<GamepadAction>::empty() =~= presses(p.movements) + releases_reversed(p.movements));
}

/// A run of events followed by another is the two runs in a row.
pub proof fn lemma_run_add(s: SchedulerView, a: Seq<SchedulerEvent>, b: Seq<SchedulerEvent>)
    ensures
        run(s, a + b).state == run(run(s, a).state, b).state,
        run(s, a + b).trace == run(s, a).trace + run(run(s, a).state, b).trace,
    decreases a.len(),
{
    if a.len() == 0 {
        assert(a + b =~= b);
        assert(Seq::<GamepadAction>::empty() + run(s, b).trace =~= run(s, b).trace);
    } else {
        let first = turn(s, a[0]);
        assert((a + b)[0] == a[0]);
        assert((a + b).skip(1) =~= a.skip(1) + b);
        lemma_run_add(first.state, a.skip(1), b);
        let middle = run(first.state, a.skip(1));
        assert(first.actions + (middle.trace + run(middle.state, b).trace) =~= (first.actions
            + middle.trace) + run(middle.state, b).trace);
    }
}

/// A run of one event is that event's turn.
pub proof fn lemma_run_one(s: SchedulerView, e: SchedulerEvent)
    ensures
        run(s, seq![e]).state == turn(s, e).state,
        run(s, seq![e]).trace == turn(s, e).actions,
{
    let one = seq![e];
    assert(one[0] == e);
    assert(one.skip(1) =~= Seq::<SchedulerEvent>::empty());
    let rest = run(turn(s, e).state, one.skip(1));
    assert(rest.trace =~= Seq::<GamepadAction>::empty());
    assert(turn(s, e).actions + rest.trace =~= turn(s, e).actions);
}

/// A blocking packet that comes while no button is held runs from its first
/// press to its last release with nothing in between, wherever in a run it
/// comes: the trace is the trace up to the packet, then the packet's
/// sequence, then what the events after it lead to from the state in which
/// the packet found the scheduler.
pub proof fn lemma_blocking_is_contiguous(
    s: SchedulerView,
    before: Seq<SchedulerEvent>,
    p: PacketView,
    after: Seq<SchedulerEvent>,
)
    requires
        p.blocking,
        run(s, before).state.idle(),
    ensures
        run(s, before + seq![SchedulerEvent::Message(Some(p))] + after).trace == run(
            s,
            before,
        ).trace + blocking_sequence(p) + run(run(s, before).state, after).trace,
        events_only(blocking_sequence(p)) == presses(p.movements) + releases_reversed(p.movements),
{
    let found = run(s, before).state;
    let one = seq![SchedulerEvent::Message(Some(p))];
    lemma_run_add(s, before + one, after);
    lemma_run_add(s, before, one);
    lemma_run_one(found, SchedulerEvent::Message(Some(p)));
    assert(run(found, one).state == found);
    assert(run(found, one).trace =~= blocking_sequence(p));
    lemma_blocking_sequence_events(p);
}

proof fn lemma_decay_idle(remaining: Seq<u64>, interval: u64, n: int)
    requires
        all_released(remaining),
        n <= remaining.len(),
    ensures
        decay(remaining, interval, n).remaining == remaining,
        decay(remaining, interval, n).actions == Seq::<GamepadAction>::empty(),
    decreases n,
{
    if n > 0 {
        lemma_decay_idle(remaining, interval, n - 1);
    }
}

/// A tick changes nothing where no button is held and no packet waits.
proof fn lemma_idle_ticks(s: SchedulerView, n: nat)
    requires
        s.wf(),
        s.idle(),
        s.pending is None,
        s.queue.len() == 0,
    ensures
        run(s, ticks(n)).state == s,
        run(s, ticks(n)).trace == Seq::<GamepadAction>::empty(),
    decreases n,
{
    if n > 0 {
        lemma_decay_idle(s.remaining, s.interval, MOVEMENT_COUNT as int);
        let first = tick_step(s);
        assert(first.state == s);
        assert(first.actions =~= Seq::<GamepadAction>::empty());
        assert(ticks(n)[0] == SchedulerEvent::Tick);
        assert(ticks(n).skip(1) =~= ticks((n - 1) as nat));
        lemma_idle_ticks(s, (n - 1) as nat);
        assert(first.actions + run(s, ticks((n - 1) as nat)).trace =~= Seq::<
            GamepadAction,
        >::empty());
    }
}

/// The buttons' times after a tick where each held button was held for `d`.
pub open spec fn decayed_uniform(remaining: Seq<u64>, interval: u64, d: u64, n: int) -> Seq<u64> {
    Seq::new(
        remaining.len(),
        |i: int|
            if i < n && remaining[i] > 0 {
                if d > interval {
                    (d - interval) as u64
                } else {
                    0
                }
            } else {
                remaining[i]
            },
    )
}

proof fn lemma_decay_uniform(remaining: Seq<u64>, interval: u64, d: u64, n: int)
    requires
        uniform(remaining, d),
        d > 0,
        0 <= n <= MOVEMENT_COUNT,
    ensures
        decay(remaining, interval, n).remaining == decayed_uniform(remaining, interval, d, n),
        decay(remaining, interval, n).actions == (if d > interval {
            Seq::<GamepadAction>::empty()
        } else {
            releases_of(remaining, n)
        }),
    decreases n,
{
    if n == 0 {
        assert(decayed_uniform(remaining, interval, d, 0) =~= remaining);
    } else {
        lemma_decay_uniform(remaining, interval, d, n - 1);
        let before = decay(remaining, interval, n - 1);
        assert(before.remaining[n - 1] == remaining[n - 1]);
        assert(decay(remaining, interval, n).remaining =~= decayed_uniform(
            remaining,
            interval,
            d,
            n,
        ));
    }
}

proof fn lemma_releases_of_same_support(a: Seq<u64>, b: Seq<u64>, n: int)
    requires
        n <= a.len(),
        n <= b.len(),
        forall|i: int| 0 <= i < n ==> (a[i] > 0) == (b[i] > 0),
    ensures
        releases_of(a, n) == releases_of(b, n),
    decreases n,
{
    if n > 0 {
        lemma_releases_of_same_support(a, b, n - 1);
    }
}

/// Enough ticks release every held button once, in the order of the enum,
/// where all were pressed for the same time and nothing else is going on.
proof fn lemma_ticks_release(s: SchedulerView, d: u64, n: nat)
    requires
        uniform(s.remaining, d),
        d >= 1,
        s.interval >= 1,
        s.pending is None,
        s.queue.len() == 0,
        n * s.interval >= d,
    ensures
        run(s, ticks(n)).trace == releases_of(s.remaining, MOVEMENT_COUNT as int),
        run(s, ticks(n)).state.idle(),
    decreases n,
{
    assert(n >= 1) by (nonlinear_arith)
        requires
            n * s.interval >= d,
            d >= 1,
    ;
    let count = MOVEMENT_COUNT as int;
    lemma_decay_uniform(s.remaining, s.interval, d, count);
    let decayed = decay(s.remaining, s.interval, count);
    let first = tick_step(s);
    assert(ticks(n)[0] == SchedulerEvent::Tick);
    assert(ticks(n).skip(1) =~= ticks((n - 1) as nat));
    let next = SchedulerView { remaining: decayed.remaining, pending: None, ..s };
    assert(drain(next, s.queue).state == next);
    assert(first.state == next);
    assert(first.actions =~= decayed.actions);
    if d > s.interval {
        let left = (d - s.interval) as u64;
        assert(uniform(next.remaining, left));
        assert((n - 1) * s.interval >= left) by (nonlinear_arith)
            requires
                n * s.interval >= d,
                left == d - s.interval,
        ;
        lemma_ticks_release(next, left, (n - 1) as nat);
        lemma_releases_of_same_support(next.remaining, s.remaining, count);
        assert(first.actions + run(next, ticks((n - 1) as nat)).trace =~= releases_of(
            s.remaining,
            count,
        ));
    } else {
        assert(all_released(next.remaining));
        lemma_idle_ticks(next, (n - 1) as nat);
        assert(first.actions + Seq::<GamepadAction>::empty() =~= first.actions);
    }
}

proof fn lemma_cancel_idle(remaining: Seq<u64>, buttons: Seq<Movement>)
    requires
        remaining.len() == MOVEMENT_COUNT,
        all_released(remaining),
    ensures
        cancel_all(remaining, buttons).remaining == remaining,
        cancel_all(remaining, buttons).actions == Seq::<GamepadAction>::empty(),
    decreases buttons.len(),
{
    if buttons.len() > 0 {
        lemma_cancel_idle(remaining, buttons.drop_last());
    }
}

/// Pressing buttons presses each in order; afterwards exactly the buttons
/// pressed are held for the duration, and the others as before.
proof fn lemma_press_all(remaining: Seq<u64>, buttons: Seq<Movement>, duration: u64)
    requires
        remaining.len() == MOVEMENT_COUNT,
    ensures
        press_all(remaining, buttons, duration).actions == presses(buttons),
        press_all(remaining, buttons, duration).remaining.len() == MOVEMENT_COUNT,
        forall|i: int|
            0 <= i < MOVEMENT_COUNT ==> #[trigger] press_all(
                remaining,
                buttons,
                duration,
            ).remaining[i] == (if buttons.contains(Movement::at(i)) {
                duration
            } else {
                remaining[i]
            }),
    decreases buttons.len(),
{
    if buttons.len() == 0 {
        assert(presses(buttons) =~= Seq::<GamepadAction>::empty());
    } else {
        let shorter = buttons.drop_last();
        let m = buttons.last();
        lemma_press_all(remaining, shorter, duration);
        let before = press_all(remaining, shorter, duration);
        assert(before.actions.push(GamepadAction::Press(m)) =~= presses(buttons));
        assert forall|i: int| 0 <= i < MOVEMENT_COUNT implies #[trigger] press_all(
            remaining,
            buttons,
            duration,
        ).remaining[i] == (if buttons.contains(Movement::at(i)) {
            duration
        } else {
            remaining[i]
        }) by {
            assert(Movement::at(m.index()) == m);
            assert(buttons[buttons.len() - 1] == m);
            if shorter.contains(Movement::at(i)) {
                let k = choose|k: int| 0 <= k < shorter.len() && shorter[k] == Movement::at(i);
                assert(buttons[k] == Movement::at(i));
            }
            if buttons.contains(Movement::at(i)) && i != m.index() {
                let k = choose|k: int| 0 <= k < buttons.len() && buttons[k] == Movement::at(i);
                assert(k < shorter.len());
                assert(shorter[k] == Movement::at(i));
            }
        }
    }
}

/// The releases of the held buttons among the first `i` stand first among
/// those of the first `n`.
proof fn lemma_releases_of_prefix(remaining: Seq<u64>, i: int, n: int)
    requires
        0 <= i <= n <= remaining.len(),
    ensures
        releases_of(remaining, i).len() <= releases_of(remaining, n).len(),
        releases_of(remaining, n).subrange(0, releases_of(remaining, i).len() as int)
            == releases_of(remaining, i),
    decreases n - i,
{
    if i == n {
        assert(releases_of(remaining, n).subrange(0, releases_of(remaining, n).len() as int)
            =~= releases_of(remaining, n));
    } else {
        lemma_releases_of_prefix(remaining, i, n - 1);
        assert(releases_of(remaining, n).subrange(0, releases_of(remaining, i).len() as int)
            =~= releases_of(remaining, n - 1).subrange(
            0,
            releases_of(remaining, i).len() as int,
        ));
    }
}

/// Each release among those of the first `n` buttons is the release of a
/// held button, and stands where the releases of the buttons before it end.
proof fn lemma_releases_of_at(remaining: Seq<u64>, n: int, k: int) -> (i: int)
    requires
        0 <= n <= remaining.len(),
        0 <= k < releases_of(remaining, n).len(),
    ensures
        0 <= i < n,
        remaining[i] > 0,
        releases_of(remaining, i).len() == k,
        releases_of(remaining, n)[k] == GamepadAction::Release(Movement::at(i)),
    decreases n,
{
    if remaining[n - 1] > 0 && k == releases_of(remaining, n - 1).len() {
        n - 1
    } else {
        lemma_releases_of_at(remaining, n - 1, k)
    }
}

/// A held button among the first `n` is released where the releases of the
/// buttons before it end.
proof fn lemma_releases_of_held(remaining: Seq<u64>, n: int, i: int)
    requires
        0 <= i < n <= remaining.len(),
        remaining[i] > 0,
    ensures
        releases_of(remaining, i).len() < releases_of(remaining, n).len(),
        releases_of(remaining, n)[releases_of(remaining, i).len() as int] == GamepadAction::Release(
            Movement::at(i),
        ),
{
    lemma_releases_of_prefix(remaining, i + 1, n);
    let upto = releases_of(remaining, i + 1);
    assert(upto == releases_of(remaining, i).push(GamepadAction::Release(Movement::at(i))));
    assert(releases_of(remaining, n).subrange(0, upto.len() as int)[releases_of(
        remaining,
        i,
    ).len() as int] == upto[releases_of(remaining, i).len() as int]);
}

proof fn lemma_at_is_one_to_one(i: int, j: int)
    requires
        0 <= i < MOVEMENT_COUNT,
        0 <= j < MOVEMENT_COUNT,
        Movement::at(i) == Movement::at(j),
    ensures
        i == j,
{
    assert(Movement::at(i).index() == i);
    assert(Movement::at(j).index() == j);
}

/// A packet that is not blocking and comes to a scheduler at rest, which
/// holds no button, has no packet waiting and none put off, has each of its
/// buttons pressed once and released once, the release after the press, as
/// soon as enough ticks have passed for its duration.
///
/// The packet must hold its buttons for a millisecond or more, and name
/// none twice: a packet of duration 0 is pressed and never released, and a
/// button that is named twice is pressed twice.
pub proof fn lemma_pressed_and_released_once(
    s: SchedulerView,
    p: PacketView,
    n: nat,
    m: Movement,
)
    requires
        s.wf(),
        s.idle(),
        s.pending is None,
        s.queue.len() == 0,
        s.interval >= 1,
        !p.blocking,
        p.duration >= 1,
        p.movements.no_duplicates(),
        p.movements.contains(m),
        n * s.interval >= p.duration,
    ensures
        ({
            let trace = run(s, seq![SchedulerEvent::Message(Some(p))] + ticks(n)).trace;
            exists|i: int, j: int|
                {
                    &&& 0 <= i < j < trace.len()
                    &&& #[trigger] trace[i] == GamepadAction::Press(m)
                    &&& #[trigger] trace[j] == GamepadAction::Release(m)
                    &&& forall|k: int|
                        0 <= k < trace.len() && #[trigger] trace[k] == GamepadAction::Press(m)
                            ==> k == i
                    &&& forall|k: int|
                        0 <= k < trace.len() && #[trigger] trace[k] == GamepadAction::Release(m)
                            ==> k == j
                }
        }),
{
    let count = MOVEMENT_COUNT as int;
    let s0 = s;
    let one = seq![SchedulerEvent::Message(Some(p))];
    assert(all_released(s0.remaining));
    lemma_cancel_idle(s0.remaining, directionals() + p.movements);
    lemma_press_all(s0.remaining, p.movements, p.duration);
    let pressed = press_all(s0.remaining, p.movements, p.duration);
    assert(can_run(s0.remaining, p));
    let step = packet_step(s0, p, false);
    assert(step.accepted);
    assert(step.actions == presses(p.movements));
    let s1 = SchedulerView { remaining: pressed.remaining, ..s0 };
    assert(step.state == s1);
    lemma_run_one(s0, SchedulerEvent::Message(Some(p)));
    assert(run(s0, one).state == s1);
    assert(run(s0, one).trace =~= presses(p.movements));
    lemma_run_add(s0, one, ticks(n));
    assert(uniform(s1.remaining, p.duration));
    lemma_ticks_release(s1, p.duration, n);
    let front = presses(p.movements);
    let back = releases_of(s1.remaining, count);
    let trace = run(s0, one + ticks(n)).trace;
    assert(trace == front + back);
    let i = choose|i: int| 0 <= i < p.movements.len() && p.movements[i] == m;
    assert(Movement::at(m.index()) == m);
    assert(s1.remaining[m.index()] == p.duration);
    lemma_releases_of_held(s1.remaining, count, m.index());
    let rank = releases_of(s1.remaining, m.index()).len() as int;
    let j = front.len() + rank;
    assert(trace[i] == front[i]);
    assert(trace[j] == back[rank]);
    assert forall|k: int|
        0 <= k < trace.len() && #[trigger] trace[k] == GamepadAction::Press(m) implies k == i by {
        if k < front.len() {
            assert(trace[k] == front[k]);
            assert(p.movements[k] == m);
        } else {
            assert(trace[k] == back[k - front.len()]);
            let at = lemma_releases_of_at(s1.remaining, count, k - front.len());
        }
    }
    assert forall|k: int|
        0 <= k < trace.len() && #[trigger] trace[k] == GamepadAction::Release(m) implies k == j by {
        if k < front.len() {
            assert(trace[k] == front[k]);
        } else {
            assert(trace[k] == back[k - front.len()]);
            let at = lemma_releases_of_at(s1.remaining, count, k - front.len());
            lemma_at_is_one_to_one(at, m.index());
        }
    }
}

/// Releasing buttons only releases: every action is the release of one of
/// the buttons, and each button that was held is released.
proof fn lemma_cancel_all_releases(remaining: Seq<u64>, buttons: Seq<Movement>)
    requires
        remaining.len() == MOVEMENT_COUNT,
    ensures
        forall|k: int|
            0 <= k < cancel_all(remaining, buttons).actions.len() ==> (#[trigger] cancel_all(
                remaining,
                buttons,
            ).actions[k]) is Release,
        forall|i: int|
            0 <= i < buttons.len() && remaining[(#[trigger] buttons[i]).index()] > 0 ==> cancel_all(
                remaining,
                buttons,
            ).actions.contains(GamepadAction::Release(buttons[i])),
        cancel_all(remaining, buttons).remaining.len() == MOVEMENT_COUNT,
        forall|x: int|
            0 <= x < MOVEMENT_COUNT ==> #[trigger] cancel_all(remaining, buttons).remaining[x] == 0
                || cancel_all(remaining, buttons).remaining[x] == remaining[x],
    decreases buttons.len(),
{
    if buttons.len() > 0 {
        let shorter = buttons.drop_last();
        let m = buttons.last();
        lemma_cancel_all_releases(remaining, shorter);
        let before = cancel_all(remaining, shorter);
        let after = cancel_all(remaining, buttons);
        assert forall|i: int|
            0 <= i < buttons.len() && remaining[(#[trigger] buttons[i]).index()]
                > 0 implies after.actions.contains(GamepadAction::Release(buttons[i])) by {
            if i < shorter.len() {
                assert(shorter[i] == buttons[i]);
                let k = choose|k: int|
                    0 <= k < before.actions.len() && before.actions[k] == GamepadAction::Release(
                        buttons[i],
                    );
                assert(after.actions[k] == GamepadAction::Release(buttons[i]));
            } else {
                if before.remaining[m.index()] > 0 {
                    assert(after.actions[after.actions.len() - 1] == GamepadAction::Release(m));
                } else {
                    lemma_cancelled_before(remaining, shorter, m);
                    let k = choose|k: int|
                        0 <= k < before.actions.len() && before.actions[k]
                            == GamepadAction::Release(m);
                    assert(after.actions[k] == GamepadAction::Release(m));
                }
            }
        }
    }
}

/// A button that was held and is no longer was released.
proof fn lemma_cancelled_before(remaining: Seq<u64>, buttons: Seq<Movement>, m: Movement)
    requires
        remaining.len() == MOVEMENT_COUNT,
        remaining[m.index()] > 0,
        cancel_all(remaining, buttons).remaining[m.index()] == 0,
    ensures
        cancel_all(remaining, buttons).actions.contains(GamepadAction::Release(m)),
    decreases buttons.len(),
{
    if buttons.len() > 0 {
        let shorter = buttons.drop_last();
        let before = cancel_all(remaining, shorter);
        let after = cancel_all(remaining, buttons);
        crate::gamepad::lemma_cancel_all_len(remaining, shorter);
        if before.remaining[m.index()] == 0 {
            lemma_cancelled_before(remaining, shorter, m);
            let k = choose|k: int|
                0 <= k < before.actions.len() && before.actions[k] == GamepadAction::Release(m);
            assert(after.actions[k] == GamepadAction::Release(m));
        } else {
            assert(buttons.last().index() == m.index());
            assert(Movement::at(m.index()) == m);
            assert(Movement::at(buttons.last().index()) == buttons.last());
            assert(after.actions[after.actions.len() - 1] == GamepadAction::Release(m));
        }
    }
}

proof fn lemma_decay_releases(remaining: Seq<u64>, interval: u64, n: int)
    requires
        0 <= n <= remaining.len(),
    ensures
        forall|k: int|
            0 <= k < decay(remaining, interval, n).actions.len() ==> (#[trigger] decay(
                remaining,
                interval,
                n,
            ).actions[k]) is Release,
        decay(remaining, interval, n).remaining.len() == remaining.len(),
    decreases n,
{
    if n > 0 {
        lemma_decay_releases(remaining, interval, n - 1);
    }
}

/// A packet with a direction that is taken while a directional button is
/// held, on its arrival or from the queue, is put off to the next tick: all
/// that taking it does is release, the held button is among what is
/// released and is free afterwards, and the next tick presses the packet's
/// buttons in order once the tick's own releases are done.
pub proof fn lemma_taken_direction_waits_for_release(
    s: SchedulerView,
    q: PacketView,
    ticking: bool,
    d: Movement,
)
    requires
        s.wf(),
        !q.blocking,
        q.contains_direction(),
        d.directional(),
        s.active(d),
        ticking || s.queue.len() == 0,
    ensures
        packet_step(s, q, ticking).accepted,
        packet_step(s, q, ticking).state.pending == Some(q),
        !packet_step(s, q, ticking).state.active(d),
        packet_step(s, q, ticking).actions.contains(GamepadAction::Release(d)),
        forall|k: int|
            0 <= k < packet_step(s, q, ticking).actions.len() ==> (#[trigger] packet_step(
                s,
                q,
                ticking,
            ).actions[k]) is Release,
        ({
            let after = packet_step(s, q, ticking).state;
            let decayed = decay(after.remaining, after.interval, MOVEMENT_COUNT as int);
            &&& tick_step(after).actions.subrange(
                0,
                (decayed.actions.len() + q.movements.len()) as int,
            ) == decayed.actions + presses(q.movements)
            &&& forall|k: int|
                0 <= k < decayed.actions.len() ==> (#[trigger] decayed.actions[k]) is Release
        }),
{
    let count = MOVEMENT_COUNT as int;
    let buttons = directionals() + q.movements;
    let cancelled = cancel_all(s.remaining, buttons);
    lemma_cancel_all_releases(s.remaining, buttons);
    assert(directionals().contains(d)) by {
        if d == Movement::Up {
            assert(directionals()[0] == d);
        } else if d == Movement::Down {
            assert(directionals()[1] == d);
        } else if d == Movement::Left {
            assert(directionals()[2] == d);
        } else if d == Movement::Right {
            assert(directionals()[3] == d);
        } else if d == Movement::Start {
            assert(directionals()[4] == d);
        } else {
            assert(directionals()[5] == d);
        }
    }
    let at = choose|x: int| 0 <= x < directionals().len() && directionals()[x] == d;
    assert(buttons[at] == d);
    assert(cancelled.actions.contains(GamepadAction::Release(d)));
    if cancelled.remaining[d.index()] != 0 {
        lemma_cancel_all_frees(s.remaining, buttons, at);
    }
    let after = packet_step(s, q, ticking).state;
    lemma_decay_releases(after.remaining, after.interval, count);
    let decayed = decay(after.remaining, after.interval, count);
    lemma_press_all(decayed.remaining, q.movements, q.duration);
    let turn = tick_step(after);
    assert(turn.actions.subrange(0, (decayed.actions.len() + q.movements.len()) as int)
        =~= decayed.actions + presses(q.movements));
}

/// A button that is to be released is free afterwards.
proof fn lemma_cancel_all_frees(remaining: Seq<u64>, buttons: Seq<Movement>, i: int)
    requires
        remaining.len() == MOVEMENT_COUNT,
        0 <= i < buttons.len(),
    ensures
        cancel_all(remaining, buttons).remaining[buttons[i].index()] == 0,
    decreases buttons.len(),
{
    let shorter = buttons.drop_last();
    crate::gamepad::lemma_cancel_all_len(remaining, shorter);
    if i < shorter.len() {
        lemma_cancel_all_frees(remaining, shorter, i);
        assert(shorter[i] == buttons[i]);
    }
}

/// Directional preemption: a packet with a direction that is not blocking
/// and finds nothing waiting before it, while a directional button is held,
/// has that button released at once and is itself pressed at the next tick:
/// in the trace of the packet and the tick the release of the held button
/// stands before the packet's first press, and no press stands before that.
///
/// A packet that finds others waiting joins them, and the law before this
/// one holds of it when its turn comes.
pub proof fn lemma_direction_preempts(s: SchedulerView, q: PacketView, d: Movement)
    requires
        s.wf(),
        !q.blocking,
        q.contains_direction(),
        d.directional(),
        s.active(d),
        s.queue.len() == 0,
    ensures
        ({
            let trace = run(s, seq![SchedulerEvent::Message(Some(q)), SchedulerEvent::Tick]).trace;
            exists|i: int, j: int|
                {
                    &&& 0 <= i < j < trace.len()
                    &&& #[trigger] trace[i] == GamepadAction::Release(d)
                    &&& #[trigger] trace[j] == GamepadAction::Press(q.movements[0])
                    &&& forall|k: int| 0 <= k < j ==> !((#[trigger] trace[k]) is Press)
                }
        }),
{
    let count = MOVEMENT_COUNT as int;
    let buttons = directionals() + q.movements;
    let cancelled = cancel_all(s.remaining, buttons);
    lemma_cancel_all_releases(s.remaining, buttons);
    let at = choose|x: int| 0 <= x < directionals().len() && directionals()[x] == d;
    assert(directionals().contains(d)) by {
        if d == Movement::Up {
            assert(directionals()[0] == d);
        } else if d == Movement::Down {
            assert(directionals()[1] == d);
        } else if d == Movement::Left {
            assert(directionals()[2] == d);
        } else if d == Movement::Right {
            assert(directionals()[3] == d);
        } else if d == Movement::Start {
            assert(directionals()[4] == d);
        } else {
            assert(directionals()[5] == d);
        }
    }
    assert(buttons[at] == d);
    assert(cancelled.actions.contains(GamepadAction::Release(d)));
    let i = choose|i: int|
        0 <= i < cancelled.actions.len() && cancelled.actions[i] == GamepadAction::Release(d);
    let s1 = SchedulerView { remaining: cancelled.remaining, pending: Some(q), ..s };
    let first = message_step(s, Some(q));
    assert(first.state == s1);
    assert(first.actions == cancelled.actions);
    lemma_decay_releases(s1.remaining, s1.interval, count);
    let decayed = decay(s1.remaining, s1.interval, count);
    let pressed = press_all(decayed.remaining, q.movements, q.duration);
    lemma_press_all(decayed.remaining, q.movements, q.duration);
    let second = tick_step(s1);
    let events = seq![SchedulerEvent::Message(Some(q)), SchedulerEvent::Tick];
    assert(events =~= seq![SchedulerEvent::Message(Some(q))] + seq![SchedulerEvent::Tick]);
    lemma_run_add(s, seq![SchedulerEvent::Message(Some(q))], seq![SchedulerEvent::Tick]);
    lemma_run_one(s, SchedulerEvent::Message(Some(q)));
    lemma_run_one(s1, SchedulerEvent::Tick);
    let trace = run(s, events).trace;
    assert(trace =~= first.actions + second.actions);
    let j = (first.actions.len() + decayed.actions.len()) as int;
    assert(q.movements.len() >= 1);
    assert(pressed.actions[0] == GamepadAction::Press(q.movements[0]));
    assert(second.actions[decayed.actions.len() as int] == pressed.actions[0]);
    assert(trace[j] == GamepadAction::Press(q.movements[0]));
    assert(trace[i] == GamepadAction::Release(d));
    assert forall|k: int| 0 <= k < j implies !((#[trigger] trace[k]) is Press) by {
        if k < first.actions.len() {
            assert(trace[k] == cancelled.actions[k]);
        } else {
            assert(trace[k] == decayed.actions[k - first.actions.len()]);
        }
    }
}

/// Only a packet with a direction releases what is held: a packet without
/// one, unless it is blocking, leads to presses alone.
pub proof fn lemma_only_directions_preempt(s: SchedulerView, p: PacketView, ticking: bool)
    requires
        s.wf(),
        !p.blocking,
        !p.contains_direction(),
    ensures
        forall|k: int|
            0 <= k < packet_step(s, p, ticking).actions.len() ==> (#[trigger] packet_step(
                s,
                p,
                ticking,
            ).actions[k]) is Press,
        packet_step(s, p, ticking).state.pending == s.pending,
{
    lemma_press_all(s.remaining, p.movements, p.duration);
}

/// First come, first served: the packets that still wait after a tick has
/// given them their turn are the last of those that waited before, in the
/// same order.
pub proof fn lemma_drain_keeps_order(s: SchedulerView, queue: Seq<PacketView>)
    requires
        s.wf(),
    ensures
        exists|k: int|
            0 <= k <= queue.len() && drain(s, queue).state.queue == #[trigger] queue.skip(k),
        drain(s, queue).state.wf(),
    decreases queue.len(),
{
    if queue.len() == 0 {
        assert(queue.skip(0) =~= queue);
    } else {
        let here = SchedulerView { queue: queue.skip(1), ..s };
        let first = packet_step(here, queue[0], true);
        crate::gamepad::lemma_packet_step_keeps(here, queue[0], true);
        if first.accepted {
            lemma_drain_keeps_order(first.state, queue.skip(1));
            let k = choose|k: int|
                0 <= k <= queue.skip(1).len() && drain(first.state, queue.skip(1)).state.queue
                    == #[trigger] queue.skip(1).skip(k);
            assert(queue.skip(1).skip(k) =~= queue.skip(k + 1));
        } else {
            assert(queue.skip(0) =~= queue);
        }
    }
}

/// Whether the event brings no packet of duration 0.
pub open spec fn timed(e: SchedulerEvent) -> bool {
    match e {
        SchedulerEvent::Message(Some(p)) => p.duration >= 1,
        _ => true,
    }
}

/// Whether the packet that is put off, if there is one, has a duration.
pub open spec fn pending_timed(s: SchedulerView) -> bool {
    match s.pending {
        Some(p) => p.duration >= 1,
        None => true,
    }
}

/// A tick leaves a held button held or releases it, and leaves the buttons
/// that it has not come to as they are.
proof fn lemma_decay_keeps_or_releases(remaining: Seq<u64>, interval: u64, n: int, i: int)
    requires
        0 <= n <= remaining.len(),
        remaining.len() == MOVEMENT_COUNT,
        0 <= i < remaining.len(),
        remaining[i] > 0,
    ensures
        decay(remaining, interval, n).remaining.len() == remaining.len(),
        i >= n ==> decay(remaining, interval, n).remaining[i] == remaining[i],
        i < n ==> decay(remaining, interval, n).remaining[i] > 0 || decay(
            remaining,
            interval,
            n,
        ).actions.contains(GamepadAction::Release(Movement::at(i))),
    decreases n,
{
    if n > 0 {
        lemma_decay_keeps_or_releases(remaining, interval, n - 1, i);
        let before = decay(remaining, interval, n - 1);
        let after = decay(remaining, interval, n);
        if i < n - 1 && before.remaining[i] == 0 {
            let k = choose|k: int|
                0 <= k < before.actions.len() && before.actions[k] == GamepadAction::Release(
                    Movement::at(i),
                );
            assert(after.actions[k] == GamepadAction::Release(Movement::at(i)));
        }
        if i == n - 1 && after.remaining[i] == 0 {
            assert(after.actions[after.actions.len() - 1] == GamepadAction::Release(
                Movement::at(i),
            ));
        }
    }
}

/// While a button is held the queue waits: a tick gives the packets that
/// wait their turn only after it has released the button.
pub proof fn lemma_queue_waits_for_release(s: SchedulerView, d: Movement)
    requires
        s.wf(),
        s.active(d),
    ensures
        ({
            let decayed = decay(s.remaining, s.interval, MOVEMENT_COUNT as int);
            let pressed = match s.pending {
                Some(p) => press_all(decayed.remaining, p.movements, p.duration),
                None => Effect { remaining: decayed.remaining, actions: Seq::empty() },
            };
            decayed.actions.contains(GamepadAction::Release(d)) || (tick_step(s).state.queue
                == s.queue && tick_step(s).actions == decayed.actions + pressed.actions)
        }),
{
    let count = MOVEMENT_COUNT as int;
    lemma_decay_keeps_or_releases(s.remaining, s.interval, count, d.index());
    assert(Movement::at(d.index()) == d);
    let decayed = decay(s.remaining, s.interval, count);
    if !decayed.actions.contains(GamepadAction::Release(d)) {
        assert(decayed.remaining[d.index()] > 0);
        assert(!all_released(decayed.remaining));
        let pressed = match s.pending {
            Some(p) => press_all(decayed.remaining, p.movements, p.duration),
            None => Effect { remaining: decayed.remaining, actions: Seq::empty() },
        };
        assert(decayed.actions + pressed.actions + Seq::<GamepadAction>::empty()
            =~= decayed.actions + pressed.actions);
    }
}

/// An event leaves a held button held or has it released, where no packet
/// of duration 0 is about.
pub proof fn lemma_turn_keeps_or_releases(s: SchedulerView, e: SchedulerEvent, d: Movement)
    requires
        s.wf(),
        s.active(d),
        pending_timed(s),
        timed(e),
    ensures
        turn(s, e).state.wf(),
        turn(s, e).state.active(d) || turn(s, e).actions.contains(GamepadAction::Release(d)),
        !turn(s, e).actions.contains(GamepadAction::Release(d)) ==> pending_timed(
            turn(s, e).state,
        ),
{
    let count = MOVEMENT_COUNT as int;
    assert(Movement::at(d.index()) == d);
    match e {
        SchedulerEvent::Message(None) => {},
        SchedulerEvent::Message(Some(p)) => {
            crate::gamepad::lemma_packet_step_keeps(s, p, false);
            let step = packet_step(s, p, false);
            lemma_press_all(s.remaining, p.movements, p.duration);
            let buttons = directionals() + p.movements;
            lemma_cancel_all_releases(s.remaining, buttons);
            if step.accepted && !p.blocking && p.contains_direction() && cancel_all(
                s.remaining,
                buttons,
            ).actions.len() > 0 {
                if cancel_all(s.remaining, buttons).remaining[d.index()] == 0 {
                    lemma_cancelled_before(s.remaining, buttons, d);
                }
            }
        },
        SchedulerEvent::Tick => {
            lemma_decay_keeps_or_releases(s.remaining, s.interval, count, d.index());
            lemma_queue_waits_for_release(s, d);
            let decayed = decay(s.remaining, s.interval, count);
            if decayed.actions.contains(GamepadAction::Release(d)) {
                let k = choose|k: int|
                    0 <= k < decayed.actions.len() && decayed.actions[k] == GamepadAction::Release(
                        d,
                    );
                assert(tick_step(s).actions[k] == GamepadAction::Release(d));
                lemma_tick_wf(s);
            } else {
                match s.pending {
                    Some(p) => {
                        lemma_press_all(decayed.remaining, p.movements, p.duration);
                    },
                    None => {},
                }
            }
        },
    }
}

/// A tick leaves a time for each button.
proof fn lemma_tick_wf(s: SchedulerView)
    requires
        s.wf(),
    ensures
        tick_step(s).state.wf(),
{
    let count = MOVEMENT_COUNT as int;
    lemma_decay_releases(s.remaining, s.interval, count);
    let decayed = decay(s.remaining, s.interval, count);
    match s.pending {
        Some(p) => {
            lemma_press_all(decayed.remaining, p.movements, p.duration);
        },
        None => {},
    }
    let pressed = match s.pending {
        Some(p) => press_all(decayed.remaining, p.movements, p.duration),
        None => Effect { remaining: decayed.remaining, actions: Seq::empty() },
    };
    let before_queue = SchedulerView { remaining: pressed.remaining, pending: None, ..s };
    lemma_drain_keeps_order(before_queue, s.queue);
}

/// A button that is held stays held until it is released, whatever comes:
/// after any run of events that bring no packet of duration 0, the button
/// is still held or the trace holds its release.
pub proof fn lemma_held_until_released(s: SchedulerView, events: Seq<SchedulerEvent>, d: Movement)
    requires
        s.wf(),
        s.active(d),
        pending_timed(s),
        forall|i: int| 0 <= i < events.len() ==> timed(#[trigger] events[i]),
    ensures
        run(s, events).state.active(d) || run(s, events).trace.contains(GamepadAction::Release(d)),
    decreases events.len(),
{
    if events.len() > 0 {
        let first = turn(s, events[0]);
        let rest = run(first.state, events.skip(1));
        lemma_turn_keeps_or_releases(s, events[0], d);
        if first.actions.contains(GamepadAction::Release(d)) {
            let k = choose|k: int|
                0 <= k < first.actions.len() && first.actions[k] == GamepadAction::Release(d);
            assert((first.actions + rest.trace)[k] == GamepadAction::Release(d));
        } else {
            assert forall|i: int| 0 <= i < events.skip(1).len() implies timed(
                #[trigger] events.skip(1)[i],
            ) by {
                assert(events.skip(1)[i] == events[i + 1]);
            }
            lemma_held_until_released(first.state, events.skip(1), d);
            if rest.trace.contains(GamepadAction::Release(d)) {
                let k = choose|k: int|
                    0 <= k < rest.trace.len() && rest.trace[k] == GamepadAction::Release(d);
                assert((first.actions + rest.trace)[first.actions.len() + k]
                    == GamepadAction::Release(d));
            }
        }
    }
}

} // verus!
