//! The input scheduler: it takes button-press packets and clock ticks, and
//! says which buttons to press and release, and when to pause.
//!
//! The scheduler touches no device. Each step hands back the actions to
//! perform, in order; whoever runs it performs them before the next step.

use crate::command::{Movement, MovementPacket, PacketView, MOVEMENT_COUNT};
use std::collections::VecDeque;
use vstd::prelude::*;

verus! {

/// The time between two ticks, in milliseconds.
pub const TICK_MS: u64 = 100;

/// The pause that ends a blocking packet, in milliseconds.
pub const BLOCKING_REST_MS: u64 = 50;

/// Something to do with the gamepad.
#[derive(Copy, Clone, Debug, PartialEq, Eq, Structural)]
pub enum GamepadAction {
    Press(Movement),
    Release(Movement),
    /// Do nothing for that many milliseconds.
    Sleep(u64),
}

/// A gamepad's failure to press or release a button.
#[derive(Clone, Debug)]
pub struct GamepadError {
    pub message: String,
}

/// A device on which buttons can be pressed and released.
pub trait Gamepad {
    fn press(&mut self, movement: Movement) -> Result<(), GamepadError>;

    fn release(&mut self, movement: Movement) -> Result<(), GamepadError>;
}

/// How long an action has its performer wait.
pub open spec fn wait_of(action: GamepadAction) -> u64 {
    match action {
        GamepadAction::Sleep(ms) => ms,
        _ => 0,
    }
}

/// Performs a press or a release on a gamepad, and says how many
/// milliseconds to wait before the next action. A pause touches no gamepad
/// and cannot fail.
pub fn perform<G: Gamepad>(gamepad: &mut G, action: GamepadAction) -> (r: Result<u64, GamepadError>)
    ensures
        r is Ok ==> r->Ok_0 == wait_of(action),
        action is Sleep ==> r is Ok,
{
    match action {
        GamepadAction::Press(m) => {
            match gamepad.press(m) {
                Ok(_) => Ok(0),
                Err(e) => Err(e),
            }
        },
        GamepadAction::Release(m) => {
            match gamepad.release(m) {
                Ok(_) => Ok(0),
                Err(e) => Err(e),
            }
        },
        GamepadAction::Sleep(ms) => Ok(ms),
    }
}

/// What the scheduler keeps in mind between steps.
#[derive(Clone, Debug)]
pub struct RunnerState {
    /// The time between two ticks, in milliseconds.
    pub update_interval_ms: u64,
    /// For each button, in the order of the enum, the milliseconds for
    /// which it is still held. A button is active while this is not 0.
    pub movement_time_remaining: Vec<u64>,
    /// The packet to press at the next tick, once what it interrupted has
    /// been released.
    pub apply_next_tick: Option<MovementPacket>,
    /// The packets that wait for their turn, first come first.
    pub packet_queue: VecDeque<MovementPacket>,
    /// Whether no more packets will come.
    pub draining: bool,
}

/// The scheduler's state as a mathematical value.
pub struct SchedulerView {
    pub interval: u64,
    pub remaining: Seq<u64>,
    pub pending: Option<PacketView>,
    pub queue: Seq<PacketView>,
    pub draining: bool,
}

impl View for RunnerState {
    type V = SchedulerView;

    open spec fn view(&self) -> SchedulerView {
        SchedulerView {
            interval: self.update_interval_ms,
            remaining: self.movement_time_remaining@,
            pending: self.apply_next_tick.deep_view(),
            queue: self.packet_queue.deep_view(),
            draining: self.draining,
        }
    }
}

/// New times and the actions that led to them.
pub struct Effect {
    pub remaining: Seq<u64>,
    pub actions: Seq<GamepadAction>,
}

/// What a packet leads to.
pub struct PacketStep {
    pub state: SchedulerView,
    pub actions: Seq<GamepadAction>,
    /// Whether the packet was taken; one that was not waits in the queue.
    pub accepted: bool,
}

/// What a message or a tick leads to.
pub struct Turn {
    pub state: SchedulerView,
    pub actions: Seq<GamepadAction>,
    /// Whether the scheduler is done: no more packets will come, none
    /// waits, and no button is held.
    pub done: bool,
}

impl SchedulerView {
    /// There is a time for each button.
    pub open spec fn wf(self) -> bool {
        self.remaining.len() == MOVEMENT_COUNT
    }

    /// Whether the button is held.
    pub open spec fn active(self, m: Movement) -> bool {
        self.remaining[m.index()] > 0
    }

    /// No button is held.
    pub open spec fn idle(self) -> bool {
        all_released(self.remaining)
    }

    /// The state in which a scheduler starts.
    pub open spec fn fresh(interval: u64) -> SchedulerView {
        SchedulerView {
            interval,
            remaining: Seq::new(MOVEMENT_COUNT as nat, |i: int| 0u64),
            pending: None,
            queue: Seq::empty(),
            draining: false,
        }
    }
}

/// Whether every time is 0: no button is held.
pub open spec fn all_released(remaining: Seq<u64>) -> bool {
    forall|i: int| 0 <= i < remaining.len() ==> #[trigger] remaining[i] == 0
}

/// The six buttons that are released when a packet with a direction comes.
pub open spec fn directionals() -> Seq<Movement> {
    seq![
        Movement::Up,
        Movement::Down,
        Movement::Left,
        Movement::Right,
        Movement::Start,
        Movement::Select,
    ]
}

/// Each of the buttons that is active is released, in the order given.
pub open spec fn cancel_all(remaining: Seq<u64>, buttons: Seq<Movement>) -> Effect
    decreases buttons.len(),
{
    if buttons.len() == 0 {
        Effect { remaining, actions: Seq::empty() }
    } else {
        let before = cancel_all(remaining, buttons.drop_last());
        let m = buttons.last();
        if before.remaining[m.index()] > 0 {
            Effect {
                remaining: before.remaining.update(m.index(), 0),
                actions: before.actions.push(GamepadAction::Release(m)),
            }
        } else {
            before
        }
    }
}

/// Each of the buttons is pressed, in the order given, and held for
/// `duration`.
pub open spec fn press_all(remaining: Seq<u64>, buttons: Seq<Movement>, duration: u64) -> Effect
    decreases buttons.len(),
{
    if buttons.len() == 0 {
        Effect { remaining, actions: Seq::empty() }
    } else {
        let before = press_all(remaining, buttons.drop_last(), duration);
        let m = buttons.last();
        Effect {
            remaining: before.remaining.update(m.index(), duration),
            actions: before.actions.push(GamepadAction::Press(m)),
        }
    }
}

/// A tick passes for the first `n` buttons: each active one is held for
/// `interval` less, and released where nothing is left.
pub open spec fn decay(remaining: Seq<u64>, interval: u64, n: int) -> Effect
    decreases n,
{
    if n <= 0 {
        Effect { remaining, actions: Seq::empty() }
    } else {
        let before = decay(remaining, interval, n - 1);
        let held = before.remaining[n - 1];
        if held == 0 {
            before
        } else if held > interval {
            Effect {
                remaining: before.remaining.update(n - 1, (held - interval) as u64),
                actions: before.actions,
            }
        } else {
            Effect {
                remaining: before.remaining.update(n - 1, 0),
                actions: before.actions.push(GamepadAction::Release(Movement::at(n - 1))),
            }
        }
    }
}

/// A pause of `ms`, unless `ms` is 0.
pub open spec fn pause(ms: u64) -> Seq<GamepadAction> {
    if ms != 0 {
        seq![GamepadAction::Sleep(ms)]
    } else {
        Seq::empty()
    }
}

/// The presses of a blocking packet: each button in order, with a pause of
/// `stagger` after each.
pub open spec fn staggered_presses(buttons: Seq<Movement>, stagger: u64) -> Seq<GamepadAction>
    decreases buttons.len(),
{
    if buttons.len() == 0 {
        Seq::empty()
    } else {
        staggered_presses(buttons.drop_last(), stagger).push(
            GamepadAction::Press(buttons.last()),
        ) + pause(stagger)
    }
}

/// The releases of a blocking packet: each button in reverse order, with a
/// pause of `stagger` after each.
pub open spec fn staggered_releases(buttons: Seq<Movement>, stagger: u64) -> Seq<GamepadAction>
    decreases buttons.len(),
{
    if buttons.len() == 0 {
        Seq::empty()
    } else {
        seq![GamepadAction::Release(buttons.last())] + pause(stagger) + staggered_releases(
            buttons.drop_last(),
            stagger,
        )
    }
}

/// What a blocking packet has the gamepad do from start to end: press each
/// button, hold, release each in reverse order, rest.
pub open spec fn blocking_sequence(p: PacketView) -> Seq<GamepadAction> {
    staggered_presses(p.movements, p.stagger) + seq![GamepadAction::Sleep(p.duration)]
        + staggered_releases(p.movements, p.stagger) + seq![GamepadAction::Sleep(BLOCKING_REST_MS)]
}

/// Whether none of the packet's buttons is active.
pub open spec fn can_run(remaining: Seq<u64>, p: PacketView) -> bool {
    forall|i: int| 0 <= i < p.movements.len() ==> remaining[(#[trigger] p.movements[i]).index()] == 0
}

/// What a packet leads to. `ticking` says that the packet comes from the
/// queue, during a tick.
///
/// A blocking packet is taken only while no button is held, and then runs
/// from start to end. Another packet waits while others wait before it. A
/// packet with a direction has the active directional buttons and its own
/// active buttons released; if any was, the packet is pressed at the next
/// tick, else at once. A packet without a direction is pressed at once if
/// none of its buttons is active, and waits otherwise.
pub open spec fn packet_step(s: SchedulerView, p: PacketView, ticking: bool) -> PacketStep {
    if p.blocking {
        if s.idle() {
            PacketStep { state: s, actions: blocking_sequence(p), accepted: true }
        } else {
            PacketStep { state: s, actions: Seq::empty(), accepted: false }
        }
    } else if !ticking && s.queue.len() > 0 {
        PacketStep { state: s, actions: Seq::empty(), accepted: false }
    } else if p.contains_direction() {
        let cancelled = cancel_all(s.remaining, directionals() + p.movements);
        if cancelled.actions.len() > 0 {
            PacketStep {
                state: SchedulerView { remaining: cancelled.remaining, pending: Some(p), ..s },
                actions: cancelled.actions,
                accepted: true,
            }
        } else {
            let pressed = press_all(s.remaining, p.movements, p.duration);
            PacketStep {
                state: SchedulerView { remaining: pressed.remaining, ..s },
                actions: pressed.actions,
                accepted: true,
            }
        }
    } else if can_run(s.remaining, p) {
        let pressed = press_all(s.remaining, p.movements, p.duration);
        PacketStep {
            state: SchedulerView { remaining: pressed.remaining, ..s },
            actions: pressed.actions,
            accepted: true,
        }
    } else {
        PacketStep { state: s, actions: Seq::empty(), accepted: false }
    }
}

/// What a message leads to: a packet that is not taken joins the queue, and
/// the news that no more will come is kept in mind.
pub open spec fn message_step(s: SchedulerView, msg: Option<PacketView>) -> Turn {
    match msg {
        None => Turn {
            state: SchedulerView { draining: true, ..s },
            actions: Seq::empty(),
            done: false,
        },
        Some(p) => {
            let step = packet_step(s, p, false);
            Turn {
                state: if step.accepted {
                    step.state
                } else {
                    SchedulerView { queue: s.queue.push(p), ..s }
                },
                actions: step.actions,
                done: false,
            }
        },
    }
}

/// The packets that wait are taken from the front until one is not taken;
/// that one stays first.
pub open spec fn drain(s: SchedulerView, queue: Seq<PacketView>) -> PacketStep
    decreases queue.len(),
{
    if queue.len() == 0 {
        PacketStep { state: SchedulerView { queue, ..s }, actions: Seq::empty(), accepted: true }
    } else {
        let first = packet_step(SchedulerView { queue: queue.skip(1), ..s }, queue[0], true);
        if first.accepted {
            let rest = drain(first.state, queue.skip(1));
            PacketStep { actions: first.actions + rest.actions, ..rest }
        } else {
            PacketStep {
                state: SchedulerView { queue, ..s },
                actions: Seq::empty(),
                accepted: false,
            }
        }
    }
}

/// What a tick leads to. The time of each active button runs down, and a
/// button whose time is up is released. A packet that was put off to this
/// tick is pressed. If no button was active once the time had run down, the
/// packets that wait get their turn.
pub open spec fn tick_step(s: SchedulerView) -> Turn {
    let decayed = decay(s.remaining, s.interval, MOVEMENT_COUNT as int);
    let pressed = match s.pending {
        Some(p) => press_all(decayed.remaining, p.movements, p.duration),
        None => Effect { remaining: decayed.remaining, actions: Seq::empty() },
    };
    let before_queue = SchedulerView { remaining: pressed.remaining, pending: None, ..s };
    let drained = if all_released(decayed.remaining) {
        drain(before_queue, s.queue)
    } else {
        PacketStep { state: before_queue, actions: Seq::empty(), accepted: true }
    };
    Turn {
        state: drained.state,
        actions: decayed.actions + pressed.actions + drained.actions,
        done: drained.state.draining && drained.state.idle() && drained.state.queue.len() == 0,
    }
}

/// Something that happens to the scheduler, as a mathematical value.
pub enum SchedulerEvent {
    /// A packet comes, or the news that no more will.
    Message(Option<PacketView>),
    Tick,
}

/// What an event leads to.
pub open spec fn turn(s: SchedulerView, e: SchedulerEvent) -> Turn {
    match e {
        SchedulerEvent::Message(msg) => message_step(s, msg),
        SchedulerEvent::Tick => tick_step(s),
    }
}

/// Where a run of events ends, and all that it had the gamepad do.
pub struct Run {
    pub state: SchedulerView,
    pub trace: Seq<GamepadAction>,
}

/// A run of events from a state: each event's turn starts where the turn
/// before it ended.
pub open spec fn run(s: SchedulerView, events: Seq<SchedulerEvent>) -> Run
    decreases events.len(),
{
    if events.len() == 0 {
        Run { state: s, trace: Seq::empty() }
    } else {
        let first = turn(s, events[0]);
        let rest = run(first.state, events.skip(1));
        Run { state: rest.state, trace: first.actions + rest.trace }
    }
}

/// Something that happens to the scheduler: a packet comes, or the news
/// that no more will, or the clock ticks.
#[derive(Clone, Debug, PartialEq, Eq)]
pub enum RunnerEvent {
    Message(Option<MovementPacket>),
    Tick,
}

impl DeepView for RunnerEvent {
    type V = SchedulerEvent;

    open spec fn deep_view(&self) -> SchedulerEvent {
        match self {
            RunnerEvent::Message(msg) => SchedulerEvent::Message(msg.deep_view()),
            RunnerEvent::Tick => SchedulerEvent::Tick,
        }
    }
}

/// Releasing one list of buttons and then another is releasing the two
/// lists in a row.
pub proof fn lemma_cancel_all_concat(remaining: Seq<u64>, a: Seq<Movement>, b: Seq<Movement>)
    ensures
        cancel_all(remaining, a + b).remaining == cancel_all(
            cancel_all(remaining, a).remaining,
            b,
        ).remaining,
        cancel_all(remaining, a + b).actions == cancel_all(remaining, a).actions + cancel_all(
            cancel_all(remaining, a).remaining,
            b,
        ).actions,
    decreases b.len(),
{
    let first = cancel_all(remaining, a);
    if b.len() == 0 {
        assert(a + b =~= a);
        assert(first.actions + Seq::<GamepadAction>::empty() =~= first.actions);
    } else {
        lemma_cancel_all_concat(remaining, a, b.drop_last());
        assert((a + b).drop_last() =~= a + b.drop_last());
        assert((a + b).last() == b.last());
        let second_before = cancel_all(first.remaining, b.drop_last());
        let m = b.last();
        if second_before.remaining[m.index()] > 0 {
            assert((first.actions + second_before.actions).push(GamepadAction::Release(m))
                =~= first.actions + second_before.actions.push(GamepadAction::Release(m)));
        }
    }
}

/// Where no button was released, the times are as they were.
pub proof fn lemma_cancel_none(remaining: Seq<u64>, buttons: Seq<Movement>)
    requires
        cancel_all(remaining, buttons).actions.len() == 0,
    ensures
        cancel_all(remaining, buttons).remaining == remaining,
    decreases buttons.len(),
{
    if buttons.len() > 0 {
        let before = cancel_all(remaining, buttons.drop_last());
        if before.remaining[buttons.last().index()] > 0 {
            assert(cancel_all(remaining, buttons).actions.len() == before.actions.len() + 1);
        }
        lemma_cancel_none(remaining, buttons.drop_last());
    }
}

/// Releasing buttons leaves as many times as there were.
pub proof fn lemma_cancel_all_len(remaining: Seq<u64>, buttons: Seq<Movement>)
    requires
        remaining.len() == MOVEMENT_COUNT,
    ensures
        cancel_all(remaining, buttons).remaining.len() == remaining.len(),
    decreases buttons.len(),
{
    if buttons.len() > 0 {
        lemma_cancel_all_len(remaining, buttons.drop_last());
    }
}

proof fn lemma_press_all_len(remaining: Seq<u64>, buttons: Seq<Movement>, duration: u64)
    requires
        remaining.len() == MOVEMENT_COUNT,
    ensures
        press_all(remaining, buttons, duration).remaining.len() == remaining.len(),
    decreases buttons.len(),
{
    if buttons.len() > 0 {
        lemma_press_all_len(remaining, buttons.drop_last(), duration);
    }
}

/// A packet leaves the queue, the tick length and the news of the end as
/// they are, and the times as many as they were.
pub proof fn lemma_packet_step_keeps(s: SchedulerView, p: PacketView, ticking: bool)
    requires
        s.wf(),
    ensures
        packet_step(s, p, ticking).state.wf(),
        packet_step(s, p, ticking).state.queue == s.queue,
        packet_step(s, p, ticking).state.interval == s.interval,
        packet_step(s, p, ticking).state.draining == s.draining,
        !packet_step(s, p, ticking).accepted ==> packet_step(s, p, ticking).state == s
            && packet_step(s, p, ticking).actions.len() == 0,
{
    lemma_cancel_all_len(s.remaining, directionals() + p.movements);
    lemma_press_all_len(s.remaining, p.movements, p.duration);
}

fn cancel_each(remaining: &mut Vec<u64>, buttons: &Vec<Movement>, out: &mut Vec<GamepadAction>) -> (any:
    bool)
    requires
        old(remaining)@.len() == MOVEMENT_COUNT,
    ensures
        final(remaining)@ == cancel_all(old(remaining)@, buttons@).remaining,
        final(out)@ == old(out)@ + cancel_all(old(remaining)@, buttons@).actions,
        any == (cancel_all(old(remaining)@, buttons@).actions.len() > 0),
        final(remaining)@.len() == MOVEMENT_COUNT,
{
    let ghost start = remaining@;
    let ghost base = out@;
    let mut any: bool = false;
    let mut i: usize = 0;
    assert(buttons@.subrange(0, 0) =~= Seq::<Movement>::empty());
    assert(out@ =~= base + cancel_all(start, buttons@.subrange(0, 0)).actions);
    while i < buttons.len()
        invariant
            i <= buttons@.len(),
            remaining@.len() == MOVEMENT_COUNT,
            remaining@ == cancel_all(start, buttons@.subrange(0, i as int)).remaining,
            out@ == base + cancel_all(start, buttons@.subrange(0, i as int)).actions,
            any == (cancel_all(start, buttons@.subrange(0, i as int)).actions.len() > 0),
        decreases buttons@.len() - i,
    {
        let ghost before = buttons@.subrange(0, i as int);
        let ghost after = buttons@.subrange(0, i + 1);
        assert(after.drop_last() =~= before);
        assert(after.last() == buttons@[i as int]);
        let m: Movement = buttons[i];
        let idx: usize = m.to_index();
        if remaining[idx] > 0 {
            remaining.set(idx, 0);
            out.push(GamepadAction::Release(m));
            any = true;
            assert(out@ =~= base + cancel_all(start, after).actions);
        }
        i = i + 1;
    }
    assert(buttons@.subrange(0, i as int) =~= buttons@);
    any
}

fn press_each(
    remaining: &mut Vec<u64>,
    buttons: &Vec<Movement>,
    duration: u64,
    out: &mut Vec<GamepadAction>,
)
    requires
        old(remaining)@.len() == MOVEMENT_COUNT,
    ensures
        final(remaining)@ == press_all(old(remaining)@, buttons@, duration).remaining,
        final(out)@ == old(out)@ + press_all(old(remaining)@, buttons@, duration).actions,
        final(remaining)@.len() == MOVEMENT_COUNT,
{
    let ghost start = remaining@;
    let ghost base = out@;
    let mut i: usize = 0;
    assert(buttons@.subrange(0, 0) =~= Seq::<Movement>::empty());
    assert(out@ =~= base + press_all(start, buttons@.subrange(0, 0), duration).actions);
    while i < buttons.len()
        invariant
            i <= buttons@.len(),
            remaining@.len() == MOVEMENT_COUNT,
            remaining@ == press_all(start, buttons@.subrange(0, i as int), duration).remaining,
            out@ == base + press_all(start, buttons@.subrange(0, i as int), duration).actions,
        decreases buttons@.len() - i,
    {
        let ghost before = buttons@.subrange(0, i as int);
        let ghost after = buttons@.subrange(0, i + 1);
        assert(after.drop_last() =~= before);
        assert(after.last() == buttons@[i as int]);
        let m: Movement = buttons[i];
        out.push(GamepadAction::Press(m));
        remaining.set(m.to_index(), duration);
        assert(out@ =~= base + press_all(start, after, duration).actions);
        i = i + 1;
    }
    assert(buttons@.subrange(0, i as int) =~= buttons@);
}

fn six_directionals() -> (r: Vec<Movement>)
    ensures
        r@ == directionals(),
{
    let mut r: Vec<Movement> = Vec::new();
    r.push(Movement::Up);
    r.push(Movement::Down);
    r.push(Movement::Left);
    r.push(Movement::Right);
    r.push(Movement::Start);
    r.push(Movement::Select);
    assert(r@ =~= directionals());
    r
}

/// What a blocking packet has the gamepad do from start to end.
pub fn blocking_movement(packet: &MovementPacket) -> (r: Vec<GamepadAction>)
    ensures
        r@ == blocking_sequence(packet@),
{
    let ghost buttons = packet.movements@;
    let stagger: u64 = packet.stagger;
    let n: usize = packet.movements.len();
    let mut out: Vec<GamepadAction> = Vec::new();
    let mut i: usize = 0;
    assert(buttons.subrange(0, 0) =~= Seq::<Movement>::empty());
    while i < n
        invariant
            i <= n,
            n == buttons.len(),
            buttons == packet.movements@,
            stagger == packet.stagger,
            out@ == staggered_presses(buttons.subrange(0, i as int), stagger),
        decreases n - i,
    {
        let ghost before = buttons.subrange(0, i as int);
        let ghost after = buttons.subrange(0, i + 1);
        assert(after.drop_last() =~= before);
        assert(after.last() == buttons[i as int]);
        out.push(GamepadAction::Press(packet.movements[i]));
        if stagger != 0 {
            out.push(GamepadAction::Sleep(stagger));
        }
        assert(out@ =~= staggered_presses(after, stagger));
        i = i + 1;
    }
    assert(buttons.subrange(0, n as int) =~= buttons);
    out.push(GamepadAction::Sleep(packet.duration));
    let ghost held = out@;
    let mut j: usize = n;
    assert(held + staggered_releases(buttons, stagger) =~= held + staggered_releases(
        buttons.subrange(0, n as int),
        stagger,
    ));
    while j > 0
        invariant
            j <= n,
            n == buttons.len(),
            buttons == packet.movements@,
            stagger == packet.stagger,
            out@ + staggered_releases(buttons.subrange(0, j as int), stagger) == held
                + staggered_releases(buttons, stagger),
        decreases j,
    {
        let ghost longer = buttons.subrange(0, j as int);
        let ghost shorter = buttons.subrange(0, j - 1);
        assert(longer.drop_last() =~= shorter);
        assert(longer.last() == buttons[j - 1]);
        let ghost previous = out@;
        j = j - 1;
        out.push(GamepadAction::Release(packet.movements[j]));
        if stagger != 0 {
            out.push(GamepadAction::Sleep(stagger));
        }
        assert(out@ =~= previous + (seq![GamepadAction::Release(buttons[j as int])] + pause(
            stagger,
        )));
        assert(out@ + staggered_releases(shorter, stagger) =~= previous + staggered_releases(
            longer,
            stagger,
        ));
    }
    assert(buttons.subrange(0, 0) =~= Seq::<Movement>::empty());
    assert(out@ + Seq::<GamepadAction>::empty() =~= out@);
    out.push(GamepadAction::Sleep(BLOCKING_REST_MS));
    assert(out@ =~= blocking_sequence(packet@));
    out
}

impl RunnerState {
    /// There is a time for each button.
    pub open spec fn wf(&self) -> bool {
        self@.wf()
    }

    /// A scheduler that holds no button and no packet.
    pub fn new(update_interval_ms: u64) -> (r: RunnerState)
        ensures
            r.wf(),
            r@ == SchedulerView::fresh(update_interval_ms),
    {
        let mut remaining: Vec<u64> = Vec::new();
        let mut i: usize = 0;
        while i < MOVEMENT_COUNT
            invariant
                i <= MOVEMENT_COUNT,
                remaining@.len() == i,
                forall|j: int| 0 <= j < i ==> remaining@[j] == 0,
            decreases MOVEMENT_COUNT - i,
        {
            remaining.push(0);
            i = i + 1;
        }
        let r = RunnerState {
            update_interval_ms,
            movement_time_remaining: remaining,
            apply_next_tick: None,
            packet_queue: VecDeque::new(),
            draining: false,
        };
        assert(r@.remaining =~= SchedulerView::fresh(update_interval_ms).remaining);
        assert(r@.queue =~= SchedulerView::fresh(update_interval_ms).queue);
        r
    }

    /// Whether no button is held.
    pub fn time_remaining_empty(&self) -> (r: bool)
        ensures
            r == self@.idle(),
    {
        let mut i: usize = 0;
        while i < self.movement_time_remaining.len()
            invariant
                i <= self.movement_time_remaining@.len(),
                forall|j: int| 0 <= j < i ==> self.movement_time_remaining@[j] == 0,
            decreases self.movement_time_remaining@.len() - i,
        {
            if self.movement_time_remaining[i] != 0 {
                return false;
            }
            i = i + 1;
        }
        true
    }

    /// Whether none of the packet's buttons is active.
    pub fn packet_can_run(&self, packet: &MovementPacket) -> (r: bool)
        requires
            self.wf(),
        ensures
            r == can_run(self@.remaining, packet@),
    {
        let mut i: usize = 0;
        while i < packet.movements.len()
            invariant
                self.wf(),
                i <= packet.movements@.len(),
                forall|j: int|
                    0 <= j < i ==> self@.remaining[(#[trigger] packet@.movements[j]).index()] == 0,
            decreases packet.movements@.len() - i,
        {
            if self.movement_time_remaining[packet.movements[i].to_index()] != 0 {
                assert(self@.remaining[packet@.movements[i as int].index()] != 0);
                return false;
            }
            i = i + 1;
        }
        true
    }

    /// Takes a packet, or leaves it to wait. The actions that it leads to
    /// are put at the end of `out`.
    pub fn process_packet(
        &mut self,
        packet: &MovementPacket,
        ticking: bool,
        out: &mut Vec<GamepadAction>,
    ) -> (accepted: bool)
        requires
            old(self).wf(),
        ensures
            final(self).wf(),
            final(self)@ == packet_step(old(self)@, packet@, ticking).state,
            final(out)@ == old(out)@ + packet_step(old(self)@, packet@, ticking).actions,
            accepted == packet_step(old(self)@, packet@, ticking).accepted,
    {
        let ghost s = self@;
        let ghost base = out@;
        proof {
            lemma_packet_step_keeps(s, packet@, ticking);
            assert(base + Seq::<GamepadAction>::empty() =~= base);
        }
        if packet.blocking {
            if self.time_remaining_empty() {
                let mut steps: Vec<GamepadAction> = blocking_movement(packet);
                out.append(&mut steps);
                return true;
            } else {
                return false;
            }
        }
        if !ticking && self.packet_queue.len() > 0 {
            assert(s.queue.len() > 0);
            return false;
        }
        assert(ticking || s.queue.len() == 0);
        let contains_direction: bool = packet.contains_direction();
        if contains_direction {
            let six: Vec<Movement> = six_directionals();
            let first: bool = cancel_each(&mut self.movement_time_remaining, &six, out);
            let second: bool = cancel_each(
                &mut self.movement_time_remaining,
                &packet.movements,
                out,
            );
            proof {
                lemma_cancel_all_concat(s.remaining, directionals(), packet@.movements);
                let one = cancel_all(s.remaining, directionals());
                let two = cancel_all(one.remaining, packet@.movements);
                assert(out@ =~= base + (one.actions + two.actions));
            }
            if first || second {
                self.apply_next_tick = Some(packet.duplicate());
                return true;
            }
            proof {
                lemma_cancel_none(s.remaining, directionals() + packet@.movements);
            }
        }
        if contains_direction || self.packet_can_run(packet) {
            press_each(
                &mut self.movement_time_remaining,
                &packet.movements,
                packet.duration,
                out,
            );
            return true;
        }
        false
    }

    /// Takes a packet from the chat side, or the news that no more will
    /// come, and says what to do with the gamepad.
    pub fn process_message(&mut self, msg: Option<MovementPacket>) -> (out: Vec<GamepadAction>)
        requires
            old(self).wf(),
        ensures
            final(self).wf(),
            final(self)@ == message_step(old(self)@, msg.deep_view()).state,
            out@ == message_step(old(self)@, msg.deep_view()).actions,
    {
        let mut out: Vec<GamepadAction> = Vec::new();
        match msg {
            None => {
                self.draining = true;
            },
            Some(packet) => {
                let ghost s = self@;
                proof {
                    lemma_packet_step_keeps(s, packet@, false);
                }
                let accepted: bool = self.process_packet(&packet, false, &mut out);
                assert(out@ =~= packet_step(s, packet@, false).actions);
                if !accepted {
                    self.packet_queue.push_back(packet);
                    assert(self@.queue =~= s.queue.push(packet@));
                }
            },
        }
        out
    }

    fn decay_all(&mut self, out: &mut Vec<GamepadAction>)
        requires
            old(self).wf(),
            old(out)@.len() == 0,
        ensures
            final(self).wf(),
            final(self)@ == (SchedulerView {
                remaining: decay(
                    old(self)@.remaining,
                    old(self)@.interval,
                    MOVEMENT_COUNT as int,
                ).remaining,
                ..old(self)@
            }),
            final(out)@ == decay(
                old(self)@.remaining,
                old(self)@.interval,
                MOVEMENT_COUNT as int,
            ).actions,
    {
        let ghost s = self@;
        let mut i: usize = 0;
        assert(out@ =~= decay(s.remaining, s.interval, 0).actions);
        while i < MOVEMENT_COUNT
            invariant
                i <= MOVEMENT_COUNT,
                self.wf(),
                self@ == (SchedulerView {
                    remaining: decay(s.remaining, s.interval, i as int).remaining,
                    ..s
                }),
                out@ == decay(s.remaining, s.interval, i as int).actions,
            decreases MOVEMENT_COUNT - i,
        {
            let held: u64 = self.movement_time_remaining[i];
            if held != 0 {
                if held > self.update_interval_ms {
                    self.movement_time_remaining.set(i, held - self.update_interval_ms);
                } else {
                    self.movement_time_remaining.set(i, 0);
                    out.push(GamepadAction::Release(Movement::from_index(i)));
                }
            }
            i = i + 1;
        }
    }

    /// Takes a tick and says what to do with the gamepad, and whether the
    /// scheduler is done.
    pub fn process_tick(&mut self) -> (r: (Vec<GamepadAction>, bool))
        requires
            old(self).wf(),
        ensures
            final(self).wf(),
            final(self)@ == tick_step(old(self)@).state,
            r.0@ == tick_step(old(self)@).actions,
            r.1 == tick_step(old(self)@).done,
    {
        let ghost s = self@;
        let mut out: Vec<GamepadAction> = Vec::new();
        self.decay_all(&mut out);
        let ghost decayed = decay(s.remaining, s.interval, MOVEMENT_COUNT as int);
        let all_zero: bool = self.time_remaining_empty();
        let pending: Option<MovementPacket> = self.apply_next_tick.take();
        match pending {
            Some(packet) => {
                press_each(
                    &mut self.movement_time_remaining,
                    &packet.movements,
                    packet.duration,
                    &mut out,
                );
            },
            None => {
                assert(out@ + Seq::<GamepadAction>::empty() =~= out@);
            },
        }
        let ghost before_queue = self@;
        let ghost pressed_actions = out@;
        let ghost total = if all_zero {
            drain(before_queue, s.queue)
        } else {
            PacketStep { state: before_queue, actions: Seq::empty(), accepted: true }
        };
        let mut going: bool = all_zero;
        assert(pressed_actions + Seq::<GamepadAction>::empty() =~= pressed_actions);
        while going && self.packet_queue.len() > 0
            invariant
                self.wf(),
                going ==> total.state == drain(self@, self@.queue).state,
                going ==> total.actions == out@.skip(pressed_actions.len() as int) + drain(
                    self@,
                    self@.queue,
                ).actions,
                !going ==> total.state == self@,
                !going ==> total.actions == out@.skip(pressed_actions.len() as int),
                out@.len() >= pressed_actions.len(),
                out@.subrange(0, pressed_actions.len() as int) == pressed_actions,
            decreases self@.queue.len() + (if going { 1int } else { 0int }),
        {
            let ghost here = self@;
            let ghost so_far = out@;
            match self.packet_queue.pop_front() {
                None => {
                    going = false;
                },
                Some(packet) => {
                    let ghost rest = here.queue.skip(1);
                    assert(self@.queue =~= rest);
                    assert(self@ == (SchedulerView { queue: rest, ..here }));
                    assert(packet@ == here.queue[0]);
                    proof {
                        lemma_packet_step_keeps(self@, packet@, true);
                    }
                    let ghost first = packet_step(self@, packet@, true);
                    if !self.process_packet(&packet, true, &mut out) {
                        let ghost left = self.packet_queue@;
                        assert(self@.queue == rest);
                        self.packet_queue.push_front(packet);
                        assert forall|k: int| 0 <= k < here.queue.len() implies self@.queue[k]
                            == here.queue[k] by {
                            if k > 0 {
                                assert(self.packet_queue@[k] == left[k - 1]);
                                assert(rest[k - 1] == left[k - 1].deep_view());
                            }
                        }
                        assert(self@.queue =~= here.queue);
                        assert(self@ == here);
                        assert(out@ =~= so_far);
                        going = false;
                    } else {
                        assert(self@ == first.state);
                        assert(self@.queue == rest);
                        assert(out@.skip(pressed_actions.len() as int) =~= so_far.skip(
                            pressed_actions.len() as int,
                        ) + first.actions);
                        assert(out@.subrange(0, pressed_actions.len() as int) =~= so_far.subrange(
                            0,
                            pressed_actions.len() as int,
                        ));
                    }
                },
            }
        }
        proof {
            if going {
                assert(self@.queue.len() == 0);
                assert(drain(self@, self@.queue).state == self@);
                assert(out@.skip(pressed_actions.len() as int) + Seq::<GamepadAction>::empty()
                    =~= out@.skip(pressed_actions.len() as int));
            }
            assert(out@ =~= out@.subrange(0, pressed_actions.len() as int) + out@.skip(
                pressed_actions.len() as int,
            ));
        }
        let done: bool = self.draining && self.time_remaining_empty() && self.packet_queue.len()
            == 0;
        (out, done)
    }

    /// Takes events one after the other and says all that they have the
    /// gamepad do, in order.
    pub fn run(&mut self, events: Vec<RunnerEvent>) -> (trace: Vec<GamepadAction>)
        requires
            old(self).wf(),
        ensures
            final(self).wf(),
            final(self)@ == run(old(self)@, events.deep_view()).state,
            trace@ == run(old(self)@, events.deep_view()).trace,
    {
        let ghost start = self@;
        let ghost all = events.deep_view();
        let mut events = events;
        let mut trace: Vec<GamepadAction> = Vec::new();
        assert(trace@ + run(self@, all).trace =~= run(start, all).trace);
        while events.len() > 0
            invariant
                self.wf(),
                run(start, all).state == run(self@, events.deep_view()).state,
                run(start, all).trace == trace@ + run(self@, events.deep_view()).trace,
            decreases events@.len(),
        {
            let ghost here = self@;
            let ghost left = events.deep_view();
            let ghost before = trace@;
            let event: RunnerEvent = events.remove(0);
            assert(event.deep_view() == left[0]);
            assert(events.deep_view() =~= left.skip(1));
            let mut actions: Vec<GamepadAction> = match event {
                RunnerEvent::Message(msg) => self.process_message(msg),
                RunnerEvent::Tick => self.process_tick().0,
            };
            assert(actions@ == turn(here, left[0]).actions);
            trace.append(&mut actions);
            assert(trace@ + run(self@, left.skip(1)).trace =~= before + (turn(
                here,
                left[0],
            ).actions + run(self@, left.skip(1)).trace));
        }
        assert(trace@ + Seq::<GamepadAction>::empty() =~= trace@);
        trace
    }
}

} // verus!
