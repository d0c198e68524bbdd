//! The game process supervisor and the sound-effect dispatcher: what each
//! keeps in mind, and what it decides when something happens. Processes are
//! started and signalled by whoever runs these two.

use crate::config::{GameCommand, GameCommandView, SoundEffectConfig};
use crate::table::lookup;
use vstd::prelude::*;
use vstd::string::*;

verus! {

/// What the supervisor is asked to do.
#[derive(Clone, Debug, PartialEq, Eq)]
#[non_exhaustive]
pub enum GameRunner {
    SwitchTo(GameCommand),
    Stop,
}

/// A command for the supervisor as a mathematical value.
pub enum GameRunnerView {
    SwitchTo(GameCommandView),
    Stop,
}

impl DeepView for GameRunner {
    type V = GameRunnerView;

    open spec fn deep_view(&self) -> GameRunnerView {
        match self {
            GameRunner::SwitchTo(c) => GameRunnerView::SwitchTo(c.deep_view()),
            GameRunner::Stop => GameRunnerView::Stop,
        }
    }
}

/// A step that the supervisor has its runner take.
#[derive(Clone, Debug, PartialEq, Eq)]
pub enum SupervisorAction {
    /// Ask the child of this process id to end, and wait until it has.
    Terminate(i32),
    /// Kill the child, whose process id is not known, and wait until it is
    /// gone.
    Kill,
    /// Start a child. The runner reports it with `child_started`.
    Spawn(GameCommand),
    /// There is nothing more to come: leave.
    Finish,
}

/// A step of the supervisor as a mathematical value.
pub enum SupervisorActionView {
    Terminate(i32),
    Kill,
    Spawn(GameCommandView),
    Finish,
}

impl DeepView for SupervisorAction {
    type V = SupervisorActionView;

    open spec fn deep_view(&self) -> SupervisorActionView {
        match self {
            SupervisorAction::Terminate(p) => SupervisorActionView::Terminate(*p),
            SupervisorAction::Kill => SupervisorActionView::Kill,
            SupervisorAction::Spawn(c) => SupervisorActionView::Spawn(c.deep_view()),
            SupervisorAction::Finish => SupervisorActionView::Finish,
        }
    }
}

/// What the supervisor keeps in mind: whether a child runs, and the
/// child's process id, where 0 stands for none.
#[derive(Clone, Copy, Debug, PartialEq, Eq, Structural)]
pub struct Supervisor {
    pub running: bool,
    pub pid: i32,
}

/// The steps that end the child, where there is one.
pub open spec fn stop_steps(s: Supervisor) -> Seq<SupervisorActionView> {
    if !s.running {
        Seq::empty()
    } else if s.pid != 0 {
        seq![SupervisorActionView::Terminate(s.pid)]
    } else {
        seq![SupervisorActionView::Kill]
    }
}

/// The steps that a command asks for. A closed command channel is `None`.
pub open spec fn command_steps(s: Supervisor, cmd: Option<GameRunnerView>) -> Seq<
    SupervisorActionView,
> {
    match cmd {
        Some(GameRunnerView::Stop) => stop_steps(s),
        Some(GameRunnerView::SwitchTo(c)) => stop_steps(s).push(SupervisorActionView::Spawn(c)),
        None => stop_steps(s).push(SupervisorActionView::Finish),
    }
}

impl Supervisor {
    /// A supervisor without a child.
    pub fn new() -> (r: Supervisor)
        ensures
            r == (Supervisor { running: false, pid: 0 }),
    {
        Supervisor { running: false, pid: 0 }
    }

    /// The process id to signal should the program fail; 0 where no child
    /// runs.
    pub fn recorded_pid(&self) -> (r: i32)
        ensures
            r == self.pid,
    {
        self.pid
    }

    fn stop_child(&mut self, steps: &mut Vec<SupervisorAction>)
        ensures
            final(steps).deep_view() == old(steps).deep_view() + stop_steps(*old(self)),
            *final(self) == (Supervisor { running: false, pid: 0 }),
    {
        let ghost before = steps.deep_view();
        if self.running {
            if self.pid != 0 {
                steps.push(SupervisorAction::Terminate(self.pid));
            } else {
                steps.push(SupervisorAction::Kill);
            }
            assert(steps.deep_view() =~= before + stop_steps(*old(self)));
        } else {
            assert(steps.deep_view() =~= before + stop_steps(*old(self)));
        }
        self.running = false;
        self.pid = 0;
    }

    /// Takes a command, or the news that no more will come, and says what
    /// to do. Whatever the command, the child that ran is ended first, so
    /// that no two children ever run.
    pub fn on_command(&mut self, cmd: Option<GameRunner>) -> (steps: Vec<SupervisorAction>)
        ensures
            steps.deep_view() == command_steps(*old(self), cmd.deep_view()),
            *final(self) == (Supervisor { running: false, pid: 0 }),
    {
        let mut steps: Vec<SupervisorAction> = Vec::new();
        assert(steps.deep_view() =~= Seq::<SupervisorActionView>::empty());
        self.stop_child(&mut steps);
        let ghost stopped = steps.deep_view();
        assert(stopped =~= stop_steps(*old(self)));
        match cmd {
            Some(GameRunner::Stop) => {},
            Some(GameRunner::SwitchTo(command)) => {
                steps.push(SupervisorAction::Spawn(command));
                assert(steps.deep_view() =~= stopped.push(
                    SupervisorActionView::Spawn(command.deep_view()),
                ));
            },
            None => {
                steps.push(SupervisorAction::Finish);
                assert(steps.deep_view() =~= stopped.push(SupervisorActionView::Finish));
            },
        }
        steps
    }

    /// Takes the news that the child which `Spawn` asked for runs, with its
    /// process id where the system gave one.
    pub fn child_started(&mut self, pid: Option<i32>)
        requires
            !old(self).running,
        ensures
            *final(self) == (Supervisor {
                running: true,
                pid: match pid {
                    Some(p) => p,
                    None => 0,
                },
            }),
    {
        self.running = true;
        self.pid = match pid {
            Some(p) => p,
            None => 0,
        };
    }

    /// Takes the news that the child has ended by itself.
    pub fn child_exited(&mut self)
        ensures
            *final(self) == (Supervisor { running: false, pid: 0 }),
    {
        self.running = false;
        self.pid = 0;
    }
}

/// A child is started only after the child that ran was told to end: the
/// steps of a command hold at most one `Spawn`, it stands last, and where a
/// child ran a `Terminate` or `Kill` stands before it.
pub proof fn lemma_one_child(s: Supervisor, cmd: Option<GameRunnerView>)
    ensures
        forall|i: int|
            0 <= i < command_steps(s, cmd).len() && (#[trigger] command_steps(s, cmd)[i]) is Spawn
                ==> i == command_steps(s, cmd).len() - 1 && (s.running ==> i == 1 && (
            command_steps(s, cmd)[0] is Terminate || command_steps(s, cmd)[0] is Kill)),
{
}

/// What the sound-effect dispatcher is asked to do.
#[derive(Clone, Debug, PartialEq, Eq)]
pub enum SfxRequest {
    /// That many subscriptions were gifted at once.
    SubEvent(u64),
    /// Play the sound of this name.
    Named(String),
    /// Switch the sound effects on or off.
    Enable(bool),
}

/// A request for a sound effect as a mathematical value.
pub enum SfxRequestView {
    SubEvent(u64),
    Named(Seq<char>),
    Enable(bool),
}

impl DeepView for SfxRequest {
    type V = SfxRequestView;

    open spec fn deep_view(&self) -> SfxRequestView {
        match self {
            SfxRequest::SubEvent(n) => SfxRequestView::SubEvent(*n),
            SfxRequest::Named(s) => SfxRequestView::Named(s@),
            SfxRequest::Enable(b) => SfxRequestView::Enable(*b),
        }
    }
}

/// The entry with the greatest threshold that `count` reaches. Of two
/// entries with that threshold the later counts.
pub open spec fn reached(events: Seq<(u64, Seq<char>)>, count: u64) -> Option<(u64, Seq<char>)>
    decreases events.len(),
{
    if events.len() == 0 {
        None
    } else {
        let earlier = reached(events.drop_last(), count);
        let e = events.last();
        let no_less = match earlier {
            Some(found) => found.0 <= e.0,
            None => true,
        };
        if e.0 <= count && no_less {
            Some(e)
        } else {
            earlier
        }
    }
}

/// What `reached` finds is an entry whose threshold `count` reaches, and no
/// entry that `count` reaches has a greater threshold. Where it finds
/// nothing, `count` is below every threshold.
pub proof fn lemma_reached(events: Seq<(u64, Seq<char>)>, count: u64)
    ensures
        match reached(events, count) {
            Some(e) => e.0 <= count && events.contains(e) && forall|j: int|
                0 <= j < events.len() && (#[trigger] events[j]).0 <= count ==> events[j].0 <= e.0,
            None => forall|j: int| 0 <= j < events.len() ==> (#[trigger] events[j]).0 > count,
        },
    decreases events.len(),
{
    if events.len() > 0 {
        let shorter = events.drop_last();
        lemma_reached(shorter, count);
        let earlier = reached(shorter, count);
        let e = events.last();
        assert(events[events.len() - 1] == e);
        assert forall|j: int| 0 <= j < shorter.len() implies shorter[j] == events[j] by {}
        match reached(events, count) {
            Some(found) => {
                if reached(events, count) == earlier {
                    let k = choose|k: int| 0 <= k < shorter.len() && shorter[k] == found;
                    assert(events[k] == found);
                }
                assert forall|j: int|
                    0 <= j < events.len() && (#[trigger] events[j]).0 <= count implies events[j].0
                    <= found.0 by {
                    if j < shorter.len() {
                        assert(shorter[j] == events[j]);
                    }
                }
            },
            None => {
                assert forall|j: int| 0 <= j < events.len() implies (#[trigger] events[j]).0
                    > count by {
                    if j < shorter.len() {
                        assert(shorter[j] == events[j]);
                    }
                }
            },
        }
    }
}

/// The thresholds with their sounds' names as mathematical values.
pub open spec fn sub_event_rows(events: Seq<(u64, String)>) -> Seq<(u64, Seq<char>)> {
    Seq::new(events.len(), |i: int| (events[i].0, events[i].1@))
}

/// The file of the sound that a request asks for.
pub open spec fn sound_file(
    request: SfxRequestView,
    sounds: Seq<(Seq<char>, Seq<char>)>,
    events: Seq<(u64, Seq<char>)>,
) -> Option<Seq<char>> {
    match request {
        SfxRequestView::SubEvent(count) => match reached(events, count) {
            Some(e) => lookup(sounds, e.1),
            None => None,
        },
        SfxRequestView::Named(name) => lookup(sounds, name),
        SfxRequestView::Enable(_) => None,
    }
}

fn find_reached(events: &Vec<(u64, String)>, count: u64) -> (r: Option<usize>)
    ensures
        match r {
            Some(i) => i < events@.len() && reached(sub_event_rows(events@), count) == Some(
                sub_event_rows(events@)[i as int],
            ),
            None => reached(sub_event_rows(events@), count) is None,
        },
{
    let ghost rows = sub_event_rows(events@);
    let mut best: Option<usize> = None;
    let mut i: usize = 0;
    assert(rows.subrange(0, 0) =~= Seq::<(u64, Seq<char>)>::empty());
    while i < events.len()
        invariant
            i <= events@.len(),
            rows == sub_event_rows(events@),
            match best {
                Some(b) => b < i && reached(rows.subrange(0, i as int), count) == Some(
                    rows[b as int],
                ),
                None => reached(rows.subrange(0, i as int), count) is None,
            },
        decreases events@.len() - i,
    {
        let ghost before = rows.subrange(0, i as int);
        let ghost after = rows.subrange(0, i + 1);
        assert(after.drop_last() =~= before);
        assert(after.last() == rows[i as int]);
        let threshold: u64 = events[i].0;
        let better: bool = match best {
            Some(b) => events[b].0 <= threshold,
            None => true,
        };
        if threshold <= count && better {
            best = Some(i);
        }
        i = i + 1;
    }
    assert(rows.subrange(0, i as int) =~= rows);
    best
}

impl SfxRequest {
    /// The file of the sound that this request asks for.
    pub fn to_file<'a>(&self, cfg: &'a SoundEffectConfig) -> (r: Option<&'a String>)
        requires
            cfg.sounds.wf(),
        ensures
            r.deep_view() == sound_file(
                self.deep_view(),
                cfg.sounds.rows(),
                sub_event_rows(cfg.sub_events@),
            ),
    {
        match self {
            SfxRequest::SubEvent(count) => {
                match find_reached(&cfg.sub_events, *count) {
                    Some(i) => {
                        match cfg.sounds.find(cfg.sub_events[i].1.as_str()) {
                            Some(j) => Some(cfg.sounds.value_at(j)),
                            None => None,
                        }
                    },
                    None => None,
                }
            },
            SfxRequest::Named(name) => {
                match cfg.sounds.find(name.as_str()) {
                    Some(j) => Some(cfg.sounds.value_at(j)),
                    None => None,
                }
            },
            SfxRequest::Enable(_) => None,
        }
    }
}

/// What the dispatcher keeps in mind: whether sound effects are on.
#[derive(Clone, Copy, Debug, PartialEq, Eq, Structural)]
pub struct SfxPlayer {
    pub is_enabled: bool,
}

/// The command line that plays a file: the player's command, the file, and
/// the switch that has it fill the screen.
pub open spec fn player_command(command: Seq<char>, file: Seq<char>) -> GameCommandView {
    GameCommandView { command, args: seq![file, "--fullscreen"@] }
}

/// The command line that a request has the dispatcher run.
pub open spec fn sfx_command(
    enabled: bool,
    request: SfxRequestView,
    command: Seq<char>,
    sounds: Seq<(Seq<char>, Seq<char>)>,
    events: Seq<(u64, Seq<char>)>,
) -> Option<GameCommandView> {
    match sound_file(request, sounds, events) {
        Some(file) => if enabled {
            Some(player_command(command, file))
        } else {
            None
        },
        None => None,
    }
}

impl SfxPlayer {
    /// A dispatcher with the sound effects on.
    pub fn new() -> (r: SfxPlayer)
        ensures
            r.is_enabled,
    {
        SfxPlayer { is_enabled: true }
    }

    /// Takes a request and says which command line to run, if any.
    /// `Enable` switches the effects on or off. A sound is played only
    /// while they are on and where the request finds a file.
    pub fn handle(&mut self, request: &SfxRequest, cfg: &SoundEffectConfig) -> (r: Option<
        GameCommand,
    >)
        requires
            cfg.sounds.wf(),
        ensures
            final(self).is_enabled == (match request {
                SfxRequest::Enable(on) => *on,
                _ => old(self).is_enabled,
            }),
            r.deep_view() == sfx_command(
                old(self).is_enabled,
                request.deep_view(),
                cfg.command@,
                cfg.sounds.rows(),
                sub_event_rows(cfg.sub_events@),
            ),
    {
        if let SfxRequest::Enable(on) = request {
            self.is_enabled = *on;
            return None;
        }
        match request.to_file(cfg) {
            Some(file) => {
                if !self.is_enabled {
                    return None;
                }
                let mut args: Vec<String> = Vec::new();
                args.push(file.clone());
                args.push("--fullscreen".to_owned());
                assert(args.deep_view() =~= seq![file@, "--fullscreen"@]);
                Some(GameCommand { command: cfg.command.clone(), args })
            },
            None => None,
        }
    }
}

} // verus!
