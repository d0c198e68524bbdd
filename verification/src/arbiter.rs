//! The moderation and mode arbiter: it takes each message in turn, keeps
//! the state store, and decides what is answered and what is sent on to the
//! gamepad scheduler, the game supervisor and the sound effects.

use crate::command::{
    AnarchyType, Command, CommandView, Instant, Message, Millis, Movement, MovementPacket,
    PacketView, PartialCommand, Privilege,
};
use crate::config::{ConstructedGameInfo, ConstructedGameInfoView};
use crate::database::{Database, DatabaseView};
use crate::game_runner::{GameRunner, GameRunnerView, SfxRequest, SfxRequestView};
use crate::table::{position, Table};
use crate::text::{int_text, joined, text_int};
use vstd::prelude::*;
use vstd::string::*;

verus! {

/// The setting that holds the mode.
pub open spec fn mode_key() -> Seq<char> {
    "anarchy_mode"@
}

/// The setting that holds the cooldown, in milliseconds.
pub open spec fn cooldown_key() -> Seq<char> {
    "cooldown"@
}

/// Something that the arbiter sends on.
#[derive(Clone, Debug, PartialEq, Eq)]
pub enum Forward {
    /// A packet for the gamepad scheduler.
    Gamepad(MovementPacket),
    /// A command for the game supervisor.
    Game(GameRunner),
    /// A request for the sound effects.
    Sfx(SfxRequest),
}

/// What is sent on, as a mathematical value.
pub enum ForwardView {
    Gamepad(PacketView),
    Game(GameRunnerView),
    Sfx(SfxRequestView),
}

impl DeepView for Forward {
    type V = ForwardView;

    open spec fn deep_view(&self) -> ForwardView {
        match self {
            Forward::Gamepad(p) => ForwardView::Gamepad(p@),
            Forward::Game(g) => ForwardView::Game(g.deep_view()),
            Forward::Sfx(s) => ForwardView::Sfx(s.deep_view()),
        }
    }
}

/// What the arbiter makes of a message: the answer to the sender, and what
/// is sent on, in order.
#[derive(Clone, Debug, PartialEq, Eq)]
pub struct Outcome {
    pub reply: Option<String>,
    pub forwards: Vec<Forward>,
}

/// A message as a mathematical value.
pub struct MessageView {
    pub command: CommandView,
    pub sender_id: Seq<char>,
    pub sender_name: Seq<char>,
    pub privilege: Privilege,
}

impl DeepView for Message {
    type V = MessageView;

    open spec fn deep_view(&self) -> MessageView {
        MessageView {
            command: self.command@,
            sender_id: self.sender_id@,
            sender_name: self.sender_name@,
            privilege: self.privilege,
        }
    }
}

/// What the arbiter keeps in mind between messages.
#[derive(Clone, Debug)]
pub struct Arbiter {
    pub anarchy_mode: AnarchyType,
    /// The time that a user without privilege waits between commands while
    /// the mode is Democracy; 0 for none.
    pub cooldown: Millis,
    /// The place of the running game in `games`.
    pub current_game: Option<usize>,
    /// The games that can be started, by name.
    pub games: Table<ConstructedGameInfo>,
    /// Whether there are sound effects to send requests to.
    pub has_sfx: bool,
}

/// The arbiter's state as a mathematical value.
pub struct ArbiterView {
    pub anarchy_mode: AnarchyType,
    pub cooldown: Millis,
    pub current_game: Option<usize>,
    pub games: Seq<(Seq<char>, ConstructedGameInfoView)>,
    pub has_sfx: bool,
}

impl View for Arbiter {
    type V = ArbiterView;

    open spec fn view(&self) -> ArbiterView {
        ArbiterView {
            anarchy_mode: self.anarchy_mode,
            cooldown: self.cooldown,
            current_game: self.current_game,
            games: self.games.rows(),
            has_sfx: self.has_sfx,
        }
    }
}

impl ArbiterView {
    /// The running game is one of the games.
    pub open spec fn wf(self) -> bool {
        match self.current_game {
            Some(i) => i < self.games.len(),
            None => true,
        }
    }
}

impl Arbiter {
    /// The games' table is well formed, and the running game is one of them.
    pub open spec fn wf(&self) -> bool {
        self.games.wf() && self@.wf()
    }
}

/// The state after a message, the answer, and what is sent on.
pub struct Step {
    pub arbiter: ArbiterView,
    pub db: DatabaseView,
    pub reply: Option<Seq<char>>,
    pub forwards: Seq<ForwardView>,
}

/// A step that changes nothing and sends nothing on.
pub open spec fn quiet(a: ArbiterView, db: DatabaseView, reply: Option<Seq<char>>) -> Step {
    Step { arbiter: a, db, reply, forwards: Seq::empty() }
}

/// The answer to a command above its sender's privilege.
pub open spec fn denied() -> Seq<char> {
    "You don't have permission to do that"@
}

/// The hint that is shown for a command whose arguments were not
/// understood.
pub open spec fn usage(hint: PartialCommand) -> Seq<char> {
    match hint {
        PartialCommand::AddOperator => "Usage: tp op <user>"@,
        PartialCommand::RemoveOperator => "Usage: tp deop <user>"@,
        PartialCommand::Block => "Usage: tp block <user> [optional: duration]"@,
        PartialCommand::Unblock => "Usage: tp unblock <user>"@,
        PartialCommand::Game => "Usage: tp game <game-name>"@,
        PartialCommand::List => "Usage: tp list games | blocked | ops"@,
        PartialCommand::SetCooldown => "Usage: tp cooldown <duration>"@,
        PartialCommand::SetAnarchyMode => "Usage: tp mode <anarchy | democracy | restricted | streaming>"@,
        PartialCommand::PlaySfx => "Usage: tp sfx <sound effect>"@,
    }
}

/// The commands that the help text lists for a privilege.
pub open spec fn help_entries(p: Privilege) -> Seq<Seq<char>> {
    seq!["Move with standard controller buttons (up, down, a, b, tl, tr, etc.)"@] + (if p.rank()
        >= 1 {
        seq!["tp save/load - save or load state"@, "tp reset - reset game"@]
    } else {
        Seq::empty()
    }) + (if p.rank() >= 2 {
        seq![
            "tp block/unblock - block or unblock a user"@,
            "tp op/deop - promote user to operator"@,
            "tp list - list games/ops/blocked users"@,
            "tp game - switch game"@,
            "tp mode - set anarchy mode"@,
            "tp cooldown - set command cooldown"@,
        ]
    } else {
        Seq::empty()
    }) + (if p.rank() >= 3 {
        seq!["tp sfx - play sound effects"@]
    } else {
        Seq::empty()
    })
}

/// A length of time in whole seconds, cut off towards zero.
pub open spec fn whole_seconds(d: Millis) -> i64 {
    if d >= 0 {
        (d / 1000) as i64
    } else {
        (-((-d) / 1000)) as i64
    }
}

/// The privilege that counts: an operator of the store is at least an
/// operator, whatever the transport vouches for.
pub open spec fn effective_privilege(db: DatabaseView, id: Seq<char>, asserted: Privilege) -> Privilege {
    if asserted.rank() < 1 && db.is_operator(id) {
        Privilege::Operator
    } else {
        asserted
    }
}

/// The key combination that saves, loads or resets: Mode and one more
/// button, pressed one after the other and held together, with nothing in
/// between.
pub open spec fn hotkey_packet(second: Movement) -> PacketView {
    PacketView {
        movements: seq![Movement::Mode, second],
        duration: 100,
        stagger: 100,
        blocking: true,
    }
}

/// The names of the games, in the order of the table.
pub open spec fn game_names(games: Seq<(Seq<char>, ConstructedGameInfoView)>) -> Seq<Seq<char>> {
    Seq::new(games.len(), |i: int| games[i].0)
}

/// A moderator sets the mode. Leaving Streaming switches the sound effects
/// off. Entering it forgets the running game, stops it, and switches the
/// sound effects on. The mode is written to the store.
pub open spec fn set_mode_step(a: ArbiterView, db: DatabaseView, p: Privilege, mode: AnarchyType) -> Step {
    if p.rank() >= 2 {
        let leaving = if a.anarchy_mode == AnarchyType::Streaming && mode != AnarchyType::Streaming
            && a.has_sfx {
            seq![ForwardView::Sfx(SfxRequestView::Enable(false))]
        } else {
            Seq::empty()
        };
        let entering = if mode == AnarchyType::Streaming {
            seq![ForwardView::Game(GameRunnerView::Stop)] + (if a.has_sfx {
                seq![ForwardView::Sfx(SfxRequestView::Enable(true))]
            } else {
                Seq::empty()
            })
        } else {
            Seq::empty()
        };
        Step {
            arbiter: ArbiterView {
                anarchy_mode: mode,
                current_game: if mode == AnarchyType::Streaming {
                    None
                } else {
                    a.current_game
                },
                ..a
            },
            db: db.with_kv(mode_key(), mode.name()),
            reply: Some("Set mode to "@ + mode.name()),
            forwards: leaving + entering,
        }
    } else {
        quiet(a, db, Some(denied()))
    }
}

/// A moderator sets the cooldown, which is written to the store in
/// milliseconds and answered in whole seconds.
pub open spec fn set_cooldown_step(a: ArbiterView, db: DatabaseView, p: Privilege, d: Millis) -> Step {
    if p.rank() >= 2 {
        Step {
            arbiter: ArbiterView { cooldown: d, ..a },
            db: db.with_kv(cooldown_key(), int_text(d)),
            reply: Some("Set cooldown to "@ + int_text(whole_seconds(d)) + " seconds"@),
            forwards: Seq::empty(),
        }
    } else {
        quiet(a, db, Some(denied()))
    }
}

/// Whether the running game keeps a button of the packet from the
/// audience.
pub open spec fn game_restricts(a: ArbiterView, packet: PacketView) -> bool {
    match a.current_game {
        Some(i) => a.games[i as int].1.is_movement_restricted(packet),
        None => false,
    }
}

/// A packet is sent on to the gamepad unless the running game restricts one
/// of its buttons (which Restricted mode overrides), the mode is Streaming,
/// or the sender is blocked (which Anarchy mode overrides). The sender is
/// never answered.
pub open spec fn movement_step(
    a: ArbiterView,
    db: DatabaseView,
    id: Seq<char>,
    packet: PacketView,
    now: Instant,
) -> Step {
    if a.anarchy_mode != AnarchyType::Restricted && game_restricts(a, packet) {
        quiet(a, db, None)
    } else if a.anarchy_mode == AnarchyType::Streaming {
        quiet(a, db, None)
    } else if a.anarchy_mode == AnarchyType::Anarchy {
        Step { arbiter: a, db, reply: None, forwards: seq![ForwardView::Gamepad(packet)] }
    } else if db.is_blocked(id, now) {
        quiet(a, db.after_block_lookup(id, now), None)
    } else {
        Step {
            arbiter: a,
            db: db.after_block_lookup(id, now),
            reply: None,
            forwards: seq![ForwardView::Gamepad(packet)],
        }
    }
}

/// The answer to a block: that the user is blocked, until when or forever,
/// or that no user of that name is known.
pub open spec fn block_reply(user: Seq<char>, known: bool, until: Option<Instant>, end_text: Seq<char>) -> Seq<
    char,
> {
    if known {
        "Blocked "@ + user + " "@ + (match until {
            Some(_) => "until "@ + end_text,
            None => "forever"@,
        })
    } else {
        "Could not find user "@ + user + ", they probably haven't played"@
    }
}

/// A moderator adds or removes an operator, or blocks or unblocks a user.
pub open spec fn moderation_step(
    a: ArbiterView,
    db: DatabaseView,
    p: Privilege,
    cmd: CommandView,
    end_text: Seq<char>,
) -> Step {
    if p.rank() >= 2 {
        match cmd {
            CommandView::AddOperator(user) => quiet(
                a,
                db.with_operator(user),
                Some("Added "@ + user + " as operator"@),
            ),
            CommandView::RemoveOperator(user) => quiet(
                a,
                db.without_operator(user),
                Some("Removed "@ + user + " as operator"@),
            ),
            CommandView::Block(user, until) => quiet(
                a,
                db.with_block(user, until),
                Some(block_reply(user, db.id_of(user) is Some, until, end_text)),
            ),
            CommandView::Unblock(user) => quiet(
                a,
                db.without_block(user),
                Some("Unblocked "@ + user),
            ),
            _ => quiet(a, db, None),
        }
    } else {
        quiet(a, db, Some(denied()))
    }
}

/// A moderator starts a game by its name. No game starts in Streaming mode.
pub open spec fn game_step(a: ArbiterView, db: DatabaseView, p: Privilege, game: Seq<char>) -> Step {
    if a.anarchy_mode == AnarchyType::Streaming {
        quiet(a, db, Some("Cannot start game in streaming mode, change mode first"@))
    } else if p.rank() >= 2 {
        match position(a.games, game) {
            Some(i) => Step {
                arbiter: ArbiterView { current_game: Some(i as usize), ..a },
                db,
                reply: None,
                forwards: seq![ForwardView::Game(GameRunnerView::SwitchTo(a.games[i].1.command))],
            },
            None => quiet(
                a,
                db,
                Some("No game "@ + game + " found, see full list with \"tp games\""@),
            ),
        }
    } else {
        quiet(a, db, Some(denied()))
    }
}

/// A moderator stops the running game.
pub open spec fn stop_step(a: ArbiterView, db: DatabaseView, p: Privilege) -> Step {
    if p.rank() >= 2 {
        Step {
            arbiter: ArbiterView { current_game: None, ..a },
            db,
            reply: None,
            forwards: seq![ForwardView::Game(GameRunnerView::Stop)],
        }
    } else {
        quiet(a, db, Some(denied()))
    }
}

/// An operator saves, loads or resets: the key combination is sent on to the
/// gamepad, and `done` is the answer.
pub open spec fn hotkey_step(
    a: ArbiterView,
    db: DatabaseView,
    p: Privilege,
    second: Movement,
    done: Seq<char>,
) -> Step {
    if p.rank() >= 1 {
        Step {
            arbiter: a,
            db,
            reply: Some(done),
            forwards: seq![ForwardView::Gamepad(hotkey_packet(second))],
        }
    } else {
        quiet(a, db, Some(denied()))
    }
}

/// The broadcaster plays a sound effect by its name.
pub open spec fn sfx_step(a: ArbiterView, db: DatabaseView, p: Privilege, name: Seq<char>) -> Step {
    if p.rank() >= 3 {
        Step {
            arbiter: a,
            db,
            reply: None,
            forwards: if a.has_sfx {
                seq![ForwardView::Sfx(SfxRequestView::Named(name))]
            } else {
                Seq::empty()
            },
        }
    } else {
        quiet(a, db, Some(denied()))
    }
}

/// What is said of a game's controls.
pub open spec fn controls_of(game: ConstructedGameInfoView) -> Seq<char> {
    match game.controls_msg {
        Some(text) => game.name + " controls: "@ + text,
        None => game.name + " has no specific controls"@,
    }
}

/// The answer to a question for controls: those of the game that is asked
/// for, or of the running game where none is asked for.
pub open spec fn controls_reply(a: ArbiterView, asked: Option<Seq<char>>) -> Seq<char> {
    match asked {
        Some(name) => match position(a.games, name) {
            Some(i) => controls_of(a.games[i].1),
            None => "No game of that name found"@,
        },
        None => match a.current_game {
            Some(i) => controls_of(a.games[i as int].1),
            None => "No game is being played currently"@,
        },
    }
}

/// What a command leads to once its sender has been let through.
/// `end_text` is the end of a timed block as the sender is to read it.
pub open spec fn dispatch(
    a: ArbiterView,
    db: DatabaseView,
    msg: MessageView,
    p: Privilege,
    now: Instant,
    end_text: Seq<char>,
) -> Step {
    match msg.command {
        CommandView::SetAnarchyMode(mode) => set_mode_step(a, db, p, mode),
        CommandView::PrintAnarchyMode => quiet(
            a,
            db,
            Some("Current mode is "@ + a.anarchy_mode.name()),
        ),
        CommandView::SetCooldown(d) => set_cooldown_step(a, db, p, d),
        CommandView::Movement(packet) => movement_step(a, db, msg.sender_id, packet, now),
        CommandView::AddOperator(_) => moderation_step(a, db, p, msg.command, end_text),
        CommandView::RemoveOperator(_) => moderation_step(a, db, p, msg.command, end_text),
        CommandView::Block(_, _) => moderation_step(a, db, p, msg.command, end_text),
        CommandView::Unblock(_) => moderation_step(a, db, p, msg.command, end_text),
        CommandView::Game(game) => game_step(a, db, p, game),
        CommandView::Stop => stop_step(a, db, p),
        CommandView::Partial(hint) => quiet(a, db, Some(usage(hint))),
        CommandView::ListGames => quiet(a, db, Some(joined(game_names(a.games), ", "@))),
        CommandView::ListOperators => quiet(a, db, Some(joined(db.operator_names(), ", "@))),
        CommandView::ListBlocked => quiet(a, db, Some(joined(db.blocked_names(), ", "@))),
        CommandView::PrintHelp => quiet(a, db, Some(joined(help_entries(p), ", "@))),
        CommandView::SaveState => hotkey_step(a, db, p, Movement::A, "Saved game state"@),
        CommandView::LoadState => hotkey_step(a, db, p, Movement::B, "Loaded game state"@),
        CommandView::Reset => hotkey_step(a, db, p, Movement::X, "Reset current game"@),
        CommandView::PlaySfx(name) => sfx_step(a, db, p, name),
        CommandView::Controls(asked) => quiet(a, db, Some(controls_reply(a, asked))),
    }
}

/// Whether the sender has to wait out the cooldown.
pub open spec fn cooldown_applies(a: ArbiterView, p: Privilege) -> bool {
    p.rank() < 1 && a.anarchy_mode == AnarchyType::Democracy && a.cooldown != 0
}

/// What a message leads to at the instant `now`.
///
/// The sender is registered. An operator of the store counts as one. Below
/// an operator a sender gets nothing done in Restricted mode, and in
/// Democracy mode under a cooldown only where the cooldown has run out; the
/// attempt starts the cooldown anew either way. Then the command is seen
/// to.
pub open spec fn handled(
    a: ArbiterView,
    db: DatabaseView,
    msg: MessageView,
    now: Instant,
    end_text: Seq<char>,
) -> Step {
    let registered = db.with_user(msg.sender_id, msg.sender_name);
    let p = effective_privilege(registered, msg.sender_id, msg.privilege);
    if p.rank() < 1 && a.anarchy_mode == AnarchyType::Restricted {
        quiet(a, registered, None)
    } else if cooldown_applies(a, p) {
        let noted = registered.with_last_command(msg.sender_id, now);
        if registered.cooldown_lapsed(msg.sender_id, a.cooldown, now) {
            dispatch(a, noted, msg, p, now, end_text)
        } else {
            quiet(a, noted, None)
        }
    } else {
        dispatch(a, registered, msg, p, now, end_text)
    }
}

/// The mode that the store holds; Democracy where it holds none or one
/// that is not a mode's name.
pub open spec fn stored_mode(db: DatabaseView) -> AnarchyType {
    match db.kv(mode_key()) {
        Some(text) => match AnarchyType::named(text) {
            Some(m) => m,
            None => AnarchyType::Democracy,
        },
        None => AnarchyType::Democracy,
    }
}

/// The cooldown that the store holds; 0 where it holds none or one that is
/// not a number.
pub open spec fn stored_cooldown(db: DatabaseView) -> Millis {
    match db.kv(cooldown_key()) {
        Some(text) => match text_int(text) {
            Some(d) => d,
            None => 0,
        },
        None => 0,
    }
}

/// The store after the arbiter has read the mode from it: a mode that was
/// missing or malformed is now Democracy.
pub open spec fn settled_mode(db: DatabaseView) -> DatabaseView {
    match db.kv(mode_key()) {
        Some(text) => if AnarchyType::named(text) is Some {
            db
        } else {
            db.with_kv(mode_key(), AnarchyType::Democracy.name())
        },
        None => db.with_kv(mode_key(), AnarchyType::Democracy.name()),
    }
}

/// The store after the arbiter has read the cooldown from it: a cooldown
/// that was missing or malformed is now 0.
pub open spec fn settled_cooldown(db: DatabaseView) -> DatabaseView {
    match db.kv(cooldown_key()) {
        Some(text) => if text_int(text) is Some {
            db
        } else {
            db.with_kv(cooldown_key(), "0"@)
        },
        None => db.with_kv(cooldown_key(), "0"@),
    }
}

/// The arbiter as it starts on a store, and what it sends on at once: the
/// sound effects are switched off unless the mode is Streaming.
pub open spec fn started(
    db: DatabaseView,
    games: Seq<(Seq<char>, ConstructedGameInfoView)>,
    has_sfx: bool,
) -> Step {
    Step {
        arbiter: ArbiterView {
            anarchy_mode: stored_mode(db),
            cooldown: stored_cooldown(settled_mode(db)),
            current_game: None,
            games,
            has_sfx,
        },
        db: settled_cooldown(settled_mode(db)),
        reply: None,
        forwards: if stored_mode(db) != AnarchyType::Streaming && has_sfx {
            seq![ForwardView::Sfx(SfxRequestView::Enable(false))]
        } else {
            Seq::empty()
        },
    }
}

/// The end of a timed block as the sender reads it shows in the answer
/// alone: the state, the store and what is sent on do not depend on it.
pub proof fn lemma_end_text_only_in_reply(
    a: ArbiterView,
    db: DatabaseView,
    msg: MessageView,
    now: Instant,
    one: Seq<char>,
    other: Seq<char>,
)
    ensures
        handled(a, db, msg, now, one).arbiter == handled(a, db, msg, now, other).arbiter,
        handled(a, db, msg, now, one).db == handled(a, db, msg, now, other).db,
        handled(a, db, msg, now, one).forwards == handled(a, db, msg, now, other).forwards,
{
}

/// Whether what came out of a step is what the step says.
pub open spec fn agrees(step: Step, a: ArbiterView, db: DatabaseView, out: Outcome) -> bool {
    &&& step.arbiter == a
    &&& step.db == db
    &&& step.reply == out.reply.deep_view()
    &&& step.forwards == out.forwards.deep_view()
}

/// The last instant that is written as a date: the end of the year 9999.
pub const LAST_DATED_INSTANT: Instant = 253_402_300_799_999;

/// Whether an instant is written as a date: it lies in the years 1970 to
/// 9999.
pub open spec fn is_dated(instant: Instant) -> bool {
    0 <= instant <= LAST_DATED_INSTANT
}

/// The end of a timed block as the sender is to read it, where `dated` is
/// the date that was written for it: the date, or the instant as a number
/// of milliseconds where none was written. Empty for any other command.
pub open spec fn written_end(command: CommandView, dated: Option<Seq<char>>) -> Seq<char> {
    match command {
        CommandView::Block(_, Some(end)) => match dated {
            Some(text) => text,
            None => int_text(end),
        },
        _ => Seq::empty(),
    }
}

/// Calls `chrono::DateTime::from_timestamp_millis` and writes the instant
/// in the machine's time zone, as `chrono` displays a `DateTime<Local>`.
/// Nothing comes back where `chrono` cannot hold the instant. The text
/// depends on the machine's time zone: nothing is known of it.
#[verifier::external_body]
fn local_time_text(instant: Instant) -> (r: Option<String>)
    requires
        is_dated(instant),
{
    match chrono::DateTime::<chrono::Utc>::from_timestamp_millis(instant) {
        Some(t) => Some(t.with_timezone(&chrono::Local).to_string()),
        None => None,
    }
}

fn text2(a: &str, b: &str) -> (r: String)
    ensures
        r@ == a@ + b@,
{
    let mut s: String = String::from_str(a);
    s.append(b);
    s
}

fn text3(a: &str, b: &str, c: &str) -> (r: String)
    ensures
        r@ == a@ + b@ + c@,
{
    let mut s: String = text2(a, b);
    s.append(c);
    s
}

fn quietly(reply: Option<String>) -> (out: Outcome)
    ensures
        out.reply == reply,
        out.forwards.deep_view() == Seq::<ForwardView>::empty(),
{
    let forwards: Vec<Forward> = Vec::new();
    assert(forwards.deep_view() =~= Seq::<ForwardView>::empty());
    Outcome { reply, forwards }
}

fn deny() -> (out: Outcome)
    ensures
        out.reply.deep_view() == Some(denied()),
        out.forwards.deep_view() == Seq::<ForwardView>::empty(),
{
    quietly(Some("You don't have permission to do that".to_owned()))
}

fn sending(reply: Option<String>, forward: Forward) -> (out: Outcome)
    ensures
        out.reply == reply,
        out.forwards.deep_view() == seq![forward.deep_view()],
{
    let mut forwards: Vec<Forward> = Vec::new();
    forwards.push(forward);
    assert(forwards.deep_view() =~= seq![forward.deep_view()]);
    Outcome { reply, forwards }
}

/// A list of texts of its own with the same content.
pub fn copy_texts(list: &Vec<String>) -> (r: Vec<String>)
    ensures
        r.deep_view() == list.deep_view(),
{
    let mut out: Vec<String> = Vec::new();
    let mut i: usize = 0;
    while i < list.len()
        invariant
            i <= list@.len(),
            out@.len() == i,
            forall|j: int| 0 <= j < i ==> out@[j]@ == list@[j]@,
        decreases list@.len() - i,
    {
        out.push(list[i].clone());
        i = i + 1;
    }
    assert(out.deep_view() =~= list.deep_view());
    out
}

fn usage_text(hint: PartialCommand) -> (r: &'static str)
    ensures
        r@ == usage(hint),
{
    match hint {
        PartialCommand::AddOperator => "Usage: tp op <user>",
        PartialCommand::RemoveOperator => "Usage: tp deop <user>",
        PartialCommand::Block => "Usage: tp block <user> [optional: duration]",
        PartialCommand::Unblock => "Usage: tp unblock <user>",
        PartialCommand::Game => "Usage: tp game <game-name>",
        PartialCommand::List => "Usage: tp list games | blocked | ops",
        PartialCommand::SetCooldown => "Usage: tp cooldown <duration>",
        PartialCommand::SetAnarchyMode => "Usage: tp mode <anarchy | democracy | restricted | streaming>",
        PartialCommand::PlaySfx => "Usage: tp sfx <sound effect>",
    }
}

fn help_list(p: Privilege) -> (r: Vec<String>)
    ensures
        r.deep_view() == help_entries(p),
{
    let mut out: Vec<String> = Vec::new();
    out.push("Move with standard controller buttons (up, down, a, b, tl, tr, etc.)".to_owned());
    if p.at_least(Privilege::Operator) {
        out.push("tp save/load - save or load state".to_owned());
        out.push("tp reset - reset game".to_owned());
    }
    if p.at_least(Privilege::Moderator) {
        out.push("tp block/unblock - block or unblock a user".to_owned());
        out.push("tp op/deop - promote user to operator".to_owned());
        out.push("tp list - list games/ops/blocked users".to_owned());
        out.push("tp game - switch game".to_owned());
        out.push("tp mode - set anarchy mode".to_owned());
        out.push("tp cooldown - set command cooldown".to_owned());
    }
    if p.at_least(Privilege::Broadcaster) {
        out.push("tp sfx - play sound effects".to_owned());
    }
    assert(out.deep_view() =~= help_entries(p));
    out
}

fn seconds_of(d: Millis) -> (r: i64)
    ensures
        r == whole_seconds(d),
{
    d / 1000
}

fn joined_list(items: &Vec<String>) -> (r: String)
    ensures
        r@ == joined(items.deep_view(), ", "@),
{
    assert(items.deep_view().skip(0) =~= items.deep_view());
    crate::text::join_from(items, 0, ", ")
}

fn hotkey(second: Movement) -> (r: MovementPacket)
    ensures
        r@ == hotkey_packet(second),
{
    let mut movements: Vec<Movement> = Vec::new();
    movements.push(Movement::Mode);
    movements.push(second);
    assert(movements@ =~= seq![Movement::Mode, second]);
    MovementPacket { movements, duration: 100, stagger: 100, blocking: true }
}

impl Arbiter {
    /// Starts the arbiter on a store: the mode and the cooldown are read
    /// from it, and set to Democracy and 0 where they are missing or
    /// malformed.
    pub fn start(db: &mut Database, games: Table<ConstructedGameInfo>, has_sfx: bool) -> (r: (
        Arbiter,
        Vec<Forward>,
    ))
        requires
            old(db).wf(),
            games.wf(),
        ensures
            final(db).wf(),
            r.0.wf(),
            r.0@ == started(old(db)@, games.rows(), has_sfx).arbiter,
            final(db)@ == started(old(db)@, games.rows(), has_sfx).db,
            r.1.deep_view() == started(old(db)@, games.rows(), has_sfx).forwards,
    {
        let mode_text: String = crate::database::get_or_set_kv(
            db,
            "anarchy_mode",
            "democracy".to_owned(),
        );
        let anarchy_mode: AnarchyType = match AnarchyType::from_str(mode_text.as_str()) {
            Some(m) => m,
            None => {
                crate::database::set_kv(db, "anarchy_mode", AnarchyType::Democracy.to_str());
                AnarchyType::Democracy
            },
        };
        proof {
            AnarchyType::Democracy.lemma_name_round_trip();
            let before = old(db)@;
            if before.kv(mode_key()) is None {
                crate::table::lemma_upsert(
                    before.config_kv,
                    mode_key(),
                    "democracy"@,
                    mode_key(),
                );
            }
            assert(db@ == settled_mode(before));
        }
        let mut forwards: Vec<Forward> = Vec::new();
        assert(forwards.deep_view() =~= Seq::<ForwardView>::empty());
        if anarchy_mode != AnarchyType::Streaming && has_sfx {
            forwards.push(Forward::Sfx(SfxRequest::Enable(false)));
            assert(forwards.deep_view() =~= seq![ForwardView::Sfx(SfxRequestView::Enable(false))]);
        }
        let ghost middle = db@;
        let cooldown_text: String = crate::database::get_or_set_kv(db, "cooldown", "0".to_owned());
        let cooldown: Millis = match crate::text::parse_int(cooldown_text.as_str()) {
            Some(d) => d,
            None => {
                crate::database::set_kv(db, "cooldown", "0");
                0
            },
        };
        proof {
            reveal_strlit("0");
            assert("0"@ =~= crate::text::int_text(0));
            crate::text::lemma_int_text_round_trip(0);
            if middle.kv(cooldown_key()) is None {
                crate::table::lemma_upsert(middle.config_kv, cooldown_key(), "0"@, cooldown_key());
            }
            assert(db@ == settled_cooldown(middle));
        }
        (Arbiter { anarchy_mode, cooldown, current_game: None, games, has_sfx }, forwards)
    }

    fn set_mode(&mut self, db: &mut Database, p: Privilege, mode: AnarchyType) -> (out: Outcome)
        requires
            old(self).wf(),
            old(db).wf(),
        ensures
            final(self).wf(),
            final(db).wf(),
            agrees(set_mode_step(old(self)@, old(db)@, p, mode), final(self)@, final(db)@, out),
    {
        if !p.at_least(Privilege::Moderator) {
            return deny();
        }
        let mut forwards: Vec<Forward> = Vec::new();
        assert(forwards.deep_view() =~= Seq::<ForwardView>::empty());
        if self.anarchy_mode == AnarchyType::Streaming && mode != AnarchyType::Streaming
            && self.has_sfx {
            forwards.push(Forward::Sfx(SfxRequest::Enable(false)));
        }
        let ghost leaving = forwards.deep_view();
        assert(leaving =~= (if old(self)@.anarchy_mode == AnarchyType::Streaming && mode
            != AnarchyType::Streaming && old(self)@.has_sfx {
            seq![ForwardView::Sfx(SfxRequestView::Enable(false))]
        } else {
            Seq::<ForwardView>::empty()
        }));
        self.anarchy_mode = mode;
        crate::database::set_kv(db, "anarchy_mode", mode.to_str());
        if mode == AnarchyType::Streaming {
            self.current_game = None;
            forwards.push(Forward::Game(GameRunner::Stop));
            if self.has_sfx {
                forwards.push(Forward::Sfx(SfxRequest::Enable(true)));
            }
        }
        assert(forwards.deep_view() =~= set_mode_step(old(self)@, old(db)@, p, mode).forwards);
        Outcome { reply: Some(text2("Set mode to ", mode.to_str())), forwards }
    }

    fn set_cooldown(&mut self, db: &mut Database, p: Privilege, d: Millis) -> (out: Outcome)
        requires
            old(self).wf(),
            old(db).wf(),
        ensures
            final(self).wf(),
            final(db).wf(),
            agrees(set_cooldown_step(old(self)@, old(db)@, p, d), final(self)@, final(db)@, out),
    {
        if !p.at_least(Privilege::Moderator) {
            return deny();
        }
        let text: String = crate::text::format_int(d);
        crate::database::set_kv(db, "cooldown", text.as_str());
        self.cooldown = d;
        let seconds: String = crate::text::format_int(seconds_of(d));
        quietly(Some(text3("Set cooldown to ", seconds.as_str(), " seconds")))
    }

    /// Whether the running game keeps a button of the packet from the
    /// audience.
    pub fn game_restricts(&self, packet: &MovementPacket) -> (r: bool)
        requires
            self.wf(),
        ensures
            r == game_restricts(self@, packet@),
    {
        match self.current_game {
            Some(i) => self.games.value_at(i).is_movement_restricted(packet),
            None => false,
        }
    }

    fn movement(&mut self, db: &mut Database, id: &str, packet: MovementPacket, now: Instant) -> (out:
        Outcome)
        requires
            old(self).wf(),
            old(db).wf(),
        ensures
            final(self).wf(),
            final(db).wf(),
            agrees(
                movement_step(old(self)@, old(db)@, id@, packet@, now),
                final(self)@,
                final(db)@,
                out,
            ),
    {
        if self.anarchy_mode != AnarchyType::Restricted && self.game_restricts(&packet) {
            return quietly(None);
        }
        if self.anarchy_mode == AnarchyType::Streaming {
            return quietly(None);
        }
        if self.anarchy_mode == AnarchyType::Anarchy {
            return sending(None, Forward::Gamepad(packet));
        }
        if crate::database::is_blocked(db, id, now) {
            quietly(None)
        } else {
            sending(None, Forward::Gamepad(packet))
        }
    }

    fn block(&mut self, db: &mut Database, user: String, until: Option<Instant>, end_text: &str) -> (out:
        Outcome)
        requires
            old(self).wf(),
            old(db).wf(),
        ensures
            final(self).wf(),
            final(db).wf(),
            agrees(
                quiet(
                    old(self)@,
                    old(db)@.with_block(user@, until),
                    Some(block_reply(user@, old(db)@.id_of(user@) is Some, until, end_text@)),
                ),
                final(self)@,
                final(db)@,
                out,
            ),
    {
        let known: bool = crate::database::block_user(db, user.as_str(), until);
        let reply: String = if known {
            let mut s: String = text3("Blocked ", user.as_str(), " ");
            match until {
                Some(_) => {
                    s.append("until ");
                    s.append(end_text);
                    assert(s@ =~= "Blocked "@ + user@ + " "@ + ("until "@ + end_text@));
                },
                None => {
                    s.append("forever");
                },
            }
            s
        } else {
            text3("Could not find user ", user.as_str(), ", they probably haven't played")
        };
        quietly(Some(reply))
    }

    fn moderation(&mut self, db: &mut Database, p: Privilege, cmd: Command, end_text: &str) -> (out:
        Outcome)
        requires
            old(self).wf(),
            old(db).wf(),
            cmd is AddOperator || cmd is RemoveOperator || cmd is Block || cmd is Unblock,
        ensures
            final(self).wf(),
            final(db).wf(),
            agrees(
                moderation_step(old(self)@, old(db)@, p, cmd@, end_text@),
                final(self)@,
                final(db)@,
                out,
            ),
    {
        if !p.at_least(Privilege::Moderator) {
            return deny();
        }
        match cmd {
            Command::AddOperator(user) => {
                let _ = crate::database::op_user(db, user.as_str());
                quietly(Some(text3("Added ", user.as_str(), " as operator")))
            },
            Command::RemoveOperator(user) => {
                crate::database::deop_user(db, user.as_str());
                quietly(Some(text3("Removed ", user.as_str(), " as operator")))
            },
            Command::Block(user, until) => self.block(db, user, until, end_text),
            Command::Unblock(user) => {
                crate::database::unblock_user(db, user.as_str());
                quietly(Some(text2("Unblocked ", user.as_str())))
            },
            _ => quietly(None),
        }
    }

    fn game(&mut self, db: &Database, p: Privilege, game: String) -> (out: Outcome)
        requires
            old(self).wf(),
        ensures
            final(self).wf(),
            agrees(game_step(old(self)@, db@, p, game@), final(self)@, db@, out),
    {
        if self.anarchy_mode == AnarchyType::Streaming {
            return quietly(
                Some("Cannot start game in streaming mode, change mode first".to_owned()),
            );
        }
        if !p.at_least(Privilege::Moderator) {
            return deny();
        }
        match self.games.find(game.as_str()) {
            Some(i) => {
                self.current_game = Some(i);
                let info: &ConstructedGameInfo = self.games.value_at(i);
                let command = crate::config::GameCommand {
                    command: info.command.command.clone(),
                    args: copy_texts(&info.command.args),
                };
                sending(None, Forward::Game(GameRunner::SwitchTo(command)))
            },
            None => quietly(
                Some(text3("No game ", game.as_str(), " found, see full list with \"tp games\"")),
            ),
        }
    }

    fn stop(&mut self, db: &Database, p: Privilege) -> (out: Outcome)
        requires
            old(self).wf(),
        ensures
            final(self).wf(),
            agrees(stop_step(old(self)@, db@, p), final(self)@, db@, out),
    {
        if !p.at_least(Privilege::Moderator) {
            return deny();
        }
        self.current_game = None;
        sending(None, Forward::Game(GameRunner::Stop))
    }

    fn hotkey(&self, db: &Database, p: Privilege, second: Movement, done: &str) -> (out: Outcome)
        ensures
            agrees(hotkey_step(self@, db@, p, second, done@), self@, db@, out),
    {
        if !p.at_least(Privilege::Operator) {
            return deny();
        }
        sending(Some(done.to_owned()), Forward::Gamepad(hotkey(second)))
    }

    fn sfx(&self, db: &Database, p: Privilege, name: String) -> (out: Outcome)
        ensures
            agrees(sfx_step(self@, db@, p, name@), self@, db@, out),
    {
        if !p.at_least(Privilege::Broadcaster) {
            return deny();
        }
        if self.has_sfx {
            sending(None, Forward::Sfx(SfxRequest::Named(name)))
        } else {
            quietly(None)
        }
    }

    fn controls_text(game: &ConstructedGameInfo) -> (r: String)
        ensures
            r@ == controls_of(game.deep_view()),
    {
        match &game.controls_msg {
            Some(text) => text3(game.name.as_str(), " controls: ", text.as_str()),
            None => text2(game.name.as_str(), " has no specific controls"),
        }
    }

    fn controls(&self, asked: &Option<String>) -> (r: String)
        requires
            self.wf(),
        ensures
            r@ == controls_reply(self@, asked.deep_view()),
    {
        match asked {
            Some(name) => {
                match self.games.find(name.as_str()) {
                    Some(i) => Arbiter::controls_text(self.games.value_at(i)),
                    None => "No game of that name found".to_owned(),
                }
            },
            None => {
                match self.current_game {
                    Some(i) => Arbiter::controls_text(self.games.value_at(i)),
                    None => "No game is being played currently".to_owned(),
                }
            },
        }
    }

    fn game_list(&self) -> (r: Vec<String>)
        requires
            self.wf(),
        ensures
            r.deep_view() == game_names(self@.games),
    {
        let mut out: Vec<String> = Vec::new();
        let n: usize = self.games.len();
        let mut i: usize = 0;
        while i < n
            invariant
                self.wf(),
                n == self.games.rows().len(),
                i <= n,
                out@.len() == i,
                forall|j: int| 0 <= j < i ==> out@[j]@ == self.games.rows()[j].0,
            decreases n - i,
        {
            out.push(self.games.key_at(i).clone());
            i = i + 1;
        }
        assert(out.deep_view() =~= game_names(self@.games));
        out
    }

    fn dispatch(
        &mut self,
        db: &mut Database,
        msg: Message,
        p: Privilege,
        now: Instant,
        end_text: &str,
    ) -> (out: Outcome)
        requires
            old(self).wf(),
            old(db).wf(),
        ensures
            final(self).wf(),
            final(db).wf(),
            agrees(
                dispatch(old(self)@, old(db)@, msg.deep_view(), p, now, end_text@),
                final(self)@,
                final(db)@,
                out,
            ),
    {
        let Message { command, sender_id, sender_name, privilege } = msg;
        match command {
            Command::SetAnarchyMode(mode) => self.set_mode(db, p, mode),
            Command::PrintAnarchyMode => quietly(
                Some(text2("Current mode is ", self.anarchy_mode.to_str())),
            ),
            Command::SetCooldown(d) => self.set_cooldown(db, p, d),
            Command::Movement(packet) => self.movement(db, sender_id.as_str(), packet, now),
            Command::AddOperator(user) => self.moderation(
                db,
                p,
                Command::AddOperator(user),
                end_text,
            ),
            Command::RemoveOperator(user) => self.moderation(
                db,
                p,
                Command::RemoveOperator(user),
                end_text,
            ),
            Command::Block(user, until) => self.moderation(
                db,
                p,
                Command::Block(user, until),
                end_text,
            ),
            Command::Unblock(user) => self.moderation(db, p, Command::Unblock(user), end_text),
            Command::Game(game) => self.game(db, p, game),
            Command::Stop => self.stop(db, p),
            Command::Partial(hint) => quietly(Some(usage_text(hint).to_owned())),
            Command::ListGames => {
                let names: Vec<String> = self.game_list();
                quietly(Some(joined_list(&names)))
            },
            Command::ListOperators => {
                let names: Vec<String> = crate::database::list_op_users(db);
                quietly(Some(joined_list(&names)))
            },
            Command::ListBlocked => {
                let names: Vec<String> = crate::database::list_blocked_users(db);
                quietly(Some(joined_list(&names)))
            },
            Command::PrintHelp => {
                let entries: Vec<String> = help_list(p);
                quietly(Some(joined_list(&entries)))
            },
            Command::SaveState => self.hotkey(db, p, Movement::A, "Saved game state"),
            Command::LoadState => self.hotkey(db, p, Movement::B, "Loaded game state"),
            Command::Reset => self.hotkey(db, p, Movement::X, "Reset current game"),
            Command::PlaySfx(name) => self.sfx(db, p, name),
            Command::Controls(asked) => quietly(Some(self.controls(&asked))),
        }
    }

    /// Takes a message at the instant `now` and says what is answered and
    /// what is sent on. `end_text` is the end of a timed block as the
    /// sender is to read it; only the answer to such a block holds it.
    pub fn handle_with(&mut self, db: &mut Database, msg: Message, now: Instant, end_text: &str) -> (out:
        Outcome)
        requires
            old(self).wf(),
            old(db).wf(),
        ensures
            final(self).wf(),
            final(db).wf(),
            agrees(
                handled(old(self)@, old(db)@, msg.deep_view(), now, end_text@),
                final(self)@,
                final(db)@,
                out,
            ),
    {
        crate::database::update_user(db, msg.sender_id.as_str(), msg.sender_name.as_str());
        let p: Privilege = if !msg.privilege.at_least(Privilege::Operator)
            && crate::database::is_operator(db, msg.sender_id.as_str()) {
            Privilege::Operator
        } else {
            msg.privilege
        };
        if !p.at_least(Privilege::Operator) && self.anarchy_mode == AnarchyType::Restricted {
            return quietly(None);
        }
        if !p.at_least(Privilege::Operator) && self.anarchy_mode == AnarchyType::Democracy
            && self.cooldown != 0 {
            if !crate::database::test_and_set_cooldown_lapsed(
                db,
                msg.sender_id.as_str(),
                self.cooldown,
                now,
            ) {
                return quietly(None);
            }
        }
        self.dispatch(db, msg, p, now, end_text)
    }

    /// The end of a timed block as the sender is to read it, given what the
    /// date writer made of the instant: that text, or the instant as a number
    /// of milliseconds where there is none. Empty for any other command.
    pub fn end_text_from(command: &Command, dated: Option<String>) -> (r: String)
        ensures
            r@ == written_end(command@, dated.deep_view()),
    {
        match command {
            Command::Block(_, Some(end)) => {
                match dated {
                    Some(text) => text,
                    None => crate::text::format_int(*end),
                }
            },
            _ => String::new(),
        }
    }

    /// The end of a timed block as the sender is to read it: the instant in
    /// the machine's time zone, or as a number of milliseconds where it
    /// lies before 1970 or after the year 9999, or where the date writer
    /// cannot hold it. Empty for any other command.
    pub fn end_text_of(command: &Command) -> (r: String)
        ensures
            !(command@ matches CommandView::Block(_, Some(_))) ==> r@ == Seq::<char>::empty(),
            command@ matches CommandView::Block(_, Some(end)) ==> !is_dated(end) ==> r@
                == int_text(end),
            exists|dated: Option<Seq<char>>| r@ == #[trigger] written_end(command@, dated),
    {
        let dated: Option<String> = match command {
            Command::Block(_, Some(end)) => {
                if 0 <= *end && *end <= LAST_DATED_INSTANT {
                    local_time_text(*end)
                } else {
                    None
                }
            },
            _ => None,
        };
        let ghost given = dated.deep_view();
        let r = Arbiter::end_text_from(command, dated);
        assert(r@ == written_end(command@, given));
        r
    }

    /// Takes a message at the instant `now` and says what is answered and
    /// what is sent on. The end of a timed block is written in the
    /// machine's time zone.
    pub fn handle(&mut self, db: &mut Database, msg: Message, now: Instant) -> (out: Outcome)
        requires
            old(self).wf(),
            old(db).wf(),
        ensures
            final(self).wf(),
            final(db).wf(),
            exists|end_text: Seq<char>|
                agrees(
                    #[trigger] handled(old(self)@, old(db)@, msg.deep_view(), now, end_text),
                    final(self)@,
                    final(db)@,
                    out,
                ),
            !(msg.command@ matches CommandView::Block(_, Some(_))) ==> agrees(
                handled(old(self)@, old(db)@, msg.deep_view(), now, Seq::empty()),
                final(self)@,
                final(db)@,
                out,
            ),
            final(self)@ == handled(old(self)@, old(db)@, msg.deep_view(), now, Seq::empty()).arbiter,
            final(db)@ == handled(old(self)@, old(db)@, msg.deep_view(), now, Seq::empty()).db,
            out.forwards.deep_view() == handled(
                old(self)@,
                old(db)@,
                msg.deep_view(),
                now,
                Seq::empty(),
            ).forwards,
    {
        let end_text: String = Arbiter::end_text_of(&msg.command);
        proof {
            lemma_end_text_only_in_reply(
                self@,
                db@,
                msg.deep_view(),
                now,
                end_text@,
                Seq::empty(),
            );
        }
        self.handle_with(db, msg, now, end_text.as_str())
    }
}

} // verus!
