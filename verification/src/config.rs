//! What the configuration file says: the chat channel, the games that can
//! be started, and the sound effects.

use crate::command::{Movement, MovementPacket, PacketView};
use crate::parsing::{lowercase, parse_movement_token, to_lowercase, token_movement};
use crate::table::{lemma_position, position, upsert, Table};
use crate::text::{split, split_on};
use vstd::prelude::*;
use vstd::string::*;

verus! {

/// The name by which a game is configured and started.
pub type GameName = String;

/// A game's launch command as one line: the program, then its arguments,
/// with single spaces between them.
#[derive(Clone, Debug)]
pub struct GameCommandString(pub String);

/// A game's launch command: the program and its arguments.
#[derive(Clone, Debug, PartialEq, Eq)]
pub struct GameCommand {
    pub command: String,
    pub args: Vec<String>,
}

/// A launch command as a mathematical value.
pub struct GameCommandView {
    pub command: Seq<char>,
    pub args: Seq<Seq<char>>,
}

impl DeepView for GameCommand {
    type V = GameCommandView;

    open spec fn deep_view(&self) -> GameCommandView {
        GameCommandView { command: self.command@, args: self.args.deep_view() }
    }
}

/// What is known of a game once its configuration was read.
#[derive(Clone, Debug)]
pub struct ConstructedGameInfo {
    pub name: String,
    pub command: GameCommand,
    /// The buttons that the audience may not press in this game. None
    /// occurs twice.
    pub restricted_inputs: Vec<Movement>,
    pub controls_msg: Option<String>,
}

/// A constructed game as a mathematical value. The order of the restricted
/// buttons does not count.
pub struct ConstructedGameInfoView {
    pub name: Seq<char>,
    pub command: GameCommandView,
    pub restricted_inputs: Set<Movement>,
    pub controls_msg: Option<Seq<char>>,
}

impl DeepView for ConstructedGameInfo {
    type V = ConstructedGameInfoView;

    open spec fn deep_view(&self) -> ConstructedGameInfoView {
        ConstructedGameInfoView {
            name: self.name@,
            command: self.command.deep_view(),
            restricted_inputs: self.restricted_inputs@.to_set(),
            controls_msg: self.controls_msg.deep_view(),
        }
    }
}

/// How the chat is joined.
#[derive(Clone, Debug)]
pub enum TwitchAuth {
    Anonymous,
    Login { client: String, secret: String, access: Option<String> },
}

/// The chat channel and how it is joined.
#[derive(Clone, Debug)]
pub struct TwitchConfig {
    pub channel_name: String,
    pub auth: TwitchAuth,
}

/// A game as the configuration file describes it.
#[derive(Clone, Debug)]
pub struct GameInfo {
    pub command: GameCommandString,
    /// Tokens that name the buttons which the audience may not press.
    pub restricted_inputs: Option<Vec<String>>,
    pub controls: Option<String>,
}

/// A configured game as a mathematical value.
pub struct GameInfoView {
    pub command: Seq<char>,
    pub restricted_inputs: Option<Seq<Seq<char>>>,
    pub controls: Option<Seq<char>>,
}

impl DeepView for GameInfo {
    type V = GameInfoView;

    open spec fn deep_view(&self) -> GameInfoView {
        GameInfoView {
            command: self.command.0@,
            restricted_inputs: self.restricted_inputs.deep_view(),
            controls: self.controls.deep_view(),
        }
    }
}

/// The sound effects: the player's command, each sound's file under the
/// sound's name, and the sound that a number of gifted subscriptions earns.
#[derive(Clone, Debug)]
pub struct SoundEffectConfig {
    pub command: String,
    pub sounds: Table<String>,
    /// Thresholds with the name of a sound. Of two entries with one
    /// threshold the later counts.
    pub sub_events: Vec<(u64, String)>,
}

/// The configuration.
#[derive(Clone, Debug)]
pub struct Config {
    pub twitch: TwitchConfig,
    pub sound_effects: Option<SoundEffectConfig>,
    /// The games by name, in the order in which their names sort.
    pub games: Option<Table<GameInfo>>,
}

/// The launch command that a line stands for: the first piece between
/// spaces is the program, the others are its arguments.
pub open spec fn command_of_line(line: Seq<char>) -> GameCommandView {
    GameCommandView { command: split_on(line, ' ')[0], args: split_on(line, ' ').skip(1) }
}

impl GameCommandString {
    /// The program and its arguments.
    pub fn to_command(&self) -> (r: GameCommand)
        ensures
            r.deep_view() == command_of_line(self.0@),
    {
        let mut pieces: Vec<String> = split(self.0.as_str(), ' ');
        let ghost all = pieces.deep_view();
        assert(all.len() >= 1);
        let command: String = pieces.remove(0);
        assert(pieces.deep_view() =~= all.skip(1));
        GameCommand { command, args: pieces }
    }
}

impl ConstructedGameInfoView {
    /// Whether the packet holds a button that this game keeps from the
    /// audience.
    pub open spec fn is_movement_restricted(self, packet: PacketView) -> bool {
        exists|i: int|
            0 <= i < packet.movements.len() && self.restricted_inputs.contains(
                #[trigger] packet.movements[i],
            )
    }
}

fn holds(list: &Vec<Movement>, m: Movement) -> (r: bool)
    ensures
        r == list@.to_set().contains(m),
        r == list@.contains(m),
{
    let mut i: usize = 0;
    while i < list.len()
        invariant
            i <= list@.len(),
            forall|j: int| 0 <= j < i ==> list@[j] != m,
        decreases list@.len() - i,
    {
        if list[i] == m {
            assert(list@.contains(m));
            return true;
        }
        i = i + 1;
    }
    false
}

impl ConstructedGameInfo {
    /// Whether the packet holds a button that this game keeps from the
    /// audience.
    pub fn is_movement_restricted(&self, packet: &MovementPacket) -> (r: bool)
        ensures
            r == self.deep_view().is_movement_restricted(packet@),
    {
        let mut i: usize = 0;
        while i < packet.movements.len()
            invariant
                i <= packet.movements@.len(),
                forall|j: int|
                    0 <= j < i ==> !self.restricted_inputs@.to_set().contains(
                        #[trigger] packet.movements@[j],
                    ),
            decreases packet.movements@.len() - i,
        {
            if holds(&self.restricted_inputs, packet.movements[i]) {
                assert(self.deep_view().restricted_inputs.contains(packet@.movements[i as int]));
                return true;
            }
            i = i + 1;
        }
        false
    }
}

/// Whether each token names a button, whatever its case.
pub open spec fn restricted_valid(names: Seq<Seq<char>>) -> bool {
    forall|i: int| 0 <= i < names.len() ==> (#[trigger] token_movement(lowercase(names[i]))) is Some
}

/// The buttons that the tokens name, whatever their case.
pub open spec fn restricted_set(names: Seq<Seq<char>>) -> Set<Movement> {
    Set::new(
        |m: Movement|
            exists|i: int|
                0 <= i < names.len() && #[trigger] token_movement(lowercase(names[i])) == Some(m),
    )
}

/// Whether the game's restricted inputs all name buttons.
pub open spec fn game_valid(info: GameInfoView) -> bool {
    match info.restricted_inputs {
        Some(names) => restricted_valid(names),
        None => true,
    }
}

/// What is known of a game that the configuration describes.
pub open spec fn constructed(name: Seq<char>, info: GameInfoView) -> ConstructedGameInfoView {
    ConstructedGameInfoView {
        name,
        command: command_of_line(info.command),
        restricted_inputs: match info.restricted_inputs {
            Some(names) => restricted_set(names),
            None => Set::empty(),
        },
        controls_msg: info.controls,
    }
}

/// Reads the tokens that name a game's restricted buttons. Nothing comes
/// back where a token names no button.
pub fn read_restricted_inputs(names: &Vec<String>) -> (r: Option<Vec<Movement>>)
    ensures
        r is Some == restricted_valid(names.deep_view()),
        r is Some ==> r->0@.to_set() == restricted_set(names.deep_view()) && r->0@.no_duplicates(),
{
    let ghost all = names.deep_view();
    let mut out: Vec<Movement> = Vec::new();
    let mut i: usize = 0;
    while i < names.len()
        invariant
            i <= names@.len(),
            all == names.deep_view(),
            out@.no_duplicates(),
            forall|j: int| 0 <= j < i ==> (#[trigger] token_movement(lowercase(all[j]))) is Some,
            forall|m: Movement|
                out@.contains(m) <==> exists|j: int|
                    0 <= j < i && #[trigger] token_movement(lowercase(all[j])) == Some(m),
        decreases names@.len() - i,
    {
        let lowered: String = to_lowercase(names[i].as_str());
        assert(lowered@ == lowercase(all[i as int]));
        match parse_movement_token(lowered.as_str()) {
            Some(m) => {
                let ghost before = out@;
                if !holds(&out, m) {
                    out.push(m);
                    assert(out@ == before.push(m));
                    assert forall|a: int, b: int|
                        0 <= a < out@.len() && 0 <= b < out@.len() && a != b implies out@[a]
                        != out@[b] by {
                        if a < before.len() {
                            assert(before.contains(out@[a]));
                        }
                        if b < before.len() {
                            assert(before.contains(out@[b]));
                        }
                    }
                }
                assert forall|x: Movement|
                    out@.contains(x) <==> exists|j: int|
                        0 <= j < i + 1 && #[trigger] token_movement(lowercase(all[j])) == Some(
                            x,
                        ) by {
                    if out@.contains(x) {
                        if before.contains(x) {
                            let j = choose|j: int|
                                0 <= j < i && #[trigger] token_movement(lowercase(all[j])) == Some(
                                    x,
                                );
                            assert(0 <= j < i + 1 && token_movement(lowercase(all[j])) == Some(x));
                        } else {
                            let k = choose|k: int| 0 <= k < out@.len() && out@[k] == x;
                            assert(x == m);
                            assert(token_movement(lowercase(all[i as int])) == Some(x));
                        }
                    }
                    if exists|j: int|
                        0 <= j < i + 1 && #[trigger] token_movement(lowercase(all[j])) == Some(x) {
                        let j = choose|j: int|
                            0 <= j < i + 1 && #[trigger] token_movement(lowercase(all[j])) == Some(
                                x,
                            );
                        if j < i {
                            assert(before.contains(x));
                            let k = choose|k: int| 0 <= k < before.len() && before[k] == x;
                            assert(out@[k] == x);
                        } else {
                            assert(x == m);
                            if before.contains(m) {
                                let k = choose|k: int| 0 <= k < before.len() && before[k] == m;
                                assert(out@[k] == m);
                            } else {
                                assert(out@[out@.len() - 1] == m);
                            }
                        }
                    }
                }
            },
            None => {
                assert(token_movement(lowercase(all[i as int])) is None);
                return None;
            },
        }
        i = i + 1;
    }
    assert(out@.to_set() =~= restricted_set(all));
    Some(out)
}

/// What is known of a game, where its restricted inputs all name buttons.
pub fn construct_game(name: &String, info: &GameInfo) -> (r: Option<ConstructedGameInfo>)
    ensures
        r is Some == game_valid(info.deep_view()),
        r is Some ==> r->0.deep_view() == constructed(name@, info.deep_view()),
{
    let restricted: Vec<Movement> = match &info.restricted_inputs {
        Some(names) => {
            match read_restricted_inputs(names) {
                Some(list) => list,
                None => {
                    return None;
                },
            }
        },
        None => {
            let list: Vec<Movement> = Vec::new();
            assert(list@.to_set() =~= Set::<Movement>::empty());
            list
        },
    };
    Some(
        ConstructedGameInfo {
            name: name.clone(),
            command: info.command.to_command(),
            restricted_inputs: restricted,
            controls_msg: info.controls.clone(),
        },
    )
}

/// The games' table, each game constructed.
pub open spec fn constructed_games(games: Seq<(Seq<char>, GameInfoView)>) -> Seq<
    (Seq<char>, ConstructedGameInfoView),
> {
    Seq::new(games.len(), |i: int| (games[i].0, constructed(games[i].0, games[i].1)))
}

/// Whether the restricted inputs of every game all name buttons.
pub open spec fn games_valid(games: Seq<(Seq<char>, GameInfoView)>) -> bool {
    forall|i: int| 0 <= i < games.len() ==> game_valid(#[trigger] games[i].1)
}

impl Config {
    /// The games of the configuration.
    pub open spec fn game_rows(&self) -> Seq<(Seq<char>, GameInfoView)> {
        match self.games {
            Some(table) => table.rows(),
            None => Seq::empty(),
        }
    }

    /// The games' table is well formed.
    pub open spec fn wf(&self) -> bool {
        match self.games {
            Some(table) => table.wf(),
            None => true,
        }
    }

    /// Whether the restricted inputs of every game all name buttons.
    pub fn games_are_valid(&self) -> (r: bool)
        requires
            self.wf(),
        ensures
            r == games_valid(self.game_rows()),
    {
        match &self.games {
            None => true,
            Some(table) => {
                let n: usize = table.len();
                let mut i: usize = 0;
                while i < n
                    invariant
                        table.wf(),
                        self.game_rows() == table.rows(),
                        n == table.rows().len(),
                        i <= n,
                        forall|j: int| 0 <= j < i ==> game_valid(#[trigger] table.rows()[j].1),
                    decreases n - i,
                {
                    let valid: bool = match &table.value_at(i).restricted_inputs {
                        Some(names) => read_restricted_inputs(names).is_some(),
                        None => true,
                    };
                    if !valid {
                        assert(!game_valid(self.game_rows()[i as int].1));
                        return false;
                    }
                    i = i + 1;
                }
                true
            },
        }
    }

    /// The games that can be started, by name. Every game's restricted
    /// inputs must name buttons.
    pub fn game_command_list(&self) -> (r: Table<ConstructedGameInfo>)
        requires
            self.wf(),
            games_valid(self.game_rows()),
        ensures
            r.wf(),
            r.rows() == constructed_games(self.game_rows()),
    {
        let mut out: Table<ConstructedGameInfo> = Table::new();
        match &self.games {
            None => {
                assert(out.rows() =~= constructed_games(self.game_rows()));
                out
            },
            Some(table) => {
                let ghost source = table.rows();
                let n: usize = table.len();
                let mut i: usize = 0;
                proof {
                    table.lemma_wf();
                }
                while i < n
                    invariant
                        table.wf(),
                        source == table.rows(),
                        games_valid(source),
                        crate::table::distinct_keys(source),
                        n == source.len(),
                        i <= n,
                        out.wf(),
                        out.rows() == constructed_games(source).subrange(0, i as int),
                    decreases n - i,
                {
                    let name: &String = table.key_at(i);
                    assert(game_valid(source[i as int].1));
                    match construct_game(name, table.value_at(i)) {
                        Some(game) => {
                            let ghost before = out.rows();
                            proof {
                                lemma_position(before, name@);
                                if position(before, name@) is Some {
                                    let j = position(before, name@)->0;
                                    assert(before[j].0 == source[j].0);
                                }
                            }
                            out.upsert(name.clone(), game);
                            assert(out.rows() =~= constructed_games(source).subrange(0, i + 1));
                        },
                        None => {
                            vstd::pervasive::unreached::<()>();
                        },
                    }
                    i = i + 1;
                }
                assert(constructed_games(source).subrange(0, n as int) =~= constructed_games(
                    source,
                ));
                out
            },
        }
    }

    /// The games that can be started, by name; nothing where a game's
    /// restricted inputs do not all name buttons.
    pub fn checked_game_command_list(&self) -> (r: Option<Table<ConstructedGameInfo>>)
        requires
            self.wf(),
        ensures
            r is Some == games_valid(self.game_rows()),
            r is Some ==> r->0.wf() && r->0.rows() == constructed_games(self.game_rows()),
    {
        if self.games_are_valid() {
            Some(self.game_command_list())
        } else {
            None
        }
    }
}

} // verus!
