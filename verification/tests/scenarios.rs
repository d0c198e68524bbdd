use twitch_gamepad::arbiter::{Arbiter, Forward};
use twitch_gamepad::command::{
    AnarchyType, Command, Message, Movement, MovementPacket, PartialCommand, Privilege,
};
use twitch_gamepad::config::{Config, GameCommandString, GameInfo, TwitchAuth, TwitchConfig};
use twitch_gamepad::database::{self, Database};
use twitch_gamepad::game_runner::{GameRunner, SfxRequest};
use twitch_gamepad::gamepad::{perform, Gamepad, GamepadAction, GamepadError, RunnerState, TICK_MS};
use twitch_gamepad::table::Table;

#[derive(Eq, PartialEq, Debug, Clone, Copy)]
enum ActionType {
    Press,
    Release,
}

#[derive(Default, Debug)]
struct DummyGamepad {
    actions: Vec<(Movement, ActionType)>,
    waited: u64,
}

impl Gamepad for DummyGamepad {
    fn press(&mut self, movement: Movement) -> Result<(), GamepadError> {
        self.actions.push((movement, ActionType::Press));
        Ok(())
    }

    fn release(&mut self, movement: Movement) -> Result<(), GamepadError> {
        self.actions.push((movement, ActionType::Release));
        Ok(())
    }
}

impl DummyGamepad {
    fn expect_sequence(&self, seq: &[(Movement, ActionType)]) {
        println!("expected: {:?}", seq);
        println!("actual: {:?}", self.actions);

        assert_eq!(seq.len(), self.actions.len());
        for (actual, expected) in self.actions.iter().zip(seq.iter()) {
            let (actual_movement, actual_type) = actual;
            let (expected_movement, expected_type) = expected;
            assert_eq!(actual_movement, expected_movement);
            assert_eq!(actual_type, expected_type);
        }
    }
}

struct TestSetup {
    db: Database,
    games: Option<Table<GameInfo>>,
    arbiter: Option<Arbiter>,
    runner: RunnerState,
    gamepad: DummyGamepad,
    game_runner_cmds: Vec<GameRunner>,
    sfx_cmds: Vec<SfxRequest>,
    now: i64,
}

impl TestSetup {
    fn new() -> Self {
        let mut db = database::in_memory();
        database::clear_db(&mut db);
        TestSetup {
            db,
            games: None,
            arbiter: None,
            runner: RunnerState::new(TICK_MS),
            gamepad: DummyGamepad::default(),
            game_runner_cmds: vec![],
            sfx_cmds: vec![],
            now: 1_700_000_000_000,
        }
    }

    fn with_games(games: Table<GameInfo>) -> Self {
        let mut setup = TestSetup::new();
        setup.games = Some(games);
        setup
    }

    fn take(&mut self, forwards: Vec<Forward>) {
        for forward in forwards {
            match forward {
                Forward::Gamepad(packet) => {
                    let actions = self.runner.process_message(Some(packet));
                    self.perform_all(actions);
                }
                Forward::Game(cmd) => self.game_runner_cmds.push(cmd),
                Forward::Sfx(req) => self.sfx_cmds.push(req),
            }
        }
    }

    fn perform_all(&mut self, actions: Vec<GamepadAction>) {
        for action in actions {
            self.gamepad.waited += perform(&mut self.gamepad, action).unwrap();
        }
    }

    fn start(&mut self) {
        if self.arbiter.is_none() {
            let config = Config {
                twitch: TwitchConfig {
                    channel_name: String::new(),
                    auth: TwitchAuth::Anonymous,
                },
                sound_effects: None,
                games: self.games.take(),
            };
            let games = config
                .checked_game_command_list()
                .expect("restricted inputs name buttons");
            let (arbiter, forwards) = Arbiter::start(&mut self.db, games, true);
            self.arbiter = Some(arbiter);
            self.take(forwards);
        }
    }

    fn send(&mut self, msg: Message) -> Option<String> {
        self.start();
        let now = self.now;
        let outcome = self
            .arbiter
            .as_mut()
            .unwrap()
            .handle(&mut self.db, msg, now);
        self.take(outcome.forwards);
        outcome.reply
    }

    fn tick(&mut self) -> bool {
        let (actions, done) = self.runner.process_tick();
        self.perform_all(actions);
        done
    }

    fn run(&mut self) {
        self.start();
        let actions = self.runner.process_message(None);
        self.perform_all(actions);
        let mut ticks = 0;
        while !self.tick() {
            ticks += 1;
            assert!(ticks < 100_000);
        }
    }
}

fn message(command: Command, id: &str, name: &str, privilege: Privilege) -> Message {
    Message {
        command,
        sender_id: id.to_owned(),
        sender_name: name.to_owned(),
        privilege,
    }
}

fn single_movement(movement: Movement) -> Command {
    let movements = vec![movement];
    Command::Movement(MovementPacket {
        movements,
        duration: 50,
        stagger: 0,
        blocking: true,
    })
}

fn packet(movements: Vec<Movement>, duration: u64, blocking: bool) -> Command {
    Command::Movement(MovementPacket {
        movements,
        duration,
        stagger: 0,
        blocking,
    })
}

fn game_info(command: &str, restricted: Option<Vec<String>>, controls: Option<String>) -> GameInfo {
    GameInfo {
        command: GameCommandString(command.to_owned()),
        restricted_inputs: restricted,
        controls,
    }
}

fn two_games() -> Table<GameInfo> {
    let mut games: Table<GameInfo> = Table::new();
    games.upsert(
        "Game 1".to_owned(),
        game_info("cmdforgame1 --command", None, None),
    );
    games.upsert(
        "Game 2".to_owned(),
        game_info("cmdforgame2 --command", None, None),
    );
    games
}

fn game_two_restricted() -> Table<GameInfo> {
    let mut games: Table<GameInfo> = Table::new();
    games.upsert(
        "Game 2".to_owned(),
        game_info(
            "cmdforgame2 --command",
            Some(vec!["start".to_owned()]),
            None,
        ),
    );
    games
}

const TEN_MINUTES: i64 = 10 * 60 * 1000;

#[test]
fn can_send_multiple_movements() {
    let mut test = TestSetup::new();
    test.send(message(
        Command::Movement(MovementPacket {
            movements: vec![Movement::A, Movement::B],
            duration: 50,
            stagger: 0,
            blocking: true,
        }),
        "user_id",
        "user_name",
        Privilege::Broadcaster,
    ));
    test.run();
    test.gamepad.expect_sequence(&[
        (Movement::A, ActionType::Press),
        (Movement::B, ActionType::Press),
        (Movement::B, ActionType::Release),
        (Movement::A, ActionType::Release),
    ]);
}

fn anyone_can_send_movements(privilege: Privilege) {
    let mut test = TestSetup::new();
    let reply = test.send(message(
        single_movement(Movement::A),
        "user_id",
        "user_name",
        privilege,
    ));
    assert_eq!(reply, None);
    test.run();
    test.gamepad.expect_sequence(&[
        (Movement::A, ActionType::Press),
        (Movement::A, ActionType::Release),
    ]);
}

#[test]
fn broadcaster_can_send_movements() {
    anyone_can_send_movements(Privilege::Broadcaster);
}

#[test]
fn moderator_can_send_movements() {
    anyone_can_send_movements(Privilege::Moderator);
}

#[test]
fn operator_can_send_movements() {
    anyone_can_send_movements(Privilege::Operator);
}

#[test]
fn user_can_send_movements() {
    anyone_can_send_movements(Privilege::Standard);
}

#[test]
fn user_is_subject_to_cooldown() {
    let mut test = TestSetup::new();
    let reply = test.send(message(
        Command::SetCooldown(TEN_MINUTES),
        "broadcaster_id",
        "broadcaster_name",
        Privilege::Broadcaster,
    ));
    assert_eq!(reply, Some("Set cooldown to 600 seconds".to_owned()));
    test.send(message(
        single_movement(Movement::A),
        "user_id",
        "user_name",
        Privilege::Standard,
    ));
    let second = test.send(message(
        single_movement(Movement::B),
        "user_id",
        "user_name",
        Privilege::Standard,
    ));
    assert_eq!(second, None);
    test.run();
    test.gamepad.expect_sequence(&[
        (Movement::A, ActionType::Press),
        (Movement::A, ActionType::Release),
    ]);
}

#[test]
fn user_may_send_again_once_the_cooldown_has_run_out() {
    let mut test = TestSetup::new();
    test.send(message(
        Command::SetCooldown(TEN_MINUTES),
        "broadcaster_id",
        "broadcaster_name",
        Privilege::Broadcaster,
    ));
    test.send(message(
        single_movement(Movement::A),
        "user_id",
        "user_name",
        Privilege::Standard,
    ));
    test.now += TEN_MINUTES - 1;
    test.send(message(
        single_movement(Movement::B),
        "user_id",
        "user_name",
        Privilege::Standard,
    ));
    // The attempt started the cooldown anew.
    test.now += TEN_MINUTES;
    test.send(message(
        single_movement(Movement::X),
        "user_id",
        "user_name",
        Privilege::Standard,
    ));
    test.run();
    test.gamepad.expect_sequence(&[
        (Movement::A, ActionType::Press),
        (Movement::A, ActionType::Release),
        (Movement::X, ActionType::Press),
        (Movement::X, ActionType::Release),
    ]);
}

#[test]
fn operator_is_not_subject_to_cooldown() {
    let mut test = TestSetup::new();
    test.send(message(
        Command::SetCooldown(TEN_MINUTES),
        "broadcaster_id",
        "broadcaster_name",
        Privilege::Broadcaster,
    ));
    test.send(message(
        single_movement(Movement::A),
        "user_id",
        "user_name",
        Privilege::Operator,
    ));
    test.send(message(
        single_movement(Movement::B),
        "user_id",
        "user_name",
        Privilege::Operator,
    ));
    test.run();
    test.gamepad.expect_sequence(&[
        (Movement::A, ActionType::Press),
        (Movement::A, ActionType::Release),
        (Movement::B, ActionType::Press),
        (Movement::B, ActionType::Release),
    ]);
}

#[test]
fn user_cannot_set_cooldown() {
    let mut test = TestSetup::new();
    let reply = test.send(message(
        Command::SetCooldown(TEN_MINUTES),
        "user_id",
        "user_name",
        Privilege::Standard,
    ));
    assert_eq!(
        reply,
        Some("You don't have permission to do that".to_owned())
    );
    test.run();

    let cooldown: String = database::get_kv(&test.db, "cooldown").unwrap();
    let cooldown: i64 = cooldown.parse().unwrap();
    assert!(cooldown == 0);
    test.gamepad.expect_sequence(&[]);
}

#[test]
fn user_cannot_set_anarchy_mode() {
    let mut test = TestSetup::new();
    test.send(message(
        Command::SetAnarchyMode(AnarchyType::Anarchy),
        "user_id",
        "user_name",
        Privilege::Standard,
    ));
    test.run();

    let anarchy_mode: String = database::get_kv(&test.db, "anarchy_mode").unwrap();
    assert_eq!(&anarchy_mode, AnarchyType::Democracy.to_str());
    test.gamepad.expect_sequence(&[]);
}

#[test]
fn anarchy_mode_and_cooldown_restored_from_db() {
    let mut test = TestSetup::new();
    database::set_kv(&mut test.db, "anarchy_mode", AnarchyType::Anarchy.to_str());
    database::set_kv(&mut test.db, "cooldown", "10000");

    test.run();

    let anarchy_mode: String = database::get_kv(&test.db, "anarchy_mode").unwrap();
    assert_eq!(&anarchy_mode, AnarchyType::Anarchy.to_str());

    let cooldown: String = database::get_kv(&test.db, "cooldown").unwrap();
    let cooldown: u64 = cooldown.parse().unwrap();
    assert_eq!(cooldown, 10000);

    let arbiter = test.arbiter.as_ref().unwrap();
    assert_eq!(arbiter.anarchy_mode, AnarchyType::Anarchy);
    assert_eq!(arbiter.cooldown, 10000);

    test.gamepad.expect_sequence(&[]);
}

#[test]
fn can_recover_from_malformed_cooldown_or_anarchy_mode_in_db() {
    let mut test = TestSetup::new();
    database::set_kv(&mut test.db, "anarchy_mode", "invalid");
    database::set_kv(&mut test.db, "cooldown", "invalid");

    test.run();

    let anarchy_mode: String = database::get_kv(&test.db, "anarchy_mode").unwrap();
    assert_eq!(&anarchy_mode, AnarchyType::Democracy.to_str());

    let cooldown: String = database::get_kv(&test.db, "cooldown").unwrap();
    let cooldown: u64 = cooldown.parse().unwrap();
    assert_eq!(cooldown, 0);

    let arbiter = test.arbiter.as_ref().unwrap();
    assert_eq!(arbiter.anarchy_mode, AnarchyType::Democracy);
    assert_eq!(arbiter.cooldown, 0);

    test.gamepad.expect_sequence(&[]);
}

#[test]
fn settings_written_by_one_arbiter_are_held_by_the_next() {
    let mut test = TestSetup::new();
    test.send(message(
        Command::SetAnarchyMode(AnarchyType::Restricted),
        "mod_id",
        "mod_name",
        Privilege::Moderator,
    ));
    test.send(message(
        Command::SetCooldown(2_500),
        "mod_id",
        "mod_name",
        Privilege::Moderator,
    ));
    let (again, _) = Arbiter::start(&mut test.db, Table::new(), false);
    assert_eq!(again.anarchy_mode, AnarchyType::Restricted);
    assert_eq!(again.cooldown, 2_500);
}

#[test]
fn blocks_and_cooldown_is_ignored_in_anarchy_mode() {
    let mut test = TestSetup::new();
    database::update_user(&mut test.db, "user_id", "user_name");
    database::block_user(&mut test.db, "user_name", None);

    test.send(message(
        Command::SetCooldown(TEN_MINUTES),
        "broadcaster_id",
        "broadcaster_name",
        Privilege::Broadcaster,
    ));
    test.send(message(
        Command::SetAnarchyMode(AnarchyType::Anarchy),
        "broadcaster_id",
        "broadcaster_name",
        Privilege::Broadcaster,
    ));
    test.send(message(
        single_movement(Movement::A),
        "user_id",
        "user_name",
        Privilege::Standard,
    ));
    test.send(message(
        single_movement(Movement::B),
        "user_id",
        "user_name",
        Privilege::Standard,
    ));
    test.run();
    test.gamepad.expect_sequence(&[
        (Movement::A, ActionType::Press),
        (Movement::A, ActionType::Release),
        (Movement::B, ActionType::Press),
        (Movement::B, ActionType::Release),
    ]);
}

fn privileged_can_block(blocker_id: &str, blocker_name: &str, privilege: Privilege) {
    let mut test = TestSetup::new();
    test.send(message(
        single_movement(Movement::A),
        "user_id",
        "user_name",
        Privilege::Standard,
    ));
    let reply = test.send(message(
        Command::Block("user_name".to_owned(), None),
        blocker_id,
        blocker_name,
        privilege,
    ));
    assert_eq!(reply, Some("Blocked user_name forever".to_owned()));
    test.send(message(
        single_movement(Movement::B),
        "user_id",
        "user_name",
        Privilege::Standard,
    ));
    test.run();
    let now = test.now;
    assert!(database::is_blocked(&mut test.db, "user_id", now));
    test.gamepad.expect_sequence(&[
        (Movement::A, ActionType::Press),
        (Movement::A, ActionType::Release),
    ]);
}

#[test]
fn broadcaster_can_block_user_is_blocked() {
    privileged_can_block("broadcaster_id", "broadcaster_name", Privilege::Broadcaster);
}

#[test]
fn moderator_can_block_user_is_blocked() {
    privileged_can_block("mod_id", "mod_name", Privilege::Moderator);
}

#[test]
fn user_cannot_block_user_is_not_blocked() {
    let mut test = TestSetup::new();
    test.send(message(
        single_movement(Movement::A),
        "user_id",
        "user_name",
        Privilege::Standard,
    ));
    let reply = test.send(message(
        Command::Block("user_name".to_owned(), None),
        "u2_id",
        "u2_name",
        Privilege::Standard,
    ));
    assert_eq!(
        reply,
        Some("You don't have permission to do that".to_owned())
    );
    test.send(message(
        single_movement(Movement::B),
        "user_id",
        "user_name",
        Privilege::Standard,
    ));
    test.run();
    let now = test.now;
    assert!(!database::is_blocked(&mut test.db, "user_id", now));
    test.gamepad.expect_sequence(&[
        (Movement::A, ActionType::Press),
        (Movement::A, ActionType::Release),
        (Movement::B, ActionType::Press),
        (Movement::B, ActionType::Release),
    ]);
}

fn someone_ops_user(id: &str, name: &str, privilege: Privilege, expected: bool) {
    let mut test = TestSetup::new();
    test.send(message(
        single_movement(Movement::A),
        "user_id",
        "user_name",
        Privilege::Standard,
    ));
    let reply = test.send(message(
        Command::AddOperator("user_name".to_owned()),
        id,
        name,
        privilege,
    ));
    if expected {
        assert_eq!(reply, Some("Added user_name as operator".to_owned()));
    } else {
        assert_eq!(
            reply,
            Some("You don't have permission to do that".to_owned())
        );
    }
    test.run();
    assert_eq!(database::is_operator(&test.db, "user_id"), expected);
    test.gamepad.expect_sequence(&[
        (Movement::A, ActionType::Press),
        (Movement::A, ActionType::Release),
    ]);
}

#[test]
fn broadcaster_can_op_user() {
    someone_ops_user(
        "broadcaster_id",
        "broadcaster_name",
        Privilege::Broadcaster,
        true,
    );
}

#[test]
fn moderator_can_op_user() {
    someone_ops_user("mod_id", "mod_name", Privilege::Moderator, true);
}

#[test]
fn operator_cannot_op_user() {
    someone_ops_user("operator_id", "operator_name", Privilege::Operator, false);
}

#[test]
fn user_can_be_unblocked() {
    let mut test = TestSetup::new();
    database::update_user(&mut test.db, "user_id", "user_name");
    database::block_user(&mut test.db, "user_name", None);
    test.send(message(
        single_movement(Movement::A),
        "user_id",
        "user_name",
        Privilege::Standard,
    ));
    let reply = test.send(message(
        Command::Unblock("user_name".to_owned()),
        "broadcaster_id",
        "broadcaster_name",
        Privilege::Moderator,
    ));
    assert_eq!(reply, Some("Unblocked user_name".to_owned()));
    test.send(message(
        single_movement(Movement::B),
        "user_id",
        "user_name",
        Privilege::Standard,
    ));
    test.run();
    let now = test.now;
    assert!(!database::is_blocked(&mut test.db, "user_id", now));
    test.gamepad.expect_sequence(&[
        (Movement::B, ActionType::Press),
        (Movement::B, ActionType::Release),
    ]);
}

#[test]
fn user_can_be_deoped() {
    let mut test = TestSetup::new();
    database::update_user(&mut test.db, "user_id", "user_name");
    database::op_user(&mut test.db, "user_name");
    let reply = test.send(message(
        Command::RemoveOperator("user_name".to_owned()),
        "broadcaster_id",
        "broadcaster_name",
        Privilege::Moderator,
    ));
    assert_eq!(reply, Some("Removed user_name as operator".to_owned()));
    test.run();
    assert!(!database::is_operator(&test.db, "user_id"));
}

#[test]
fn user_is_unblocked_after_duration_lapses() {
    let mut test = TestSetup::new();
    database::update_user(&mut test.db, "user_id", "user_name");
    let now = test.now;
    database::block_user(&mut test.db, "user_name", Some(now));
    assert_eq!(test.db.blocked_users.len(), 1);

    test.send(message(
        single_movement(Movement::A),
        "user_id",
        "user_name",
        Privilege::Standard,
    ));
    test.run();
    assert_eq!(test.db.blocked_users.len(), 0);
    assert!(!database::is_blocked(&mut test.db, "user_id", now));
    test.gamepad.expect_sequence(&[
        (Movement::A, ActionType::Press),
        (Movement::A, ActionType::Release),
    ]);
}

#[test]
fn user_stays_blocked_until_the_block_ends() {
    let mut test = TestSetup::new();
    database::update_user(&mut test.db, "user_id", "user_name");
    let now = test.now;
    database::block_user(&mut test.db, "user_name", Some(now + 1));
    test.send(message(
        single_movement(Movement::A),
        "user_id",
        "user_name",
        Privilege::Standard,
    ));
    assert_eq!(test.db.blocked_users.len(), 1);
    test.now += 1;
    test.send(message(
        single_movement(Movement::B),
        "user_id",
        "user_name",
        Privilege::Standard,
    ));
    test.run();
    assert_eq!(test.db.blocked_users.len(), 0);
    test.gamepad.expect_sequence(&[
        (Movement::B, ActionType::Press),
        (Movement::B, ActionType::Release),
    ]);
}

#[test]
fn timed_block_is_answered_with_its_end() {
    let mut test = TestSetup::new();
    database::update_user(&mut test.db, "user_id", "user_name");
    let end = test.now + 60_000;
    let reply = test
        .send(message(
            Command::Block("user_name".to_owned(), Some(end)),
            "mod_id",
            "mod_name",
            Privilege::Moderator,
        ))
        .unwrap();
    assert!(reply.starts_with("Blocked user_name until "));
    assert!(reply.len() > "Blocked user_name until ".len());

    test.start();
    let now = test.now;
    let outcome = test.arbiter.as_mut().unwrap().handle_with(
        &mut test.db,
        message(
            Command::Block("user_name".to_owned(), Some(end)),
            "mod_id",
            "mod_name",
            Privilege::Moderator,
        ),
        now,
        "teatime",
    );
    assert_eq!(
        outcome.reply,
        Some("Blocked user_name until teatime".to_owned())
    );

    let unknown = test.send(message(
        Command::Block("nobody".to_owned(), None),
        "mod_id",
        "mod_name",
        Privilege::Moderator,
    ));
    assert_eq!(
        unknown,
        Some("Could not find user nobody, they probably haven't played".to_owned())
    );
}

#[test]
fn can_list_blocked_users() {
    let mut test = TestSetup::new();
    database::update_user(&mut test.db, "u1_id", "u1_name");
    database::block_user(&mut test.db, "u1_name", None);
    database::update_user(&mut test.db, "u2_id", "u2_name");
    database::block_user(&mut test.db, "u2_name", None);

    let response = test
        .send(message(
            Command::ListBlocked,
            "broadcaster_id",
            "broadcaster_name",
            Privilege::Standard,
        ))
        .unwrap();

    let blocked_users: Vec<&str> = response.split(", ").collect();
    assert_eq!(blocked_users.len(), 2);
    assert!(blocked_users[0] == "u1_name" || blocked_users[1] == "u1_name");
    assert!(blocked_users[0] == "u2_name" || blocked_users[1] == "u2_name");
    test.run();
}

#[test]
fn can_list_op_users() {
    let mut test = TestSetup::new();
    database::update_user(&mut test.db, "u1_id", "u1_name");
    database::op_user(&mut test.db, "u1_name");
    database::update_user(&mut test.db, "u2_id", "u2_name");
    database::op_user(&mut test.db, "u2_name");

    let response = test
        .send(message(
            Command::ListOperators,
            "broadcaster_id",
            "broadcaster_name",
            Privilege::Standard,
        ))
        .unwrap();

    let op_users: Vec<&str> = response.split(", ").collect();
    assert_eq!(op_users.len(), 2);
    assert!(op_users[0] == "u1_name" || op_users[1] == "u1_name");
    assert!(op_users[0] == "u2_name" || op_users[1] == "u2_name");
    test.run();
}

#[test]
fn can_list_games() {
    let mut test = TestSetup::with_games(two_games());
    let response = test
        .send(message(
            Command::ListGames,
            "broadcaster_id",
            "broadcaster_name",
            Privilege::Standard,
        ))
        .unwrap();

    let games: Vec<&str> = response.split(", ").collect();
    assert_eq!(games.len(), 2);
    assert!(games[0] == "Game 1" || games[1] == "Game 1");
    assert!(games[0] == "Game 2" || games[1] == "Game 2");
    test.run();
}

fn hotkey_by_operator(command: Command, second: Movement, reply: &str) {
    let mut test = TestSetup::new();
    database::update_user(&mut test.db, "user_id", "user_name");
    database::op_user(&mut test.db, "user_name");
    let answer = test.send(message(command, "user_id", "user_name", Privilege::Standard));
    assert_eq!(answer, Some(reply.to_owned()));
    test.run();
    test.gamepad.expect_sequence(&[
        (Movement::Mode, ActionType::Press),
        (second, ActionType::Press),
        (second, ActionType::Release),
        (Movement::Mode, ActionType::Release),
    ]);
    // Two presses and two releases, each followed by the stagger; the hold;
    // the rest at the end.
    assert_eq!(test.gamepad.waited, 4 * 100 + 100 + 50);
}

fn hotkey_refused(command: Command) {
    let mut test = TestSetup::new();
    database::update_user(&mut test.db, "user_id", "user_name");
    let answer = test.send(message(command, "user_id", "user_name", Privilege::Standard));
    assert_eq!(
        answer,
        Some("You don't have permission to do that".to_owned())
    );
    test.run();
    test.gamepad.expect_sequence(&[]);
}

#[test]
fn operator_can_save_state() {
    hotkey_by_operator(Command::SaveState, Movement::A, "Saved game state");
}

#[test]
fn operator_can_load_state() {
    hotkey_by_operator(Command::LoadState, Movement::B, "Loaded game state");
}

#[test]
fn user_cannot_save_state() {
    hotkey_refused(Command::SaveState);
}

#[test]
fn user_cannot_load_state() {
    hotkey_refused(Command::LoadState);
}

#[test]
fn operator_can_reset_game() {
    hotkey_by_operator(Command::Reset, Movement::X, "Reset current game");
}

#[test]
fn user_cannot_reset_game() {
    hotkey_refused(Command::Reset);
}

#[test]
fn moderator_can_switch_games() {
    let mut test = TestSetup::with_games(two_games());
    let reply = test.send(message(
        Command::Game("Game 2".to_owned()),
        "user_id",
        "user_name",
        Privilege::Moderator,
    ));
    assert_eq!(reply, None);
    test.run();

    assert_eq!(test.game_runner_cmds.len(), 1);
    assert_eq!(
        test.game_runner_cmds[0],
        GameRunner::SwitchTo(GameCommandString("cmdforgame2 --command".to_owned()).to_command())
    );
}

#[test]
fn unknown_game_is_answered_with_a_pointer_to_the_list() {
    let mut test = TestSetup::with_games(two_games());
    let reply = test.send(message(
        Command::Game("Game 3".to_owned()),
        "user_id",
        "user_name",
        Privilege::Moderator,
    ));
    assert_eq!(
        reply,
        Some("No game Game 3 found, see full list with \"tp games\"".to_owned())
    );
    assert_eq!(test.game_runner_cmds.len(), 0);
}

#[test]
fn moderator_can_stop_gameplay() {
    let mut test = TestSetup::with_games(two_games());
    let reply = test.send(message(
        Command::Stop,
        "user_id",
        "user_name",
        Privilege::Moderator,
    ));
    assert_eq!(reply, None);
    test.run();

    assert_eq!(test.game_runner_cmds.len(), 1);
    assert_eq!(test.game_runner_cmds[0], GameRunner::Stop);
}

#[test]
fn user_cannot_switch_games() {
    let mut test = TestSetup::with_games(two_games());
    let reply = test.send(message(
        Command::Game("Game 2".to_owned()),
        "user_id",
        "user_name",
        Privilege::Standard,
    ));
    assert_eq!(
        reply,
        Some("You don't have permission to do that".to_owned())
    );
    test.run();
    assert_eq!(test.game_runner_cmds.len(), 0);
}

#[test]
fn user_cannot_stop_gameplay() {
    let mut test = TestSetup::with_games(two_games());
    let reply = test.send(message(
        Command::Stop,
        "user_id",
        "user_name",
        Privilege::Standard,
    ));
    assert_eq!(
        reply,
        Some("You don't have permission to do that".to_owned())
    );
    test.run();
    assert_eq!(test.game_runner_cmds.len(), 0);
}

#[test]
fn a_game_that_runs_is_stopped_and_another_started() {
    let mut test = TestSetup::with_games(two_games());
    for command in [
        Command::Game("Game 1".to_owned()),
        Command::Stop,
        Command::Game("Game 2".to_owned()),
    ] {
        test.send(message(command, "mod_id", "mod_name", Privilege::Moderator));
    }
    assert_eq!(
        test.game_runner_cmds,
        vec![
            GameRunner::SwitchTo(GameCommandString("cmdforgame1 --command".to_owned()).to_command()),
            GameRunner::Stop,
            GameRunner::SwitchTo(GameCommandString("cmdforgame2 --command".to_owned()).to_command()),
        ]
    );
}

#[test]
fn restricted_inputs_are_blocked_in_normal_modes() {
    let mut test = TestSetup::with_games(game_two_restricted());
    test.send(message(
        Command::Game("Game 2".to_owned()),
        "user_id",
        "user_name",
        Privilege::Moderator,
    ));
    test.send(message(
        packet(vec![Movement::Start, Movement::B], 50, true),
        "user_id",
        "user_name",
        Privilege::Moderator,
    ));
    test.run();

    assert_eq!(test.game_runner_cmds.len(), 1);
    assert_eq!(
        test.game_runner_cmds[0],
        GameRunner::SwitchTo(GameCommandString("cmdforgame2 --command".to_owned()).to_command())
    );
    test.gamepad.expect_sequence(&[]);
}

#[test]
fn restricted_inputs_are_not_blocked_in_restricted_mode() {
    let mut test = TestSetup::with_games(game_two_restricted());
    database::update_user(&mut test.db, "op_id", "op_name");
    database::op_user(&mut test.db, "op_name");

    test.send(message(
        Command::Game("Game 2".to_owned()),
        "user_id",
        "user_name",
        Privilege::Moderator,
    ));
    let reply = test.send(message(
        Command::SetAnarchyMode(AnarchyType::Restricted),
        "user_id",
        "user_name",
        Privilege::Moderator,
    ));
    assert_eq!(reply, Some("Set mode to restricted".to_owned()));
    test.send(message(
        packet(vec![Movement::Start, Movement::B], 50, true),
        "op_id",
        "op_name",
        Privilege::Standard,
    ));
    test.run();

    assert_eq!(test.game_runner_cmds.len(), 1);
    test.gamepad.expect_sequence(&[
        (Movement::Start, ActionType::Press),
        (Movement::B, ActionType::Press),
        (Movement::B, ActionType::Release),
        (Movement::Start, ActionType::Release),
    ]);
}

#[test]
fn users_cannot_send_input_in_restricted_mode() {
    let mut test = TestSetup::with_games(game_two_restricted());
    test.send(message(
        Command::Game("Game 2".to_owned()),
        "mod_id",
        "mod_name",
        Privilege::Moderator,
    ));
    test.send(message(
        Command::SetAnarchyMode(AnarchyType::Restricted),
        "mod_id",
        "mod_name",
        Privilege::Moderator,
    ));
    let reply = test.send(message(
        single_movement(Movement::A),
        "user_id",
        "user_name",
        Privilege::Standard,
    ));
    assert_eq!(reply, None);
    let help = test.send(message(
        Command::PrintHelp,
        "user_id",
        "user_name",
        Privilege::Standard,
    ));
    assert_eq!(help, None);
    test.run();

    assert_eq!(test.game_runner_cmds.len(), 1);
    test.gamepad.expect_sequence(&[]);
}

#[test]
fn can_interrupt_movements_with_direction() {
    let mut test = TestSetup::new();
    test.send(message(
        packet(vec![Movement::Left], 1000 * 60 * 2, false),
        "user_id",
        "user_name",
        Privilege::Broadcaster,
    ));
    test.send(message(
        packet(vec![Movement::Start], 50, false),
        "user_id",
        "user_name",
        Privilege::Broadcaster,
    ));
    test.run();

    test.gamepad.expect_sequence(&[
        (Movement::Left, ActionType::Press),
        (Movement::Left, ActionType::Release),
        (Movement::Start, ActionType::Press),
        (Movement::Start, ActionType::Release),
    ]);
}

#[test]
fn only_directional_movements_are_interrupted() {
    let mut test = TestSetup::new();
    test.send(message(
        packet(vec![Movement::Left, Movement::B], 400, false),
        "user_id",
        "user_name",
        Privilege::Broadcaster,
    ));
    test.send(message(
        packet(vec![Movement::Start], 50, false),
        "user_id",
        "user_name",
        Privilege::Broadcaster,
    ));
    test.run();

    test.gamepad.expect_sequence(&[
        (Movement::Left, ActionType::Press),
        (Movement::B, ActionType::Press),
        (Movement::Left, ActionType::Release),
        (Movement::Start, ActionType::Press),
        (Movement::Start, ActionType::Release),
        (Movement::B, ActionType::Release),
    ]);
}

#[test]
fn held_start_and_select_are_interrupted_too() {
    let mut test = TestSetup::new();
    test.send(message(
        packet(vec![Movement::Select], 1000, false),
        "user_id",
        "user_name",
        Privilege::Broadcaster,
    ));
    test.send(message(
        packet(vec![Movement::Up], 50, false),
        "user_id",
        "user_name",
        Privilege::Broadcaster,
    ));
    test.run();

    test.gamepad.expect_sequence(&[
        (Movement::Select, ActionType::Press),
        (Movement::Select, ActionType::Release),
        (Movement::Up, ActionType::Press),
        (Movement::Up, ActionType::Release),
    ]);
}

#[test]
fn saving_cannot_be_interrupted() {
    let mut test = TestSetup::new();
    test.send(message(
        packet(vec![Movement::Select], 250, false),
        "user_id",
        "user_name",
        Privilege::Broadcaster,
    ));
    test.send(message(
        Command::SaveState,
        "user_id",
        "user_name",
        Privilege::Broadcaster,
    ));
    test.send(message(
        packet(vec![Movement::Start], 50, false),
        "user_id",
        "user_name",
        Privilege::Broadcaster,
    ));
    test.run();
    test.gamepad.expect_sequence(&[
        (Movement::Select, ActionType::Press),
        (Movement::Select, ActionType::Release),
        (Movement::Mode, ActionType::Press),
        (Movement::A, ActionType::Press),
        (Movement::A, ActionType::Release),
        (Movement::Mode, ActionType::Release),
        (Movement::Start, ActionType::Press),
        (Movement::Start, ActionType::Release),
    ]);
}

#[test]
fn same_button_presses_are_sequenced() {
    let mut test = TestSetup::new();
    for duration in [100, 100, 50] {
        test.send(message(
            packet(vec![Movement::A], duration, false),
            "user_id",
            "user_name",
            Privilege::Broadcaster,
        ));
    }
    test.run();

    test.gamepad.expect_sequence(&[
        (Movement::A, ActionType::Press),
        (Movement::A, ActionType::Release),
        (Movement::A, ActionType::Press),
        (Movement::A, ActionType::Release),
        (Movement::A, ActionType::Press),
        (Movement::A, ActionType::Release),
    ]);
}

#[test]
fn sfx_are_enabled_in_stream_mode_and_games_cannot_be_started() {
    let mut test = TestSetup::with_games(game_two_restricted());
    let reply = test.send(message(
        Command::SetAnarchyMode(AnarchyType::Streaming),
        "user_id",
        "user_name",
        Privilege::Moderator,
    ));
    assert_eq!(reply, Some("Set mode to streaming".to_owned()));
    let reply = test.send(message(
        Command::Game("Game 2".to_owned()),
        "user_id",
        "user_name",
        Privilege::Moderator,
    ));
    assert_eq!(
        reply,
        Some("Cannot start game in streaming mode, change mode first".to_owned())
    );
    test.send(message(
        packet(vec![Movement::Start, Movement::B], 50, true),
        "user_id",
        "user_name",
        Privilege::Moderator,
    ));
    test.run();

    assert_eq!(test.game_runner_cmds.len(), 1);
    assert_eq!(test.game_runner_cmds[0], GameRunner::Stop);
    assert_eq!(test.sfx_cmds.len(), 2);
    assert_eq!(test.sfx_cmds[0], SfxRequest::Enable(false));
    assert_eq!(test.sfx_cmds[1], SfxRequest::Enable(true));
    test.gamepad.expect_sequence(&[]);
}

#[test]
fn games_can_be_started_after_switching_from_stream_mode() {
    let mut test = TestSetup::with_games(game_two_restricted());
    // Initialize in streaming setting
    database::set_kv(&mut test.db, "anarchy_mode", "streaming");

    test.send(message(
        Command::SetAnarchyMode(AnarchyType::Democracy),
        "user_id",
        "user_name",
        Privilege::Moderator,
    ));
    test.send(message(
        Command::Game("Game 2".to_owned()),
        "user_id",
        "user_name",
        Privilege::Moderator,
    ));
    test.send(message(
        single_movement(Movement::A),
        "user_id",
        "user_name",
        Privilege::Moderator,
    ));
    test.run();

    assert_eq!(test.game_runner_cmds.len(), 1);
    assert_eq!(
        test.game_runner_cmds[0],
        GameRunner::SwitchTo(GameCommandString("cmdforgame2 --command".to_owned()).to_command())
    );
    assert_eq!(test.sfx_cmds.len(), 1);
    assert_eq!(test.sfx_cmds[0], SfxRequest::Enable(false));
    test.gamepad.expect_sequence(&[
        (Movement::A, ActionType::Press),
        (Movement::A, ActionType::Release),
    ]);
}

#[test]
fn help_grows_with_privilege() {
    let mut test = TestSetup::new();
    let mut help = |privilege: Privilege| {
        test.send(message(
            Command::PrintHelp,
            "user_id",
            "user_name",
            privilege,
        ))
        .unwrap()
    };
    let standard = help(Privilege::Standard);
    assert_eq!(
        standard,
        "Move with standard controller buttons (up, down, a, b, tl, tr, etc.)"
    );
    let operator = help(Privilege::Operator);
    assert!(operator.starts_with(&standard));
    assert!(operator.ends_with("tp save/load - save or load state, tp reset - reset game"));
    let moderator = help(Privilege::Moderator);
    assert!(moderator.starts_with(&operator));
    assert!(moderator.ends_with("tp cooldown - set command cooldown"));
    let broadcaster = help(Privilege::Broadcaster);
    assert!(broadcaster.starts_with(&moderator));
    assert!(broadcaster.ends_with(", tp sfx - play sound effects"));
}

#[test]
fn usage_hints() {
    let mut test = TestSetup::new();
    let cases = [
        (PartialCommand::AddOperator, "Usage: tp op <user>"),
        (PartialCommand::RemoveOperator, "Usage: tp deop <user>"),
        (
            PartialCommand::Block,
            "Usage: tp block <user> [optional: duration]",
        ),
        (PartialCommand::Unblock, "Usage: tp unblock <user>"),
        (PartialCommand::Game, "Usage: tp game <game-name>"),
        (PartialCommand::List, "Usage: tp list games | blocked | ops"),
        (PartialCommand::SetCooldown, "Usage: tp cooldown <duration>"),
        (
            PartialCommand::SetAnarchyMode,
            "Usage: tp mode <anarchy | democracy | restricted | streaming>",
        ),
        (PartialCommand::PlaySfx, "Usage: tp sfx <sound effect>"),
    ];
    for (hint, text) in cases {
        let reply = test.send(message(
            Command::Partial(hint),
            "user_id",
            "user_name",
            Privilege::Standard,
        ));
        assert_eq!(reply, Some(text.to_owned()));
    }
}

#[test]
fn mode_and_controls_are_shown() {
    let mut games: Table<GameInfo> = Table::new();
    games.upsert(
        "Plain".to_owned(),
        game_info("plain", None, None),
    );
    games.upsert(
        "Fancy".to_owned(),
        game_info("fancy --now", None, Some("a jumps".to_owned())),
    );
    let mut test = TestSetup::with_games(games);
    let mut ask = |command: Command| {
        test.send(message(command, "mod_id", "mod_name", Privilege::Moderator))
    };
    assert_eq!(
        ask(Command::PrintAnarchyMode),
        Some("Current mode is democracy".to_owned())
    );
    assert_eq!(
        ask(Command::Controls(None)),
        Some("No game is being played currently".to_owned())
    );
    assert_eq!(
        ask(Command::Controls(Some("Nope".to_owned()))),
        Some("No game of that name found".to_owned())
    );
    assert_eq!(
        ask(Command::Controls(Some("Fancy".to_owned()))),
        Some("Fancy controls: a jumps".to_owned())
    );
    assert_eq!(ask(Command::Game("Plain".to_owned())), None);
    assert_eq!(
        ask(Command::Controls(None)),
        Some("Plain has no specific controls".to_owned())
    );
    assert_eq!(ask(Command::Stop), None);
    assert_eq!(
        ask(Command::Controls(None)),
        Some("No game is being played currently".to_owned())
    );
}

#[test]
fn only_the_broadcaster_plays_sound_effects() {
    let mut test = TestSetup::new();
    let refused = test.send(message(
        Command::PlaySfx("horn".to_owned()),
        "mod_id",
        "mod_name",
        Privilege::Moderator,
    ));
    assert_eq!(
        refused,
        Some("You don't have permission to do that".to_owned())
    );
    let played = test.send(message(
        Command::PlaySfx("horn".to_owned()),
        "b_id",
        "b_name",
        Privilege::Broadcaster,
    ));
    assert_eq!(played, None);
    assert_eq!(
        test.sfx_cmds,
        vec![
            SfxRequest::Enable(false),
            SfxRequest::Named("horn".to_owned())
        ]
    );
}

#[test]
fn without_sound_effects_nothing_is_sent_to_them() {
    let mut db = database::in_memory();
    let (mut arbiter, forwards) = Arbiter::start(&mut db, Table::new(), false);
    assert!(forwards.is_empty());
    let outcome = arbiter.handle(
        &mut db,
        message(
            Command::SetAnarchyMode(AnarchyType::Streaming),
            "b_id",
            "b_name",
            Privilege::Broadcaster,
        ),
        0,
    );
    assert_eq!(outcome.forwards, vec![Forward::Game(GameRunner::Stop)]);
    assert_eq!(arbiter.anarchy_mode, AnarchyType::Streaming);
    let outcome = arbiter.handle(
        &mut db,
        message(
            Command::PlaySfx("horn".to_owned()),
            "b_id",
            "b_name",
            Privilege::Broadcaster,
        ),
        0,
    );
    assert!(outcome.forwards.is_empty());
}
