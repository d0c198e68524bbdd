use twitch_gamepad::command::{AnarchyType, Command, Movement, MovementPacket, Privilege};
use twitch_gamepad::config::{
    construct_game, read_restricted_inputs, Config, GameCommand, GameCommandString, GameInfo,
    SoundEffectConfig, TwitchAuth, TwitchConfig,
};
use twitch_gamepad::database;
use twitch_gamepad::game_runner::SfxRequest::SubEvent;
use twitch_gamepad::game_runner::{GameRunner, SfxPlayer, SfxRequest, Supervisor, SupervisorAction};
use twitch_gamepad::gamepad::{
    blocking_movement, GamepadAction, RunnerEvent, RunnerState, TICK_MS,
};
use twitch_gamepad::table::Table;
use twitch_gamepad::twitch::{is_moderator, read_chat_line, read_chat_line_at, user_privilege};

fn sound_config() -> SoundEffectConfig {
    let mut sub_events = Vec::new();
    sub_events.push((20, "20".to_owned()));
    sub_events.push((60, "60".to_owned()));
    sub_events.push((80, "80".to_owned()));
    sub_events.push((100, "100".to_owned()));

    let mut sounds = Table::new();
    sounds.upsert("20".to_owned(), "20".to_owned());
    sounds.upsert("60".to_owned(), "60".to_owned());
    sounds.upsert("80".to_owned(), "80".to_owned());
    sounds.upsert("100".to_owned(), "100".to_owned());

    SoundEffectConfig {
        command: "cmd".to_owned(),
        sounds,
        sub_events,
    }
}

#[test]
fn test_sub_events() {
    let cfg = sound_config();

    assert_eq!(SubEvent(10).to_file(&cfg), None);
    assert_eq!(SubEvent(20).to_file(&cfg), Some(&"20".to_owned()));
    assert_eq!(SubEvent(30).to_file(&cfg), Some(&"20".to_owned()));
    assert_eq!(SubEvent(60).to_file(&cfg), Some(&"60".to_owned()));
    assert_eq!(SubEvent(70).to_file(&cfg), Some(&"60".to_owned()));
    assert_eq!(SubEvent(80).to_file(&cfg), Some(&"80".to_owned()));
    assert_eq!(SubEvent(99).to_file(&cfg), Some(&"80".to_owned()));
    assert_eq!(SubEvent(100).to_file(&cfg), Some(&"100".to_owned()));
    assert_eq!(SubEvent(2147483647).to_file(&cfg), Some(&"100".to_owned()));
}

#[test]
fn sub_events_in_any_order_and_sounds_that_are_missing() {
    let mut cfg = sound_config();
    cfg.sub_events = vec![
        (80, "80".to_owned()),
        (20, "20".to_owned()),
        (100, "gone".to_owned()),
        (60, "60".to_owned()),
        (60, "80".to_owned()),
    ];
    assert_eq!(SfxRequest::SubEvent(19).to_file(&cfg), None);
    assert_eq!(
        SfxRequest::SubEvent(59).to_file(&cfg),
        Some(&"20".to_owned())
    );
    // Of two entries with one threshold the later counts.
    assert_eq!(
        SfxRequest::SubEvent(60).to_file(&cfg),
        Some(&"80".to_owned())
    );
    assert_eq!(
        SfxRequest::SubEvent(99).to_file(&cfg),
        Some(&"80".to_owned())
    );
    assert_eq!(SfxRequest::SubEvent(100).to_file(&cfg), None);
    assert_eq!(
        SfxRequest::Named("60".to_owned()).to_file(&cfg),
        Some(&"60".to_owned())
    );
    assert_eq!(SfxRequest::Named("none".to_owned()).to_file(&cfg), None);
    assert_eq!(SfxRequest::Enable(true).to_file(&cfg), None);
}

#[test]
fn sound_effects_play_only_while_they_are_on() {
    let cfg = sound_config();
    let mut player = SfxPlayer::new();
    assert!(player.is_enabled);
    let play = GameCommand {
        command: "cmd".to_owned(),
        args: vec!["60".to_owned(), "--fullscreen".to_owned()],
    };
    assert_eq!(
        player.handle(&SfxRequest::SubEvent(61), &cfg),
        Some(play.clone())
    );
    assert_eq!(player.handle(&SfxRequest::Enable(false), &cfg), None);
    assert!(!player.is_enabled);
    assert_eq!(player.handle(&SfxRequest::SubEvent(61), &cfg), None);
    assert_eq!(
        player.handle(&SfxRequest::Named("60".to_owned()), &cfg),
        None
    );
    assert_eq!(player.handle(&SfxRequest::Enable(true), &cfg), None);
    assert_eq!(
        player.handle(&SfxRequest::Named("60".to_owned()), &cfg),
        Some(play)
    );
    assert_eq!(player.handle(&SfxRequest::SubEvent(1), &cfg), None);
    assert!(player.is_enabled);
}

#[test]
fn supervisor_keeps_one_child() {
    let first = GameCommand {
        command: "one".to_owned(),
        args: vec![],
    };
    let second = GameCommand {
        command: "two".to_owned(),
        args: vec!["--x".to_owned()],
    };
    let mut supervisor = Supervisor::new();
    assert_eq!(supervisor.recorded_pid(), 0);
    assert_eq!(supervisor.on_command(Some(GameRunner::Stop)), vec![]);
    assert_eq!(
        supervisor.on_command(Some(GameRunner::SwitchTo(first.clone()))),
        vec![SupervisorAction::Spawn(first)]
    );
    supervisor.child_started(Some(4242));
    assert_eq!(supervisor.recorded_pid(), 4242);
    assert_eq!(
        supervisor.on_command(Some(GameRunner::SwitchTo(second.clone()))),
        vec![
            SupervisorAction::Terminate(4242),
            SupervisorAction::Spawn(second.clone())
        ]
    );
    assert_eq!(supervisor.recorded_pid(), 0);
    supervisor.child_started(None);
    assert_eq!(supervisor.recorded_pid(), 0);
    assert_eq!(
        supervisor.on_command(Some(GameRunner::Stop)),
        vec![SupervisorAction::Kill]
    );
    assert_eq!(supervisor.on_command(Some(GameRunner::Stop)), vec![]);
    assert_eq!(
        supervisor.on_command(Some(GameRunner::SwitchTo(second.clone()))),
        vec![SupervisorAction::Spawn(second)]
    );
    supervisor.child_started(Some(7));
    supervisor.child_exited();
    assert_eq!(supervisor.recorded_pid(), 0);
    assert!(!supervisor.running);
    assert_eq!(supervisor.on_command(None), vec![SupervisorAction::Finish]);
    supervisor.child_started(Some(9));
    assert_eq!(
        supervisor.on_command(None),
        vec![SupervisorAction::Terminate(9), SupervisorAction::Finish]
    );
}

#[test]
fn registry_keeps_identities_and_names_apart() {
    let mut db = database::in_memory();
    database::update_user(&mut db, "id1", "ann");
    database::update_user(&mut db, "id2", "bob");
    assert_eq!(
        database::user_id_from_name(&db, "ann"),
        Some("id1".to_owned())
    );
    // The same identity under a new name.
    database::update_user(&mut db, "id1", "anna");
    assert_eq!(database::user_id_from_name(&db, "ann"), None);
    assert_eq!(
        database::user_id_from_name(&db, "anna"),
        Some("id1".to_owned())
    );
    assert_eq!(db.users.len(), 2);
    // A new identity takes over a name.
    database::update_user(&mut db, "id3", "bob");
    assert_eq!(
        database::user_id_from_name(&db, "bob"),
        Some("id3".to_owned())
    );
    assert_eq!(db.users.len(), 2);
    // One message can push out two rows.
    database::update_user(&mut db, "id3", "anna");
    assert_eq!(db.users.len(), 1);
    assert_eq!(db.users.key_at(0), "id3");
    assert_eq!(db.users.value_at(0), "anna");
}

#[test]
fn settings_are_read_written_and_seeded() {
    let mut db = database::in_memory();
    assert_eq!(database::get_kv(&db, "k"), None);
    assert_eq!(
        database::get_or_set_kv(&mut db, "k", "first".to_owned()),
        "first"
    );
    assert_eq!(database::get_kv(&db, "k"), Some("first".to_owned()));
    assert_eq!(
        database::get_or_set_kv(&mut db, "k", "second".to_owned()),
        "first"
    );
    database::set_kv(&mut db, "k", "third");
    assert_eq!(database::get_kv(&db, "k"), Some("third".to_owned()));
    assert_eq!(db.config_kv.len(), 1);

    database::update_user(&mut db, "id", "name");
    database::op_user(&mut db, "name");
    database::block_user(&mut db, "name", None);
    assert!(database::test_and_set_cooldown_lapsed(&mut db, "id", 5, 0));
    database::clear_db(&mut db);
    assert_eq!(db.users.len(), 0);
    assert_eq!(db.operators.len(), 0);
    assert_eq!(db.blocked_users.len(), 0);
    assert_eq!(db.last_command_time.len(), 0);
    assert_eq!(database::get_kv(&db, "k"), Some("third".to_owned()));
}

#[test]
fn cooldown_test_sets_the_time_either_way() {
    let mut db = database::in_memory();
    assert!(database::test_and_set_cooldown_lapsed(
        &mut db, "id", 1000, 5000
    ));
    assert!(!database::test_and_set_cooldown_lapsed(
        &mut db, "id", 1000, 5999
    ));
    // The failed attempt at 5999 is now the last command.
    assert!(!database::test_and_set_cooldown_lapsed(
        &mut db, "id", 1000, 6500
    ));
    assert!(database::test_and_set_cooldown_lapsed(
        &mut db, "id", 1000, 7500
    ));
    assert!(database::test_and_set_cooldown_lapsed(
        &mut db, "other", 1000, 7500
    ));
    assert_eq!(db.last_command_time.len(), 2);
    assert!(!database::test_and_set_cooldown_lapsed(
        &mut db,
        "id",
        i64::MAX,
        i64::MAX
    ));
}

#[test]
fn blocks_and_operators_go_by_name_and_hold_by_identity() {
    let mut db = database::in_memory();
    assert!(!database::block_user(&mut db, "ann", None));
    assert!(!database::op_user(&mut db, "ann"));
    database::update_user(&mut db, "id1", "ann");
    assert!(database::block_user(&mut db, "ann", Some(100)));
    assert!(database::op_user(&mut db, "ann"));
    assert!(database::is_operator(&db, "id1"));
    assert!(!database::is_operator(&db, "ann"));
    assert!(database::is_blocked(&mut db, "id1", 99));
    // Under a new name the identity is still blocked and still an operator.
    database::update_user(&mut db, "id1", "anna");
    assert!(database::is_blocked(&mut db, "id1", 99));
    assert_eq!(database::list_blocked_users(&db), vec!["anna".to_owned()]);
    assert_eq!(database::list_op_users(&db), vec!["anna".to_owned()]);
    database::unblock_user(&mut db, "ann");
    assert!(database::is_blocked(&mut db, "id1", 99));
    assert!(!database::is_blocked(&mut db, "id1", 100));
    assert_eq!(database::list_blocked_users(&db), Vec::<String>::new());
    assert!(database::block_user(&mut db, "anna", None));
    assert!(database::block_user(&mut db, "anna", Some(5)));
    assert_eq!(db.blocked_users.len(), 1);
    database::unblock_user(&mut db, "anna");
    assert_eq!(db.blocked_users.len(), 0);
    database::deop_user(&mut db, "anna");
    assert!(!database::is_operator(&db, "id1"));
}

#[test]
fn launch_commands_are_cut_at_spaces() {
    assert_eq!(
        GameCommandString("cmdforgame1 --command".to_owned()).to_command(),
        GameCommand {
            command: "cmdforgame1".to_owned(),
            args: vec!["--command".to_owned()],
        }
    );
    assert_eq!(
        GameCommandString("solo".to_owned()).to_command(),
        GameCommand {
            command: "solo".to_owned(),
            args: vec![],
        }
    );
    assert_eq!(
        GameCommandString("a  b".to_owned()).to_command(),
        GameCommand {
            command: "a".to_owned(),
            args: vec!["".to_owned(), "b".to_owned()],
        }
    );
    assert_eq!(
        GameCommandString("".to_owned()).to_command(),
        GameCommand {
            command: "".to_owned(),
            args: vec![],
        }
    );
}

fn config_with(games: Option<Table<GameInfo>>) -> Config {
    Config {
        twitch: TwitchConfig {
            channel_name: "channel".to_owned(),
            auth: TwitchAuth::Anonymous,
        },
        sound_effects: None,
        games,
    }
}

#[test]
fn games_are_constructed_from_the_configuration() {
    let mut games: Table<GameInfo> = Table::new();
    games.upsert(
        "First".to_owned(),
        GameInfo {
            command: GameCommandString("first --go".to_owned()),
            restricted_inputs: Some(vec![
                "START".to_owned(),
                "rb".to_owned(),
                "start".to_owned(),
            ]),
            controls: Some("press a".to_owned()),
        },
    );
    games.upsert(
        "Second".to_owned(),
        GameInfo {
            command: GameCommandString("second".to_owned()),
            restricted_inputs: None,
            controls: None,
        },
    );
    let config = config_with(Some(games));
    assert!(config.games_are_valid());
    let list = config.game_command_list();
    assert_eq!(list.len(), 2);
    assert_eq!(list.key_at(0), "First");
    let first = list.value_at(0);
    assert_eq!(first.name, "First");
    assert_eq!(first.command.command, "first");
    assert_eq!(first.command.args, vec!["--go".to_owned()]);
    assert_eq!(
        first.restricted_inputs,
        vec![Movement::Start, Movement::TR]
    );
    assert_eq!(first.controls_msg, Some("press a".to_owned()));
    let second = list.value_at(1);
    assert!(second.restricted_inputs.is_empty());

    let with = |movements: Vec<Movement>| MovementPacket {
        movements,
        duration: 100,
        stagger: 0,
        blocking: false,
    };
    assert!(first.is_movement_restricted(&with(vec![Movement::A, Movement::TR])));
    assert!(first.is_movement_restricted(&with(vec![Movement::Start])));
    assert!(!first.is_movement_restricted(&with(vec![Movement::A, Movement::TL])));
    assert!(!first.is_movement_restricted(&with(vec![])));
    assert!(!second.is_movement_restricted(&with(vec![Movement::Start])));

    assert_eq!(config_with(None).game_command_list().len(), 0);
    assert!(config_with(None).checked_game_command_list().is_some());
}

#[test]
fn restricted_inputs_must_name_buttons() {
    assert_eq!(
        read_restricted_inputs(&vec!["a".to_owned(), "jump".to_owned()]),
        None
    );
    assert_eq!(read_restricted_inputs(&vec!["mode".to_owned()]), None);
    assert_eq!(read_restricted_inputs(&vec![]), Some(vec![]));
    let info = GameInfo {
        command: GameCommandString("x".to_owned()),
        restricted_inputs: Some(vec!["jump".to_owned()]),
        controls: None,
    };
    assert!(construct_game(&"X".to_owned(), &info).is_none());
    let mut games: Table<GameInfo> = Table::new();
    games.upsert("X".to_owned(), info);
    let config = config_with(Some(games));
    assert!(!config.games_are_valid());
    assert!(config.checked_game_command_list().is_none());
}

#[test]
fn blocking_packet_is_pressed_held_and_released_in_reverse() {
    let packet = MovementPacket {
        movements: vec![Movement::Mode, Movement::A],
        duration: 100,
        stagger: 30,
        blocking: true,
    };
    assert_eq!(
        blocking_movement(&packet),
        vec![
            GamepadAction::Press(Movement::Mode),
            GamepadAction::Sleep(30),
            GamepadAction::Press(Movement::A),
            GamepadAction::Sleep(30),
            GamepadAction::Sleep(100),
            GamepadAction::Release(Movement::A),
            GamepadAction::Sleep(30),
            GamepadAction::Release(Movement::Mode),
            GamepadAction::Sleep(30),
            GamepadAction::Sleep(50),
        ]
    );
    let plain = MovementPacket {
        movements: vec![Movement::B],
        duration: 0,
        stagger: 0,
        blocking: true,
    };
    assert_eq!(
        blocking_movement(&plain),
        vec![
            GamepadAction::Press(Movement::B),
            GamepadAction::Sleep(0),
            GamepadAction::Release(Movement::B),
            GamepadAction::Sleep(50),
        ]
    );
}

fn quick(movements: Vec<Movement>, duration: u64) -> MovementPacket {
    MovementPacket {
        movements,
        duration,
        stagger: 0,
        blocking: false,
    }
}

#[test]
fn packets_wait_their_turn() {
    let mut runner = RunnerState::new(TICK_MS);
    assert!(runner.time_remaining_empty());
    assert_eq!(
        runner.process_message(Some(quick(vec![Movement::A, Movement::B], 250))),
        vec![
            GamepadAction::Press(Movement::A),
            GamepadAction::Press(Movement::B)
        ]
    );
    assert!(!runner.time_remaining_empty());
    assert!(!runner.packet_can_run(&quick(vec![Movement::X, Movement::B], 10)));
    assert!(runner.packet_can_run(&quick(vec![Movement::X], 10)));
    // B is held: the packet waits, and so does every packet behind it.
    assert_eq!(
        runner.process_message(Some(quick(vec![Movement::B], 100))),
        vec![]
    );
    assert_eq!(
        runner.process_message(Some(quick(vec![Movement::X], 100))),
        vec![]
    );
    assert_eq!(runner.packet_queue.len(), 2);
    assert_eq!(runner.process_tick(), (vec![], false));
    assert_eq!(runner.movement_time_remaining[0], 150);
    assert_eq!(runner.process_tick(), (vec![], false));
    // The time runs out, and those who wait are pressed in the same tick.
    assert_eq!(
        runner.process_tick(),
        (
            vec![
                GamepadAction::Release(Movement::A),
                GamepadAction::Release(Movement::B),
                GamepadAction::Press(Movement::B),
                GamepadAction::Press(Movement::X),
            ],
            false
        )
    );
    assert_eq!(runner.packet_queue.len(), 0);
    assert_eq!(runner.process_message(None), vec![]);
    assert!(runner.draining);
    assert_eq!(
        runner.process_tick(),
        (
            vec![
                GamepadAction::Release(Movement::B),
                GamepadAction::Release(Movement::X),
            ],
            true
        )
    );
}

#[test]
fn a_packet_that_cannot_run_returns_to_the_front() {
    let mut runner = RunnerState::new(TICK_MS);
    let blocking = MovementPacket {
        movements: vec![Movement::Y],
        duration: 10,
        stagger: 0,
        blocking: true,
    };
    runner.process_message(Some(quick(vec![Movement::A], 100)));
    assert_eq!(runner.process_message(Some(quick(vec![Movement::A], 300))), vec![]);
    assert_eq!(runner.process_message(Some(blocking.clone())), vec![]);
    assert_eq!(runner.process_message(Some(quick(vec![Movement::B], 100))), vec![]);
    // A is released and pressed anew; the blocking packet finds A held and
    // goes back to the front, with B still behind it.
    assert_eq!(
        runner.process_tick(),
        (
            vec![
                GamepadAction::Release(Movement::A),
                GamepadAction::Press(Movement::A),
            ],
            false
        )
    );
    assert_eq!(runner.packet_queue.len(), 2);
    assert_eq!(runner.packet_queue[0], blocking);
    let mut out = Vec::new();
    assert!(!runner.process_packet(&blocking, false, &mut out));
    assert!(out.is_empty());
}

#[test]
fn a_packet_of_no_duration_is_pressed_and_left() {
    let mut runner = RunnerState::new(TICK_MS);
    assert_eq!(
        runner.process_message(Some(quick(vec![Movement::A], 0))),
        vec![GamepadAction::Press(Movement::A)]
    );
    assert!(runner.time_remaining_empty());
    assert_eq!(runner.process_message(None), vec![]);
    assert_eq!(runner.process_tick(), (vec![], true));
}

#[test]
fn time_runs_down_by_the_tick_and_stops_at_nothing() {
    let mut runner = RunnerState::new(70);
    runner.process_message(Some(quick(vec![Movement::Z], 100)));
    assert_eq!(runner.process_tick(), (vec![], false));
    assert_eq!(runner.movement_time_remaining[5], 30);
    assert_eq!(
        runner.process_tick(),
        (vec![GamepadAction::Release(Movement::Z)], false)
    );
    assert_eq!(runner.movement_time_remaining[5], 0);
}

#[test]
fn buttons_have_their_places() {
    let all = [
        Movement::A,
        Movement::B,
        Movement::C,
        Movement::X,
        Movement::Y,
        Movement::Z,
        Movement::TL,
        Movement::TR,
        Movement::Up,
        Movement::Down,
        Movement::Left,
        Movement::Right,
        Movement::Start,
        Movement::Select,
        Movement::Mode,
    ];
    for (i, m) in all.iter().enumerate() {
        assert_eq!(m.to_index(), i);
        assert_eq!(Movement::from_index(i), *m);
        assert_eq!(m.is_directional(), (8..14).contains(&i));
        let packet = quick(vec![Movement::A, *m], 1);
        assert_eq!(packet.contains_direction(), m.is_directional());
        assert_eq!(packet.duplicate(), packet);
    }
    assert!(!quick(vec![], 1).contains_direction());
}

#[test]
fn modes_have_their_names() {
    for mode in [
        AnarchyType::Anarchy,
        AnarchyType::Democracy,
        AnarchyType::Restricted,
        AnarchyType::Streaming,
    ] {
        assert_eq!(AnarchyType::from_str(mode.to_str()), Some(mode));
    }
    assert_eq!(AnarchyType::Streaming.to_str(), "streaming");
    assert_eq!(AnarchyType::from_str("stream"), None);
    assert_eq!(AnarchyType::from_str("Anarchy"), None);
}

#[test]
fn privileges_are_ordered() {
    let order = [
        Privilege::Standard,
        Privilege::Operator,
        Privilege::Moderator,
        Privilege::Broadcaster,
    ];
    for (i, a) in order.iter().enumerate() {
        for (j, b) in order.iter().enumerate() {
            assert_eq!(a.at_least(*b), i >= j);
            assert_eq!(a >= b, i >= j);
        }
    }
}

#[test]
fn the_transport_vouches_for_broadcaster_and_moderator() {
    assert!(is_moderator(Some("1")));
    assert!(!is_moderator(Some("0")));
    assert!(!is_moderator(Some("")));
    assert!(!is_moderator(None));
    assert_eq!(
        user_privilege("channel", None, "channel"),
        Privilege::Broadcaster
    );
    assert_eq!(
        user_privilege("someone", Some("1"), "channel"),
        Privilege::Moderator
    );
    assert_eq!(
        user_privilege("someone", Some("0"), "channel"),
        Privilege::Standard
    );
    assert_eq!(
        user_privilege("someone", None, "channel"),
        Privilege::Standard
    );
}

#[test]
fn chat_lines_become_messages() {
    let message =
        read_chat_line_at("channel", "someone", "id-7", Some("1"), "tp block x 1m", 500).unwrap();
    assert_eq!(
        message.command,
        Command::Block("x".to_owned(), Some(60_500))
    );
    assert_eq!(message.sender_id, "id-7");
    assert_eq!(message.sender_name, "someone");
    assert_eq!(message.privilege, Privilege::Moderator);
    assert!(read_chat_line_at("channel", "someone", "id-7", None, "hello there", 0).is_none());
    let message = read_chat_line("channel", "channel", "id-1", None, "up").unwrap();
    assert_eq!(message.privilege, Privilege::Broadcaster);
    assert!(read_chat_line("channel", "channel", "id-1", None, "nothing").is_none());
}

struct BrokenGamepad;

impl twitch_gamepad::gamepad::Gamepad for BrokenGamepad {
    fn press(&mut self, _movement: Movement) -> Result<(), twitch_gamepad::gamepad::GamepadError> {
        Err(twitch_gamepad::gamepad::GamepadError {
            message: "stuck".to_owned(),
        })
    }

    fn release(&mut self, _movement: Movement) -> Result<(), twitch_gamepad::gamepad::GamepadError> {
        Ok(())
    }
}

#[test]
fn a_gamepad_that_fails_is_reported() {
    let mut gamepad = BrokenGamepad;
    let failed = twitch_gamepad::gamepad::perform(&mut gamepad, GamepadAction::Press(Movement::A));
    assert_eq!(failed.unwrap_err().message, "stuck");
    assert_eq!(
        twitch_gamepad::gamepad::perform(&mut gamepad, GamepadAction::Release(Movement::A)).unwrap(),
        0
    );
    assert_eq!(
        twitch_gamepad::gamepad::perform(&mut gamepad, GamepadAction::Sleep(75)).unwrap(),
        75
    );
}

#[test]
fn the_end_of_a_block_is_written_for_the_sender() {
    use_end_text();
}

fn use_end_text() {
    let none = twitch_gamepad::arbiter::Arbiter::end_text_of(&Command::Stop);
    assert_eq!(none, "");
    let forever =
        twitch_gamepad::arbiter::Arbiter::end_text_of(&Command::Block("u".to_owned(), None));
    assert_eq!(forever, "");
    let dated = twitch_gamepad::arbiter::Arbiter::end_text_of(&Command::Block(
        "u".to_owned(),
        Some(1_700_000_000_000),
    ));
    assert!(dated.contains("2023"));
    let early =
        twitch_gamepad::arbiter::Arbiter::end_text_of(&Command::Block("u".to_owned(), Some(-5)));
    assert_eq!(early, "-5");
    let late = twitch_gamepad::arbiter::Arbiter::end_text_of(&Command::Block(
        "u".to_owned(),
        Some(i64::MAX),
    ));
    assert_eq!(late, "9223372036854775807");
}

fn events_of(actions: &[GamepadAction]) -> Vec<GamepadAction> {
    actions
        .iter()
        .copied()
        .filter(|action| !matches!(action, GamepadAction::Sleep(_)))
        .collect()
}

#[test]
fn each_button_of_a_packet_is_pressed_once_and_released_once() {
    let packet = quick(vec![Movement::Start, Movement::A, Movement::TL], 250);
    let mut events = vec![RunnerEvent::Message(Some(packet.clone()))];
    events.extend(vec![RunnerEvent::Tick; 7]);
    let trace = RunnerState::new(TICK_MS).run(events);
    for m in packet.movements {
        let presses: Vec<usize> = (0..trace.len())
            .filter(|i| trace[*i] == GamepadAction::Press(m))
            .collect();
        let releases: Vec<usize> = (0..trace.len())
            .filter(|i| trace[*i] == GamepadAction::Release(m))
            .collect();
        assert_eq!(presses.len(), 1);
        assert_eq!(releases.len(), 1);
        assert!(presses[0] < releases[0]);
    }
    // The releases come in the order of the buttons, not of the packet.
    assert_eq!(
        trace,
        vec![
            GamepadAction::Press(Movement::Start),
            GamepadAction::Press(Movement::A),
            GamepadAction::Press(Movement::TL),
            GamepadAction::Release(Movement::A),
            GamepadAction::Release(Movement::TL),
            GamepadAction::Release(Movement::Start),
        ]
    );
}

#[test]
fn a_blocking_packet_runs_in_one_piece() {
    let blocking = MovementPacket {
        movements: vec![Movement::Mode, Movement::X],
        duration: 100,
        stagger: 100,
        blocking: true,
    };
    let before = vec![
        RunnerEvent::Message(Some(quick(vec![Movement::B], 100))),
        RunnerEvent::Tick,
    ];
    let after = vec![
        RunnerEvent::Message(Some(quick(vec![Movement::Up], 100))),
        RunnerEvent::Tick,
    ];
    let mut all = before.clone();
    all.push(RunnerEvent::Message(Some(blocking.clone())));
    all.extend(after.clone());

    let mut runner = RunnerState::new(TICK_MS);
    let first = runner.run(before);
    assert!(runner.time_remaining_empty());
    let last = runner.run(after);
    let whole = RunnerState::new(TICK_MS).run(all);

    let mut expected = first;
    expected.extend(blocking_movement(&blocking));
    expected.extend(last);
    assert_eq!(whole, expected);
    assert_eq!(
        events_of(&blocking_movement(&blocking)),
        vec![
            GamepadAction::Press(Movement::Mode),
            GamepadAction::Press(Movement::X),
            GamepadAction::Release(Movement::X),
            GamepadAction::Release(Movement::Mode),
        ]
    );
}

#[test]
fn a_direction_has_the_held_direction_released_before_it_is_pressed() {
    let mut runner = RunnerState::new(TICK_MS);
    runner.run(vec![RunnerEvent::Message(Some(quick(
        vec![Movement::Down, Movement::Y],
        1000,
    )))]);
    let trace = runner.run(vec![
        RunnerEvent::Message(Some(quick(vec![Movement::Left, Movement::Y], 100))),
        RunnerEvent::Tick,
    ]);
    assert_eq!(
        trace,
        vec![
            GamepadAction::Release(Movement::Down),
            GamepadAction::Release(Movement::Y),
            GamepadAction::Press(Movement::Left),
            GamepadAction::Press(Movement::Y),
        ]
    );
}

#[test]
fn a_packet_without_a_direction_releases_nothing() {
    let mut runner = RunnerState::new(TICK_MS);
    runner.run(vec![RunnerEvent::Message(Some(quick(
        vec![Movement::Down],
        1000,
    )))]);
    let trace = runner.run(vec![RunnerEvent::Message(Some(quick(
        vec![Movement::A],
        100,
    )))]);
    assert_eq!(trace, vec![GamepadAction::Press(Movement::A)]);
}

#[test]
fn a_direction_that_waits_is_pressed_after_the_release_too() {
    let blocking = MovementPacket {
        movements: vec![Movement::Mode],
        duration: 10,
        stagger: 0,
        blocking: true,
    };
    let mut events = vec![
        RunnerEvent::Message(Some(quick(vec![Movement::Up], 300))),
        RunnerEvent::Message(Some(blocking)),
        RunnerEvent::Message(Some(quick(vec![Movement::Left], 100))),
    ];
    events.extend(vec![RunnerEvent::Tick; 5]);
    let trace = events_of(&RunnerState::new(TICK_MS).run(events));
    assert_eq!(
        trace,
        vec![
            GamepadAction::Press(Movement::Up),
            GamepadAction::Release(Movement::Up),
            GamepadAction::Press(Movement::Mode),
            GamepadAction::Release(Movement::Mode),
            GamepadAction::Press(Movement::Left),
            GamepadAction::Release(Movement::Left),
        ]
    );
}

#[test]
fn a_packet_put_off_gives_way_to_the_next_one_put_off() {
    // There is room for one packet that waits for its releases. A second
    // one that releases something before the tick takes its place.
    let mut runner = RunnerState::new(TICK_MS);
    let trace = runner.run(vec![
        RunnerEvent::Message(Some(quick(vec![Movement::B], 1000))),
        RunnerEvent::Message(Some(quick(vec![Movement::Up, Movement::B], 100))),
        RunnerEvent::Message(Some(quick(vec![Movement::A], 1000))),
        RunnerEvent::Message(Some(quick(vec![Movement::Down, Movement::A], 100))),
        RunnerEvent::Tick,
    ]);
    assert_eq!(
        trace,
        vec![
            GamepadAction::Press(Movement::B),
            GamepadAction::Release(Movement::B),
            GamepadAction::Press(Movement::A),
            GamepadAction::Release(Movement::A),
            GamepadAction::Press(Movement::Down),
            GamepadAction::Press(Movement::A),
        ]
    );
}

#[test]
fn the_end_of_a_block_is_the_date_that_was_written_or_the_number() {
    let timed = Command::Block("u".to_owned(), Some(1234));
    assert_eq!(
        twitch_gamepad::arbiter::Arbiter::end_text_from(&timed, Some("noon".to_owned())),
        "noon"
    );
    assert_eq!(
        twitch_gamepad::arbiter::Arbiter::end_text_from(&timed, None),
        "1234"
    );
    let forever = Command::Block("u".to_owned(), None);
    assert_eq!(
        twitch_gamepad::arbiter::Arbiter::end_text_from(&forever, Some("noon".to_owned())),
        ""
    );
    assert_eq!(
        twitch_gamepad::arbiter::Arbiter::end_text_from(&Command::Stop, None),
        ""
    );
}
