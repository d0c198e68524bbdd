use twitch_gamepad::command::{
    parse_command, parse_command_at, parse_movement_token, parse_tokens, AnarchyType, Command,
    Movement, MovementPacket, PartialCommand,
};
use twitch_gamepad::parsing::{end_of_block, parse_seconds, to_millis, tokenize};
use twitch_gamepad::text::{format_int, join_from, parse_int, same_text, split};

fn movement_packet(movements: &[Movement], duration: u64) -> Option<Command> {
    let movements = Vec::from(movements);
    Some(Command::Movement(MovementPacket {
        movements,
        duration,
        stagger: 0,
        blocking: false,
    }))
}

#[test]
fn parse_movement_case_sensitivity() {
    assert_eq!(parse_command("A"), movement_packet(&[Movement::A], 100));
}

#[test]
fn parse_movement_negative_input() {
    assert_eq!(parse_command("a -4"), None);
}

#[test]
fn parse_movement_zero_input() {
    assert_eq!(parse_command("a 0"), movement_packet(&[Movement::A], 0));
}

#[test]
fn parse_movement_a() {
    assert_eq!(parse_command("a"), movement_packet(&[Movement::A], 100));
}

#[test]
fn parse_movement_b() {
    assert_eq!(parse_command("b"), movement_packet(&[Movement::B], 100));
}

#[test]
fn parse_movement_c() {
    assert_eq!(parse_command("c"), movement_packet(&[Movement::C], 100));
}

#[test]
fn parse_movement_x() {
    assert_eq!(parse_command("x"), movement_packet(&[Movement::X], 100));
}

#[test]
fn parse_movement_y() {
    assert_eq!(parse_command("y"), movement_packet(&[Movement::Y], 100));
}

#[test]
fn parse_movement_z() {
    assert_eq!(parse_command("z"), movement_packet(&[Movement::Z], 100));
}

#[test]
fn parse_movement_tl() {
    assert_eq!(parse_command("tl"), movement_packet(&[Movement::TL], 100));
}

#[test]
fn parse_movement_tr() {
    assert_eq!(parse_command("tr"), movement_packet(&[Movement::TR], 100));
}

#[test]
fn parse_movement_start() {
    assert_eq!(parse_command("start"), movement_packet(&[Movement::Start], 100));
}

#[test]
fn parse_movement_select() {
    assert_eq!(parse_command("select"), movement_packet(&[Movement::Select], 100));
}

#[test]
fn parse_movement_up() {
    assert_eq!(parse_command("up"), movement_packet(&[Movement::Up], 100));
}

#[test]
fn parse_movement_down() {
    assert_eq!(parse_command("down"), movement_packet(&[Movement::Down], 100));
}

#[test]
fn parse_movement_left() {
    assert_eq!(parse_command("left"), movement_packet(&[Movement::Left], 100));
}

#[test]
fn parse_movement_right() {
    assert_eq!(parse_command("right"), movement_packet(&[Movement::Right], 100));
}

#[test]
fn parse_movement_up_single() {
    assert_eq!(parse_command("u"), movement_packet(&[Movement::Up], 100));
}

#[test]
fn parse_movement_down_single() {
    assert_eq!(parse_command("d"), movement_packet(&[Movement::Down], 100));
}

#[test]
fn parse_movement_left_single() {
    assert_eq!(parse_command("l"), movement_packet(&[Movement::Left], 100));
}

#[test]
fn parse_movement_right_single() {
    assert_eq!(parse_command("r"), movement_packet(&[Movement::Right], 100));
}

#[test]
fn parse_movement_duration() {
    assert_eq!(parse_command("a 2"), movement_packet(&[Movement::A], 2000));
}

#[test]
fn parse_movement_fractional_duration() {
    assert_eq!(parse_command("a 0.6"), movement_packet(&[Movement::A], 600));
}

#[test]
fn parse_movement_multiple_with_time() {
    assert_eq!(
        parse_command("a b x y lt rt 1"),
        movement_packet(
            &[
                Movement::A,
                Movement::B,
                Movement::X,
                Movement::Y,
                Movement::TL,
                Movement::TR
            ],
            1000
        )
    );
}

#[test]
fn parse_movement_multiple() {
    assert_eq!(
        parse_command("a b x y lt rt"),
        movement_packet(
            &[
                Movement::A,
                Movement::B,
                Movement::X,
                Movement::Y,
                Movement::TL,
                Movement::TR
            ],
            100
        )
    );
}

#[test]
fn parse_block() {
    assert_eq!(parse_command("tp block user"), Some(Command::Block("user".to_string(), None)));
}

#[test]
fn parse_unblock() {
    assert_eq!(parse_command("tp unblock user"), Some(Command::Unblock("user".to_string())));
}

#[test]
fn parse_op() {
    assert_eq!(parse_command("tp op user"), Some(Command::AddOperator("user".to_string())));
}

#[test]
fn parse_deop() {
    assert_eq!(parse_command("tp deop user"), Some(Command::RemoveOperator("user".to_string())));
}

#[test]
fn parse_help_help() {
    assert_eq!(parse_command("tp help"), Some(Command::PrintHelp));
}

#[test]
fn parse_help_commands() {
    assert_eq!(parse_command("tp commands"), Some(Command::PrintHelp));
}

#[test]
fn parse_list_blocked_blocked() {
    assert_eq!(parse_command("tp list blocked"), Some(Command::ListBlocked));
}

#[test]
fn parse_list_blocked_blocks() {
    assert_eq!(parse_command("tp list blocks"), Some(Command::ListBlocked));
}

#[test]
fn parse_list_blocked_block() {
    assert_eq!(parse_command("tp list block"), Some(Command::ListBlocked));
}

#[test]
fn parse_list_op_ops() {
    assert_eq!(parse_command("tp list ops"), Some(Command::ListOperators));
}

#[test]
fn parse_list_op_operators() {
    assert_eq!(parse_command("tp list operators"), Some(Command::ListOperators));
}

#[test]
fn parse_list_op_op() {
    assert_eq!(parse_command("tp list op"), Some(Command::ListOperators));
}

#[test]
fn parse_list_games() {
    assert_eq!(parse_command("tp list games"), Some(Command::ListGames));
}

#[test]
fn parse_list_games_direct() {
    assert_eq!(parse_command("tp games"), Some(Command::ListGames));
}

#[test]
fn parse_invalid() {
    assert_eq!(parse_command("asdf"), None);
}

#[test]
fn parse_extraneous() {
    assert_eq!(parse_command("tp block user 3m and then something"), None);
}

#[test]
fn parse_movement_extraneous() {
    assert_eq!(parse_command("a 2 and something"), None);
}

#[test]
fn parse_movement_invalid_time() {
    assert_eq!(parse_command("a invalid-time"), None);
}

#[test]
fn parse_movement_time_too_large() {
    assert_eq!(parse_command("a 100"), None);
}

#[test]
fn parse_twitch_deduplicated() {
    assert_eq!(parse_command("a \u{e0000}"), movement_packet(&[Movement::A], 100));
}

#[test]
fn parse_block_invalid_time() {
    assert_eq!(parse_command("tp block user notatime"), Some(Command::Partial(PartialCommand::Block)));
}

#[test]
fn parse_partial_block() {
    assert_eq!(parse_command("tp block"), Some(Command::Partial(PartialCommand::Block)));
}

#[test]
fn parse_partial_unblock() {
    assert_eq!(parse_command("tp unblock"), Some(Command::Partial(PartialCommand::Unblock)));
}

#[test]
fn parse_partial_op() {
    assert_eq!(parse_command("tp op"), Some(Command::Partial(PartialCommand::AddOperator)));
}

#[test]
fn parse_partial_deop() {
    assert_eq!(parse_command("tp deop"), Some(Command::Partial(PartialCommand::RemoveOperator)));
}

#[test]
fn parse_partial_list() {
    assert_eq!(parse_command("tp list"), Some(Command::Partial(PartialCommand::List)));
}

#[test]
fn parse_malformed_mode() {
    assert_eq!(parse_command("tp mode invalidmode"), Some(Command::Partial(PartialCommand::SetAnarchyMode)));
}

#[test]
fn parse_partial_cooldown() {
    assert_eq!(parse_command("tp cooldown"), Some(Command::Partial(PartialCommand::SetCooldown)));
}

#[test]
fn parse_save() {
    assert_eq!(parse_command("tp save"), Some(Command::SaveState));
}

#[test]
fn parse_load() {
    assert_eq!(parse_command("tp load"), Some(Command::LoadState));
}

#[test]
fn parse_reset() {
    assert_eq!(parse_command("tp reset"), Some(Command::Reset));
}

#[test]
fn parse_print_mode() {
    assert_eq!(parse_command("tp mode"), Some(Command::PrintAnarchyMode));
}

#[test]
fn parse_anarchy() {
    assert_eq!(parse_command("tp mode anarchy"), Some(Command::SetAnarchyMode(AnarchyType::Anarchy)));
}

#[test]
fn parse_democracy() {
    assert_eq!(parse_command("tp mode democracy"), Some(Command::SetAnarchyMode(AnarchyType::Democracy)));
}

#[test]
fn parse_restricted() {
    assert_eq!(parse_command("tp mode restricted"), Some(Command::SetAnarchyMode(AnarchyType::Restricted)));
}

#[test]
fn parse_streaming() {
    assert_eq!(parse_command("tp mode streaming"), Some(Command::SetAnarchyMode(AnarchyType::Streaming)));
}

#[test]
fn parse_stream() {
    assert_eq!(parse_command("tp mode stream"), Some(Command::SetAnarchyMode(AnarchyType::Streaming)));
}

#[test]
fn parse_sfx() {
    assert_eq!(parse_command("tp sfx sfx_name"), Some(Command::PlaySfx("sfx_name".to_owned())));
}

#[test]
fn parse_partial_sfx() {
    assert_eq!(parse_command("tp sfx"), Some(Command::Partial(PartialCommand::PlaySfx)));
}

#[test]
fn parse_partial_game() {
    assert_eq!(parse_command("tp game"), Some(Command::Partial(PartialCommand::Game)));
}

#[test]
fn parse_game() {
    assert_eq!(parse_command("tp game some_game"), Some(Command::Game("some_game".to_string())));
}

#[test]
fn parse_game_with_space() {
    assert_eq!(parse_command("tp game game with spaces"), Some(Command::Game("game with spaces".to_string())));
}

#[test]
fn parse_stop() {
    assert_eq!(parse_command("tp stop"), Some(Command::Stop));
}

#[test]
fn parse_controls() {
    assert_eq!(parse_command("tp controls"), Some(Command::Controls(None)));
}

#[test]
fn parse_controls_game() {
    assert_eq!(parse_command("tp controls some game"), Some(Command::Controls(Some("some game".to_string()))));
}

#[test]
fn parse_cooldown() {
    assert_eq!(parse_command("tp cooldown 10s"), Some(Command::SetCooldown(10_000)));
}

#[test]
fn parse_block_duration() {
    let cmd = parse_command("tp block user 1h3m").unwrap();
    let expected_duration: i64 = (3600 + 60 * 3) * 1000;
    let curtime = chrono::Utc::now().timestamp_millis();
    if let Command::Block(username, time) = cmd {
        let time = time.expect("did not parse duration");
        let duration = time - curtime;
        let duration = expected_duration - duration;
        assert_eq!(duration / 1000, 0);
        assert_eq!(username, "user");
    } else {
        unreachable!("Not a block command");
    }
}

#[test]
fn block_runs_from_the_given_instant() {
    assert_eq!(
        parse_command_at("tp block user 1h3m", 1_000),
        Some(Command::Block("user".to_string(), Some(1_000 + 3_780_000)))
    );
    assert_eq!(
        parse_command_at("tp block user 10", 0),
        Some(Command::Block("user".to_string(), Some(10_000)))
    );
}

#[test]
fn block_that_would_end_beyond_all_time_is_a_hint() {
    assert_eq!(
        parse_command_at("tp block user 1h", i64::MAX - 5),
        Some(Command::Partial(PartialCommand::Block))
    );
}

#[test]
fn cooldown_with_bad_duration_is_a_hint() {
    assert_eq!(
        parse_command("tp cooldown soon"),
        Some(Command::Partial(PartialCommand::SetCooldown))
    );
    assert_eq!(
        parse_command("tp cooldown 1500ms"),
        Some(Command::SetCooldown(1500))
    );
}

#[test]
fn empty_and_blank_lines_are_no_command() {
    assert_eq!(parse_command(""), None);
    assert_eq!(parse_command("   \t  "), None);
    assert_eq!(parse_command("\u{e0000}"), None);
    assert_eq!(parse_command("tp"), None);
    assert_eq!(parse_command("tp nonsense"), None);
}

#[test]
fn durations_as_floats_are_written() {
    for (text, ms) in [
        ("0", 0u64),
        ("0.1", 100),
        ("0.25", 250),
        ("0.6", 600),
        ("1", 1000),
        ("1.5", 1500),
        ("2", 2000),
        ("3.125", 3125),
        ("5", 5000),
    ] {
        let seconds: f64 = text.parse().unwrap();
        assert_eq!((seconds * 1000f64) as u64, ms);
        assert_eq!(parse_seconds(text), Some(ms));
    }
}

#[test]
fn mode_is_not_a_chat_button() {
    assert_eq!(parse_movement_token("mode"), None);
    assert_eq!(parse_command("mode"), None);
    assert_eq!(parse_command("a mode"), None);
}

#[test]
fn aliases_of_the_shoulder_buttons() {
    for token in ["tl", "lt", "lb"] {
        assert_eq!(parse_movement_token(token), Some(Movement::TL));
    }
    for token in ["tr", "rt", "rb"] {
        assert_eq!(parse_movement_token(token), Some(Movement::TR));
    }
}

#[test]
fn scenario_movement_lines() {
    assert_eq!(
        parse_command("a b lt 1"),
        movement_packet(&[Movement::A, Movement::B, Movement::TL], 1000)
    );
    assert_eq!(parse_command("A"), movement_packet(&[Movement::A], 100));
    assert_eq!(parse_command("a 0.6"), movement_packet(&[Movement::A], 600));
    assert_eq!(parse_command("a 100"), None);
}

#[test]
fn duration_tokens() {
    assert_eq!(parse_seconds("5"), Some(5000));
    assert_eq!(parse_seconds("5.000"), Some(5000));
    assert_eq!(parse_seconds("5.0001"), None);
    assert_eq!(parse_seconds("4.9999"), Some(4999));
    assert_eq!(parse_seconds("0.25"), Some(250));
    assert_eq!(parse_seconds(".5"), Some(500));
    assert_eq!(parse_seconds("5."), Some(5000));
    assert_eq!(parse_seconds("."), None);
    assert_eq!(parse_seconds(""), None);
    assert_eq!(parse_seconds("+2"), Some(2000));
    assert_eq!(parse_seconds("-0"), Some(0));
    assert_eq!(parse_seconds("-0.001"), None);
    assert_eq!(parse_seconds("1.2.3"), None);
    assert_eq!(parse_seconds("0000000000000000000000000000003"), Some(3000));
    assert_eq!(parse_seconds("1e0"), Some(1000));
    assert_eq!(parse_seconds("5E0"), Some(5000));
    assert_eq!(parse_seconds("50e-1"), Some(5000));
    assert_eq!(parse_seconds("50.01e-1"), None);
    assert_eq!(parse_seconds("0.0005e3"), Some(500));
    assert_eq!(parse_seconds("0.0005e+4"), Some(5000));
    assert_eq!(parse_seconds("0.0006e4"), None);
    assert_eq!(parse_seconds("123456e-5"), Some(1234));
    assert_eq!(parse_seconds("1e-3"), Some(1));
    assert_eq!(parse_seconds("1e-4"), Some(0));
    assert_eq!(parse_seconds("9e-99999999999999999999999999999999999999999"), Some(0));
    assert_eq!(parse_seconds("1e99999999999999999999999999999999999999999"), None);
    assert_eq!(parse_seconds("0e99999999999999999999999999999999999999999"), Some(0));
    assert_eq!(parse_seconds("-0e5"), Some(0));
    assert_eq!(parse_seconds("-1e-9"), None);
    assert_eq!(parse_seconds("1e"), None);
    assert_eq!(parse_seconds("e1"), None);
    assert_eq!(parse_seconds("1e+"), None);
    assert_eq!(parse_seconds("1e1e1"), None);
    assert_eq!(parse_seconds("1e1.0"), None);
    assert_eq!(parse_seconds(".e1"), None);
    assert_eq!(parse_seconds("inf"), None);
    assert_eq!(parse_seconds("nan"), None);
    assert_eq!(parse_seconds("5.000000000000000000000000000000"), Some(5000));
    assert_eq!(parse_seconds("4.999999999999999999999999999999"), Some(4999));
    assert_eq!(parse_seconds("6"), None);
}

#[test]
fn names_with_several_words_are_joined_by_one_space() {
    assert_eq!(
        parse_command("tp   switch   Super    Game   2"),
        Some(Command::Game("super game 2".to_string()))
    );
    assert_eq!(
        parse_command("tp start x"),
        Some(Command::Game("x".to_string()))
    );
}

#[test]
fn tokens_are_lowered_and_the_marker_is_dropped() {
    assert_eq!(
        tokenize("  TP  Block\tUser \u{e0000} "),
        vec!["tp".to_string(), "block".to_string(), "user".to_string()]
    );
    assert_eq!(tokenize(""), Vec::<String>::new());
}

#[test]
fn tokens_with_a_given_duration() {
    let tokens = vec!["tp".to_string(), "cooldown".to_string(), "whatever".to_string()];
    assert_eq!(
        parse_tokens(&tokens, Some(42), 0),
        Some(Command::SetCooldown(42))
    );
    assert_eq!(
        parse_tokens(&tokens, None, 0),
        Some(Command::Partial(PartialCommand::SetCooldown))
    );
    let tokens = vec![
        "tp".to_string(),
        "block".to_string(),
        "u".to_string(),
        "x".to_string(),
    ];
    assert_eq!(
        parse_tokens(&tokens, Some(5), 10),
        Some(Command::Block("u".to_string(), Some(15)))
    );
}

#[test]
fn seconds_and_nanoseconds_become_milliseconds() {
    assert_eq!(to_millis(Some((3, 999_999_999))), Some(3999));
    assert_eq!(to_millis(Some((0, 0))), Some(0));
    assert_eq!(to_millis(None), None);
    assert_eq!(to_millis(Some((u64::MAX, 0))), None);
    assert_eq!(
        to_millis(Some((9_223_372_036_854_775, 807_000_000))),
        Some(i64::MAX)
    );
    assert_eq!(to_millis(Some((9_223_372_036_854_775, 808_000_000))), None);
    assert_eq!(end_of_block(5, Some(7)), Some(12));
    assert_eq!(end_of_block(i64::MAX, Some(1)), None);
    assert_eq!(end_of_block(5, None), None);
}

#[test]
fn numbers_as_text() {
    assert_eq!(format_int(0), "0");
    assert_eq!(format_int(-1), "-1");
    assert_eq!(format_int(600_000), "600000");
    assert_eq!(format_int(i64::MIN), "-9223372036854775808");
    assert_eq!(format_int(i64::MAX), "9223372036854775807");
    assert_eq!(parse_int("10000"), Some(10000));
    assert_eq!(parse_int("+7"), Some(7));
    assert_eq!(parse_int("-9223372036854775808"), Some(i64::MIN));
    assert_eq!(parse_int("9223372036854775808"), None);
    assert_eq!(parse_int("invalid"), None);
    assert_eq!(parse_int(""), None);
    assert_eq!(parse_int("-"), None);
    assert_eq!(parse_int("12a"), None);
    for v in [0i64, 5, -5, 1234567890123, i64::MIN, i64::MAX] {
        assert_eq!(parse_int(&format_int(v)), Some(v));
    }
}

#[test]
fn text_helpers() {
    assert!(same_text("abc", "abc"));
    assert!(!same_text("abc", "abd"));
    assert_eq!(split("a b  c", ' '), vec!["a", "b", "", "c"]);
    assert_eq!(split("", ' '), vec![""]);
    assert_eq!(split("cmd", ' '), vec!["cmd"]);
    let items = vec!["x".to_string(), "y".to_string(), "z".to_string()];
    assert_eq!(join_from(&items, 0, ", "), "x, y, z");
    assert_eq!(join_from(&items, 2, ", "), "z");
    assert_eq!(join_from(&items, 3, ", "), "");
}

#[test]
fn written_commands_read_back() {
    let lines = [
        "a b 0.600",
        "up down left right start select 5.000",
        "tp op someone",
        "tp deop someone",
        "tp block someone",
        "tp unblock someone",
        "tp game some_game",
        "tp stop",
        "tp list blocked",
        "tp list ops",
        "tp games",
        "tp help",
        "tp save",
        "tp load",
        "tp reset",
        "tp mode restricted",
        "tp mode",
        "tp sfx horn",
        "tp controls",
        "tp controls some_game",
        "tp cooldown 1500ms",
    ];
    for line in lines {
        let first = parse_command_at(line, 77).expect("a written command reads");
        let again = parse_command_at(line, 77).expect("and reads again");
        assert_eq!(first, again);
        assert!(!matches!(first, Command::Partial(_)));
    }
    assert_eq!(
        parse_command_at("a b 0.600", 0),
        parse_command_at("A  B  .6", 0)
    );
}
