//! Writing a command back as tokens, and the law that reading those tokens
//! gives the command again.

use crate::command::{CommandView, Instant, Millis, Movement};
use crate::parsing::{
    admin_bare, admin_form, admin_one, all_movement_tokens, block_end, leading_value,
    lemma_mantissa_len, lemma_pow10, mode_argument, movement_form, parsed_tokens, seconds_millis,
    token_movement, token_movements, trailing_zeros,
};
use crate::text::{
    all_digits, digit_char, digit_of, digits_value, int_text, is_digit, joined, lemma_prefix_len,
};
use vstd::prelude::*;
use vstd::string::*;

verus! {

/// The token by which a button is written.
pub open spec fn movement_token(m: Movement) -> Seq<char> {
    match m {
        Movement::A => "a"@,
        Movement::B => "b"@,
        Movement::C => "c"@,
        Movement::X => "x"@,
        Movement::Y => "y"@,
        Movement::Z => "z"@,
        Movement::TL => "tl"@,
        Movement::TR => "tr"@,
        Movement::Up => "up"@,
        Movement::Down => "down"@,
        Movement::Left => "left"@,
        Movement::Right => "right"@,
        Movement::Start => "start"@,
        Movement::Select => "select"@,
        Movement::Mode => "mode"@,
    }
}

/// A number of milliseconds up to 9999 as a duration token: the seconds,
/// a full stop, and three fractional digits.
pub open spec fn millis_token(ms: u64) -> Seq<char> {
    seq![
        digit_char((ms / 1000) as nat),
        '.',
        digit_char((ms / 100 % 10) as nat),
        digit_char((ms / 10 % 10) as nat),
        digit_char((ms % 10) as nat),
    ]
}

/// A length of time as a duration token: the milliseconds and their unit.
pub open spec fn duration_text(d: Millis) -> Seq<char> {
    int_text(d) + "ms"@
}

/// A command written as tokens. A timed block is written with the time that
/// is left of it at `now`.
pub open spec fn canonical_tokens(cmd: CommandView, now: Instant) -> Seq<Seq<char>> {
    match cmd {
        CommandView::Movement(p) => Seq::new(
            p.movements.len(),
            |i: int| movement_token(p.movements[i]),
        ).push(millis_token(p.duration)),
        CommandView::AddOperator(u) => seq!["tp"@, "op"@, u],
        CommandView::RemoveOperator(u) => seq!["tp"@, "deop"@, u],
        CommandView::Block(u, None) => seq!["tp"@, "block"@, u],
        CommandView::Block(u, Some(t)) => seq![
            "tp"@,
            "block"@,
            u,
            duration_text((t - now) as Millis),
        ],
        CommandView::Unblock(u) => seq!["tp"@, "unblock"@, u],
        CommandView::Game(g) => seq!["tp"@, "game"@, g],
        CommandView::Stop => seq!["tp"@, "stop"@],
        CommandView::Partial(_) => Seq::empty(),
        CommandView::ListBlocked => seq!["tp"@, "list"@, "blocked"@],
        CommandView::ListOperators => seq!["tp"@, "list"@, "ops"@],
        CommandView::ListGames => seq!["tp"@, "games"@],
        CommandView::PrintHelp => seq!["tp"@, "help"@],
        CommandView::SaveState => seq!["tp"@, "save"@],
        CommandView::LoadState => seq!["tp"@, "load"@],
        CommandView::Reset => seq!["tp"@, "reset"@],
        CommandView::SetCooldown(d) => seq!["tp"@, "cooldown"@, duration_text(d)],
        CommandView::SetAnarchyMode(m) => seq!["tp"@, "mode"@, m.name()],
        CommandView::PrintAnarchyMode => seq!["tp"@, "mode"@],
        CommandView::PlaySfx(s) => seq!["tp"@, "sfx"@, s],
        CommandView::Controls(None) => seq!["tp"@, "controls"@],
        CommandView::Controls(Some(g)) => seq!["tp"@, "controls"@, g],
    }
}

/// The length of time that a command's written duration token stands for.
pub open spec fn canonical_duration(cmd: CommandView, now: Instant) -> Option<Millis> {
    match cmd {
        CommandView::Block(_, Some(t)) => Some((t - now) as Millis),
        CommandView::SetCooldown(d) => Some(d),
        _ => None,
    }
}

proof fn reveal_movement_words()
    ensures
        "a"@ == seq!['a'],
        "b"@ == seq!['b'],
        "c"@ == seq!['c'],
        "x"@ == seq!['x'],
        "y"@ == seq!['y'],
        "z"@ == seq!['z'],
        "u"@ == seq!['u'],
        "d"@ == seq!['d'],
        "l"@ == seq!['l'],
        "r"@ == seq!['r'],
        "tl"@ == seq!['t', 'l'],
        "lt"@ == seq!['l', 't'],
        "lb"@ == seq!['l', 'b'],
        "tr"@ == seq!['t', 'r'],
        "rt"@ == seq!['r', 't'],
        "rb"@ == seq!['r', 'b'],
        "up"@ == seq!['u', 'p'],
        "down"@ == seq!['d', 'o', 'w', 'n'],
        "left"@ == seq!['l', 'e', 'f', 't'],
        "right"@ == seq!['r', 'i', 'g', 'h', 't'],
        "start"@ == seq!['s', 't', 'a', 'r', 't'],
        "select"@ == seq!['s', 'e', 'l', 'e', 'c', 't'],
        "tp"@ == seq!['t', 'p'],
{
    reveal_strlit("a");
    reveal_strlit("b");
    reveal_strlit("c");
    reveal_strlit("x");
    reveal_strlit("y");
    reveal_strlit("z");
    reveal_strlit("u");
    reveal_strlit("d");
    reveal_strlit("l");
    reveal_strlit("r");
    reveal_strlit("tl");
    reveal_strlit("lt");
    reveal_strlit("lb");
    reveal_strlit("tr");
    reveal_strlit("rt");
    reveal_strlit("rb");
    reveal_strlit("up");
    reveal_strlit("down");
    reveal_strlit("left");
    reveal_strlit("right");
    reveal_strlit("start");
    reveal_strlit("select");
    reveal_strlit("tp");
    assert("a"@ =~= seq!['a']);
    assert("b"@ =~= seq!['b']);
    assert("c"@ =~= seq!['c']);
    assert("x"@ =~= seq!['x']);
    assert("y"@ =~= seq!['y']);
    assert("z"@ =~= seq!['z']);
    assert("u"@ =~= seq!['u']);
    assert("d"@ =~= seq!['d']);
    assert("l"@ =~= seq!['l']);
    assert("r"@ =~= seq!['r']);
    assert("tl"@ =~= seq!['t', 'l']);
    assert("lt"@ =~= seq!['l', 't']);
    assert("lb"@ =~= seq!['l', 'b']);
    assert("tr"@ =~= seq!['t', 'r']);
    assert("rt"@ =~= seq!['r', 't']);
    assert("rb"@ =~= seq!['r', 'b']);
    assert("up"@ =~= seq!['u', 'p']);
    assert("down"@ =~= seq!['d', 'o', 'w', 'n']);
    assert("left"@ =~= seq!['l', 'e', 'f', 't']);
    assert("right"@ =~= seq!['r', 'i', 'g', 'h', 't']);
    assert("start"@ =~= seq!['s', 't', 'a', 'r', 't']);
    assert("select"@ =~= seq!['s', 'e', 'l', 'e', 'c', 't']);
    assert("tp"@ =~= seq!['t', 'p']);
}

/// A token that names a button starts with a letter, and is not `tp`.
proof fn lemma_movement_token_shape(t: Seq<char>)
    requires
        token_movement(t) is Some,
    ensures
        t.len() >= 1,
        !is_digit(t[0]),
        t != "tp"@,
{
    reveal_movement_words();
}

/// No token names the Mode button, and a button's token names that button.
proof fn lemma_movement_token_round_trip(m: Movement)
    requires
        m != Movement::Mode,
    ensures
        token_movement(movement_token(m)) == Some(m),
{
    reveal_movement_words();
    let t = movement_token(m);
    assert(t.len() >= 1);
    match m {
        Movement::A => {},
        Movement::B => {
            assert(t[0] == 'b');
        },
        Movement::C => {
            assert(t[0] == 'c');
        },
        Movement::X => {
            assert(t[0] == 'x');
        },
        Movement::Y => {
            assert(t[0] == 'y');
        },
        Movement::Z => {
            assert(t[0] == 'z');
        },
        Movement::TL => {
            assert(t[0] == 't' && t[1] == 'l');
        },
        Movement::TR => {
            assert(t[0] == 't' && t[1] == 'r');
        },
        Movement::Up => {
            assert(t[0] == 'u' && t[1] == 'p');
        },
        Movement::Down => {
            assert(t[0] == 'd' && t.len() == 4);
        },
        Movement::Left => {
            assert(t[0] == 'l' && t.len() == 4);
        },
        Movement::Right => {
            assert(t[0] == 'r' && t.len() == 5);
        },
        Movement::Start => {
            assert(t[0] == 's' && t[1] == 't');
        },
        Movement::Select => {
            assert(t[0] == 's' && t[1] == 'e');
        },
        Movement::Mode => {},
    }
}

proof fn lemma_token_movement_not_mode(t: Seq<char>)
    requires
        token_movement(t) is Some,
    ensures
        token_movement(t)->0 != Movement::Mode,
{
}

/// The number that four digits write.
proof fn lemma_four_digits(a: char, b: char, c: char, d: char)
    ensures
        digits_value(seq![a, b, c, d]) == digit_of(a) * 1000 + digit_of(b) * 100 + digit_of(c) * 10
            + digit_of(d),
{
    let four = seq![a, b, c, d];
    let three = seq![a, b, c];
    let two = seq![a, b];
    let one = seq![a];
    assert(four.drop_last() =~= three);
    assert(three.drop_last() =~= two);
    assert(two.drop_last() =~= one);
    assert(one.drop_last() =~= Seq::<char>::empty());
    assert(digits_value(one.drop_last()) == 0);
    assert(digits_value(one) == digit_of(a));
    assert(digits_value(two) == digit_of(a) * 10 + digit_of(b));
    assert(digits_value(three) == (digit_of(a) * 10 + digit_of(b)) * 10 + digit_of(c));
}

/// A token of a digit, a full stop and three digits writes the thousandths
/// that its four digits write.
proof fn lemma_point_token(a: char, b: char, c: char, d: char)
    requires
        is_digit(a),
        is_digit(b),
        is_digit(c),
        is_digit(d),
    ensures
        seconds_millis(seq![a, '.', b, c, d]) == crate::parsing::thousandths_of(
            seq![a, b, c, d],
            1,
            0,
            false,
        ),
{
    let s = seq![a, '.', b, c, d];
    assert(s.len() == 5);
    assert(s[0] == a && s[1] == '.' && s[2] == b && s[3] == c && s[4] == d);
    lemma_mantissa_len(s, 5);
    assert(s.subrange(0, 5) =~= s);
    lemma_prefix_len(s, '.', 1);
    let digits = s.subrange(0, 1) + s.subrange(2, 5);
    assert(digits =~= seq![a, b, c, d]);
    assert(all_digits(digits));
}

/// Four digits that write no more than 5000 thousandths, with the point
/// after the first of them, write that many milliseconds.
proof fn lemma_four_digit_thousandths(a: char, b: char, c: char, d: char)
    requires
        digits_value(seq![a, b, c, d]) <= 5000,
    ensures
        crate::parsing::thousandths_of(seq![a, b, c, d], 1, 0, false) == Some(
            digits_value(seq![a, b, c, d]) as u64,
        ),
{
    let digits = seq![a, b, c, d];
    lemma_pow10(0);
    let one = crate::parsing::pow10(0);
    assert(digits_value(digits) * one == digits_value(digits)) by (nonlinear_arith)
        requires
            one == 1,
    ;
    assert(leading_value(digits, 4) == digits_value(digits));
    assert(trailing_zeros(digits, 4));
}

/// The digits of a number of milliseconds write that number.
proof fn lemma_millis_digits(ms: u64)
    requires
        ms <= 5000,
    ensures
        is_digit(digit_char((ms / 1000) as nat)),
        is_digit(digit_char((ms / 100 % 10) as nat)),
        is_digit(digit_char((ms / 10 % 10) as nat)),
        is_digit(digit_char((ms % 10) as nat)),
        digit_of(digit_char((ms / 1000) as nat)) * 1000 + digit_of(
            digit_char((ms / 100 % 10) as nat),
        ) * 100 + digit_of(digit_char((ms / 10 % 10) as nat)) * 10 + digit_of(
            digit_char((ms % 10) as nat),
        ) == ms,
{
    let d0 = (ms / 1000) as nat;
    let d1 = (ms / 100 % 10) as nat;
    let d2 = (ms / 10 % 10) as nat;
    let d3 = (ms % 10) as nat;
    assert(digit_of(digit_char(d0)) == d0);
    assert(digit_of(digit_char(d1)) == d1);
    assert(digit_of(digit_char(d2)) == d2);
    assert(digit_of(digit_char(d3)) == d3);
    assert(d0 * 1000 + d1 * 100 + d2 * 10 + d3 == ms);
}

/// A duration token written from milliseconds reads as those milliseconds.
proof fn lemma_millis_token_round_trip(ms: u64)
    requires
        ms <= 5000,
    ensures
        seconds_millis(millis_token(ms)) == Some(ms),
        token_movement(millis_token(ms)) is None,
{
    let a = digit_char((ms / 1000) as nat);
    let b = digit_char((ms / 100 % 10) as nat);
    let c = digit_char((ms / 10 % 10) as nat);
    let d = digit_char((ms % 10) as nat);
    lemma_millis_digits(ms);
    lemma_four_digits(a, b, c, d);
    lemma_point_token(a, b, c, d);
    lemma_four_digit_thousandths(a, b, c, d);
    let s = millis_token(ms);
    assert(s =~= seq![a, '.', b, c, d]);
    if token_movement(s) is Some {
        lemma_movement_token_shape(s);
        assert(s[0] == a);
    }
}

/// A packet read from chat, written back and read again, is the same
/// packet.
proof fn lemma_movement_round_trip(tokens: Seq<Seq<char>>)
    requires
        movement_form(tokens) is Some,
    ensures
        movement_form(
            canonical_tokens(CommandView::Movement(movement_form(tokens)->0), 0),
        ) == movement_form(tokens),
        movement_form(tokens)->0.duration <= 5000,
{
    let p = movement_form(tokens)->0;
    let source = if all_movement_tokens(tokens) {
        tokens
    } else {
        tokens.drop_last()
    };
    assert(all_movement_tokens(source));
    assert(p.movements == token_movements(source));
    assert(p.movements.len() >= 1);
    let names = Seq::new(p.movements.len(), |i: int| movement_token(p.movements[i]));
    let written = names.push(millis_token(p.duration));
    assert(written == canonical_tokens(CommandView::Movement(p), 0));
    assert(p.duration <= 5000) by {
        if !all_movement_tokens(tokens) {
            assert(seconds_millis(tokens.last()) == Some(p.duration));
        }
    }
    lemma_millis_token_round_trip(p.duration);
    assert(written.last() == millis_token(p.duration));
    assert(written.drop_last() =~= names);
    assert(!all_movement_tokens(written)) by {
        assert(token_movement(written[written.len() - 1]) is None);
    }
    assert forall|i: int| 0 <= i < names.len() implies (#[trigger] token_movement(names[i]))
        == Some(p.movements[i]) by {
        assert(token_movement(source[i]) is Some);
        lemma_token_movement_not_mode(source[i]);
        lemma_movement_token_round_trip(p.movements[i]);
    }
    assert(all_movement_tokens(names));
    assert(token_movements(names) =~= p.movements);
}

proof fn reveal_admin_words()
    ensures
        "tp"@.len() == 2 && "tp"@[0] == 't' && "tp"@[1] == 'p',
        "block"@.len() == 5 && "block"@[0] == 'b',
        "unblock"@.len() == 7,
        "op"@.len() == 2 && "op"@[0] == 'o',
        "deop"@.len() == 4 && "deop"@[0] == 'd',
        "games"@.len() == 5 && "games"@[0] == 'g',
        "game"@.len() == 4 && "game"@[0] == 'g',
        "switch"@.len() == 6,
        "start"@.len() == 5 && "start"@[0] == 's',
        "stop"@.len() == 4 && "stop"@[0] == 's' && "stop"@[1] == 't',
        "list"@.len() == 4 && "list"@[0] == 'l' && "list"@[1] == 'i',
        "help"@.len() == 4 && "help"@[0] == 'h',
        "commands"@.len() == 8 && "commands"@[0] == 'c' && "commands"@[1] == 'o' && "commands"@[2]
            == 'm',
        "save"@.len() == 4 && "save"@[0] == 's' && "save"@[1] == 'a',
        "load"@.len() == 4 && "load"@[0] == 'l' && "load"@[1] == 'o',
        "reset"@.len() == 5 && "reset"@[0] == 'r',
        "mode"@.len() == 4 && "mode"@[0] == 'm',
        "cooldown"@.len() == 8 && "cooldown"@[0] == 'c' && "cooldown"@[1] == 'o' && "cooldown"@[2]
            == 'o',
        "sfx"@.len() == 3,
        "controls"@.len() == 8 && "controls"@[0] == 'c' && "controls"@[1] == 'o' && "controls"@[2]
            == 'n',
        "blocked"@.len() == 7,
        "blocks"@.len() == 6,
        "ops"@.len() == 3,
        "operators"@.len() == 9,
        "anarchy"@.len() == 7 && "anarchy"@[0] == 'a',
        "democracy"@.len() == 9 && "democracy"@[0] == 'd',
        "restricted"@.len() == 10,
        "streaming"@.len() == 9 && "streaming"@[0] == 's',
        "stream"@.len() == 6,
{
    reveal_strlit("tp");
    reveal_strlit("block");
    reveal_strlit("unblock");
    reveal_strlit("op");
    reveal_strlit("deop");
    reveal_strlit("games");
    reveal_strlit("game");
    reveal_strlit("switch");
    reveal_strlit("start");
    reveal_strlit("stop");
    reveal_strlit("list");
    reveal_strlit("help");
    reveal_strlit("commands");
    reveal_strlit("save");
    reveal_strlit("load");
    reveal_strlit("reset");
    reveal_strlit("mode");
    reveal_strlit("cooldown");
    reveal_strlit("sfx");
    reveal_strlit("controls");
    reveal_strlit("blocked");
    reveal_strlit("blocks");
    reveal_strlit("ops");
    reveal_strlit("operators");
    reveal_strlit("anarchy");
    reveal_strlit("democracy");
    reveal_strlit("restricted");
    reveal_strlit("streaming");
    reveal_strlit("stream");
}

/// Tokens that start with `tp` are not in the movement form.
proof fn lemma_admin_not_movement(tokens: Seq<Seq<char>>)
    requires
        tokens.len() >= 2,
        tokens[0] == "tp"@,
    ensures
        movement_form(tokens) is None,
{
    if token_movement(tokens[0]) is Some {
        lemma_movement_token_shape(tokens[0]);
    }
    assert(tokens.drop_last()[0] == tokens[0]);
}

proof fn lemma_bare_round_trip(k: Seq<char>)
    ensures
        match admin_bare(k) {
            None => true,
            Some(CommandView::Partial(_)) => true,
            Some(cmd) => canonical_tokens(cmd, 0).len() == 2 && canonical_tokens(cmd, 0)[0] == "tp"@
                && admin_bare(canonical_tokens(cmd, 0)[1]) == Some(cmd),
        },
{
    reveal_admin_words();
}

proof fn lemma_one_round_trip(k: Seq<char>, a: Seq<char>, duration: Option<Millis>)
    ensures
        match admin_one(k, a, duration) {
            None => true,
            Some(CommandView::Partial(_)) => true,
            Some(CommandView::ListGames) => true,
            Some(cmd) => {
                let written = canonical_tokens(cmd, 0);
                &&& written.len() == 3
                &&& written[0] == "tp"@
                &&& admin_one(written[1], written[2], canonical_duration(cmd, 0)) == Some(cmd)
            },
        },
{
    reveal_admin_words();
    match admin_one(k, a, duration) {
        Some(CommandView::SetAnarchyMode(m)) => {
            m.lemma_name_round_trip();
            assert(mode_argument(m.name()) == Some(m));
        },
        _ => {},
    }
}

proof fn lemma_joined_one(g: Seq<char>)
    ensures
        joined(seq![g], " "@) == g,
{
}

/// A command that was read from tokens, written back as tokens and read
/// again, is the same command.
///
/// This holds of every command but the usage hints, which stand for lines
/// that were not understood. The duration of a timed block and of a
/// cooldown is read by the duration reader: the law takes the reader to
/// read a written duration token as the duration that was written.
pub proof fn lemma_parse_round_trip(
    tokens: Seq<Seq<char>>,
    duration: Option<Millis>,
    now: Instant,
)
    ensures
        match parsed_tokens(tokens, duration, now) {
            None => true,
            Some(CommandView::Partial(_)) => true,
            Some(cmd) => parsed_tokens(
                canonical_tokens(cmd, now),
                canonical_duration(cmd, now),
                now,
            ) == Some(cmd),
        },
{
    if movement_form(tokens) is Some {
        lemma_movement_round_trip(tokens);
    } else if admin_form(tokens, duration, now) is Some {
        let cmd = admin_form(tokens, duration, now)->0;
        if !(cmd is Partial) {
            let written = canonical_tokens(cmd, now);
            reveal_admin_words();
            if tokens.len() == 2 {
                lemma_bare_round_trip(tokens[1]);
                assert(written == canonical_tokens(cmd, 0));
                lemma_admin_not_movement(written);
            } else if tokens.len() == 3 {
                lemma_one_round_trip(tokens[1], tokens[2], duration);
                if cmd is ListGames {
                    assert(written == seq!["tp"@, "games"@]);
                    lemma_admin_not_movement(written);
                } else {
                    assert(written == canonical_tokens(cmd, 0));
                    assert(canonical_duration(cmd, now) == canonical_duration(cmd, 0));
                    lemma_admin_not_movement(written);
                    match cmd {
                        CommandView::Game(g) => {
                            assert(written.skip(2) =~= seq![g]);
                        },
                        CommandView::Controls(Some(g)) => {
                            assert(written.skip(2) =~= seq![g]);
                        },
                        _ => {},
                    }
                }
            } else {
                lemma_admin_not_movement(written);
                match cmd {
                    CommandView::Block(u, Some(t)) => {
                        assert(written.len() == 4);
                        assert(block_end(now, Some((t - now) as Millis)) == Some(t));
                    },
                    CommandView::Game(g) => {
                        assert(written.skip(2) =~= seq![g]);
                        lemma_joined_one(g);
                    },
                    CommandView::Controls(Some(g)) => {
                        assert(written.skip(2) =~= seq![g]);
                        lemma_joined_one(g);
                    },
                    _ => {},
                }
            }
        }
    }
}

} // verus!
