//! From a line of chat to a command.
//!
//! A line is cut into tokens at white space, each token is put in lower
//! case and the chat's de-duplication marker is dropped. The tokens are then
//! read as button presses with an optional duration, or as an admin command
//! that starts with `tp`.

use crate::command::{
    AnarchyType, Command, CommandView, Instant, Millis, Movement, MovementPacket, PacketView,
    PartialCommand,
};
use crate::text::{
    all_digits, chars_of, digits_value, is_digit, join_from, joined, lemma_digits_value_prefix,
    lemma_prefix_len, prefix_len, same_text,
};
use vstd::prelude::*;
use vstd::string::*;

verus! {

/// The lower-case form of a text, as `str::to_lowercase` gives it.
pub uninterp spec fn lowercase(s: Seq<char>) -> Seq<char>;

/// Whether a character is white space, as `char::is_whitespace` says.
pub uninterp spec fn whitespace(c: char) -> bool;

/// What `duration_str::parse` makes of a text: seconds and the nanoseconds
/// beyond them, or nothing where it reports an error.
pub uninterp spec fn parsed_duration(s: Seq<char>) -> Option<(u64, u32)>;

/// Calls `str::to_lowercase`, which maps each character to its Unicode
/// lower-case form. The result is a function of the argument alone.
#[verifier::external_body]
pub(crate) fn to_lowercase(s: &str) -> (r: String)
    ensures
        r@ == lowercase(s@),
{
    s.to_lowercase()
}

/// Calls `char::is_whitespace`, which says whether a character has the
/// Unicode property White_Space. The result is a function of the argument
/// alone.
#[verifier::external_body]
fn is_whitespace(c: char) -> (r: bool)
    ensures
        r == whitespace(c),
{
    c.is_whitespace()
}

/// Calls `duration_str::parse`, which reads texts such as `10s` or `1h3m`
/// as a `std::time::Duration`, and hands out that duration's whole seconds
/// and the nanoseconds beyond them. The result is a function of the argument
/// alone.
#[verifier::external_body]
fn parse_duration_text(s: &str) -> (r: Option<(u64, u32)>)
    ensures
        r == parsed_duration(s@),
{
    match duration_str::parse(s) {
        Ok(d) => Some((d.as_secs(), d.subsec_nanos())),
        Err(_) => None,
    }
}

/// Reads the clock through `chrono::Utc::now`: milliseconds since the Unix
/// epoch. Nothing is known of the result.
#[verifier::external_body]
fn current_instant() -> Instant {
    chrono::Utc::now().timestamp_millis()
}

/// The token that the chat appends to a repeated message.
pub open spec fn is_marker(t: Seq<char>) -> bool {
    t == "\u{e0000}"@
}

/// Each piece in lower case, without the pieces that are the marker.
pub open spec fn lowered_tokens(pieces: Seq<Seq<char>>) -> Seq<Seq<char>>
    decreases pieces.len(),
{
    if pieces.len() == 0 {
        Seq::empty()
    } else if is_marker(lowercase(pieces.last())) {
        lowered_tokens(pieces.drop_last())
    } else {
        lowered_tokens(pieces.drop_last()).push(lowercase(pieces.last()))
    }
}

/// The pieces of a text between runs of white space. No piece is empty.
///
/// Read from the left: white space ends a piece, a character after white
/// space or at the start begins one, and any other character continues the
/// piece before it.
pub open spec fn whitespace_split(s: Seq<char>) -> Seq<Seq<char>>
    decreases s.len(),
{
    if s.len() == 0 {
        Seq::empty()
    } else {
        let before = whitespace_split(s.drop_last());
        if whitespace(s.last()) {
            before
        } else if s.len() >= 2 && !whitespace(s[s.len() - 2]) {
            before.drop_last().push(before.last().push(s.last()))
        } else {
            before.push(seq![s.last()])
        }
    }
}

/// No piece of a split text is empty, and none holds white space. Where
/// the text does not end in white space, its last character ends the last
/// piece.
pub proof fn lemma_whitespace_split(s: Seq<char>)
    ensures
        forall|i: int|
            0 <= i < whitespace_split(s).len() ==> (#[trigger] whitespace_split(s)[i]).len() > 0,
        forall|i: int, j: int|
            0 <= i < whitespace_split(s).len() && 0 <= j < whitespace_split(s)[i].len()
                ==> !whitespace(#[trigger] whitespace_split(s)[i][j]),
        s.len() > 0 && !whitespace(s.last()) ==> whitespace_split(s).len() > 0,
    decreases s.len(),
{
    if s.len() > 0 {
        let shorter = s.drop_last();
        lemma_whitespace_split(shorter);
        let before = whitespace_split(shorter);
        let after = whitespace_split(s);
        if !whitespace(s.last()) {
            if s.len() >= 2 && !whitespace(s[s.len() - 2]) {
                assert(shorter.last() == s[s.len() - 2]);
                let word = before.last().push(s.last());
                assert forall|i: int| 0 <= i < after.len() implies (#[trigger] after[i]).len()
                    > 0 by {
                    if i < after.len() - 1 {
                        assert(after[i] == before[i]);
                    }
                }
                assert forall|i: int, j: int|
                    0 <= i < after.len() && 0 <= j < after[i].len() implies !whitespace(
                    #[trigger] after[i][j],
                ) by {
                    if i < after.len() - 1 {
                        assert(after[i] == before[i]);
                    } else if j < word.len() - 1 {
                        assert(word[j] == before[before.len() - 1][j]);
                    }
                }
            } else {
                assert forall|i: int| 0 <= i < after.len() implies (#[trigger] after[i]).len()
                    > 0 by {
                    if i < before.len() {
                        assert(after[i] == before[i]);
                    }
                }
                assert forall|i: int, j: int|
                    0 <= i < after.len() && 0 <= j < after[i].len() implies !whitespace(
                    #[trigger] after[i][j],
                ) by {
                    if i < before.len() {
                        assert(after[i] == before[i]);
                    }
                }
            }
        }
    }
}

/// Cuts a text at its white space, as `str::split_whitespace` does.
pub fn split_whitespace(s: &str) -> (r: Vec<String>)
    ensures
        r.deep_view() == whitespace_split(s@),
{
    let chars: Vec<char> = chars_of(s);
    let n: usize = chars.len();
    let mut out: Vec<String> = Vec::new();
    let mut start: usize = 0;
    let mut in_word: bool = false;
    let mut i: usize = 0;
    assert(s@.subrange(0, 0) =~= Seq::<char>::empty());
    assert(out.deep_view() =~= Seq::<Seq<char>>::empty());
    while i < n
        invariant
            i <= n,
            n == s@.len(),
            chars@ == s@,
            in_word ==> start < i && !whitespace(s@[i - 1]) && whitespace_split(
                s@.subrange(0, i as int),
            ) == out.deep_view().push(s@.subrange(start as int, i as int)),
            !in_word ==> (i == 0 || whitespace(s@[i - 1])) && whitespace_split(
                s@.subrange(0, i as int),
            ) == out.deep_view(),
        decreases n - i,
    {
        let c: char = chars[i];
        let ghost shorter = s@.subrange(0, i as int);
        let ghost longer = s@.subrange(0, i + 1);
        assert(longer.drop_last() =~= shorter);
        assert(longer.last() == c);
        if i > 0 {
            assert(longer[longer.len() - 2] == s@[i - 1]);
        }
        let ghost previous = out.deep_view();
        if is_whitespace(c) {
            if in_word {
                let piece: String = s.substring_char(start, i).to_owned();
                out.push(piece);
                assert(out.deep_view() =~= previous.push(piece@));
                in_word = false;
            }
        } else {
            if !in_word {
                start = i;
                in_word = true;
                assert(s@.subrange(i as int, i + 1) =~= seq![c]);
            } else {
                let ghost word = s@.subrange(start as int, i as int);
                assert(previous.push(word).drop_last() =~= previous);
                assert(word.push(c) =~= s@.subrange(start as int, i + 1));
            }
        }
        i = i + 1;
    }
    assert(s@.subrange(0, n as int) =~= s@);
    if in_word {
        let ghost previous = out.deep_view();
        let piece: String = s.substring_char(start, n).to_owned();
        out.push(piece);
        assert(out.deep_view() =~= previous.push(piece@));
    }
    out
}

/// The tokens of a line of chat.
pub open spec fn tokens_of(input: Seq<char>) -> Seq<Seq<char>> {
    lowered_tokens(whitespace_split(input))
}

/// Cuts a line into its tokens.
pub fn tokenize(input: &str) -> (r: Vec<String>)
    ensures
        r.deep_view() == tokens_of(input@),
{
    let pieces: Vec<String> = split_whitespace(input);
    let ghost all = pieces.deep_view();
    let mut out: Vec<String> = Vec::new();
    let mut i: usize = 0;
    assert(all.subrange(0, 0) =~= Seq::<Seq<char>>::empty());
    assert(out.deep_view() =~= Seq::<Seq<char>>::empty());
    while i < pieces.len()
        invariant
            i <= pieces@.len(),
            all == pieces.deep_view(),
            out.deep_view() == lowered_tokens(all.subrange(0, i as int)),
        decreases pieces@.len() - i,
    {
        let ghost before = all.subrange(0, i as int);
        let ghost after = all.subrange(0, i + 1);
        assert(after.drop_last() =~= before);
        assert(after.last() == pieces@[i as int]@);
        let lowered: String = to_lowercase(pieces[i].as_str());
        let ghost previous = out.deep_view();
        if !same_text(lowered.as_str(), "\u{e0000}") {
            out.push(lowered);
            assert(out.deep_view() =~= previous.push(lowered@));
        }
        i = i + 1;
    }
    assert(all.subrange(0, i as int) =~= all);
    out
}

/// Whether every character is the digit 0.
pub open spec fn all_zeros(s: Seq<char>) -> bool {
    forall|i: int| 0 <= i < s.len() ==> #[trigger] s[i] == '0'
}

/// Ten to the power of `n`.
pub open spec fn pow10(n: nat) -> nat
    decreases n,
{
    if n == 0 {
        1
    } else {
        10 * pow10((n - 1) as nat)
    }
}

/// How many characters stand before the mark of the exponent, `e` or `E`.
pub open spec fn mantissa_len(s: Seq<char>) -> nat
    decreases s.len(),
{
    if s.len() == 0 || s[0] == 'e' || s[0] == 'E' {
        0
    } else {
        1 + mantissa_len(s.skip(1))
    }
}

/// The number that an exponent writes: an optional sign, then digits.
pub open spec fn exponent_value(s: Seq<char>) -> Option<int> {
    let signed = s.len() > 0 && (s[0] == '-' || s[0] == '+');
    let digits = if signed {
        s.skip(1)
    } else {
        s
    };
    if digits.len() == 0 || !all_digits(digits) {
        None
    } else if s[0] == '-' {
        Some(-(digits_value(digits) as int))
    } else {
        Some(digits_value(digits) as int)
    }
}

/// The whole number that the first `cut` of the digits write. Where there
/// are fewer digits, zeros stand for those that are missing.
pub open spec fn leading_value(digits: Seq<char>, cut: int) -> nat {
    if cut <= 0 {
        0
    } else if cut >= digits.len() {
        digits_value(digits) * pow10((cut - digits.len()) as nat)
    } else {
        digits_value(digits.subrange(0, cut))
    }
}

/// Whether the digits after the first `cut` are all zero.
pub open spec fn trailing_zeros(digits: Seq<char>, cut: int) -> bool {
    if cut >= digits.len() {
        true
    } else if cut <= 0 {
        all_zeros(digits)
    } else {
        all_zeros(digits.skip(cut))
    }
}

/// The thousandths that digits write whose point stands after the first
/// `whole_len` of them and is moved by the exponent `e`, where the number
/// lies between 0 and 5: the digits up to three places after the point.
pub open spec fn thousandths_of(digits: Seq<char>, whole_len: int, e: int, negative: bool) -> Option<
    u64,
> {
    let cut = whole_len + e + 3;
    let kept = leading_value(digits, cut);
    if negative && !all_zeros(digits) {
        None
    } else if kept < 5000 || (kept == 5000 && trailing_zeros(digits, cut)) {
        Some(kept as u64)
    } else {
        None
    }
}

/// The number of seconds that a duration token writes, in milliseconds.
///
/// A token is an optional sign, digits with at most one full stop among
/// them and a digit on at least one side of it, and optionally an exponent:
/// `e` or `E`, an optional sign, and digits. It stands for its digits times
/// the power of ten that the full stop and the exponent give. It counts
/// only where that number lies between 0 and 5. What lies beyond the
/// thousandths is cut off.
pub open spec fn seconds_millis(s: Seq<char>) -> Option<u64> {
    let signed = s.len() > 0 && (s[0] == '-' || s[0] == '+');
    let negative = s.len() > 0 && s[0] == '-';
    let body = if signed {
        s.skip(1)
    } else {
        s
    };
    let m = mantissa_len(body) as int;
    let mantissa = body.subrange(0, m);
    let exponent = if m < body.len() {
        exponent_value(body.skip(m + 1))
    } else {
        Some(0int)
    };
    let k = prefix_len(mantissa, '.') as int;
    let whole = mantissa.subrange(0, k);
    let frac = if k < mantissa.len() {
        mantissa.subrange(k + 1, mantissa.len() as int)
    } else {
        Seq::empty()
    };
    let digits = whole + frac;
    if digits.len() == 0 || !all_digits(digits) {
        None
    } else {
        match exponent {
            None => None,
            Some(e) => thousandths_of(digits, whole.len() as int, e, negative),
        }
    }
}

/// The mantissa ends where the first `e` or `E` stands.
pub proof fn lemma_mantissa_len(s: Seq<char>, k: int)
    requires
        0 <= k <= s.len(),
        forall|j: int| 0 <= j < k ==> s[j] != 'e' && s[j] != 'E',
        k == s.len() || s[k] == 'e' || s[k] == 'E',
    ensures
        mantissa_len(s) == k,
    decreases k,
{
    if k > 0 {
        let rest = s.skip(1);
        assert forall|j: int| 0 <= j < k - 1 implies rest[j] != 'e' && rest[j] != 'E' by {
            assert(rest[j] == s[j + 1]);
        }
        lemma_mantissa_len(rest, k - 1);
    }
}

/// The first powers of ten, and that the others are no less.
pub proof fn lemma_pow10(n: nat)
    ensures
        pow10(n) >= 1,
        n >= 4 ==> pow10(n) >= 10000,
        n == 0 ==> pow10(n) == 1,
        n == 1 ==> pow10(n) == 10,
        n == 2 ==> pow10(n) == 100,
        n == 3 ==> pow10(n) == 1000,
    decreases n,
{
    if n > 0 {
        lemma_pow10((n - 1) as nat);
    }
}

fn digits_only(chars: &Vec<char>, from: usize, to: usize) -> (r: bool)
    requires
        from <= to <= chars@.len(),
    ensures
        r == all_digits(chars@.subrange(from as int, to as int)),
{
    let ghost part = chars@.subrange(from as int, to as int);
    let mut i: usize = from;
    while i < to
        invariant
            from <= i <= to <= chars@.len(),
            part == chars@.subrange(from as int, to as int),
            forall|j: int| 0 <= j < i - from ==> is_digit(#[trigger] part[j]),
        decreases to - i,
    {
        let c: char = chars[i];
        if !(c >= '0' && c <= '9') {
            assert(!is_digit(part[i - from]));
            return false;
        }
        i = i + 1;
    }
    true
}

fn zeros_only(chars: &Vec<char>, from: usize, to: usize) -> (r: bool)
    requires
        from <= to <= chars@.len(),
    ensures
        r == all_zeros(chars@.subrange(from as int, to as int)),
{
    let ghost part = chars@.subrange(from as int, to as int);
    let mut i: usize = from;
    while i < to
        invariant
            from <= i <= to <= chars@.len(),
            part == chars@.subrange(from as int, to as int),
            forall|j: int| 0 <= j < i - from ==> #[trigger] part[j] == '0',
        decreases to - i,
    {
        if chars[i] != '0' {
            assert(part[i - from] != '0');
            return false;
        }
        i = i + 1;
    }
    true
}

/// The value of a run of digits where it is at most `cap`.
fn capped_value(chars: &Vec<char>, from: usize, to: usize, cap: u64) -> (r: Option<u64>)
    requires
        from <= to <= chars@.len(),
        all_digits(chars@.subrange(from as int, to as int)),
        cap <= 1_000_000,
    ensures
        r == (if digits_value(chars@.subrange(from as int, to as int)) <= cap {
            Some(digits_value(chars@.subrange(from as int, to as int)) as u64)
        } else {
            None
        }),
{
    let ghost part = chars@.subrange(from as int, to as int);
    let mut acc: u64 = 0;
    let mut i: usize = from;
    assert(part.subrange(0, 0) =~= Seq::<char>::empty());
    while i < to
        invariant
            from <= i <= to <= chars@.len(),
            part == chars@.subrange(from as int, to as int),
            all_digits(part),
            cap <= 1_000_000,
            acc <= cap,
            acc == digits_value(part.subrange(0, i - from)),
        decreases to - i,
    {
        let c: char = chars[i];
        let ghost shorter = part.subrange(0, i - from);
        let ghost longer = part.subrange(0, i - from + 1);
        assert(longer.drop_last() =~= shorter);
        assert(longer.last() == c);
        assert(is_digit(part[i - from]));
        acc = acc * 10 + ((c as u32 - 48) as u64);
        if acc > cap {
            proof {
                lemma_digits_value_prefix(part, i - from + 1);
            }
            return None;
        }
        i = i + 1;
    }
    assert(part.subrange(0, to - from) =~= part);
    Some(acc)
}

/// The greatest exponent that is told apart from those beyond it.
pub const EXPONENT_CAP: i128 = 0x1_0000_0000_0000_0000_0000_0000;

/// An exponent no further from zero than the cap.
pub open spec fn clamped(e: int) -> int {
    if e > EXPONENT_CAP {
        EXPONENT_CAP as int
    } else if e < -EXPONENT_CAP {
        -EXPONENT_CAP
    } else {
        e
    }
}

/// Reads an exponent. One that lies beyond the cap is read as the cap.
fn read_exponent(chars: &Vec<char>, from: usize, to: usize) -> (r: Option<i128>)
    requires
        from <= to <= chars@.len(),
    ensures
        r == (match exponent_value(chars@.subrange(from as int, to as int)) {
            Some(e) => Some(clamped(e) as i128),
            None => None,
        }),
{
    let ghost text = chars@.subrange(from as int, to as int);
    let signed: bool = from < to && (chars[from] == '-' || chars[from] == '+');
    let negative: bool = from < to && chars[from] == '-';
    let start: usize = if signed {
        from + 1
    } else {
        from
    };
    let ghost digits = chars@.subrange(start as int, to as int);
    assert(text.skip(0) =~= text);
    assert(digits =~= (if signed {
        text.skip(1)
    } else {
        text
    }));
    if from < to {
        assert(text[0] == chars@[from as int]);
    }
    if start == to || !digits_only(chars, start, to) {
        return None;
    }
    let mut acc: i128 = 0;
    let mut i: usize = start;
    assert(digits.subrange(0, 0) =~= Seq::<char>::empty());
    while i < to
        invariant
            start <= i <= to <= chars@.len(),
            digits == chars@.subrange(start as int, to as int),
            all_digits(digits),
            0 <= acc <= EXPONENT_CAP,
            acc == clamped(digits_value(digits.subrange(0, i - start)) as int),
        decreases to - i,
    {
        let c: char = chars[i];
        let ghost shorter = digits.subrange(0, i - start);
        let ghost longer = digits.subrange(0, i - start + 1);
        assert(longer.drop_last() =~= shorter);
        assert(longer.last() == c);
        assert(is_digit(digits[i - start]));
        let next: i128 = acc * 10 + ((c as u32 - 48) as i128);
        acc = if next > EXPONENT_CAP {
            EXPONENT_CAP
        } else {
            next
        };
        i = i + 1;
    }
    assert(digits.subrange(0, to - start) =~= digits);
    if negative {
        Some(-acc)
    } else {
        Some(acc)
    }
}

/// The digits of a mantissa without its full stop.
fn mantissa_digits(chars: &Vec<char>, start: usize, k: usize, m: usize) -> (r: Vec<char>)
    requires
        start <= k <= m <= chars@.len(),
    ensures
        r@ == chars@.subrange(start as int, k as int) + (if k < m {
            chars@.subrange(k + 1, m as int)
        } else {
            Seq::<char>::empty()
        }),
{
    let mut out: Vec<char> = Vec::new();
    let mut i: usize = start;
    while i < k
        invariant
            start <= i <= k <= m <= chars@.len(),
            out@ == chars@.subrange(start as int, i as int),
        decreases k - i,
    {
        out.push(chars[i]);
        i = i + 1;
        assert(out@ =~= chars@.subrange(start as int, i as int));
    }
    if k < m {
        let ghost whole = out@;
        let mut j: usize = k + 1;
        assert(out@ =~= whole + chars@.subrange(k + 1, j as int));
        while j < m
            invariant
                k < j <= m <= chars@.len(),
                out@ == whole + chars@.subrange(k + 1, j as int),
            decreases m - j,
        {
            out.push(chars[j]);
            j = j + 1;
            assert(out@ =~= whole + chars@.subrange(k + 1, j as int));
        }
    } else {
        assert(out@ + Seq::<char>::empty() =~= out@);
    }
    out
}

/// The thousandths that the digits write with the point moved, where the
/// number lies between 0 and 5.
fn thousandths(digits: &Vec<char>, whole_len: usize, exponent: i128, negative: bool) -> (r: Option<
    u64,
>)
    requires
        all_digits(digits@),
        whole_len <= digits@.len(),
        -EXPONENT_CAP <= exponent <= EXPONENT_CAP,
    ensures
        forall|e: int|
            clamped(e) == exponent ==> r == #[trigger] thousandths_of(
                digits@,
                whole_len as int,
                e,
                negative,
            ),
{
    let n: usize = digits.len();
    assert(digits@.subrange(0, n as int) =~= digits@);
    let zero: bool = zeros_only(digits, 0, n);
    if negative && !zero {
        return None;
    }
    let cut: i128 = (whole_len as i128) + exponent + 3;
    if cut <= 0 {
        return Some(0);
    }
    if cut >= n as i128 {
        let shift: i128 = cut - (n as i128);
        let value: Option<u64> = capped_value(digits, 0, n, 5000);
        proof {
            assert forall|e: int| clamped(e) == exponent implies whole_len + e + 3 >= n && (shift
                >= 4 ==> whole_len + e + 3 - n >= 4) && (shift < 4 ==> whole_len + e + 3 - n
                == shift) by {}
            assert forall|j: nat| #![auto] pow10(j) >= 1 && (j >= 4 ==> pow10(j) >= 10000) by {
                lemma_pow10(j);
            }
            lemma_pow10(0);
            lemma_pow10(1);
            lemma_pow10(2);
            lemma_pow10(3);
        }
        match value {
            None => {
                proof {
                    let d = digits_value(digits@);
                    assert forall|j: nat| d * pow10(j) > 5000 by {
                        lemma_pow10(j);
                        assert(d * pow10(j) >= d) by (nonlinear_arith)
                            requires
                                pow10(j) >= 1,
                                d >= 0,
                        ;
                    }
                }
                None
            },
            Some(d) => {
                if d == 0 {
                    proof {
                        assert forall|j: nat| 0 * pow10(j) == 0 by {}
                    }
                    Some(0)
                } else if shift >= 4 {
                    proof {
                        assert forall|j: nat| j >= 4 implies d * pow10(j) > 5000 by {
                            lemma_pow10(j);
                            assert(d * pow10(j) >= pow10(j)) by (nonlinear_arith)
                                requires
                                    d >= 1,
                                    pow10(j) >= 0,
                            ;
                        }
                    }
                    None
                } else {
                    let scale: u64 = if shift == 0 {
                        1
                    } else if shift == 1 {
                        10
                    } else if shift == 2 {
                        100
                    } else {
                        1000
                    };
                    assert(scale == pow10(shift as nat));
                    assert(d * scale <= 5_000_000) by (nonlinear_arith)
                        requires
                            d <= 5000,
                            scale <= 1000,
                    ;
                    let kept: u64 = d * scale;
                    if kept <= 5000 {
                        Some(kept)
                    } else {
                        None
                    }
                }
            },
        }
    } else {
        let at: usize = cut as usize;
        proof {
            assert forall|e: int| clamped(e) == exponent implies whole_len + e + 3 == cut by {}
            assert(all_digits(digits@.subrange(0, at as int)));
        }
        match capped_value(digits, 0, at, 5000) {
            None => None,
            Some(kept) => {
                if kept < 5000 {
                    Some(kept)
                } else {
                    assert(digits@.subrange(at as int, n as int) =~= digits@.skip(at as int));
                    if zeros_only(digits, at, n) {
                        Some(kept)
                    } else {
                        None
                    }
                }
            },
        }
    }
}

/// Where the mantissa ends: at the mark of the exponent, or at the end.
fn mantissa_end(chars: &Vec<char>, start: usize) -> (m: usize)
    requires
        start <= chars@.len(),
    ensures
        start <= m <= chars@.len(),
        m - start == mantissa_len(chars@.skip(start as int)),
{
    let ghost body = chars@.skip(start as int);
    let mut m: usize = start;
    while m < chars.len() && chars[m] != 'e' && chars[m] != 'E'
        invariant
            start <= m <= chars@.len(),
            body == chars@.skip(start as int),
            forall|j: int| 0 <= j < m - start ==> body[j] != 'e' && body[j] != 'E',
        decreases chars@.len() - m,
    {
        m = m + 1;
    }
    proof {
        lemma_mantissa_len(body, m - start);
    }
    m
}

/// Where the full stop of the mantissa stands; at its end where it has none.
fn point_place(chars: &Vec<char>, start: usize, m: usize) -> (k: usize)
    requires
        start <= m <= chars@.len(),
    ensures
        start <= k <= m,
        k - start == prefix_len(chars@.subrange(start as int, m as int), '.'),
{
    let ghost mantissa = chars@.subrange(start as int, m as int);
    let mut k: usize = start;
    while k < m && chars[k] != '.'
        invariant
            start <= k <= m <= chars@.len(),
            mantissa == chars@.subrange(start as int, m as int),
            forall|j: int| 0 <= j < k - start ==> mantissa[j] != '.',
        decreases m - k,
    {
        k = k + 1;
    }
    proof {
        lemma_prefix_len(mantissa, '.', k - start);
    }
    k
}

/// The exponent of a token whose mantissa ends at `m`: 0 where nothing
/// follows the mantissa.
fn exponent_after(chars: &Vec<char>, start: usize, m: usize) -> (r: Option<i128>)
    requires
        start <= m <= chars@.len(),
    ensures
        r == (match (if m < chars@.len() {
            exponent_value(chars@.skip(start as int).skip(m - start + 1))
        } else {
            Some(0int)
        }) {
            Some(e) => Some(clamped(e) as i128),
            None => None,
        }),
{
    if m < chars.len() {
        assert(chars@.skip(start as int).skip(m - start + 1) =~= chars@.subrange(
            m + 1,
            chars@.len() as int,
        ));
        read_exponent(chars, m + 1, chars.len())
    } else {
        Some(0)
    }
}

/// Reads a duration token: seconds, as milliseconds.
pub fn parse_seconds(token: &str) -> (r: Option<u64>)
    ensures
        r == seconds_millis(token@),
{
    let chars: Vec<char> = chars_of(token);
    let n: usize = chars.len();
    let signed: bool = n > 0 && (chars[0] == '-' || chars[0] == '+');
    let negative: bool = n > 0 && chars[0] == '-';
    let start: usize = if signed {
        1
    } else {
        0
    };
    let ghost body = chars@.skip(start as int);
    assert(chars@.skip(0) =~= chars@);
    let m: usize = mantissa_end(&chars, start);
    let ghost mantissa = body.subrange(0, m - start);
    assert(mantissa =~= chars@.subrange(start as int, m as int));
    let k: usize = point_place(&chars, start, m);
    let ghost whole = mantissa.subrange(0, k - start);
    let ghost frac = if k - start < mantissa.len() {
        mantissa.subrange(k - start + 1, mantissa.len() as int)
    } else {
        Seq::<char>::empty()
    };
    assert(whole =~= chars@.subrange(start as int, k as int));
    assert(frac =~= (if k < m {
        chars@.subrange(k + 1, m as int)
    } else {
        Seq::<char>::empty()
    }));
    let digits: Vec<char> = mantissa_digits(&chars, start, k, m);
    assert(digits@.subrange(0, digits@.len() as int) =~= digits@);
    if digits.len() == 0 || !digits_only(&digits, 0, digits.len()) {
        return None;
    }
    match exponent_after(&chars, start, m) {
        Some(exponent) => thousandths(&digits, k - start, exponent, negative),
        None => None,
    }
}

/// The button that a token names.
pub open spec fn token_movement(t: Seq<char>) -> Option<Movement> {
    if t == "a"@ {
        Some(Movement::A)
    } else if t == "b"@ {
        Some(Movement::B)
    } else if t == "c"@ {
        Some(Movement::C)
    } else if t == "x"@ {
        Some(Movement::X)
    } else if t == "y"@ {
        Some(Movement::Y)
    } else if t == "z"@ {
        Some(Movement::Z)
    } else if t == "tl"@ || t == "lt"@ || t == "lb"@ {
        Some(Movement::TL)
    } else if t == "tr"@ || t == "rt"@ || t == "rb"@ {
        Some(Movement::TR)
    } else if t == "up"@ || t == "u"@ {
        Some(Movement::Up)
    } else if t == "down"@ || t == "d"@ {
        Some(Movement::Down)
    } else if t == "left"@ || t == "l"@ {
        Some(Movement::Left)
    } else if t == "right"@ || t == "r"@ {
        Some(Movement::Right)
    } else if t == "start"@ {
        Some(Movement::Start)
    } else if t == "select"@ {
        Some(Movement::Select)
    } else {
        None
    }
}

/// Reads a token as a button. `mode` is no such token: chat cannot press it.
pub fn parse_movement_token(token: &str) -> (r: Option<Movement>)
    ensures
        r == token_movement(token@),
{
    if same_text(token, "a") {
        Some(Movement::A)
    } else if same_text(token, "b") {
        Some(Movement::B)
    } else if same_text(token, "c") {
        Some(Movement::C)
    } else if same_text(token, "x") {
        Some(Movement::X)
    } else if same_text(token, "y") {
        Some(Movement::Y)
    } else if same_text(token, "z") {
        Some(Movement::Z)
    } else if same_text(token, "tl") || same_text(token, "lt") || same_text(token, "lb") {
        Some(Movement::TL)
    } else if same_text(token, "tr") || same_text(token, "rt") || same_text(token, "rb") {
        Some(Movement::TR)
    } else if same_text(token, "up") || same_text(token, "u") {
        Some(Movement::Up)
    } else if same_text(token, "down") || same_text(token, "d") {
        Some(Movement::Down)
    } else if same_text(token, "left") || same_text(token, "l") {
        Some(Movement::Left)
    } else if same_text(token, "right") || same_text(token, "r") {
        Some(Movement::Right)
    } else if same_text(token, "start") {
        Some(Movement::Start)
    } else if same_text(token, "select") {
        Some(Movement::Select)
    } else {
        None
    }
}

/// Whether every token names a button.
pub open spec fn all_movement_tokens(tokens: Seq<Seq<char>>) -> bool {
    forall|i: int| 0 <= i < tokens.len() ==> (#[trigger] token_movement(tokens[i])) is Some
}

/// The buttons that a run of movement tokens names, in order.
pub open spec fn token_movements(tokens: Seq<Seq<char>>) -> Seq<Movement> {
    Seq::new(tokens.len(), |i: int| token_movement(tokens[i])->0)
}

/// The duration of a packet whose line names none.
pub const DEFAULT_DURATION: u64 = 100;

/// A packet as chat makes it: not staggered and not blocking.
pub open spec fn chat_packet(movements: Seq<Movement>, duration: u64) -> PacketView {
    PacketView { movements, duration, stagger: 0, blocking: false }
}

/// The movement form: one or more movement tokens, and after them
/// optionally one duration token.
pub open spec fn movement_form(tokens: Seq<Seq<char>>) -> Option<PacketView> {
    if tokens.len() == 0 {
        None
    } else if all_movement_tokens(tokens) {
        Some(chat_packet(token_movements(tokens), DEFAULT_DURATION))
    } else if tokens.len() >= 2 && all_movement_tokens(tokens.drop_last()) {
        match seconds_millis(tokens.last()) {
            Some(ms) => Some(chat_packet(token_movements(tokens.drop_last()), ms)),
            None => None,
        }
    } else {
        None
    }
}

/// Reads tokens in the movement form.
pub fn parse_movement(tokens: &Vec<String>) -> (r: Option<Command>)
    ensures
        r.deep_view() == (match movement_form(tokens.deep_view()) {
            Some(p) => Some(CommandView::Movement(p)),
            None => None,
        }),
{
    let ghost toks = tokens.deep_view();
    let n: usize = tokens.len();
    if n == 0 {
        return None;
    }
    let mut movements: Vec<Movement> = Vec::new();
    let mut i: usize = 0;
    let mut broke: bool = false;
    while i < n && !broke
        invariant
            i <= n,
            n == tokens@.len(),
            toks == tokens.deep_view(),
            all_movement_tokens(toks.subrange(0, i as int)),
            movements@ == token_movements(toks.subrange(0, i as int)),
            broke ==> i < n && token_movement(toks[i as int]) is None,
        decreases n - i + (if broke { 0int } else { 1int }),
    {
        match parse_movement_token(tokens[i].as_str()) {
            Some(m) => {
                let ghost before = toks.subrange(0, i as int);
                let ghost after = toks.subrange(0, i + 1);
                movements.push(m);
                i = i + 1;
                assert forall|j: int| 0 <= j < after.len() implies (#[trigger] token_movement(
                    after[j],
                )) is Some by {
                    if j < before.len() {
                        assert(after[j] == before[j]);
                    }
                }
                assert(movements@ =~= token_movements(after));
            },
            None => {
                broke = true;
            },
        }
    }
    if !broke {
        assert(toks.subrange(0, n as int) =~= toks);
        return Some(
            Command::Movement(
                MovementPacket { movements, duration: DEFAULT_DURATION, stagger: 0, blocking: false },
            ),
        );
    }
    assert(!all_movement_tokens(toks));
    if i + 1 == n && n >= 2 {
        assert(toks.subrange(0, i as int) =~= toks.drop_last());
        match parse_seconds(tokens[i].as_str()) {
            Some(ms) => Some(
                Command::Movement(
                    MovementPacket { movements, duration: ms, stagger: 0, blocking: false },
                ),
            ),
            None => None,
        }
    } else {
        proof {
            if n >= 2 {
                assert(toks.drop_last()[i as int] == toks[i as int]);
            }
        }
        None
    }
}

/// The length of time that the duration reader's answer stands for in
/// milliseconds, where a signed 64-bit number can hold it.
pub open spec fn millis_of(raw: Option<(u64, u32)>) -> Option<Millis> {
    match raw {
        Some((secs, nanos)) => if secs * 1000 + nanos / 1_000_000 <= i64::MAX {
            Some((secs * 1000 + nanos / 1_000_000) as i64)
        } else {
            None
        },
        None => None,
    }
}

/// Turns seconds and nanoseconds into milliseconds.
pub fn to_millis(raw: Option<(u64, u32)>) -> (r: Option<Millis>)
    ensures
        r == millis_of(raw),
{
    match raw {
        Some((secs, nanos)) => {
            if secs > 9_223_372_036_854_775 {
                None
            } else {
                let ms: u64 = secs * 1000 + (nanos / 1_000_000) as u64;
                if ms <= i64::MAX as u64 {
                    Some(ms as i64)
                } else {
                    None
                }
            }
        },
        None => None,
    }
}

/// The token that holds a duration, where the tokens have the shape of a
/// command that takes one.
pub open spec fn duration_token(tokens: Seq<Seq<char>>) -> Option<Seq<char>> {
    if tokens.len() == 4 && tokens[0] == "tp"@ && tokens[1] == "block"@ {
        Some(tokens[3])
    } else if tokens.len() == 3 && tokens[0] == "tp"@ && tokens[1] == "cooldown"@ {
        Some(tokens[2])
    } else {
        None
    }
}

/// The duration that the duration reader finds in a command's tokens.
pub open spec fn duration_argument(tokens: Seq<Seq<char>>) -> Option<Millis> {
    match duration_token(tokens) {
        Some(t) => millis_of(parsed_duration(t)),
        None => None,
    }
}

fn token_is(tokens: &Vec<String>, i: usize, word: &str) -> (r: bool)
    requires
        i < tokens@.len(),
    ensures
        r == (tokens.deep_view()[i as int] == word@),
{
    same_text(tokens[i].as_str(), word)
}

/// Finds the duration token of a command that takes one and has the
/// duration reader read it.
pub fn read_duration_argument(tokens: &Vec<String>) -> (r: Option<Millis>)
    ensures
        r == duration_argument(tokens.deep_view()),
{
    let n: usize = tokens.len();
    if n == 4 && token_is(tokens, 0, "tp") && token_is(tokens, 1, "block") {
        to_millis(parse_duration_text(tokens[3].as_str()))
    } else if n == 3 && token_is(tokens, 0, "tp") && token_is(tokens, 1, "cooldown") {
        to_millis(parse_duration_text(tokens[2].as_str()))
    } else {
        None
    }
}

/// Whether the keyword is one of those that start a game.
pub open spec fn is_game_keyword(k: Seq<char>) -> bool {
    k == "game"@ || k == "switch"@ || k == "start"@
}

/// The mode that `tp mode` takes as its argument.
pub open spec fn mode_argument(a: Seq<char>) -> Option<AnarchyType> {
    if a == "anarchy"@ {
        Some(AnarchyType::Anarchy)
    } else if a == "democracy"@ {
        Some(AnarchyType::Democracy)
    } else if a == "restricted"@ {
        Some(AnarchyType::Restricted)
    } else if a == "stream"@ || a == "streaming"@ {
        Some(AnarchyType::Streaming)
    } else {
        None
    }
}

/// `tp` and a keyword alone.
pub open spec fn admin_bare(k: Seq<char>) -> Option<CommandView> {
    if k == "block"@ {
        Some(CommandView::Partial(PartialCommand::Block))
    } else if k == "unblock"@ {
        Some(CommandView::Partial(PartialCommand::Unblock))
    } else if k == "op"@ {
        Some(CommandView::Partial(PartialCommand::AddOperator))
    } else if k == "deop"@ {
        Some(CommandView::Partial(PartialCommand::RemoveOperator))
    } else if k == "games"@ {
        Some(CommandView::ListGames)
    } else if is_game_keyword(k) {
        Some(CommandView::Partial(PartialCommand::Game))
    } else if k == "stop"@ {
        Some(CommandView::Stop)
    } else if k == "list"@ {
        Some(CommandView::Partial(PartialCommand::List))
    } else if k == "help"@ || k == "commands"@ {
        Some(CommandView::PrintHelp)
    } else if k == "save"@ {
        Some(CommandView::SaveState)
    } else if k == "load"@ {
        Some(CommandView::LoadState)
    } else if k == "reset"@ {
        Some(CommandView::Reset)
    } else if k == "mode"@ {
        Some(CommandView::PrintAnarchyMode)
    } else if k == "cooldown"@ {
        Some(CommandView::Partial(PartialCommand::SetCooldown))
    } else if k == "sfx"@ {
        Some(CommandView::Partial(PartialCommand::PlaySfx))
    } else if k == "controls"@ {
        Some(CommandView::Controls(None))
    } else {
        None
    }
}

/// `tp`, a keyword and one argument.
pub open spec fn admin_one(k: Seq<char>, a: Seq<char>, duration: Option<Millis>) -> Option<
    CommandView,
> {
    if k == "block"@ {
        Some(CommandView::Block(a, None))
    } else if k == "unblock"@ {
        Some(CommandView::Unblock(a))
    } else if k == "op"@ {
        Some(CommandView::AddOperator(a))
    } else if k == "deop"@ {
        Some(CommandView::RemoveOperator(a))
    } else if is_game_keyword(k) {
        Some(CommandView::Game(a))
    } else if k == "list"@ {
        if a == "games"@ {
            Some(CommandView::ListGames)
        } else if a == "block"@ || a == "blocks"@ || a == "blocked"@ {
            Some(CommandView::ListBlocked)
        } else if a == "ops"@ || a == "operators"@ || a == "op"@ {
            Some(CommandView::ListOperators)
        } else {
            None
        }
    } else if k == "mode"@ {
        match mode_argument(a) {
            Some(m) => Some(CommandView::SetAnarchyMode(m)),
            None => Some(CommandView::Partial(PartialCommand::SetAnarchyMode)),
        }
    } else if k == "cooldown"@ {
        match duration {
            Some(d) => Some(CommandView::SetCooldown(d)),
            None => Some(CommandView::Partial(PartialCommand::SetCooldown)),
        }
    } else if k == "sfx"@ {
        Some(CommandView::PlaySfx(a))
    } else if k == "controls"@ {
        Some(CommandView::Controls(Some(a)))
    } else {
        None
    }
}

/// The instant at which a block of the given length ends, where one is
/// given and the instant can be written down.
pub open spec fn block_end(now: Instant, duration: Option<Millis>) -> Option<Instant> {
    match duration {
        Some(d) => if i64::MIN <= now + d <= i64::MAX {
            Some((now + d) as i64)
        } else {
            None
        },
        None => None,
    }
}

/// `tp`, a keyword and two or more arguments.
pub open spec fn admin_many(tokens: Seq<Seq<char>>, duration: Option<Millis>, now: Instant) -> Option<
    CommandView,
> {
    let k = tokens[1];
    if k == "block"@ {
        if tokens.len() == 4 {
            match block_end(now, duration) {
                Some(end) => Some(CommandView::Block(tokens[2], Some(end))),
                None => Some(CommandView::Partial(PartialCommand::Block)),
            }
        } else {
            None
        }
    } else if is_game_keyword(k) {
        Some(CommandView::Game(joined(tokens.skip(2), " "@)))
    } else if k == "controls"@ {
        Some(CommandView::Controls(Some(joined(tokens.skip(2), " "@))))
    } else {
        None
    }
}

/// The admin form: `tp`, a keyword, and the keyword's arguments.
pub open spec fn admin_form(tokens: Seq<Seq<char>>, duration: Option<Millis>, now: Instant) -> Option<
    CommandView,
> {
    if tokens.len() < 2 || tokens[0] != "tp"@ {
        None
    } else if tokens.len() == 2 {
        admin_bare(tokens[1])
    } else if tokens.len() == 3 {
        admin_one(tokens[1], tokens[2], duration)
    } else {
        admin_many(tokens, duration, now)
    }
}

/// What a line's tokens ask for. The movement form is tried first.
/// `duration` is what the duration reader made of the command's duration
/// token, and `now` the instant from which a timed block runs.
pub open spec fn parsed_tokens(tokens: Seq<Seq<char>>, duration: Option<Millis>, now: Instant) -> Option<
    CommandView,
> {
    match movement_form(tokens) {
        Some(p) => Some(CommandView::Movement(p)),
        None => admin_form(tokens, duration, now),
    }
}

/// What a line of chat asks for at the instant `now`.
pub open spec fn command_of(input: Seq<char>, now: Instant) -> Option<CommandView> {
    parsed_tokens(tokens_of(input), duration_argument(tokens_of(input)), now)
}

fn parse_admin_bare(tokens: &Vec<String>) -> (r: Option<Command>)
    requires
        tokens@.len() == 2,
    ensures
        r.deep_view() == admin_bare(tokens.deep_view()[1]),
{
    if token_is(tokens, 1, "block") {
        Some(Command::Partial(PartialCommand::Block))
    } else if token_is(tokens, 1, "unblock") {
        Some(Command::Partial(PartialCommand::Unblock))
    } else if token_is(tokens, 1, "op") {
        Some(Command::Partial(PartialCommand::AddOperator))
    } else if token_is(tokens, 1, "deop") {
        Some(Command::Partial(PartialCommand::RemoveOperator))
    } else if token_is(tokens, 1, "games") {
        Some(Command::ListGames)
    } else if token_is(tokens, 1, "game") || token_is(tokens, 1, "switch") || token_is(
        tokens,
        1,
        "start",
    ) {
        Some(Command::Partial(PartialCommand::Game))
    } else if token_is(tokens, 1, "stop") {
        Some(Command::Stop)
    } else if token_is(tokens, 1, "list") {
        Some(Command::Partial(PartialCommand::List))
    } else if token_is(tokens, 1, "help") || token_is(tokens, 1, "commands") {
        Some(Command::PrintHelp)
    } else if token_is(tokens, 1, "save") {
        Some(Command::SaveState)
    } else if token_is(tokens, 1, "load") {
        Some(Command::LoadState)
    } else if token_is(tokens, 1, "reset") {
        Some(Command::Reset)
    } else if token_is(tokens, 1, "mode") {
        Some(Command::PrintAnarchyMode)
    } else if token_is(tokens, 1, "cooldown") {
        Some(Command::Partial(PartialCommand::SetCooldown))
    } else if token_is(tokens, 1, "sfx") {
        Some(Command::Partial(PartialCommand::PlaySfx))
    } else if token_is(tokens, 1, "controls") {
        Some(Command::Controls(None))
    } else {
        None
    }
}

fn parse_mode_argument(tokens: &Vec<String>) -> (r: Option<AnarchyType>)
    requires
        tokens@.len() == 3,
    ensures
        r == mode_argument(tokens.deep_view()[2]),
{
    if token_is(tokens, 2, "anarchy") {
        Some(AnarchyType::Anarchy)
    } else if token_is(tokens, 2, "democracy") {
        Some(AnarchyType::Democracy)
    } else if token_is(tokens, 2, "restricted") {
        Some(AnarchyType::Restricted)
    } else if token_is(tokens, 2, "stream") || token_is(tokens, 2, "streaming") {
        Some(AnarchyType::Streaming)
    } else {
        None
    }
}

fn parse_admin_one(tokens: &Vec<String>, duration: Option<Millis>) -> (r: Option<Command>)
    requires
        tokens@.len() == 3,
    ensures
        r.deep_view() == admin_one(tokens.deep_view()[1], tokens.deep_view()[2], duration),
{
    if token_is(tokens, 1, "block") {
        Some(Command::Block(tokens[2].clone(), None))
    } else if token_is(tokens, 1, "unblock") {
        Some(Command::Unblock(tokens[2].clone()))
    } else if token_is(tokens, 1, "op") {
        Some(Command::AddOperator(tokens[2].clone()))
    } else if token_is(tokens, 1, "deop") {
        Some(Command::RemoveOperator(tokens[2].clone()))
    } else if token_is(tokens, 1, "game") || token_is(tokens, 1, "switch") || token_is(
        tokens,
        1,
        "start",
    ) {
        Some(Command::Game(tokens[2].clone()))
    } else if token_is(tokens, 1, "list") {
        if token_is(tokens, 2, "games") {
            Some(Command::ListGames)
        } else if token_is(tokens, 2, "block") || token_is(tokens, 2, "blocks") || token_is(
            tokens,
            2,
            "blocked",
        ) {
            Some(Command::ListBlocked)
        } else if token_is(tokens, 2, "ops") || token_is(tokens, 2, "operators") || token_is(
            tokens,
            2,
            "op",
        ) {
            Some(Command::ListOperators)
        } else {
            None
        }
    } else if token_is(tokens, 1, "mode") {
        match parse_mode_argument(tokens) {
            Some(m) => Some(Command::SetAnarchyMode(m)),
            None => Some(Command::Partial(PartialCommand::SetAnarchyMode)),
        }
    } else if token_is(tokens, 1, "cooldown") {
        match duration {
            Some(d) => Some(Command::SetCooldown(d)),
            None => Some(Command::Partial(PartialCommand::SetCooldown)),
        }
    } else if token_is(tokens, 1, "sfx") {
        Some(Command::PlaySfx(tokens[2].clone()))
    } else if token_is(tokens, 1, "controls") {
        Some(Command::Controls(Some(tokens[2].clone())))
    } else {
        None
    }
}

/// The end of a block that starts now and lasts `duration`.
pub fn end_of_block(now: Instant, duration: Option<Millis>) -> (r: Option<Instant>)
    ensures
        r == block_end(now, duration),
{
    match duration {
        Some(d) => now.checked_add(d),
        None => None,
    }
}

fn parse_admin_many(tokens: &Vec<String>, duration: Option<Millis>, now: Instant) -> (r: Option<
    Command,
>)
    requires
        tokens@.len() >= 4,
    ensures
        r.deep_view() == admin_many(tokens.deep_view(), duration, now),
{
    if token_is(tokens, 1, "block") {
        if tokens.len() == 4 {
            match end_of_block(now, duration) {
                Some(end) => Some(Command::Block(tokens[2].clone(), Some(end))),
                None => Some(Command::Partial(PartialCommand::Block)),
            }
        } else {
            None
        }
    } else if token_is(tokens, 1, "game") || token_is(tokens, 1, "switch") || token_is(
        tokens,
        1,
        "start",
    ) {
        Some(Command::Game(join_from(tokens, 2, " ")))
    } else if token_is(tokens, 1, "controls") {
        Some(Command::Controls(Some(join_from(tokens, 2, " "))))
    } else {
        None
    }
}

/// Reads tokens as a command. `duration` is what the duration reader made
/// of the command's duration token, `now` the instant from which a timed
/// block runs.
pub fn parse_tokens(tokens: &Vec<String>, duration: Option<Millis>, now: Instant) -> (r: Option<
    Command,
>)
    ensures
        r.deep_view() == parsed_tokens(tokens.deep_view(), duration, now),
{
    let movement: Option<Command> = parse_movement(tokens);
    if movement.is_some() {
        return movement;
    }
    let n: usize = tokens.len();
    if n < 2 || !token_is(tokens, 0, "tp") {
        None
    } else if n == 2 {
        parse_admin_bare(tokens)
    } else if n == 3 {
        proof {
            let toks = tokens.deep_view();
            assert(toks.skip(2) =~= seq![toks[2]]);
        }
        parse_admin_one(tokens, duration)
    } else {
        parse_admin_many(tokens, duration, now)
    }
}

/// Reads a line of chat as a command, with timed blocks running from `now`.
pub fn parse_command_at(input: &str, now: Instant) -> (r: Option<Command>)
    ensures
        r.deep_view() == command_of(input@, now),
{
    let tokens: Vec<String> = tokenize(input);
    let duration: Option<Millis> = read_duration_argument(&tokens);
    parse_tokens(&tokens, duration, now)
}

/// Whether the tokens have the shape of a block with a duration: the one
/// command whose reading depends on the instant.
pub open spec fn is_timed_block(tokens: Seq<Seq<char>>) -> bool {
    tokens.len() == 4 && tokens[0] == "tp"@ && tokens[1] == "block"@
}

/// Only a block with a duration depends on the instant at which it is
/// read.
pub proof fn lemma_only_timed_blocks_depend_on_now(
    tokens: Seq<Seq<char>>,
    duration: Option<Millis>,
    now: Instant,
    other: Instant,
)
    requires
        !is_timed_block(tokens),
    ensures
        parsed_tokens(tokens, duration, now) == parsed_tokens(tokens, duration, other),
{
}

/// Reads a line of chat as a command, with timed blocks running from the
/// instant at which the line is read.
pub fn parse_command(input: &str) -> (r: Option<Command>)
    ensures
        exists|now: Instant| #[trigger] command_of(input@, now) == r.deep_view(),
        !is_timed_block(tokens_of(input@)) ==> forall|now: Instant|
            #[trigger] command_of(input@, now) == r.deep_view(),
{
    let now: Instant = current_instant();
    let r = parse_command_at(input, now);
    proof {
        if !is_timed_block(tokens_of(input@)) {
            assert forall|other: Instant| #[trigger] command_of(input@, other)
                == r.deep_view() by {
                lemma_only_timed_blocks_depend_on_now(
                    tokens_of(input@),
                    duration_argument(tokens_of(input@)),
                    now,
                    other,
                );
            }
        }
    }
    r
}

} // verus!
