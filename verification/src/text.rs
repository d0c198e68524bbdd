//! Text helpers shared by the parser, the arbiter and the state store:
//! comparison, joining, and decimal numbers as text.

use vstd::prelude::*;
use vstd::string::*;

verus! {

/// Whether two string slices hold the same characters.
pub fn same_text(a: &str, b: &str) -> (r: bool)
    ensures
        r == (a@ == b@),
{
    let x: String = a.to_owned();
    let y: String = b.to_owned();
    x == y
}

/// The characters of a string slice, one by one.
pub fn chars_of(s: &str) -> (r: Vec<char>)
    ensures
        r@ == s@,
{
    let n: usize = s.unicode_len();
    let mut out: Vec<char> = Vec::new();
    let mut i: usize = 0;
    while i < n
        invariant
            n == s@.len(),
            i <= n,
            out@ == s@.subrange(0, i as int),
        decreases n - i,
    {
        let c: char = s.get_char(i);
        out.push(c);
        i = i + 1;
        assert(out@ =~= s@.subrange(0, i as int));
    }
    assert(s@.subrange(0, n as int) =~= s@);
    out
}

/// `items` written one after the other with `sep` between neighbours.
pub open spec fn joined(items: Seq<Seq<char>>, sep: Seq<char>) -> Seq<char>
    decreases items.len(),
{
    if items.len() == 0 {
        Seq::empty()
    } else if items.len() == 1 {
        items[0]
    } else {
        joined(items.drop_last(), sep) + sep + items.last()
    }
}

/// Joins the items `from..` of `items` with `sep` between neighbours.
pub fn join_from(items: &Vec<String>, from: usize, sep: &str) -> (r: String)
    requires
        from <= items@.len(),
    ensures
        r@ == joined(items.deep_view().skip(from as int), sep@),
{
    let ghost all = items.deep_view().skip(from as int);
    let mut out: String = String::new();
    let mut i: usize = from;
    assert(all.subrange(0, 0).len() == 0);
    while i < items.len()
        invariant
            from <= i <= items@.len(),
            all == items.deep_view().skip(from as int),
            out@ == joined(all.subrange(0, i - from), sep@),
        decreases items@.len() - i,
    {
        let ghost before = all.subrange(0, i - from);
        let ghost after = all.subrange(0, i - from + 1);
        assert(after.drop_last() =~= before);
        assert(after.last() == items@[i as int]@);
        if i > from {
            out.append(sep);
        } else {
            assert(before.len() == 0);
            assert(out@ + items@[i as int]@ =~= items@[i as int]@);
            assert(after[0] == items@[i as int]@);
        }
        out.append(items[i].as_str());
        i = i + 1;
    }
    assert(all.subrange(0, i - from) =~= all);
    out
}

/// Whether `c` is one of the ten ASCII digits.
pub open spec fn is_digit(c: char) -> bool {
    '0' <= c && c <= '9'
}

/// The number that an ASCII digit stands for.
pub open spec fn digit_of(c: char) -> nat {
    (c as u32 - 48) as nat
}

/// The ASCII digit for a number below ten.
pub open spec fn digit_char(d: nat) -> char {
    if d == 0 {
        '0'
    } else if d == 1 {
        '1'
    } else if d == 2 {
        '2'
    } else if d == 3 {
        '3'
    } else if d == 4 {
        '4'
    } else if d == 5 {
        '5'
    } else if d == 6 {
        '6'
    } else if d == 7 {
        '7'
    } else if d == 8 {
        '8'
    } else {
        '9'
    }
}

/// Whether every character is an ASCII digit.
pub open spec fn all_digits(s: Seq<char>) -> bool {
    forall|i: int| 0 <= i < s.len() ==> is_digit(#[trigger] s[i])
}

/// The number written by a run of ASCII digits, most significant first.
pub open spec fn digits_value(s: Seq<char>) -> nat
    decreases s.len(),
{
    if s.len() == 0 {
        0
    } else {
        digits_value(s.drop_last()) * 10 + digit_of(s.last())
    }
}

/// The decimal digits of `n`, without leading zeros.
pub open spec fn nat_digits(n: nat) -> Seq<char>
    decreases n,
{
    if n < 10 {
        seq![digit_char(n)]
    } else {
        nat_digits(n / 10).push(digit_char(n % 10))
    }
}

/// A signed 64-bit integer as decimal text: a minus sign where it is
/// negative, then its digits.
pub open spec fn int_text(v: i64) -> Seq<char> {
    if v < 0 {
        seq!['-'] + nat_digits((-(v as int)) as nat)
    } else {
        nat_digits(v as nat)
    }
}

/// What a decimal text denotes as a signed 64-bit integer: an optional
/// sign, then at least one digit and nothing else, within the range of the
/// type.
pub open spec fn text_int(s: Seq<char>) -> Option<i64> {
    if s.len() == 0 {
        None
    } else {
        let negative = s[0] == '-';
        let body = if s[0] == '-' || s[0] == '+' {
            s.skip(1)
        } else {
            s
        };
        if body.len() == 0 || !all_digits(body) {
            None
        } else if negative {
            if digits_value(body) <= 0x8000_0000_0000_0000 {
                Some((-(digits_value(body) as int)) as i64)
            } else {
                None
            }
        } else {
            if digits_value(body) < 0x8000_0000_0000_0000 {
                Some(digits_value(body) as i64)
            } else {
                None
            }
        }
    }
}

/// A longer run of digits never denotes less than one of its prefixes.
pub proof fn lemma_digits_value_prefix(s: Seq<char>, k: int)
    requires
        0 <= k <= s.len(),
    ensures
        digits_value(s.subrange(0, k)) <= digits_value(s),
    decreases s.len() - k,
{
    if k == s.len() {
        assert(s.subrange(0, k) =~= s);
    } else {
        lemma_digits_value_prefix(s, k + 1);
        let longer = s.subrange(0, k + 1);
        assert(longer.drop_last() =~= s.subrange(0, k));
    }
}

/// The digits of a number are digits, and denote that number.
pub proof fn lemma_nat_digits(n: nat)
    ensures
        nat_digits(n).len() >= 1,
        all_digits(nat_digits(n)),
        digits_value(nat_digits(n)) == n,
        nat_digits(n)[0] != '-',
        nat_digits(n)[0] != '+',
    decreases n,
{
    if n < 10 {
        let s = nat_digits(n);
        assert(s.drop_last() =~= Seq::<char>::empty());
        assert(digits_value(s.drop_last()) == 0);
        assert(digit_of(digit_char(n)) == n);
    } else {
        lemma_nat_digits(n / 10);
        let s = nat_digits(n);
        let head = nat_digits(n / 10);
        assert(s.drop_last() =~= head);
        assert(digit_of(digit_char(n % 10)) == n % 10);
        assert(s[0] == head[0]);
        assert forall|i: int| 0 <= i < s.len() implies is_digit(#[trigger] s[i]) by {
            if i < head.len() {
                assert(s[i] == head[i]);
            }
        }
    }
}

/// Reading back what was written gives the number that was written.
pub proof fn lemma_int_text_round_trip(v: i64)
    ensures
        text_int(int_text(v)) == Some(v),
{
    if v < 0 {
        let n = (-(v as int)) as nat;
        lemma_nat_digits(n);
        let s = int_text(v);
        assert(s[0] == '-');
        assert(s.skip(1) =~= nat_digits(n));
    } else {
        lemma_nat_digits(v as nat);
    }
}

fn digit_text(d: u8) -> (r: &'static str)
    requires
        d < 10,
    ensures
        r@ == seq![digit_char(d as nat)],
{
    proof {
        reveal_strlit("0");
        reveal_strlit("1");
        reveal_strlit("2");
        reveal_strlit("3");
        reveal_strlit("4");
        reveal_strlit("5");
        reveal_strlit("6");
        reveal_strlit("7");
        reveal_strlit("8");
        reveal_strlit("9");
    }
    let r: &'static str = if d == 0 {
        "0"
    } else if d == 1 {
        "1"
    } else if d == 2 {
        "2"
    } else if d == 3 {
        "3"
    } else if d == 4 {
        "4"
    } else if d == 5 {
        "5"
    } else if d == 6 {
        "6"
    } else if d == 7 {
        "7"
    } else if d == 8 {
        "8"
    } else {
        "9"
    };
    assert(r@ =~= seq![digit_char(d as nat)]);
    r
}

fn format_nat(n: u64) -> (r: String)
    ensures
        r@ == nat_digits(n as nat),
    decreases n,
{
    if n < 10 {
        String::from_str(digit_text(n as u8))
    } else {
        let mut s: String = format_nat(n / 10);
        s.append(digit_text((n % 10) as u8));
        assert(s@ =~= nat_digits(n as nat));
        s
    }
}

/// Writes a signed 64-bit integer as decimal text.
pub fn format_int(v: i64) -> (r: String)
    ensures
        r@ == int_text(v),
{
    if v < 0 {
        let magnitude: u64 = ((-(v + 1)) as u64) + 1;
        let mut s: String = String::from_str("-");
        proof {
            reveal_strlit("-");
        }
        let digits: String = format_nat(magnitude);
        s.append(digits.as_str());
        assert(s@ =~= int_text(v));
        s
    } else {
        format_nat(v as u64)
    }
}

/// Reads decimal text as a signed 64-bit integer.
pub fn parse_int(s: &str) -> (r: Option<i64>)
    ensures
        r == text_int(s@),
{
    let chars: Vec<char> = chars_of(s);
    let n: usize = chars.len();
    if n == 0 {
        return None;
    }
    let negative: bool = chars[0] == '-';
    let start: usize = if chars[0] == '-' || chars[0] == '+' {
        1
    } else {
        0
    };
    let ghost body = chars@.skip(start as int);
    assert(s@.skip(0) =~= s@);
    if start == n {
        return None;
    }
    let limit: u128 = 0x8000_0000_0000_0000;
    let mut acc: u128 = 0;
    let mut i: usize = start;
    assert(body.subrange(0, 0) =~= Seq::<char>::empty());
    while i < n
        invariant
            start <= i <= n,
            start < n,
            n == chars@.len(),
            chars@ == s@,
            start == (if s@[0] == '-' || s@[0] == '+' {
                1int
            } else {
                0int
            }),
            body == chars@.skip(start as int),
            limit == 0x8000_0000_0000_0000,
            acc == digits_value(body.subrange(0, i - start)),
            acc <= limit,
            all_digits(body.subrange(0, i - start)),
        decreases n - i,
    {
        let c: char = chars[i];
        let ghost shorter = body.subrange(0, i - start);
        let ghost longer = body.subrange(0, i - start + 1);
        assert(longer.drop_last() =~= shorter);
        assert(longer.last() == c);
        if !(c >= '0' && c <= '9') {
            assert(s@.skip(0) =~= s@);
            assert(!is_digit(body[i - start]));
            return None;
        }
        acc = acc * 10 + ((c as u32 - 48) as u128);
        assert forall|j: int| 0 <= j < longer.len() implies is_digit(#[trigger] longer[j]) by {
            if j < shorter.len() {
                assert(longer[j] == shorter[j]);
            }
        }
        if acc > limit {
            proof {
                assert(s@.skip(0) =~= s@);
                lemma_digits_value_prefix(body, i - start + 1);
            }
            return None;
        }
        i = i + 1;
    }
    assert(body.subrange(0, n - start) =~= body);
    if negative {
        if acc == limit {
            Some(i64::MIN)
        } else {
            Some(-(acc as i64))
        }
    } else if acc < limit {
        Some(acc as i64)
    } else {
        None
    }
}

/// How many characters stand before the first `stop`.
pub open spec fn prefix_len(s: Seq<char>, stop: char) -> nat
    decreases s.len(),
{
    if s.len() == 0 || s[0] == stop {
        0
    } else {
        1 + prefix_len(s.skip(1), stop)
    }
}

/// The prefix ends where the first `stop` stands.
pub proof fn lemma_prefix_len(s: Seq<char>, stop: char, k: int)
    requires
        0 <= k <= s.len(),
        forall|j: int| 0 <= j < k ==> s[j] != stop,
        k == s.len() || s[k] == stop,
    ensures
        prefix_len(s, stop) == k,
    decreases k,
{
    if k > 0 {
        let rest = s.skip(1);
        assert forall|j: int| 0 <= j < k - 1 implies rest[j] != stop by {
            assert(rest[j] == s[j + 1]);
        }
        lemma_prefix_len(rest, stop, k - 1);
    }
}

/// The pieces of a text between occurrences of `sep`. A text without `sep`
/// is one piece, and between two neighbouring `sep` lies an empty piece.
pub open spec fn split_on(s: Seq<char>, sep: char) -> Seq<Seq<char>>
    decreases s.len(),
{
    let k = prefix_len(s, sep) as int;
    if k >= s.len() {
        seq![s]
    } else {
        seq![s.subrange(0, k)] + split_on(s.skip(k + 1), sep)
    }
}

/// Cuts a text at each occurrence of `sep`.
pub fn split(s: &str, sep: char) -> (r: Vec<String>)
    ensures
        r.deep_view() == split_on(s@, sep),
{
    let chars: Vec<char> = chars_of(s);
    let n: usize = chars.len();
    let mut out: Vec<String> = Vec::new();
    let mut start: usize = 0;
    let mut i: usize = 0;
    assert(s@.skip(0) =~= s@);
    assert(out.deep_view() + split_on(s@, sep) =~= split_on(s@, sep));
    while i < n
        invariant
            start <= i <= n,
            n == s@.len(),
            chars@ == s@,
            forall|j: int| start <= j < i ==> s@[j] != sep,
            split_on(s@, sep) == out.deep_view() + split_on(s@.skip(start as int), sep),
        decreases n - i,
    {
        if chars[i] == sep {
            let ghost rest = s@.skip(start as int);
            proof {
                lemma_prefix_len(rest, sep, i - start);
                assert(rest.subrange(0, i - start) =~= s@.subrange(start as int, i as int));
                assert(rest.skip(i - start + 1) =~= s@.skip(i + 1));
            }
            let piece: String = s.substring_char(start, i).to_owned();
            let ghost previous = out.deep_view();
            out.push(piece);
            proof {
                assert(out.deep_view() =~= previous.push(piece@));
                assert(previous.push(piece@) + split_on(s@.skip(i + 1), sep) =~= previous + (
                seq![piece@] + split_on(s@.skip(i + 1), sep)));
            }
            start = i + 1;
        }
        i = i + 1;
    }
    let ghost rest = s@.skip(start as int);
    proof {
        lemma_prefix_len(rest, sep, n - start);
        assert(s@.subrange(start as int, n as int) =~= rest);
    }
    let piece: String = s.substring_char(start, n).to_owned();
    let ghost previous = out.deep_view();
    out.push(piece);
    proof {
        assert(out.deep_view() =~= previous.push(piece@));
        assert(previous.push(piece@) =~= previous + seq![piece@]);
    }
    out
}

} // verus!
