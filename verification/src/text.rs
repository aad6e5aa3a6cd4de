//! Text helpers: numbers as decimal digits, thousands grouping, a clock,
//! and comparing strings character by character.

use vstd::prelude::*;
use vstd::string::*;

verus! {

/// The character of decimal digit `d` (0..10).
pub open spec fn digit_char(d: int) -> char {
    if d == 0 {
        '0'
    } else if d == 1 {
        '1'
    } else if d == 2 {
        '2'
    } else if d == 3 {
        '3'
    } else if d == 4 {
        '4'
    } else if d == 5 {
        '5'
    } else if d == 6 {
        '6'
    } else if d == 7 {
        '7'
    } else if d == 8 {
        '8'
    } else {
        '9'
    }
}

/// `n` in decimal, without leading zeros.
pub open spec fn decimal(n: nat) -> Seq<char>
    decreases n,
{
    if n < 10 {
        seq![digit_char(n as int)]
    } else {
        decimal(n / 10).push(digit_char((n % 10) as int))
    }
}

/// `i` in decimal, with a leading `-` when negative.
pub open spec fn signed_decimal(i: int) -> Seq<char> {
    if i < 0 {
        seq!['-'].add(decimal((-i) as nat))
    } else {
        decimal(i as nat)
    }
}

/// `n` (below 1000) as exactly three digits.
pub open spec fn three_digits(n: nat) -> Seq<char> {
    seq![digit_char((n / 100) as int), digit_char(((n / 10) % 10) as int), digit_char((n % 10) as int)]
}

/// `n` (below 100) as exactly two digits.
pub open spec fn two_digits(n: nat) -> Seq<char> {
    seq![digit_char((n / 10) as int), digit_char((n % 10) as int)]
}

/// A run of digits with a comma between each group of three, counted from
/// the right.
pub open spec fn grouped(digits: Seq<char>) -> Seq<char>
    decreases digits.len(),
{
    if digits.len() <= 3 {
        digits
    } else {
        grouped(digits.take(digits.len() - 3)).add(seq![',']).add(digits.skip(digits.len() - 3))
    }
}

/// A duration of `nanos` nanoseconds as whole minutes, a colon and two
/// digits of seconds.
pub open spec fn clock_text(nanos: nat) -> Seq<char> {
    let total = nanos / 1_000_000_000;
    decimal(total / 60).add(seq![':']).add(two_digits(total % 60))
}

/// A number has at least one digit, and at least two from ten on.
pub proof fn lemma_decimal_len(n: nat)
    ensures
        decimal(n).len() >= 1,
        n >= 10 ==> decimal(n).len() >= 2,
    decreases n,
{
    if n >= 10 {
        lemma_decimal_len(n / 10);
    }
}

/// The last three digits of a number of four digits or more.
proof fn lemma_decimal_split(n: nat)
    requires
        n >= 1000,
    ensures
        decimal(n) == decimal(n / 1000).add(three_digits(n % 1000)),
{
    let a = n / 10;
    let b = a / 10;
    let c = b / 10;
    assert(b == n / 100);
    assert(c == n / 1000);
    assert((n % 1000) / 100 == b % 10);
    assert(((n % 1000) / 10) % 10 == a % 10);
    assert((n % 1000) % 10 == n % 10);
    assert(decimal(n) == decimal(a).push(digit_char((n % 10) as int)));
    assert(decimal(a) == decimal(b).push(digit_char((a % 10) as int)));
    assert(decimal(b) == decimal(c).push(digit_char((b % 10) as int)));
    assert(decimal(n) =~= decimal(n / 1000).add(three_digits(n % 1000)));
}

/// The one-character string of decimal digit `d`.
fn digit_str(d: u64) -> (s: &'static str)
    requires
        d < 10,
    ensures
        s@ == seq![digit_char(d as int)],
{
    proof {
        reveal_strlit("0");
        reveal_strlit("1");
        reveal_strlit("2");
        reveal_strlit("3");
        reveal_strlit("4");
        reveal_strlit("5");
        reveal_strlit("6");
        reveal_strlit("7");
        reveal_strlit("8");
        reveal_strlit("9");
    }
    match d {
        0 => "0",
        1 => "1",
        2 => "2",
        3 => "3",
        4 => "4",
        5 => "5",
        6 => "6",
        7 => "7",
        8 => "8",
        _ => "9",
    }
}

/// Append `n` in decimal.
pub fn push_decimal(out: &mut String, n: u64)
    ensures
        final(out)@ == old(out)@.add(decimal(n as nat)),
    decreases n,
{
    if n >= 10 {
        push_decimal(out, n / 10);
    }
    out.append(digit_str(n % 10));
    proof {
        if n >= 10 {
            assert(old(out)@.add(decimal((n / 10) as nat)).add(seq![digit_char((n % 10) as int)]) =~= old(out)@.add(
                decimal(n as nat),
            ));
        } else {
            assert(old(out)@.add(seq![digit_char((n % 10) as int)]) =~= old(out)@.add(decimal(n as nat)));
        }
    }
}

/// Append `i` in decimal, with a leading `-` when negative.
pub fn push_signed(out: &mut String, i: i32)
    ensures
        final(out)@ == old(out)@.add(signed_decimal(i as int)),
{
    if i < 0 {
        proof {
            reveal_strlit("-");
        }
        out.append("-");
        let ghost mid = out@;
        push_decimal(out, (-(i as i64)) as u64);
        assert(out@ =~= old(out)@.add(signed_decimal(i as int)));
    } else {
        push_decimal(out, i as u64);
    }
}

/// Append `n` (below 1000) as exactly three digits.
fn push_three_digits(out: &mut String, n: u64)
    requires
        n < 1000,
    ensures
        final(out)@ == old(out)@.add(three_digits(n as nat)),
{
    out.append(digit_str(n / 100));
    out.append(digit_str((n / 10) % 10));
    out.append(digit_str(n % 10));
    assert(out@ =~= old(out)@.add(three_digits(n as nat)));
}

/// `1234567` -> `1,234,567`
pub fn group_digits(value: u64) -> (text: String)
    ensures
        text@ == grouped(decimal(value as nat)),
    decreases value,
{
    if value < 1000 {
        let mut out = String::new();
        push_decimal(&mut out, value);
        proof {
            lemma_decimal_len(value as nat);
            assert(Seq::<char>::empty().add(decimal(value as nat)) =~= decimal(value as nat));
            assert(value < 10 ==> decimal(value as nat).len() == 1);
            assert(value >= 10 && value < 100 ==> decimal(value as nat).len() == 2) by {
                if value >= 10 && value < 100 {
                    assert(decimal((value / 10) as nat).len() == 1);
                }
            }
            assert(value >= 100 ==> decimal(value as nat).len() == 3) by {
                if value >= 100 {
                    let n = value as nat;
                    let a: nat = n / 10;
                    let b: nat = a / 10;
                    assert(10 <= a < 100);
                    assert(b < 10);
                    assert(decimal(b).len() == 1);
                    assert(decimal(a) == decimal(b).push(digit_char((a % 10) as int)));
                    assert(decimal(n) == decimal(a).push(digit_char((n % 10) as int)));
                }
            }
        }
        out
    } else {
        let mut out = group_digits(value / 1000);
        proof {
            reveal_strlit(",");
        }
        out.append(",");
        push_three_digits(&mut out, value % 1000);
        proof {
            let d = decimal(value as nat);
            lemma_decimal_split(value as nat);
            lemma_decimal_len((value / 1000) as nat);
            assert(d.len() > 3);
            assert(d.take(d.len() - 3) =~= decimal((value / 1000) as nat));
            assert(d.skip(d.len() - 3) =~= three_digits((value % 1000) as nat));
        }
        out
    }
}

/// Whole minutes and zero-padded seconds: `65 s` -> `1:05`.
pub fn format_time(elapsed_nanos: u64) -> (text: String)
    ensures
        text@ == clock_text(elapsed_nanos as nat),
{
    let total = elapsed_nanos / 1_000_000_000;
    let mut out = String::new();
    push_decimal(&mut out, total / 60);
    proof {
        reveal_strlit(":");
    }
    out.append(":");
    let seconds = total % 60;
    out.append(digit_str(seconds / 10));
    out.append(digit_str(seconds % 10));
    assert(out@ =~= clock_text(elapsed_nanos as nat));
    out
}

/// Do the two strings hold the same characters?
pub(crate) fn same_text(a: &str, b: &str) -> (same: bool)
    ensures
        same == (a@ == b@),
{
    let n = a.unicode_len();
    if n != b.unicode_len() {
        return false;
    }
    let mut i: usize = 0;
    while i < n
        invariant
            n == a@.len(),
            n == b@.len(),
            i <= n,
            forall|k: int| 0 <= k < i ==> a@[k] == b@[k],
        decreases n - i,
    {
        if a.get_char(i) != b.get_char(i) {
            return false;
        }
        i += 1;
    }
    assert(a@ =~= b@);
    true
}

/// Does `s` begin with the characters of `prefix`?
pub(crate) fn starts_with(s: &str, prefix: &str) -> (starts: bool)
    ensures
        starts == prefix@.is_prefix_of(s@),
{
    let n = prefix.unicode_len();
    if n > s.unicode_len() {
        return false;
    }
    let mut i: usize = 0;
    while i < n
        invariant
            n == prefix@.len(),
            n <= s@.len(),
            i <= n,
            forall|k: int| 0 <= k < i ==> prefix@[k] == s@[k],
        decreases n - i,
    {
        if prefix.get_char(i) != s.get_char(i) {
            assert(prefix@[i as int] != s@.subrange(0, n as int)[i as int]);
            return false;
        }
        i += 1;
    }
    assert(prefix@ =~= s@.subrange(0, n as int));
    true
}

} // verus!
