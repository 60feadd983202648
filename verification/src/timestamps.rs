//! Timestamps in the form that LRC asks for, and the shift of all timestamps of an LRC text.

use vstd::arithmetic::power::{lemma_pow_increases, pow};
use vstd::prelude::*;

use crate::text::{ascii_digit, chars_of, decimal, digit, occurs_at, push_two_digits, stands_at};
use crate::text::two_digits;

verus! {

/// The timestamp `mm:ss.xx` of a time in hundredths of a second.
pub open spec fn timestamp(hundredths: nat) -> Seq<char> {
    two_digits(hundredths / 6000) + seq![':'] + two_digits(hundredths / 100 % 60) + seq!['.']
        + two_digits(hundredths % 100)
}

/// The time that is written for `hundredths`: none is below zero, and none beyond what a `u64`
/// holds.
pub open spec fn writable(hundredths: int) -> nat {
    if hundredths < 0 {
        0
    } else if hundredths > u64::MAX {
        u64::MAX as nat
    } else {
        hundredths as nat
    }
}

/// A line's timestamp in its square brackets.
pub open spec fn stamp(hundredths: nat) -> Seq<char> {
    seq!['['] + timestamp(hundredths) + seq![']']
}

/// Whether `s` starts with the stamp of `hundredths`.
pub open spec fn starts_with_stamp(s: Seq<char>, hundredths: nat) -> bool {
    hundredths <= u64::MAX && occurs_at(s, stamp(hundredths), 0)
}

/// `s` with each of its stamps moved by `offset` hundredths of a second.
pub open spec fn shifted(s: Seq<char>, offset: int) -> Seq<char>
    decreases s.len(),
{
    if s.len() == 0 {
        s
    } else if exists|t: nat| starts_with_stamp(s, t) {
        let t = choose|t: nat| starts_with_stamp(s, t);
        stamp(writable(t + offset)) + shifted(s.skip(stamp(t).len() as int), offset)
    } else {
        seq![s[0]] + shifted(s.skip(1), offset)
    }
}

/// The number that the decimal digits `s` spell.
spec fn value_of(s: Seq<char>) -> nat
    decreases s.len(),
{
    if s.len() == 0 {
        0
    } else {
        value_of(s.drop_last()) * 10 + (s.last() as nat - '0' as nat) as nat
    }
}

/// Whether `s` consists of decimal digits.
spec fn all_digits(s: Seq<char>) -> bool {
    forall|i: int| 0 <= i < s.len() ==> ascii_digit(#[trigger] s[i])
}

/// The decimal form of a number consists of digits, spells the number, and is no longer than
/// the number is large.
proof fn lemma_decimal(n: nat)
    ensures
        all_digits(decimal(n)),
        value_of(decimal(n)) == n,
        decimal(n).len() >= 1,
        n >= 10 ==> decimal(n).len() >= 2,
        n < 100 ==> decimal(n).len() <= 2,
    decreases n,
{
    reveal_with_fuel(value_of, 2);
    reveal_with_fuel(decimal, 3);
    if n >= 10 {
        lemma_decimal(n / 10);
        assert(decimal(n).drop_last() =~= decimal(n / 10));
    } else {
        assert(seq![digit(n)].drop_last() =~= Seq::<char>::empty());
    }
}

/// The decimal form of a number below a power of ten has no more digits than its exponent.
proof fn lemma_decimal_len(n: nat, k: nat)
    requires
        k >= 1,
        n < pow(10, k),
    ensures
        decimal(n).len() <= k,
    decreases k,
{
    reveal_with_fuel(pow, 2);
    if n >= 10 {
        if k == 1 {
            assert(pow(10, 1) == 10);
        } else {
            assert(pow(10, k) == 10 * pow(
                10,
                (k - 1) as nat,
            ));
            lemma_decimal_len(n / 10, (k - 1) as nat);
        }
    }
}

/// A number with at least two digits: digits that spell the number, two for each below a
/// hundred.
proof fn lemma_two_digits(n: nat)
    ensures
        all_digits(two_digits(n)),
        value_of(two_digits(n)) == n,
        two_digits(n).len() >= 2,
        n < 100 ==> two_digits(n).len() == 2,
{
    reveal_with_fuel(value_of, 3);
    lemma_decimal(n);
    if n < 10 {
        let s = seq!['0', digit(n)];
        assert(s.drop_last() =~= seq!['0']);
        assert(seq!['0'].drop_last() =~= Seq::<char>::empty());
    }
}

/// How many digits the minutes of a stamp have.
spec fn minute_len(hundredths: nat) -> int {
    two_digits(hundredths / 6000).len() as int
}

/// What stands where in a text that holds the stamp of `t` from index `i` on.
proof fn lemma_stamp_parts(s: Seq<char>, t: nat, i: int)
    requires
        t <= u64::MAX,
        occurs_at(s, stamp(t), i),
    ensures
        ({
            let n = minute_len(t);
            &&& 2 <= n <= 16
            &&& stamp(t).len() == n + 8
            &&& i + n + 8 <= s.len()
            &&& s[i] == '['
            &&& all_digits(s.subrange(i + 1, i + 1 + n))
            &&& value_of(s.subrange(i + 1, i + 1 + n)) == t / 6000
            &&& s[i + 1 + n] == ':'
            &&& all_digits(s.subrange(i + 2 + n, i + 4 + n))
            &&& value_of(s.subrange(i + 2 + n, i + 4 + n)) == t / 100 % 60
            &&& s[i + 4 + n] == '.'
            &&& all_digits(s.subrange(i + 5 + n, i + 7 + n))
            &&& value_of(s.subrange(i + 5 + n, i + 7 + n)) == t % 100
            &&& s[i + 7 + n] == ']'
        }),
{
    let n = minute_len(t);
    let m = two_digits(t / 6000);
    let x = two_digits(t / 100 % 60);
    let y = two_digits(t % 100);
    lemma_two_digits(t / 6000);
    lemma_two_digits(t / 100 % 60);
    lemma_two_digits(t % 100);
    assert(pow(10, 16) == 10000000000000000) by {
        reveal_with_fuel(pow, 17);
    }
    lemma_decimal_len(t / 6000, 16);
    let whole = stamp(t);
    assert(whole.len() == n + 8);
    let sub = s.subrange(i, i + whole.len());
    assert(sub == whole);
    assert forall|k: int| 0 <= k < whole.len() implies s[i + k] == whole[k] by {
        assert(sub[k] == s[i + k]);
    }
    assert(s.subrange(i + 1, i + 1 + n) =~= m) by {
        assert forall|k: int| 0 <= k < n implies s[i + 1 + k] == m[k] by {
            assert(s[i + (1 + k)] == whole[1 + k]);
        }
    }
    assert(s.subrange(i + 2 + n, i + 4 + n) =~= x) by {
        assert(s[i + (2 + n)] == whole[2 + n]);
        assert(s[i + (3 + n)] == whole[3 + n]);
    }
    assert(s.subrange(i + 5 + n, i + 7 + n) =~= y) by {
        assert(s[i + (5 + n)] == whole[5 + n]);
        assert(s[i + (6 + n)] == whole[6 + n]);
    }
    assert(s[i + 0] == whole[0]);
    assert(s[i + (1 + n)] == whole[1 + n]);
    assert(s[i + (4 + n)] == whole[4 + n]);
    assert(s[i + (7 + n)] == whole[7 + n]);
}

/// A text starts with one stamp at most.
pub proof fn lemma_one_stamp(s: Seq<char>, t: nat, u: nat)
    requires
        starts_with_stamp(s, t),
        starts_with_stamp(s, u),
    ensures
        t == u,
{
    lemma_stamp_parts(s, t, 0);
    lemma_stamp_digits(s, t, 0, minute_len(t));
    lemma_stamp_digits(s, u, 0, minute_len(t));
}

/// Appends the timestamp of a time in hundredths of a second to `out`.
pub fn push_time(out: &mut String, hundredths: i128)
    ensures
        final(out)@ == old(out)@ + timestamp(writable(hundredths as int)),
{
    let total: u64 = if hundredths < 0 {
        0
    } else if hundredths > u64::MAX as i128 {
        u64::MAX
    } else {
        hundredths as u64
    };
    push_two_digits(out, total / 6000);
    out.push(':');
    push_two_digits(out, total / 100 % 60);
    out.push('.');
    push_two_digits(out, total % 100);
    assert(out@ =~= old(out)@ + timestamp(writable(hundredths as int)));
}

/// The timestamp `mm:ss.xx` of a time in hundredths of a second. A time below zero is written as
/// zero.
pub fn format_time(hundredths: i128) -> (r: String)
    ensures
        r@ == timestamp(writable(hundredths as int)),
{
    let mut r = String::new();
    push_time(&mut r, hundredths);
    assert(r@ =~= timestamp(writable(hundredths as int)));
    r
}

/// The value of a decimal digit.
fn digit_value(c: char) -> (d: u128)
    requires
        ascii_digit(c),
    ensures
        d == c as nat - '0' as nat,
        d < 10,
{
    (c as u32 - 48) as u128
}

/// Whether `c` is a decimal digit.
fn is_digit(c: char) -> (r: bool)
    ensures
        r == ascii_digit(c),
{
    '0' <= c && c <= '9'
}

/// How many digits, at most one more than the minutes of a stamp can have, stand in `s` behind
/// index `i`, and the number that they spell.
fn read_minutes(s: &[char], i: usize) -> (r: (usize, u128))
    requires
        i < s@.len(),
    ensures
        r.0 <= 17,
        i + 1 + r.0 <= s@.len(),
        all_digits(s@.subrange(i + 1, i + 1 + r.0)),
        r.1 == value_of(s@.subrange(i + 1, i + 1 + r.0)),
        r.1 < 100000000000000000,
        r.0 == 17 || i + 1 + r.0 == s@.len() || !ascii_digit(s@[i + 1 + r.0]),
{
    let mut n: usize = 0;
    let mut minutes: u128 = 0;
    assert(pow(10, 0) == 1) by {
        reveal(pow);
    }
    assert(pow(10, 17) == 100000000000000000) by {
        reveal_with_fuel(pow, 18);
    }
    while n < 17 && n < s.len() - i - 1 && is_digit(s[i + 1 + n])
        invariant
            i < s@.len(),
            n <= 17,
            i + 1 + n <= s.len(),
            all_digits(s@.subrange(i + 1, i + 1 + n)),
            minutes == value_of(s@.subrange(i + 1, i + 1 + n)),
            minutes < pow(10, n as nat) <= pow(10, 17),
            pow(10, 17) == 100000000000000000,
        decreases 17 - n,
    {
        proof {
            let longer = s@.subrange(i + 1, i + 1 + n + 1);
            assert(longer.drop_last() =~= s@.subrange(i + 1, i + 1 + n));
            reveal_with_fuel(pow, 2);
            assert(pow(10, (n + 1) as nat) == 10 * pow(10, n as nat));
            lemma_pow_increases(10, (n + 1) as nat, 17);
        }
        minutes = minutes * 10 + digit_value(s[i + 1 + n]);
        n += 1;
    }
    (n, minutes)
}

/// The digits behind the bracket of a stamp are its minutes, and the seconds follow.
proof fn lemma_stamp_digits(s: Seq<char>, t: nat, i: int, n: int)
    requires
        t <= u64::MAX,
        occurs_at(s, stamp(t), i),
        0 <= n <= 17,
        i + 1 + n <= s.len(),
        all_digits(s.subrange(i + 1, i + 1 + n)),
        n == 17 || i + 1 + n == s.len() || !ascii_digit(s[i + 1 + n]),
    ensures
        n == minute_len(t),
        n < 17,
        s.len() - i - 1 - n >= 7,
        s[i] == '[',
        ascii_digit(s[i + 2 + n]),
        ascii_digit(s[i + 3 + n]),
        ascii_digit(s[i + 5 + n]),
        ascii_digit(s[i + 6 + n]),
        t == value_of(s.subrange(i + 1, i + 1 + n)) * 6000 + ((s[i + 2 + n] as nat - '0' as nat)
            * 10 + (s[i + 3 + n] as nat - '0' as nat)) * 100 + ((s[i + 5 + n] as nat - '0' as nat)
            * 10 + (s[i + 6 + n] as nat - '0' as nat)),
{
    lemma_stamp_parts(s, t, i);
    let l = minute_len(t);
    if n > l {
        assert(ascii_digit(s.subrange(i + 1, i + 1 + n)[l]));
    } else if n < l {
        assert(ascii_digit(s.subrange(i + 1, i + 1 + l)[n]));
    }
    let x = s.subrange(i + 2 + l, i + 4 + l);
    let y = s.subrange(i + 5 + l, i + 7 + l);
    assert(ascii_digit(x[0]) && ascii_digit(x[1]));
    assert(ascii_digit(y[0]) && ascii_digit(y[1]));
    lemma_two_digit_value(s, i + 2 + l);
    lemma_two_digit_value(s, i + 5 + l);
}

/// The time and the length of the stamp that stands in `s` from index `i` on.
fn read_stamp(s: &[char], i: usize) -> (r: Option<(u64, usize)>)
    requires
        i < s@.len(),
    ensures
        match r {
            Some((t, n)) => occurs_at(s@, stamp(t as nat), i as int) && n == stamp(t as nat).len(),
            None => forall|t: nat|
                t <= u64::MAX ==> !#[trigger] occurs_at(s@, stamp(t), i as int),
        },
{
    let (n, minutes) = read_minutes(s, i);
    proof {
        assert forall|t: nat| t <= u64::MAX && #[trigger] occurs_at(s@, stamp(t), i as int) implies n
            < 17 && s@.len() - i - 1 - n >= 7 && ascii_digit(s@[i + 2 + n]) && ascii_digit(
            s@[i + 3 + n],
        ) && ascii_digit(s@[i + 5 + n]) && ascii_digit(s@[i + 6 + n]) by {
            lemma_stamp_digits(s@, t, i as int, n as int);
        }
    }
    if n < 17 && s.len() - i - 1 - n >= 7 && is_digit(s[i + 2 + n]) && is_digit(s[i + 3 + n])
        && is_digit(s[i + 5 + n]) && is_digit(s[i + 6 + n]) {
        let seconds: u128 = digit_value(s[i + 2 + n]) * 10 + digit_value(s[i + 3 + n]);
        let rest: u128 = digit_value(s[i + 5 + n]) * 10 + digit_value(s[i + 6 + n]);
        let total: u128 = minutes * 6000 + seconds * 100 + rest;
        proof {
            assert forall|t: nat|
                t <= u64::MAX && #[trigger] occurs_at(s@, stamp(t), i as int) implies t
                == total by {
                lemma_stamp_digits(s@, t, i as int, n as int);
            }
        }
        if total <= u64::MAX as u128 {
            let mut written = String::new();
            written.push('[');
            push_time(&mut written, total as i128);
            written.push(']');
            let text = chars_of(written.as_str());
            assert(text@ =~= stamp(total as nat));
            if stands_at(s, text.as_slice(), i) {
                return Some((total as u64, text.len()));
            }
        }
    }
    None
}

/// The number that two digits spell.
proof fn lemma_two_digit_value(s: Seq<char>, i: int)
    requires
        0 <= i,
        i + 2 <= s.len(),
        ascii_digit(s[i]),
        ascii_digit(s[i + 1]),
    ensures
        value_of(s.subrange(i, i + 2)) == (s[i] as nat - '0' as nat) * 10 + (s[i + 1] as nat
            - '0' as nat),
{
    reveal_with_fuel(value_of, 3);
    let pair = s.subrange(i, i + 2);
    assert(pair.drop_last() =~= seq![s[i]]);
    assert(seq![s[i]].drop_last() =~= Seq::<char>::empty());
}

/// `text` with each of its stamps moved by `offset` hundredths of a second.
pub fn shift_stamps(text: &[char], offset: i64) -> (r: String)
    ensures
        r@ == shifted(text@, offset as int),
{
    let mut out = String::new();
    let mut i: usize = 0;
    assert(text@.skip(0) =~= text@);
    assert(out@ + shifted(text@, offset as int) =~= shifted(text@, offset as int));
    while i < text.len()
        invariant
            i <= text@.len(),
            out@ + shifted(text@.skip(i as int), offset as int) == shifted(text@, offset as int),
        decreases text@.len() - i,
    {
        let ghost rest = text@.skip(i as int);
        let ghost before = out@;
        match read_stamp(text, i) {
            Some((t, n)) => {
                proof {
                    lemma_occurs_in_rest(text@, stamp(t as nat), i as int);
                    let u = choose|u: nat| starts_with_stamp(rest, u);
                    assert(starts_with_stamp(rest, t as nat));
                    lemma_one_stamp(rest, t as nat, u);
                    assert(rest.skip(n as int) =~= text@.skip(i + n));
                }
                out.push('[');
                push_time(&mut out, t as i128 + offset as i128);
                out.push(']');
                assert(out@ =~= before + stamp(writable(t + offset)));
                assert(out@ + shifted(text@.skip(i + n), offset as int) =~= before + (stamp(
                    writable(t + offset),
                ) + shifted(text@.skip(i + n), offset as int)));
                assert(i + n <= text.len());
                i += n;
            },
            None => {
                proof {
                    assert forall|t: nat| !starts_with_stamp(rest, t) by {
                        lemma_occurs_in_rest(text@, stamp(t), i as int);
                    }
                    assert(rest.skip(1) =~= text@.skip(i as int + 1));
                }
                out.push(text[i]);
                assert(out@ + shifted(text@.skip(i as int + 1), offset as int) =~= before + (seq![
                    rest[0],
                ] + shifted(text@.skip(i as int + 1), offset as int)));
                i += 1;
            },
        }
    }
    assert(text@.skip(text@.len() as int) =~= Seq::<char>::empty());
    assert(out@ + shifted(Seq::<char>::empty(), offset as int) =~= out@);
    out
}

/// What stands in `s` from index `i` on stands at the start of the rest of `s`.
proof fn lemma_occurs_in_rest(s: Seq<char>, part: Seq<char>, i: int)
    requires
        0 <= i <= s.len(),
    ensures
        occurs_at(s, part, i) == occurs_at(s.skip(i), part, 0),
{
    if i + part.len() <= s.len() {
        assert(s.skip(i).subrange(0, part.len() as int) =~= s.subrange(i, i + part.len()));
    }
}

/// A timestamp has at least two digits of minutes, exactly two of seconds, of which there are
/// fewer than sixty, and exactly two of hundredths.
pub proof fn law_timestamp_shape(hundredths: nat)
    ensures
        ({
            let s = timestamp(hundredths);
            let n = s.len() - 6;
            &&& n >= 2
            &&& forall|i: int| 0 <= i < n ==> ascii_digit(#[trigger] s[i])
            &&& s[n] == ':'
            &&& '0' <= s[n + 1] <= '5'
            &&& ascii_digit(s[n + 2])
            &&& s[n + 3] == '.'
            &&& ascii_digit(s[n + 4])
            &&& ascii_digit(s[n + 5])
        }),
{
    let s = timestamp(hundredths);
    let m = two_digits(hundredths / 6000);
    let x = two_digits(hundredths / 100 % 60);
    let y = two_digits(hundredths % 100);
    lemma_two_digits(hundredths / 6000);
    lemma_two_digits(hundredths / 100 % 60);
    lemma_two_digits(hundredths % 100);
    let n = s.len() - 6;
    assert forall|i: int| 0 <= i < n implies ascii_digit(#[trigger] s[i]) by {
        assert(s[i] == m[i]);
    }
    assert(s[n + 1] == x[0] && s[n + 2] == x[1]);
    assert(s[n + 4] == y[0] && s[n + 5] == y[1]);
    assert(value_of(x) == (x[0] as nat - '0' as nat) * 10 + (x[1] as nat - '0' as nat)) by {
        assert(x.subrange(0, 2) =~= x);
        lemma_two_digit_value(x, 0);
    }
}

/// Two times with the same stamp are the same.
pub proof fn law_stamps_differ(a: nat, b: nat)
    requires
        a <= u64::MAX,
        b <= u64::MAX,
        stamp(a) == stamp(b),
    ensures
        a == b,
{
    assert(stamp(a).subrange(0, stamp(a).len() as int) =~= stamp(a));
    lemma_one_stamp(stamp(a), a, b);
}

/// A shift by nothing leaves every text as it is.
pub proof fn law_shift_by_zero(s: Seq<char>)
    ensures
        shifted(s, 0) == s,
    decreases s.len(),
{
    if s.len() > 0 {
        if exists|t: nat| starts_with_stamp(s, t) {
            let t = choose|t: nat| starts_with_stamp(s, t);
            let n = stamp(t).len() as int;
            law_shift_by_zero(s.skip(n));
            assert(s =~= s.subrange(0, n) + s.skip(n));
        } else {
            law_shift_by_zero(s.skip(1));
            assert(s =~= seq![s[0]] + s.skip(1));
        }
    }
}

/// A shift moves the stamp at the start of a text by the offset and goes on behind it.
pub proof fn law_stamp_moves(t: nat, rest: Seq<char>, offset: int)
    requires
        t <= u64::MAX,
    ensures
        shifted(stamp(t) + rest, offset) == stamp(writable(t + offset)) + shifted(rest, offset),
{
    let s = stamp(t) + rest;
    let n = stamp(t).len() as int;
    assert(s.subrange(0, n) =~= stamp(t));
    assert(starts_with_stamp(s, t));
    let u = choose|u: nat| starts_with_stamp(s, u);
    lemma_one_stamp(s, t, u);
    assert(s.skip(n) =~= rest);
}

/// A shift leaves a text without stamps as it is.
pub proof fn law_plain_text_stays(s: Seq<char>, offset: int)
    requires
        forall|i: int, t: nat| t <= u64::MAX ==> !#[trigger] occurs_at(s, stamp(t), i),
    ensures
        shifted(s, offset) == s,
    decreases s.len(),
{
    if s.len() > 0 {
        let rest = s.skip(1);
        assert forall|i: int, t: nat| t <= u64::MAX implies !#[trigger] occurs_at(
            rest,
            stamp(t),
            i,
        ) by {
            if occurs_at(rest, stamp(t), i) {
                assert(rest.subrange(i, i + stamp(t).len()) =~= s.subrange(
                    i + 1,
                    i + 1 + stamp(t).len(),
                ));
                assert(occurs_at(s, stamp(t), i + 1));
            }
        }
        law_plain_text_stays(rest, offset);
        assert(s =~= seq![s[0]] + rest);
    }
}

/// Whether no stamp of `s`, moved by `a`, runs into a limit of what can be written so that it is
/// elsewhere when it is moved on by `b`.
pub open spec fn no_limit_met(s: Seq<char>, a: int, b: int) -> bool {
    forall|i: int, t: nat|
        t <= u64::MAX && #[trigger] occurs_at(s, stamp(t), i) ==> writable(writable(t + a) + b)
            == writable(t + a + b)
}

/// What a shifted text starts with, as far as no bracket stands in it, the text itself starts
/// with.
proof fn lemma_shift_keeps_start(s: Seq<char>, offset: int, start: Seq<char>)
    requires
        occurs_at(shifted(s, offset), start, 0),
        !start.contains('['),
    ensures
        occurs_at(s, start, 0),
    decreases start.len(),
{
    if start.len() == 0 {
        assert(s.subrange(0, 0) =~= start);
    } else {
        let out = shifted(s, offset);
        assert(out.subrange(0, start.len() as int)[0] == start[0]);
        assert(start.contains(start[0]));
        assert(out.len() > 0);
        if exists|t: nat| starts_with_stamp(s, t) {
            let t = choose|t: nat| starts_with_stamp(s, t);
            assert(out[0] == '[');
        } else {
            let rest = start.skip(1);
            assert(out.skip(1) =~= shifted(s.skip(1), offset));
            assert(out.skip(1).subrange(0, rest.len() as int) =~= out.subrange(
                0,
                start.len() as int,
            ).skip(1));
            assert forall|i: int| 0 <= i < rest.len() implies rest[i] != '[' by {
                assert(start.contains(start[i + 1]));
            }
            lemma_shift_keeps_start(s.skip(1), offset, rest);
            assert(s.subrange(0, start.len() as int) =~= seq![s[0]] + s.skip(1).subrange(
                0,
                rest.len() as int,
            ));
            assert(start =~= seq![start[0]] + rest);
        }
    }
}

/// Two shifts in a row move every stamp by the sum of their offsets, unless the first one runs
/// into a limit of what can be written.
pub proof fn law_shifts_add_up(s: Seq<char>, a: int, b: int)
    requires
        no_limit_met(s, a, b),
    ensures
        shifted(shifted(s, a), b) == shifted(s, a + b),
    decreases s.len(),
{
    if s.len() > 0 {
        if exists|t: nat| starts_with_stamp(s, t) {
            let t = choose|t: nat| starts_with_stamp(s, t);
            let n = stamp(t).len() as int;
            lemma_rest_meets_no_limit(s, a, b, n);
            law_shifts_add_up(s.skip(n), a, b);
            law_stamp_moves(writable(t + a), shifted(s.skip(n), a), b);
        } else {
            lemma_rest_meets_no_limit(s, a, b, 1);
            law_shifts_add_up(s.skip(1), a, b);
            let out = shifted(s, a);
            assert(out.skip(1) =~= shifted(s.skip(1), a));
            assert forall|u: nat| !starts_with_stamp(out, u) by {
                if starts_with_stamp(out, u) {
                    let start = stamp(u).skip(1);
                    lemma_stamp_parts(out, u, 0);
                    assert(out.skip(1).subrange(0, start.len() as int) =~= out.subrange(
                        0,
                        stamp(u).len() as int,
                    ).skip(1));
                    assert(!start.contains('[')) by {
                        law_timestamp_shape(u);
                        assert(start =~= timestamp(u) + seq![']']);
                        let k = timestamp(u).len() - 6;
                        assert forall|i: int| 0 <= i < start.len() implies start[i] != '[' by {
                            if i < k {
                                assert(ascii_digit(timestamp(u)[i]));
                            }
                        }
                    }
                    lemma_shift_keeps_start(s.skip(1), a, start);
                    assert(s.subrange(0, stamp(u).len() as int) =~= seq![s[0]] + s.skip(
                        1,
                    ).subrange(0, start.len() as int));
                    assert(stamp(u) =~= seq!['['] + start);
                    assert(starts_with_stamp(s, u));
                }
            }
        }
    } else {
        assert(shifted(s, a) =~= s);
    }
}

/// Where no stamp of a text runs into a limit, none of the rest of the text does.
proof fn lemma_rest_meets_no_limit(s: Seq<char>, a: int, b: int, n: int)
    requires
        no_limit_met(s, a, b),
        0 <= n <= s.len(),
    ensures
        no_limit_met(s.skip(n), a, b),
{
    assert forall|i: int, t: nat|
        t <= u64::MAX && #[trigger] occurs_at(s.skip(n), stamp(t), i) implies writable(
        writable(t + a) + b,
    ) == writable(t + a + b) by {
        assert(s.skip(n).subrange(i, i + stamp(t).len()) =~= s.subrange(
            n + i,
            n + i + stamp(t).len(),
        ));
        assert(occurs_at(s, stamp(t), n + i));
    }
}

/// A stamp has no bracket but those around it, and no line break.
proof fn lemma_stamp_chars(t: nat, i: int)
    requires
        0 < i < stamp(t).len(),
    ensures
        stamp(t)[i] != '[',
        stamp(t)[i] != '\n',
{
    law_timestamp_shape(t);
    let s = timestamp(t);
    if i < s.len() + 1 {
        assert(stamp(t)[i] == s[i - 1]);
        if i - 1 < s.len() - 6 {
            assert(ascii_digit(s[i - 1]));
        }
    }
}

/// A shift goes line by line.
pub proof fn law_lines_shift_alone(a: Seq<char>, b: Seq<char>, offset: int)
    requires
        a.len() > 0 ==> a.last() == '\n',
    ensures
        shifted(a + b, offset) == shifted(a, offset) + shifted(b, offset),
    decreases a.len(),
{
    if a.len() == 0 {
        assert(a + b =~= b);
        assert(shifted(a, offset) + shifted(b, offset) =~= shifted(b, offset));
    } else {
        let s = a + b;
        assert forall|t: nat| starts_with_stamp(s, t) == starts_with_stamp(a, t) by {
            let n = stamp(t).len() as int;
            if starts_with_stamp(s, t) {
                if a.len() < n {
                    assert(s.subrange(0, n)[a.len() - 1] == a.last());
                    if a.len() > 1 {
                        lemma_stamp_chars(t, a.len() - 1);
                    }
                }
                assert(a.subrange(0, n) =~= s.subrange(0, n));
            }
            if starts_with_stamp(a, t) {
                assert(a.subrange(0, n) =~= s.subrange(0, n));
            }
        }
        if exists|t: nat| starts_with_stamp(s, t) {
            let t = choose|t: nat| starts_with_stamp(s, t);
            let u = choose|u: nat| starts_with_stamp(a, u);
            assert(starts_with_stamp(a, t));
            lemma_one_stamp(a, t, u);
            let n = stamp(t).len() as int;
            let rest = a.skip(n);
            if rest.len() > 0 {
                assert(rest.last() == a.last());
            }
            law_lines_shift_alone(rest, b, offset);
            assert(s.skip(n) =~= rest + b);
            assert(shifted(s, offset) =~= shifted(a, offset) + shifted(b, offset));
        } else {
            let rest = a.skip(1);
            if rest.len() > 0 {
                assert(rest.last() == a.last());
            }
            law_lines_shift_alone(rest, b, offset);
            assert(s.skip(1) =~= rest + b);
            assert(!(exists|t: nat| starts_with_stamp(a, t)));
            assert(shifted(s, offset) =~= shifted(a, offset) + shifted(b, offset));
        }
    }
}

/// A timestamp is the minutes, the seconds and the hundredths of its time, with a colon and a dot
/// between them.
pub proof fn law_timestamp_tells_the_time(minutes: nat, seconds: nat, hundredths: nat)
    requires
        seconds < 60,
        hundredths < 100,
    ensures
        timestamp(minutes * 6000 + seconds * 100 + hundredths) == two_digits(minutes) + seq![':']
            + two_digits(seconds) + seq!['.'] + two_digits(hundredths),
{
    let t = minutes * 6000 + seconds * 100 + hundredths;
    assert(t / 6000 == minutes);
    assert(t / 100 == minutes * 60 + seconds);
    assert((minutes * 60 + seconds) % 60 == seconds);
    assert(t % 100 == hundredths);
}

/// A time from zero up to what a `u64` holds is written as it is; one below is written as zero,
/// and one above as the last.
pub proof fn law_times_that_are_written(t: int)
    ensures
        0 <= t <= u64::MAX ==> writable(t) == t,
        t < 0 ==> writable(t) == 0,
        t > u64::MAX ==> writable(t) == u64::MAX,
{
}

/// Wherever in a text a stamp stands, a shift moves it by the offset, leaves what stands in front
/// of it as it is, where no other stamp does, and goes on behind it.
pub proof fn law_stamp_moves_anywhere(before: Seq<char>, t: nat, rest: Seq<char>, offset: int)
    requires
        t <= u64::MAX,
        forall|i: int, u: nat| u <= u64::MAX ==> !#[trigger] occurs_at(before, stamp(u), i),
    ensures
        shifted(before + stamp(t) + rest, offset) == before + stamp(writable(t + offset)) + shifted(
            rest,
            offset,
        ),
    decreases before.len(),
{
    let s = before + stamp(t) + rest;
    if before.len() == 0 {
        assert(s =~= stamp(t) + rest);
        law_stamp_moves(t, rest, offset);
        assert(before + stamp(writable(t + offset)) + shifted(rest, offset) =~= stamp(
            writable(t + offset),
        ) + shifted(rest, offset));
    } else {
        let k = before.len() as int;
        assert forall|u: nat| !starts_with_stamp(s, u) by {
            if starts_with_stamp(s, u) {
                let n = stamp(u).len() as int;
                if n <= k {
                    assert(before.subrange(0, n) =~= s.subrange(0, n));
                    assert(occurs_at(before, stamp(u), 0));
                } else {
                    assert(s.subrange(0, n)[k] == s[k]);
                    assert(s[k] == stamp(t)[0]);
                    lemma_stamp_chars(u, k);
                }
            }
        }
        let less = before.skip(1);
        assert forall|i: int, u: nat| u <= u64::MAX implies !#[trigger] occurs_at(
            less,
            stamp(u),
            i,
        ) by {
            if occurs_at(less, stamp(u), i) {
                assert(less.subrange(i, i + stamp(u).len()) =~= before.subrange(
                    i + 1,
                    i + 1 + stamp(u).len(),
                ));
                assert(occurs_at(before, stamp(u), i + 1));
            }
        }
        law_stamp_moves_anywhere(less, t, rest, offset);
        assert(s.skip(1) =~= less + stamp(t) + rest);
        assert(seq![s[0]] + (less + stamp(writable(t + offset)) + shifted(rest, offset)) =~= before
            + stamp(writable(t + offset)) + shifted(rest, offset));
    }
}

} // verus!
