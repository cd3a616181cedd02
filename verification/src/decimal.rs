//! Decimal numerals: writing integers and reading them back.

use vstd::prelude::*;

use crate::text;

verus! {

/// The character of a decimal digit.
pub open spec fn digit(d: int) -> char {
    ('0' as u32 + d) as char
}

/// Whether `c` is a decimal digit.
pub open spec fn is_digit(c: char) -> bool {
    '0' <= c <= '9'
}

/// The value of a decimal digit.
pub open spec fn digit_value(c: char) -> int {
    c as u32 - '0' as u32
}

/// The decimal numeral of `n`, without leading zeros.
pub open spec fn numeral(n: nat) -> Seq<char>
    decreases n,
{
    if n < 10 {
        seq![digit(n as int)]
    } else {
        numeral(n / 10).push(digit((n % 10) as int))
    }
}

/// The decimal numeral of `i`, with a minus sign in front when `i` is negative.
pub open spec fn signed_numeral(i: int) -> Seq<char> {
    if i < 0 {
        seq!['-'] + numeral((-i) as nat)
    } else {
        numeral(i as nat)
    }
}

/// Whether `s` is made of one digit or more.
pub open spec fn all_digits(s: Seq<char>) -> bool {
    s.len() > 0 && forall|i: int| 0 <= i < s.len() ==> is_digit(#[trigger] s[i])
}

/// The number that a sequence of digits writes.
pub open spec fn number(s: Seq<char>) -> nat
    decreases s.len(),
{
    if s.len() == 0 {
        0
    } else {
        (number(s.drop_last()) * 10 + digit_value(s.last())) as nat
    }
}

/// The digits of an unsigned numeral: what follows an optional plus sign.
pub open spec fn unsigned_digits(s: Seq<char>) -> Seq<char> {
    if s.len() > 0 && s[0] == '+' {
        s.drop_first()
    } else {
        s
    }
}

/// What the text `s` reads as when only numbers up to `max` are wanted: an optional plus sign and
/// digits, nothing else.
pub open spec fn read_unsigned(s: Seq<char>, max: nat) -> Option<nat> {
    let d = unsigned_digits(s);
    if all_digits(d) && number(d) <= max {
        Some(number(d))
    } else {
        None
    }
}

/// What the text `s` reads as when only numbers from `min` to `max` are wanted: an optional sign
/// and digits, nothing else.
pub open spec fn read_signed(s: Seq<char>, min: int, max: int) -> Option<int> {
    if s.len() > 0 && s[0] == '-' {
        let d = s.drop_first();
        if all_digits(d) && -number(d) >= min {
            Some(-number(d))
        } else {
            None
        }
    } else {
        let d = unsigned_digits(s);
        if all_digits(d) && number(d) <= max {
            Some(number(d) as int)
        } else {
            None
        }
    }
}

/// A prefix of digits writes no larger a number than the whole.
proof fn lemma_number_prefix(s: Seq<char>, k: int)
    requires
        all_digits(s),
        0 <= k <= s.len(),
    ensures
        number(s.take(k)) <= number(s),
    decreases s.len(),
{
    if k == s.len() {
        assert(s.take(k) =~= s);
    } else if s.len() == 1 {
        assert(s.take(k) =~= Seq::empty());
    } else {
        let t = s.drop_last();
        assert forall|i: int| 0 <= i < t.len() implies is_digit(#[trigger] t[i]) by {
            assert(t[i] == s[i]);
        }
        lemma_number_prefix(t, k);
        assert(t.take(k) =~= s.take(k));
        assert(is_digit(s[s.len() - 1]));
    }
}

/// Reads the digits of `cs` from `from` on as a number of at most `max`.
fn read_digits(cs: &Vec<char>, from: usize, max: u64) -> (r: Option<u64>)
    requires
        from <= cs@.len(),
    ensures
        r == (if all_digits(cs@.skip(from as int)) && number(cs@.skip(from as int)) <= max {
            Some(number(cs@.skip(from as int)) as u64)
        } else {
            None
        }),
{
    let ghost d = cs@.skip(from as int);
    if from == cs.len() {
        return None;
    }
    let mut acc: u64 = 0;
    let mut i: usize = from;
    while i < cs.len()
        invariant
            from <= i <= cs@.len(),
            d == cs@.skip(from as int),
            acc <= max,
            acc == number(d.take(i - from)),
            forall|j: int| 0 <= j < i - from ==> is_digit(#[trigger] d[j]),
        decreases cs@.len() - i,
    {
        let c = cs[i];
        assert(c == d[i - from]);
        if c < '0' || '9' < c {
            assert(!is_digit(d[i - from]));
            return None;
        }
        let v: u64 = (c as u32 - 48) as u64;
        proof {
            assert(d.take(i - from + 1).drop_last() =~= d.take(i - from));
            assert(number(d.take(i - from + 1)) == acc * 10 + v);
        }
        if acc > max / 10 || v > max - acc * 10 {
            proof {
                if all_digits(d) {
                    lemma_number_prefix(d, i - from + 1);
                }
            }
            return None;
        }
        acc = acc * 10 + v;
        i = i + 1;
    }
    assert(d.take(i - from) =~= d);
    Some(acc)
}

/// Reads `s` as an unsigned number of at most `max`.
pub fn parse_unsigned(s: &str, max: u64) -> (r: Option<u64>)
    ensures
        r matches Some(v) ==> read_unsigned(s@, max as nat) == Some(v as nat),
        r is None ==> read_unsigned(s@, max as nat) is None,
{
    let cs = text::chars_of(s);
    assert(cs@.skip(0) =~= cs@);
    if cs.len() > 0 && cs[0] == '+' {
        assert(cs@.skip(1) =~= cs@.drop_first());
        read_digits(&cs, 1, max)
    } else {
        read_digits(&cs, 0, max)
    }
}

/// Reads `s` as a number from `min` to `max`.
pub fn parse_signed(s: &str, min: i64, max: i64) -> (r: Option<i64>)
    requires
        min < 0 < max,
    ensures
        r matches Some(v) ==> read_signed(s@, min as int, max as int) == Some(v as int),
        r is None ==> read_signed(s@, min as int, max as int) is None,
{
    let cs = text::chars_of(s);
    assert(cs@.skip(0) =~= cs@);
    assert(cs@.len() > 0 ==> cs@.skip(1) =~= cs@.drop_first());
    if cs.len() > 0 && cs[0] == '-' {
        let limit: u64 = (-(min + 1)) as u64 + 1;
        match read_digits(&cs, 1, limit) {
            Some(v) => {
                if v == 0 {
                    Some(0)
                } else {
                    Some(-((v - 1) as i64) - 1)
                }
            },
            None => None,
        }
    } else {
        let from: usize = if cs.len() > 0 && cs[0] == '+' {
            1
        } else {
            0
        };
        match read_digits(&cs, from, max as u64) {
            Some(v) => Some(v as i64),
            None => None,
        }
    }
}

/// Appends the numeral of `n` to `out`.
pub fn push_unsigned(out: &mut String, n: u64)
    ensures
        final(out)@ == old(out)@ + numeral(n as nat),
    decreases n,
{
    let ghost base = out@;
    if n >= 10 {
        push_unsigned(out, n / 10);
    }
    let d: usize = (n % 10) as usize;
    proof {
        reveal_strlit("0123456789");
    }
    out.append("0123456789".substring_char(d, d + 1));
    assert(out@ =~= base + numeral(n as nat));
}

/// The numeral of `n`.
pub fn unsigned_string(n: u64) -> (r: String)
    ensures
        r@ == numeral(n as nat),
{
    let mut out = String::new();
    push_unsigned(&mut out, n);
    assert(out@ =~= numeral(n as nat));
    out
}

/// The numeral of `i`.
pub fn signed_string(i: i64) -> (r: String)
    ensures
        r@ == signed_numeral(i as int),
{
    let mut out = String::new();
    if i < 0 {
        proof {
            reveal_strlit("-");
        }
        out.append("-");
        let m: u64 = (-(i + 1)) as u64 + 1;
        push_unsigned(&mut out, m);
    } else {
        push_unsigned(&mut out, i as u64);
    }
    assert(out@ =~= signed_numeral(i as int));
    out
}

/// A numeral is made of digits and writes its number.
pub proof fn lemma_numeral(n: nat)
    ensures
        all_digits(numeral(n)),
        number(numeral(n)) == n,
    decreases n,
{
    reveal_with_fuel(number, 2);
    let s = numeral(n);
    if n >= 10 {
        lemma_numeral(n / 10);
        assert(s.drop_last() =~= numeral(n / 10));
        assert forall|i: int| 0 <= i < s.len() implies is_digit(#[trigger] s[i]) by {
            if i < s.len() - 1 {
                assert(s[i] == numeral(n / 10)[i]);
            }
        }
    } else {
        assert(s.drop_last() =~= Seq::empty());
    }
}

/// Reading back a written unsigned number gives that number.
pub proof fn law_unsigned_round_trip(n: nat, max: nat)
    requires
        n <= max,
    ensures
        read_unsigned(numeral(n), max) == Some(n),
{
    lemma_numeral(n);
    assert(is_digit(numeral(n)[0]));
}

/// Reading back a written number gives that number.
pub proof fn law_signed_round_trip(i: int, min: int, max: int)
    requires
        min <= i <= max,
    ensures
        read_signed(signed_numeral(i), min, max) == Some(i),
{
    if i < 0 {
        lemma_numeral((-i) as nat);
        assert(signed_numeral(i).drop_first() =~= numeral((-i) as nat));
    } else {
        lemma_numeral(i as nat);
        assert(is_digit(numeral(i as nat)[0]));
    }
}

/// A numeral is made of digits, each counting ten times as much as the one behind it: a number below
/// ten is its digit, and the digit behind a numeral multiplies it by ten and adds itself.
pub proof fn law_digits_count_by_ten(n: nat, d: nat, c: char)
    requires
        d < 10,
        c as u32 == 48 + d,
    ensures
        numeral(d) == seq![c],
        n > 0 ==> numeral(10 * n + d) == numeral(n).push(c),
{
    assert((10 * n + d) / 10 == n);
    assert((10 * n + d) % 10 == d);
}

/// A negative number has a minus sign in front of the numeral of its magnitude.
pub proof fn law_minus_sign(n: nat)
    ensures
        signed_numeral(n as int) == numeral(n),
        n > 0 ==> signed_numeral(-n) == seq!['-'] + numeral(n),
{
}

/// How digits are read: one is its value, and one more behind makes ten times the number before it
/// plus its own value. What is larger than wanted is not read.
pub proof fn law_digits_are_read(s: Seq<char>, c: char, max: nat)
    requires
        '0' <= c <= '9',
    ensures
        read_unsigned(seq![c], max) == (if c as u32 - 48 <= max {
            Some((c as u32 - 48) as nat)
        } else {
            None
        }),
        (forall|i: int| 0 <= i < s.len() ==> '0' <= #[trigger] s[i] <= '9') && s.len() > 0
            ==> match read_unsigned(s, max) {
            Some(n) => read_unsigned(s.push(c), max) == (if 10 * n + (c as u32 - 48) <= max {
                Some((10 * n + (c as u32 - 48)) as nat)
            } else {
                None
            }),
            None => read_unsigned(s.push(c), max) is None,
        },
{
    let one = seq![c];
    assert(one.drop_last() =~= Seq::<char>::empty());
    assert(number(one.drop_last()) == 0);
    assert(number(one) == digit_value(c));
    if all_digits(s) {
        assert(s.push(c).drop_last() =~= s);
        assert(all_digits(s.push(c))) by {
            assert forall|i: int| 0 <= i < s.push(c).len() implies is_digit(
                #[trigger] s.push(c)[i],
            ) by {
                if i < s.len() {
                    assert(s.push(c)[i] == s[i]);
                }
            }
        }
        assert(s.push(c)[0] == s[0]);
        assert(is_digit(s[0]));
    }
}

/// A plus sign in front of digits does not matter, a minus sign makes the number negative, and no
/// other text but digits is read.
pub proof fn law_signs_and_other_texts(s: Seq<char>, min: int, max: int)
    requires
        min <= 0 <= max,
    ensures
        (forall|i: int| 0 <= i < s.len() ==> '0' <= #[trigger] s[i] <= '9') && s.len() > 0
            ==> {
            &&& read_unsigned(seq!['+'] + s, max as nat) == read_unsigned(s, max as nat)
            &&& read_signed(s, min, max) == (match read_unsigned(s, max as nat) {
                Some(n) => Some(n as int),
                None => None,
            })
            &&& read_signed(seq!['+'] + s, min, max) == read_signed(s, min, max)
            &&& read_signed(seq!['-'] + s, min, max) == (match read_unsigned(s, (-min) as nat) {
                Some(n) => Some(-(n as int)),
                None => None,
            })
        },
        s.len() == 0 ==> read_unsigned(s, max as nat) is None && read_signed(s, min, max) is None,
        s == seq!['+'] ==> read_unsigned(s, max as nat) is None && read_signed(s, min, max) is None,
        s == seq!['-'] ==> read_signed(s, min, max) is None,
        (exists|i: int| 0 < i < s.len() && !('0' <= #[trigger] s[i] <= '9')) ==> read_unsigned(
            s,
            max as nat,
        ) is None && read_signed(s, min, max) is None,
        s.len() > 0 && !('0' <= s[0] <= '9') && s[0] != '+' ==> read_unsigned(
            s,
            max as nat,
        ) is None,
        s.len() > 0 && !('0' <= s[0] <= '9') && s[0] != '+' && s[0] != '-' ==> read_signed(
            s,
            min,
            max,
        ) is None,
{
    if all_digits(s) {
        assert(is_digit(s[0]));
        assert((seq!['+'] + s).drop_first() =~= s);
        assert((seq!['-'] + s).drop_first() =~= s);
    }
    if exists|i: int| 0 < i < s.len() && !('0' <= #[trigger] s[i] <= '9') {
        let i = choose|i: int| 0 < i < s.len() && !('0' <= #[trigger] s[i] <= '9');
        assert(!is_digit(s[i]));
        assert(s.drop_first()[i - 1] == s[i]);
        assert(!all_digits(s) && !all_digits(s.drop_first()));
    }
    if s.len() > 0 && !('0' <= s[0] <= '9') {
        assert(!is_digit(s[0]));
        assert(!all_digits(s));
    }
}

} // verus!
