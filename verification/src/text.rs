//! Character-level helpers shared by the rest of the crate.
use vstd::prelude::*;

verus! {

broadcast use vstd::string::group_string_axioms;

/// Copies the characters of `s` into a vector.
pub fn chars_of(s: &str) -> (v: Vec<char>)
    ensures
        v@ == s@,
{
    let mut v: Vec<char> = Vec::new();
    for c in it: s.chars()
        invariant
            v@ == it.seq().take(it.index() as int),
            it.seq() == s@,
    {
        v.push(c);
    }
    v
}

/// Appends one character to a string (`String::push`).
#[verifier::external_body]
pub(crate) fn push_char(s: &mut String, c: char)
    ensures
        final(s)@ == old(s)@.push(c),
{
    s.push(c);
}

} // verus!

verus! {

/// The decimal digit character for `d` (`0 <= d < 10`).
pub open spec fn digit_char(d: nat) -> char {
    ((48 + d) as u8) as char
}

/// The decimal representation of a natural number, without sign or leading zeros.
pub open spec fn decimal_nat(n: nat) -> Seq<char>
    decreases n,
{
    if n < 10 {
        seq![digit_char(n)]
    } else {
        decimal_nat(n / 10).push(digit_char(n % 10))
    }
}

/// The decimal representation of an integer, as `i64::to_string` writes it.
pub open spec fn decimal_int(n: int) -> Seq<char> {
    if n < 0 {
        seq!['-'] + decimal_nat((-n) as nat)
    } else {
        decimal_nat(n as nat)
    }
}

fn push_decimal_u64(out: &mut String, n: u64)
    ensures
        final(out)@ == old(out)@ + decimal_nat(n as nat),
    decreases n,
{
    if n >= 10 {
        push_decimal_u64(out, n / 10);
    }
    let d: u8 = (n % 10) as u8;
    push_char(out, (48u8 + d) as char);
    assert(decimal_nat(n as nat) == if n < 10 {
        seq![digit_char(n as nat)]
    } else {
        decimal_nat((n / 10) as nat).push(digit_char((n % 10) as nat))
    });
}

/// Writes an `i64` in decimal, as its `Display` impl does.
pub fn i64_to_decimal(n: i64) -> (s: String)
    ensures
        s@ == decimal_int(n as int),
{
    let mut s = String::new();
    if n < 0 {
        push_char(&mut s, '-');
        let m: u64 = if n == i64::MIN {
            9223372036854775808u64
        } else {
            (-n) as u64
        };
        push_decimal_u64(&mut s, m);
    } else {
        push_decimal_u64(&mut s, n as u64);
    }
    s
}

/// Writes a `u64` in decimal, as its `Display` impl does.
pub fn u64_to_decimal(n: u64) -> (s: String)
    ensures
        s@ == decimal_nat(n as nat),
{
    let mut s = String::new();
    push_decimal_u64(&mut s, n);
    s
}

/// Joins string pieces: a fresh `String` holding `a` followed by `b`.
pub fn concat2(a: &str, b: &str) -> (s: String)
    ensures
        s@ == a@ + b@,
{
    let mut s = String::from_str(a);
    s.append(b);
    s
}

} // verus!

verus! {

/// Whether two strings hold the same characters.
pub fn str_eq(a: &str, b: &str) -> (r: bool)
    ensures
        r == (a@ == b@),
{
    let x = chars_of(a);
    let y = chars_of(b);
    if x.len() != y.len() {
        return false;
    }
    for i in 0..x.len()
        invariant
            x@ == a@,
            y@ == b@,
            x@.len() == y@.len(),
            forall|k: int| 0 <= k < i ==> x@[k] == y@[k],
    {
        if x[i] != y[i] {
            return false;
        }
    }
    assert(x@ =~= y@);
    true
}

/// Whether every character of `d` is an ASCII digit.
pub open spec fn ascii_digits(d: Seq<char>) -> bool {
    forall|i: int| 0 <= i < d.len() ==> '0' <= #[trigger] d[i] && d[i] <= '9'
}

/// The number that the decimal digits `d` write.
pub open spec fn digits_value(d: Seq<char>) -> int
    decreases d.len(),
{
    if d.len() == 0 {
        0
    } else {
        digits_value(d.drop_last()) * 10 + (d.last() as int - '0' as int)
    }
}

/// What `str::parse::<i64>` gives for `s`: an optional `+` or `-`, then one or more
/// ASCII digits, whose value must fit in an `i64`.
pub open spec fn parsed_i64(s: Seq<char>) -> Option<i64> {
    let neg = s.len() > 0 && s[0] == '-';
    let d = if s.len() > 0 && (s[0] == '-' || s[0] == '+') {
        s.drop_first()
    } else {
        s
    };
    let v = if neg {
        -digits_value(d)
    } else {
        digits_value(d)
    };
    if d.len() == 0 || !ascii_digits(d) || v < i64::MIN || v > i64::MAX {
        None
    } else {
        Some(v as i64)
    }
}

proof fn lemma_digits_value_grows(d: Seq<char>, k: int)
    requires
        0 <= k <= d.len(),
        ascii_digits(d),
    ensures
        0 <= digits_value(d.take(k)) <= digits_value(d),
    decreases d.len() - k,
{
    if k < d.len() {
        lemma_digits_value_grows(d, k + 1);
        assert(d.take(k + 1).drop_last() == d.take(k));
        assert(d.take(k + 1).last() == d[k]);
        assert('0' <= d[k] <= '9');
    } else {
        assert(d.take(k) == d);
        lemma_digits_value_nonneg(d);
    }
}

proof fn lemma_digits_value_nonneg(d: Seq<char>)
    requires
        ascii_digits(d),
    ensures
        digits_value(d) >= 0,
    decreases d.len(),
{
    if d.len() > 0 {
        assert(ascii_digits(d.drop_last())) by {
            assert forall|i: int| 0 <= i < d.drop_last().len() implies '0' <= #[trigger] d.drop_last()[i]
                && d.drop_last()[i] <= '9' by {
                assert(d.drop_last()[i] == d[i]);
            }
        }
        lemma_digits_value_nonneg(d.drop_last());
        assert('0' <= d[d.len() - 1]);
    }
}

/// Parses a decimal integer as `str::parse::<i64>` does (see [`parsed_i64`]).
pub fn parse_i64(s: &str) -> (r: Option<i64>)
    ensures
        r == parsed_i64(s@),
{
    let cs = chars_of(s);
    let n = cs.len();
    let neg = n > 0 && cs[0] == '-';
    let start: usize = if n > 0 && (cs[0] == '-' || cs[0] == '+') {
        1
    } else {
        0
    };
    let ghost d = if n > 0 && (cs@[0] == '-' || cs@[0] == '+') {
        cs@.drop_first()
    } else {
        cs@
    };
    assert(d == cs@.skip(start as int));
    if start == n {
        return None;
    }
    let limit: u128 = 9223372036854775808u128;
    let mut acc: u128 = 0;
    for k in start..n
        invariant
            start <= n,
            n == cs.len(),
            cs@ == s@,
            limit == 9223372036854775808u128,
            neg == (n > 0 && cs@[0] == '-'),
            d == (if n > 0 && (cs@[0] == '-' || cs@[0] == '+') {
                cs@.drop_first()
            } else {
                cs@
            }),
            d == cs@.skip(start as int),
            acc <= limit,
            acc == digits_value(d.take(k - start)),
            forall|i: int| 0 <= i < k - start ==> '0' <= #[trigger] d[i] && d[i] <= '9',
    {
        let c = cs[k];
        assert(d[k - start] == c);
        if !('0' <= c && c <= '9') {
            assert(!ascii_digits(d));
            return None;
        }
        assert(d.take(k + 1 - start).drop_last() == d.take(k - start));
        assert(d.take(k + 1 - start).last() == c);
        let digit: u128 = ((c as u32) - 48) as u128;
        assert(digit <= 9);
        assert(acc * 10 + digit <= limit * 10 + 9) by (nonlinear_arith)
            requires
                acc <= limit,
                digit <= 9,
        ;
        assert(digit == c as int - '0' as int);
        acc = acc * 10 + digit;
        if acc > limit {
            proof {
                assert(ascii_digits(d.take(k + 1 - start))) by {
                    assert forall|i: int| 0 <= i < d.take(k + 1 - start).len() implies '0'
                        <= #[trigger] d.take(k + 1 - start)[i] && d.take(k + 1 - start)[i] <= '9' by {
                        assert(d.take(k + 1 - start)[i] == d[i]);
                    }
                }
                if ascii_digits(d) {
                    lemma_digits_value_grows(d, k + 1 - start);
                }
            }
            return None;
        }
    }
    assert(d.take(n - start) == d);
    assert(ascii_digits(d));
    if neg {
        if acc == limit {
            Some(i64::MIN)
        } else {
            Some(-(acc as i64))
        }
    } else {
        if acc == limit {
            None
        } else {
            Some(acc as i64)
        }
    }
}

} // verus!
