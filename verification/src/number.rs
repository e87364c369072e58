//! Integers as text: decimal rendering and its inverse.
use vstd::arithmetic::div_mod::lemma_fundamental_div_mod;
use vstd::prelude::*;

verus! {

/// The character of a decimal digit.
pub open spec fn digit_char(d: int) -> char {
    (48 + d) as char
}

/// Whether a character is a decimal digit.
pub open spec fn is_digit(c: char) -> bool {
    '0' <= c <= '9'
}

/// The value of a decimal digit.
pub open spec fn digit_value(c: char) -> int {
    c as int - 48
}

/// A natural number in decimal, without leading zeros.
pub open spec fn decimal(n: nat) -> Seq<char>
    decreases n,
{
    if n < 10 {
        seq![digit_char(n as int)]
    } else {
        decimal(n / 10).push(digit_char((n % 10) as int))
    }
}

/// An integer in decimal, with a minus sign where it is negative.
pub open spec fn int_text(n: int) -> Seq<char> {
    if n < 0 {
        seq!['-'] + decimal((-n) as nat)
    } else {
        decimal(n as nat)
    }
}

/// The number that a run of decimal digits stands for.
pub open spec fn digits_value(s: Seq<char>) -> int
    decreases s.len(),
{
    if s.len() == 0 {
        0
    } else {
        10 * digits_value(s.drop_last()) + digit_value(s.last())
    }
}

/// Whether a text is one or more decimal digits.
pub open spec fn all_digits(s: Seq<char>) -> bool {
    s.len() > 0 && forall|i: int| 0 <= i < s.len() ==> is_digit(#[trigger] s[i])
}

/// A text without its leading sign.
pub open spec fn unsigned_part(s: Seq<char>) -> Seq<char> {
    if s.len() > 0 && (s[0] == '-' || s[0] == '+') {
        s.skip(1)
    } else {
        s
    }
}

/// The value of an optional sign and a run of digits.
pub open spec fn signed_value(s: Seq<char>) -> int {
    if s.len() > 0 && s[0] == '-' {
        -digits_value(unsigned_part(s))
    } else {
        digits_value(unsigned_part(s))
    }
}

/// The integer that a text spells: an optional sign, then one or more decimal
/// digits, with a value that 64 signed bits can hold.
pub open spec fn parse_int(s: Seq<char>) -> Option<i64> {
    if all_digits(unsigned_part(s)) && i64::MIN <= signed_value(s) <= i64::MAX {
        Some(signed_value(s) as i64)
    } else {
        None
    }
}

/// The value of a digit run grows with its length.
proof fn lemma_digits_value_prefix(s: Seq<char>, k: int)
    requires
        all_digits(s),
        0 <= k <= s.len(),
    ensures
        0 <= digits_value(s.take(k)) <= digits_value(s),
    decreases s.len(),
{
    if k == s.len() {
        assert(s.take(k) =~= s);
        if k > 1 {
            lemma_digits_value_prefix(s.drop_last(), k - 1);
            assert(s.drop_last().take(k - 1) =~= s.drop_last());
        } else if k == 1 {
            assert(digits_value(s.drop_last()) == 0);
        }
        assert(is_digit(s.last()));
    } else if s.len() == 1 {
        assert(digits_value(s.drop_last()) == 0);
        assert(is_digit(s.last()));
    } else {
        lemma_digits_value_prefix(s.drop_last(), k);
        assert(s.drop_last().take(k) =~= s.take(k));
        assert(is_digit(s.last()));
    }
}

/// Parses an integer: an optional sign, then decimal digits.
pub fn parse_i64(cs: &[char]) -> (r: Option<i64>)
    ensures
        r == parse_int(cs@),
{
    let n: usize = cs.len();
    let neg: bool = n > 0 && cs[0] == '-';
    let start: usize = if n > 0 && (cs[0] == '-' || cs[0] == '+') {
        1
    } else {
        0
    };
    let ghost body = unsigned_part(cs@);
    assert(body =~= cs@.skip(start as int));
    if start == n {
        return None;
    }
    let mut i: usize = start;
    while i < n
        invariant
            n == cs@.len(),
            start <= i <= n,
            body == cs@.skip(start as int),
            body == unsigned_part(cs@),
            forall|k: int| 0 <= k < i - start ==> is_digit(#[trigger] body[k]),
        decreases n - i,
    {
        let c = cs[i];
        assert(body[i - start] == c);
        if !('0' <= c && c <= '9') {
            assert(!is_digit(body[i - start]));
            return None;
        }
        i += 1;
    }
    assert(all_digits(body));
    // The absolute value, which is at most one above `i64::MAX`.
    let mut v: u64 = 0;
    let mut j: usize = start;
    while j < n
        invariant
            n == cs@.len(),
            start <= j <= n,
            body == cs@.skip(start as int),
            all_digits(body),
            body == unsigned_part(cs@),
            neg == (cs@.len() > 0 && cs@[0] == '-'),
            v == digits_value(body.take(j - start)),
            v <= 0x8000_0000_0000_0000,
        decreases n - j,
    {
        let c = cs[j];
        proof {
            assert(body[j - start] == c);
            assert(body.take(j - start + 1).drop_last() =~= body.take(j - start));
            lemma_digits_value_prefix(body, j - start + 1);
        }
        let d: u64 = (c as u64) - 48;
        if v > 0x0CCC_CCCC_CCCC_CCCC {
            return None;
        }
        let w: u64 = v * 10 + d;
        if w > 0x8000_0000_0000_0000 {
            return None;
        }
        v = w;
        j += 1;
    }
    assert(body.take(n - start) =~= body);
    if neg {
        if v == 0x8000_0000_0000_0000 {
            Some(i64::MIN)
        } else {
            Some(-(v as i64))
        }
    } else if v == 0x8000_0000_0000_0000 {
        None
    } else {
        Some(v as i64)
    }
}

/// Appends a natural number in decimal.
pub fn push_decimal(out: &mut String, n: u64)
    ensures
        final(out)@ == old(out)@ + decimal(n as nat),
    decreases n,
{
    if n >= 10 {
        push_decimal(out, n / 10);
    }
    let d: u8 = (n % 10) as u8;
    out.push((48 + d) as char);
    proof {
        let ten = n as nat / 10;
        assert(n / 10 == ten);
        if n >= 10 {
            assert(decimal(n as nat) == decimal(ten).push(digit_char((n % 10) as int)));
        }
        assert(out@ =~= old(out)@ + decimal(n as nat));
    }
}

/// A natural number in decimal.
pub fn u64_text(n: u64) -> (r: String)
    ensures
        r@ == decimal(n as nat),
{
    let mut out = String::new();
    push_decimal(&mut out, n);
    assert(out@ =~= decimal(n as nat));
    out
}

/// An index in decimal.
pub fn usize_text(n: usize) -> (r: String)
    ensures
        r@ == decimal(n as nat),
{
    u64_text(n as u64)
}

/// An integer in decimal.
pub fn i64_text(n: i64) -> (r: String)
    ensures
        r@ == int_text(n as int),
{
    let mut out = String::new();
    if n < 0 {
        out.push('-');
        let m: u64 = if n == i64::MIN {
            0x8000_0000_0000_0000
        } else {
            (-n) as u64
        };
        push_decimal(&mut out, m);
        assert(out@ =~= int_text(n as int));
    } else {
        push_decimal(&mut out, n as u64);
        assert(out@ =~= int_text(n as int));
    }
    out
}

/// A decimal rendering is a run of digits with the value it renders.
pub proof fn lemma_decimal_value(n: nat)
    ensures
        all_digits(decimal(n)),
        digits_value(decimal(n)) == n,
    decreases n,
{
    if n < 10 {
        let s = decimal(n);
        assert(s =~= seq![digit_char(n as int)]);
        assert(is_digit(s[0]));
        assert(s.drop_last() =~= Seq::<char>::empty());
        assert(digits_value(s.drop_last()) == 0);
    } else {
        let q = n / 10;
        let d = (n % 10) as int;
        lemma_decimal_value(q);
        lemma_fundamental_div_mod(n as int, 10);
        let s = decimal(n);
        assert(s == decimal(q).push(digit_char(d)));
        assert(s.drop_last() =~= decimal(q));
        assert(is_digit(digit_char(d)));
        assert forall|i: int| 0 <= i < s.len() implies is_digit(#[trigger] s[i]) by {
            if i < decimal(q).len() {
                assert(s[i] == decimal(q)[i]);
            }
        }
    }
}

/// Reading back what was rendered gives the integer again.
pub proof fn law_integer_text_reads_back(n: i64)
    ensures
        parse_int(int_text(n as int)) == Some(n),
{
    let s = int_text(n as int);
    if n < 0 {
        lemma_decimal_value((-n) as nat);
        assert(s[0] == '-');
        assert(s.skip(1) =~= decimal((-n) as nat));
    } else {
        lemma_decimal_value(n as nat);
        assert(is_digit(s[0]));
        assert(unsigned_part(s) == s);
    }
}

/// A run of digits reads in base ten: one more digit makes ten times as much
/// and that digit, as long as it fits. A sign in front gives the same number or
/// its negative.
pub proof fn law_digits_read_in_base_ten(s: Seq<char>, v: i64, c: char)
    requires
        '0' <= c <= '9',
        forall|i: int| 0 <= i < s.len() ==> '0' <= #[trigger] s[i] <= '9',
    ensures
        parse_int(seq![c]) == Some((c as int - '0' as int) as i64),
        s.len() > 0 && parse_int(s) == Some(v) ==> parse_int(s.push(c)) == if 10 * v + (c as int
            - '0' as int) <= i64::MAX {
            Some((10 * v + (c as int - '0' as int)) as i64)
        } else {
            None
        },
        s.len() > 0 && parse_int(s) == Some(v) ==> parse_int(seq!['+'] + s) == Some(v),
        s.len() > 0 && parse_int(s) == Some(v) ==> parse_int(seq!['-'] + s) == Some((-v) as i64),
        s.len() > 0 && parse_int(s) is None ==> parse_int(s.push(c)) is None,
{
    let one = seq![c];
    assert(is_digit(one[0]));
    assert(one.drop_last() =~= Seq::<char>::empty());
    assert(digits_value(one.drop_last()) == 0);
    assert(all_digits(unsigned_part(one)));
    if s.len() > 0 {
        assert(is_digit(s[0]));
        assert(all_digits(s)) by {
            assert forall|i: int| 0 <= i < s.len() implies is_digit(#[trigger] s[i]) by {}
        }
        lemma_digits_value_prefix(s, s.len() as int);
        assert(s.take(s.len() as int) =~= s);
        let more = s.push(c);
        assert(more.drop_last() =~= s);
        assert(more[0] == s[0]);
        assert forall|i: int| 0 <= i < more.len() implies is_digit(#[trigger] more[i]) by {
            if i < s.len() {
                assert(more[i] == s[i]);
            }
        }
        assert(unsigned_part(more) == more);
        assert(digits_value(more) == 10 * digits_value(s) + (c as int - 48));
        assert((seq!['+'] + s).skip(1) =~= s);
        assert((seq!['-'] + s).skip(1) =~= s);
    }
}

/// A text without digits, or with a character that is neither a digit nor a
/// sign in front, spells no integer.
pub proof fn law_other_characters_spell_no_integer(s: Seq<char>, i: int)
    requires
        s.len() == 0 || (s.len() == 1 && (s[0] == '-' || s[0] == '+')) || (0 <= i < s.len() && !(
        '0' <= s[i] <= '9') && !(i == 0 && (s[0] == '-' || s[0] == '+'))),
    ensures
        parse_int(s) is None,
{
    let body = unsigned_part(s);
    if 0 <= i < s.len() && !('0' <= s[i] <= '9') && !(i == 0 && (s[0] == '-' || s[0] == '+')) {
        if body.len() == s.len() {
            assert(body[i] == s[i]);
        } else {
            assert(body[i - 1] == s[i]);
        }
        assert(!all_digits(body));
    }
}

/// An integer is written with a minus sign where it is negative, in digits, and
/// without leading zeros.
pub proof fn law_integers_are_written_without_leading_zeros(n: nat)
    ensures
        decimal(n).len() > 0,
        n > 0 ==> decimal(n)[0] != '0',
        n == 0 ==> decimal(n) == seq!['0'],
        forall|i: int| 0 <= i < decimal(n).len() ==> '0' <= #[trigger] decimal(n)[i] <= '9',
        n > 0 ==> int_text(-(n as int)) == seq!['-'] + decimal(n),
        int_text(n as int) == decimal(n),
    decreases n,
{
    lemma_decimal_value(n);
    assert forall|i: int| 0 <= i < decimal(n).len() implies '0' <= #[trigger] decimal(n)[i]
        <= '9' by {
        assert(is_digit(decimal(n)[i]));
    }
    if n >= 10 {
        law_integers_are_written_without_leading_zeros(n / 10);
        assert(decimal(n)[0] == decimal(n / 10)[0]);
    } else {
        assert(decimal(n) =~= seq![digit_char(n as int)]);
    }
}

} // verus!
