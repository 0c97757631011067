//! Whole numbers in decimal: writing them and reading them back.
use crate::text::chars_of;
use vstd::prelude::*;

verus! {

/// The digit for a number below ten.
pub open spec fn digit_char(d: nat) -> char {
    (('0' as nat) + d) as char
}

pub open spec fn is_digit(c: char) -> bool {
    '0' <= c <= '9'
}

/// A number in decimal, without a sign and without leading zeros.
pub open spec fn decimal(n: nat) -> Seq<char>
    decreases n,
{
    if n < 10 {
        seq![digit_char(n)]
    } else {
        decimal(n / 10).push(digit_char(n % 10))
    }
}

/// A signed number in decimal.
pub open spec fn signed_decimal(n: int) -> Seq<char> {
    if n < 0 {
        seq!['-'] + decimal((-n) as nat)
    } else {
        decimal(n as nat)
    }
}

pub open spec fn all_digits(s: Seq<char>) -> bool {
    forall|i: int| 0 <= i < s.len() ==> is_digit(#[trigger] s[i])
}

/// What a row of digits stands for.
pub open spec fn digits_value(s: Seq<char>) -> nat
    decreases s.len(),
{
    if s.len() == 0 {
        0
    } else {
        digits_value(s.drop_last()) * 10 + (s.last() as nat - '0' as nat) as nat
    }
}

/// The number that a text spells: an optional sign, then one digit or more and nothing else.
pub open spec fn integer_of(s: Seq<char>) -> Option<int> {
    let signed = s.len() > 0 && (s[0] == '-' || s[0] == '+');
    let digits = if signed {
        s.drop_first()
    } else {
        s
    };
    if digits.len() == 0 || !all_digits(digits) {
        None
    } else if signed && s[0] == '-' {
        Some(-(digits_value(digits) as int))
    } else {
        Some(digits_value(digits) as int)
    }
}

/// The `i32` that a text spells, where it spells one.
pub open spec fn i32_of(s: Seq<char>) -> Option<int> {
    match integer_of(s) {
        Some(n) => if i32::MIN <= n <= i32::MAX {
            Some(n)
        } else {
            None
        },
        None => None,
    }
}

/// A number written in decimal is read back as the same number.
pub proof fn law_decimal_reads_back(n: nat)
    ensures
        decimal(n).len() > 0,
        all_digits(decimal(n)),
        digits_value(decimal(n)) == n,
        integer_of(decimal(n)) == Some(n as int),
    decreases n,
{
    reveal_with_fuel(digits_value, 2);
    if n < 10 {
        assert(decimal(n).drop_last() =~= Seq::<char>::empty());
    } else {
        law_decimal_reads_back(n / 10);
        let d = decimal(n / 10);
        assert(d.push(digit_char(n % 10)).drop_last() =~= d);
        assert forall|i: int| 0 <= i < decimal(n).len() implies is_digit(
            #[trigger] decimal(n)[i],
        ) by {
            if i < d.len() {
                assert(decimal(n)[i] == d[i]);
            }
        }
    }
    assert(is_digit(decimal(n)[0]));
}

/// An `i32` written in decimal, sign and all, is read back as the same `i32`.
pub proof fn law_signed_decimal_reads_back(n: i32)
    ensures
        i32_of(signed_decimal(n as int)) == Some(n as int),
{
    if n < 0 {
        law_decimal_reads_back((-n) as nat);
        let s = signed_decimal(n as int);
        assert(s.drop_first() =~= decimal((-n) as nat));
    } else {
        law_decimal_reads_back(n as nat);
    }
}

fn digit_str(d: u64) -> (s: &'static str)
    requires
        d < 10,
    ensures
        s@ == seq![digit_char(d as nat)],
{
    proof {
        reveal_strlit("0");
        reveal_strlit("1");
        reveal_strlit("2");
        reveal_strlit("3");
        reveal_strlit("4");
        reveal_strlit("5");
        reveal_strlit("6");
        reveal_strlit("7");
        reveal_strlit("8");
        reveal_strlit("9");
    }
    let s = match d {
        0 => "0",
        1 => "1",
        2 => "2",
        3 => "3",
        4 => "4",
        5 => "5",
        6 => "6",
        7 => "7",
        8 => "8",
        _ => "9",
    };
    assert(s@ =~= seq![digit_char(d as nat)]);
    s
}

/// Writes a number in decimal.
pub fn u64_to_decimal(n: u64) -> (s: String)
    ensures
        s@ == decimal(n as nat),
    decreases n,
{
    if n < 10 {
        digit_str(n).to_owned()
    } else {
        let mut s = u64_to_decimal(n / 10);
        let ghost front = s@;
        let last = digit_str(n % 10);
        s.append(last);
        assert(s@ =~= front.push(digit_char((n % 10) as nat)));
        s
    }
}

/// Writes an `i32` in decimal.
pub fn i32_to_decimal(n: i32) -> (s: String)
    ensures
        s@ == signed_decimal(n as int),
{
    if n < 0 {
        let size: u64 = (-(n as i64)) as u64;
        let mut s = "-".to_owned();
        let digits = u64_to_decimal(size);
        s.append(digits.as_str());
        proof {
            reveal_strlit("-");
            assert("-"@ =~= seq!['-']);
        }
        s
    } else {
        u64_to_decimal(n as u64)
    }
}

/// Reads an `i32`: what `str::parse` does.
pub fn parse_i32(s: &str) -> (r: Option<i32>)
    ensures
        r is Some == i32_of(s@) is Some,
        r matches Some(n) ==> i32_of(s@) == Some(n as int),
{
    let cs = chars_of(s);
    let signed: bool = cs.len() > 0 && (cs[0] == '-' || cs[0] == '+');
    let negative: bool = signed && cs[0] == '-';
    let from: usize = if signed {
        1
    } else {
        0
    };
    let ghost digits = if signed {
        s@.drop_first()
    } else {
        s@
    };
    if from == cs.len() {
        return None;
    }
    let mut value: i64 = 0;
    let mut big: bool = false;
    assert(digits.take(0) =~= Seq::<char>::empty());
    for i in from..cs.len()
        invariant
            cs@ == s@,
            signed == (s@.len() > 0 && (s@[0] == '-' || s@[0] == '+')),
            digits == (if signed {
                s@.drop_first()
            } else {
                s@
            }),
            from <= 1,
            digits.len() == cs@.len() - from,
            forall|j: int| 0 <= j < digits.len() ==> digits[j] == #[trigger] cs@[j + from],
            forall|j: int| 0 <= j < i - from ==> is_digit(#[trigger] digits[j]),
            0 <= value <= 2147483648,
            !big ==> value == digits_value(digits.take(i - from)),
            big ==> digits_value(digits.take(i - from)) > 2147483648,
    {
        let c = cs[i];
        assert(digits[i - from] == c);
        if c < '0' || c > '9' {
            assert(!is_digit(digits[i - from]));
            return None;
        }
        assert(digits.take(i + 1 - from).drop_last() =~= digits.take(i - from));
        if !big {
            let d: i64 = (c as u32 as i64) - 48;
            value = value * 10 + d;
            if value > 2147483648 {
                big = true;
                value = 0;
            }
        }
    }
    assert(digits.take(digits.len() as int) =~= digits);
    assert(all_digits(digits));
    if big {
        None
    } else if negative {
        Some((-value) as i32)
    } else if value <= 2147483647 {
        Some(value as i32)
    } else {
        None
    }
}

/// A number in decimal is the tenth of it in decimal, where there is one, and its last digit.
pub proof fn law_decimal_digits(n: nat, d: nat, c: char)
    requires
        d < 10,
        c as int == 48 + d,
    ensures
        decimal(d) == seq![c],
        n > 0 ==> decimal(10 * n + d) == decimal(n).push(c),
{
    assert((10 * n + d) / 10 == n);
    assert((10 * n + d) % 10 == d);
}

/// A minus sign stands before the decimal digits of a negative number, and none before others.
pub proof fn law_sign(n: nat)
    ensures
        signed_decimal(n as int) == decimal(n),
        n > 0 ==> signed_decimal(-(n as int)) == seq!['-'] + decimal(n),
{
}

/// A further digit makes a number ten times as large, and adds itself.
pub proof fn law_digits_value(s: Seq<char>, c: char)
    requires
        48 <= c as int <= 57,
    ensures
        digits_value(Seq::empty()) == 0,
        digits_value(s.push(c)) == 10 * digits_value(s) + (c as int - 48),
{
    assert(s.push(c).drop_last() =~= s);
}

/// What is read as an integer is one digit or more, alone or behind one sign, and nothing else. It
/// is an `i32` exactly where it is in range.
pub proof fn law_integers(s: Seq<char>)
    ensures
        s.len() > 0 && (forall|i: int| 0 <= i < s.len() ==> 48 <= (#[trigger] s[i]) as int <= 57) ==> {
            &&& integer_of(s) == Some(digits_value(s) as int)
            &&& integer_of(seq!['+'] + s) == Some(digits_value(s) as int)
            &&& integer_of(seq!['-'] + s) == Some(-(digits_value(s) as int))
        },
        integer_of(s) is Some ==> exists|digits: Seq<char>|
            digits.len() > 0 && (forall|i: int|
                0 <= i < digits.len() ==> 48 <= (#[trigger] digits[i]) as int <= 57) && (s == digits
                || s == #[trigger] (seq!['+'] + digits) || s == seq!['-'] + digits),
        forall|n: int|
            i32_of(s) == Some(n) <==> integer_of(s) == Some(n) && -2147483648 <= n <= 2147483647,
{
    assert((seq!['+'] + s).drop_first() =~= s);
    assert((seq!['-'] + s).drop_first() =~= s);
    if integer_of(s) is Some {
        let signed = s.len() > 0 && (s[0] == '-' || s[0] == '+');
        let digits = if signed {
            s.drop_first()
        } else {
            s
        };
        assert forall|i: int| 0 <= i < digits.len() implies 48 <= (#[trigger] digits[i]) as int
            <= 57 by {
            assert(is_digit(digits[i]));
        }
        if signed {
            assert(s =~= seq![s[0]] + digits);
        }
        let plus = seq!['+'] + digits;
        assert(s == digits || s == plus || s == seq!['-'] + digits);
    }
}

} // verus!
