//! Numbers and characters as text.
use vstd::prelude::*;
use vstd::string::*;

verus! {

/// The character for a digit below sixteen, letters in lower case.
pub open spec fn digit_char(d: int) -> char {
    if d == 0 {
        '0'
    } else if d == 1 {
        '1'
    } else if d == 2 {
        '2'
    } else if d == 3 {
        '3'
    } else if d == 4 {
        '4'
    } else if d == 5 {
        '5'
    } else if d == 6 {
        '6'
    } else if d == 7 {
        '7'
    } else if d == 8 {
        '8'
    } else if d == 9 {
        '9'
    } else if d == 10 {
        'a'
    } else if d == 11 {
        'b'
    } else if d == 12 {
        'c'
    } else if d == 13 {
        'd'
    } else if d == 14 {
        'e'
    } else {
        'f'
    }
}

/// `n` in base `base` without leading zeros.
pub open spec fn numeral(n: nat, base: nat) -> Seq<char>
    recommends
        base >= 2,
    decreases n,
{
    if n < base || base < 2 {
        seq![digit_char(n as int)]
    } else {
        proof {
            assert(n / base < n) by (nonlinear_arith)
                requires
                    base >= 2,
                    n >= base,
            ;
        }
        numeral(n / base, base).push(digit_char((n % base) as int))
    }
}

/// `n` in decimal.
pub open spec fn decimal(n: nat) -> Seq<char> {
    numeral(n, 10)
}

/// `n` in decimal, with a minus sign where it is negative.
pub open spec fn signed_decimal(n: int) -> Seq<char> {
    if n < 0 {
        seq!['-'] + decimal((-n) as nat)
    } else {
        decimal(n as nat)
    }
}

fn push_digit(s: &mut String, d: u64)
    requires
        d < 16,
    ensures
        final(s)@ == old(s)@.push(digit_char(d as int)),
{
    let t: &str = match d {
        0 => "0",
        1 => "1",
        2 => "2",
        3 => "3",
        4 => "4",
        5 => "5",
        6 => "6",
        7 => "7",
        8 => "8",
        9 => "9",
        10 => "a",
        11 => "b",
        12 => "c",
        13 => "d",
        14 => "e",
        _ => "f",
    };
    proof {
        reveal_strlit("0");
        reveal_strlit("1");
        reveal_strlit("2");
        reveal_strlit("3");
        reveal_strlit("4");
        reveal_strlit("5");
        reveal_strlit("6");
        reveal_strlit("7");
        reveal_strlit("8");
        reveal_strlit("9");
        reveal_strlit("a");
        reveal_strlit("b");
        reveal_strlit("c");
        reveal_strlit("d");
        reveal_strlit("e");
        reveal_strlit("f");
    }
    assert(t@ =~= seq![digit_char(d as int)]);
    s.append(t);
    assert(s@ =~= old(s)@.push(digit_char(d as int)));
}

fn push_numeral(s: &mut String, n: u64, base: u64)
    requires
        2 <= base <= 16,
    ensures
        final(s)@ == old(s)@ + numeral(n as nat, base as nat),
    decreases n,
{
    if n >= base {
        proof {
            assert(n / base < n) by (nonlinear_arith)
                requires
                    base >= 2,
                    n >= base,
            ;
        }
        push_numeral(s, n / base, base);
        push_digit(s, n % base);
        assert(s@ =~= old(s)@ + numeral(n as nat, base as nat));
    } else {
        push_digit(s, n);
        assert(s@ =~= old(s)@ + numeral(n as nat, base as nat));
    }
}

/// Appends `n` in decimal.
pub fn push_decimal(s: &mut String, n: u64)
    ensures
        final(s)@ == old(s)@ + decimal(n as nat),
{
    push_numeral(s, n, 10);
}

/// Appends `n` in hexadecimal, lower case, without prefix.
pub fn push_hex(s: &mut String, n: u64)
    ensures
        final(s)@ == old(s)@ + numeral(n as nat, 16),
{
    push_numeral(s, n, 16);
}

/// Appends `n` in decimal, with a minus sign where it is negative.
pub fn push_signed(s: &mut String, n: i64)
    ensures
        final(s)@ == old(s)@ + signed_decimal(n as int),
{
    if n < 0 {
        s.append("-");
        proof {
            reveal_strlit("-");
        }
        assert("-"@ =~= seq!['-']);
        let m: u64 = (-(n as i128)) as u64;
        push_decimal(s, m);
        assert(s@ =~= old(s)@ + signed_decimal(n as int));
    } else {
        push_decimal(s, n as u64);
    }
}

/// The characters of `s`.
pub fn chars_of(s: &str) -> (r: Vec<char>)
    ensures
        r@ == s@,
{
    let mut out: Vec<char> = Vec::new();
    let it = s.chars();
    for c in iter: it
        invariant
            out@ =~= iter.seq().take(iter.index()),
            iter.seq() == s@,
    {
        out.push(c);
    }
    out
}

// Reading numbers

/// The number that a digit stands for.
pub open spec fn digit(c: char) -> int {
    if '0' <= c && c <= '9' {
        c as u32 - '0' as u32
    } else {
        c as u32 - 'a' as u32 + 10
    }
}

/// The number that digits stand for.
pub open spec fn number_read(s: Seq<char>, base: int) -> int
    decreases s.len(),
{
    if s.len() == 0 {
        0
    } else {
        number_read(s.drop_last(), base) * base + digit(s.last())
    }
}

/// A number reads back from its digits in base ten or sixteen, of which the first is no zero
/// unless it is the only one.
pub proof fn numbers_read_back(n: nat, base: nat)
    requires
        2 <= base <= 16,
    ensures
        number_read(numeral(n, base), base as int) == n,
        numeral(n, base).len() > 0,
        numeral(n, base)[0] == '0' ==> numeral(n, base).len() == 1,
    decreases n,
{
    reveal_with_fuel(number_read, 2);
    if n < base {
        let s = numeral(n, base);
        assert(s.drop_last() =~= Seq::empty());
        assert(digit(digit_char(n as int)) == n);
    } else {
        let s = numeral(n, base);
        assert(n / base < n && n / base > 0 && 0 <= n % base < base && n == (n / base) * base + n
            % base) by (nonlinear_arith)
            requires
                base >= 2,
                n >= base,
        ;
        numbers_read_back(n / base, base);
        assert(s.drop_last() =~= numeral(n / base, base));
        assert(digit(digit_char((n % base) as int)) == n % base);
        assert(s[0] == numeral(n / base, base)[0]);
        if numeral(n / base, base)[0] == '0' {
            assert(numeral(n / base, base).len() == 1);
            assert(number_read(numeral(n / base, base), base as int) == 0) by {
                let z = numeral(n / base, base);
                assert(z.drop_last() =~= Seq::empty());
                assert(z.last() == '0');
            }
        }
    }
}

} // verus!
